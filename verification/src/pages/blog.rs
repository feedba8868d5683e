//! The blog index: published posts newest first, their images and reading times.
use vstd::prelude::*;

use crate::i18n::Language;
use crate::listing::{newest_first, newest_first_spec, Dated};
use crate::media::{media_image_spec, resolve_media_image};
use crate::text::{chars_of, decimal, push_decimal, push_str};

verus! {

/// A blog post as the blog index lists it.
pub struct BlogEntryData {
    pub title: String,
    pub description: String,
    pub handle: String,
    pub date: String,
    pub tags: Vec<String>,
    pub image: String,
    pub reading_time_minutes: usize,
    pub draft: bool,
}

impl Dated for BlogEntryData {
    open spec fn date_key(&self) -> Seq<char> {
        self.date@
    }

    fn date_chars(&self) -> (r: Vec<char>) {
        chars_of(self.date.as_str())
    }
}

/// The posts that are not drafts, in their order.
pub open spec fn published(s: Seq<BlogEntryData>) -> Seq<BlogEntryData>
    decreases s.len(),
{
    if s.len() == 0 {
        s
    } else if s.last().draft {
        published(s.drop_last())
    } else {
        published(s.drop_last()).push(s.last())
    }
}

/// The posts the blog index shows: drafts left out, newest first, posts of the
/// same date in their original order.
pub fn visible_blog_entries(entries: Vec<BlogEntryData>) -> (shown: Vec<BlogEntryData>)
    ensures
        shown@ == newest_first_spec(published(entries@)),
{
    let ghost all = entries@;
    let total: usize = entries.len();
    let mut rest = entries;
    let mut kept: Vec<BlogEntryData> = Vec::new();
    let mut taken: usize = 0;
    while rest.len() > 0
        invariant
            taken + rest@.len() == all.len(),
            all.len() == total,
            rest@ == all.skip(taken as int),
            kept@ == published(all.take(taken as int)),
        decreases rest.len(),
    {
        let e = rest.remove(0);
        assert(all.take(taken + 1).drop_last() =~= all.take(taken as int));
        assert(all.take(taken + 1).last() == e);
        if !e.draft {
            kept.push(e);
        }
        assert(rest@ =~= all.skip(taken + 1));
        taken = taken + 1;
    }
    assert(all.take(taken as int) =~= all);
    newest_first(kept)
}

/// Resolves the image of a blog post.
pub fn resolve_blog_image(raw: &str) -> (r: Option<String>)
    ensures
        match r {
            Some(s) => media_image_spec(raw@) == Some(s@),
            None => media_image_spec(raw@) is None,
        },
{
    resolve_media_image(raw)
}

/// The words after the number of minutes.
pub open spec fn reading_time_label(lang: Language) -> Seq<char> {
    match lang {
        Language::Fr => "min de lecture"@,
        Language::En => "min read"@,
    }
}

/// The reading time of a post, as the blog index writes it.
pub fn reading_time_text(minutes: usize, lang: Language) -> (text: String)
    ensures
        text@ == decimal(minutes as nat) + " "@ + reading_time_label(lang),
{
    let mut text = String::new();
    push_decimal(&mut text, minutes as u64);
    push_str(&mut text, " ");
    match lang {
        Language::Fr => push_str(&mut text, "min de lecture"),
        Language::En => push_str(&mut text, "min read"),
    }
    text
}

/// The blog index never shows a draft.
pub proof fn lemma_no_draft_shown(entries: Seq<BlogEntryData>)
    ensures
        forall|i: int|
            0 <= i < newest_first_spec(published(entries)).len() ==> !(
            #[trigger] newest_first_spec(published(entries))[i]).draft,
{
    broadcast use vstd::seq_lib::group_to_multiset_ensures;

    let p = published(entries);
    let nf = newest_first_spec(p);
    lemma_published_not_draft(entries);
    crate::listing::lemma_newest_first_permutes(p);
    assert forall|i: int| 0 <= i < nf.len() implies !(#[trigger] nf[i]).draft by {
        assert(nf.contains(nf[i]));
        assert(nf.to_multiset().count(nf[i]) > 0);
        assert(p.contains(nf[i]));
        let j = choose|j: int| 0 <= j < p.len() && p[j] == nf[i];
        assert(!p[j].draft);
    }
}

proof fn lemma_published_not_draft(s: Seq<BlogEntryData>)
    ensures
        forall|i: int| 0 <= i < published(s).len() ==> !(#[trigger] published(s)[i]).draft,
    decreases s.len(),
{
    if s.len() > 0 {
        let d = s.drop_last();
        lemma_published_not_draft(d);
        assert forall|i: int| 0 <= i < published(s).len() implies !(#[trigger] published(s)[i]).draft by {
            if i < published(d).len() {
                assert(published(s)[i] == published(d)[i]);
            }
        }
    }
}

} // verus!
