//! What the home, about and contact pages show of the site's owner: texts in the
//! visitor's language, paragraphs, the CV link, link icons, the career timeline and
//! the contact card.
use vstd::prelude::*;

use crate::i18n::Language;
use crate::listing::{by_rank_spec, sort_by_rank, Ranked};
use crate::pages::home::{opt_view, HistoryEntryData, HomeData, SocialLinkData};
use crate::pages::technologies::strs;
use crate::text::{
    chars_of, decimal, push_decimal, push_str, has_prefix, split_char, split_ranges, starts_with_chars, str_eq, string_of_range,
    trim_range, trim_spec,
};

verus! {

// ───────────────────────────── texts in the visitor's language ─────────────────────────────

/// The French text, or for English the English text when there is one.
pub open spec fn localized_spec(fr: Seq<char>, en: Option<Seq<char>>, lang: Language) -> Seq<char> {
    match lang {
        Language::Fr => fr,
        Language::En => match en {
            Some(t) => t,
            None => fr,
        },
    }
}

/// A text in the visitor's language, falling back to French.
pub fn localized_text(fr: &String, en: &Option<String>, lang: Language) -> (text: String)
    ensures
        text@ == localized_spec(fr@, opt_view(*en), lang),
{
    match lang {
        Language::Fr => fr.clone(),
        Language::En => match en {
            Some(t) => t.clone(),
            None => fr.clone(),
        },
    }
}

/// The French list, or for English the English list when there is one.
pub open spec fn localized_list_spec(
    fr: Seq<Seq<char>>,
    en: Option<Seq<Seq<char>>>,
    lang: Language,
) -> Seq<Seq<char>> {
    match lang {
        Language::Fr => fr,
        Language::En => match en {
            Some(t) => t,
            None => fr,
        },
    }
}

/// The view of an optional list of strings.
pub open spec fn opt_strs(o: Option<Vec<String>>) -> Option<Seq<Seq<char>>> {
    match o {
        Some(v) => Some(strs(v@)),
        None => None,
    }
}

/// The cover titles of the hero in the visitor's language, falling back to French.
pub fn cover_titles(data: &HomeData, lang: Language) -> (titles: Vec<String>)
    ensures
        strs(titles@) == localized_list_spec(strs(data.cover_title@), opt_strs(data.cover_title_en), lang),
{
    match lang {
        Language::Fr => crate::pages::home::copy_strings(&data.cover_title),
        Language::En => match &data.cover_title_en {
            Some(t) => crate::pages::home::copy_strings(t),
            None => crate::pages::home::copy_strings(&data.cover_title),
        },
    }
}

/// The style of title `i` of a ticker of `n` titles: each title shows three
/// seconds after the one before, in a loop as long as all of them.
pub open spec fn ticker_style_spec(i: nat, n: nat) -> Seq<char> {
    "animation-delay:"@ + decimal(3 * i) + "s;animation-duration:"@ + decimal(3 * n) + "s"@
}

/// What the hero's title ticker shows.
pub enum Ticker {
    /// No title: a single `…`.
    Placeholder,
    /// Each title with its animation style, in order.
    Titles(Vec<(String, String)>),
}

/// The hero's title ticker for the given titles.
pub fn hero_ticker(titles: &Vec<String>) -> (ticker: Ticker)
    requires
        3 * titles@.len() <= usize::MAX,
    ensures
        titles@.len() == 0 <==> ticker is Placeholder,
        ticker matches Ticker::Titles(items) ==> {
            &&& items@.len() == titles@.len()
            &&& forall|i: int|
                0 <= i < items@.len() ==> (#[trigger] items@[i]).0@ == titles@[i]@ && items@[i].1@
                    == ticker_style_spec(i as nat, titles@.len())
        },
{
    let n = titles.len();
    if n == 0 {
        return Ticker::Placeholder;
    }
    let total = n * 3;
    let mut items: Vec<(String, String)> = Vec::new();
    let mut i: usize = 0;
    while i < n
        invariant
            i <= n == titles@.len(),
            total == 3 * n,
            3 * n <= usize::MAX,
            items@.len() == i,
            forall|k: int|
                0 <= k < i ==> (#[trigger] items@[k]).0@ == titles@[k]@ && items@[k].1@
                    == ticker_style_spec(k as nat, n as nat),
        decreases n - i,
    {
        let mut style = String::new();
        push_str(&mut style, "animation-delay:");
        push_decimal(&mut style, (i * 3) as u64);
        push_str(&mut style, "s;animation-duration:");
        push_decimal(&mut style, total as u64);
        push_str(&mut style, "s");
        assert(style@ =~= ticker_style_spec(i as nat, n as nat));
        items.push((titles[i].clone(), style));
        i = i + 1;
    }
    Ticker::Titles(items)
}

/// The text shown when the ticker has no title.
pub fn ticker_placeholder() -> (text: &'static str)
    ensures
        text@ == "…"@,
{
    "…"
}

/// The title of a timeline entry in the visitor's language.
pub fn entry_title(entry: &HistoryEntryData, lang: Language) -> (title: String)
    ensures
        title@ == localized_spec(entry.title@, opt_view(entry.title_en), lang),
{
    localized_text(&entry.title, &entry.title_en, lang)
}

/// The description of a timeline entry in the visitor's language.
pub fn entry_description(entry: &HistoryEntryData, lang: Language) -> (description: String)
    ensures
        description@ == localized_spec(entry.description@, opt_view(entry.description_en), lang),
{
    localized_text(&entry.description, &entry.description_en, lang)
}

// ───────────────────────────── paragraphs ─────────────────────────────

/// A line without the carriage return that ended it.
pub open spec fn strip_cr(s: Seq<char>) -> Seq<char> {
    if s.len() > 0 && s.last() == '\r' {
        s.drop_last()
    } else {
        s
    }
}

/// The lines of a text (`str::lines`): the pieces between `\n`, every piece that a
/// `\n` ends without its `\r` (a last empty piece is blank and never kept below).
pub open spec fn line_pieces(s: Seq<char>) -> Seq<Seq<char>> {
    let p = split_char(s, '\n');
    Seq::new(
        p.len(),
        |i: int|
            if i < p.len() - 1 {
                strip_cr(p[i])
            } else {
                p[i]
            },
    )
}

/// The lines that are not blank, in order.
pub open spec fn keep_nonblank(lines: Seq<Seq<char>>) -> Seq<Seq<char>>
    decreases lines.len(),
{
    if lines.len() == 0 {
        lines
    } else if trim_spec(lines.last()).len() > 0 {
        keep_nonblank(lines.drop_last()).push(lines.last())
    } else {
        keep_nonblank(lines.drop_last())
    }
}

/// The paragraphs a multi-line text is shown as: its non-blank lines.
pub fn text_paragraphs(text: &str) -> (paragraphs: Vec<String>)
    ensures
        strs(paragraphs@) == keep_nonblank(line_pieces(text@)),
{
    let v = chars_of(text);
    let ranges = split_ranges(&v, 0, v.len(), '\n');
    assert(v@.subrange(0, v@.len() as int) =~= text@);
    let ghost lines = line_pieces(text@);
    let mut out: Vec<String> = Vec::new();
    let mut k: usize = 0;
    while k < ranges.len()
        invariant
            k <= ranges.len(),
            v@ == text@,
            lines == line_pieces(text@),
            ranges.len() == split_char(text@, '\n').len(),
            forall|m: int|
                0 <= m < ranges.len() ==> 0 <= (#[trigger] ranges@[m]).0 <= ranges@[m].1 <= v.len()
                    && v@.subrange(ranges@[m].0 as int, ranges@[m].1 as int) == split_char(
                    text@,
                    '\n',
                )[m],
            strs(out@) == keep_nonblank(lines.take(k as int)),
        decreases ranges.len() - k,
    {
        let (a, b0) = ranges[k];
        let b = if k + 1 < ranges.len() && b0 > a && v[b0 - 1] == '\r' {
            b0 - 1
        } else {
            b0
        };
        assert(v@.subrange(a as int, b as int) == lines[k as int]) by {
            let piece = split_char(text@, '\n')[k as int];
            if k + 1 < ranges.len() && b0 > a && v[b0 - 1] == '\r' {
                assert(piece.last() == v[b0 - 1]);
                assert(v@.subrange(a as int, b as int) =~= piece.drop_last());
            }
        }
        let (ta, tb) = trim_range(&v, a, b);
        assert(lines.take(k + 1).drop_last() =~= lines.take(k as int));
        assert(lines.take(k + 1).last() == lines[k as int]);
        if ta < tb {
            let ghost before = out@;
            let line = string_of_range(&v, a, b);
            out.push(line);
            assert(strs(out@) =~= strs(before).push(lines[k as int]));
        }
        k = k + 1;
    }
    assert(lines.take(k as int) =~= lines);
    out
}

// ───────────────────────────── links and icons ─────────────────────────────

/// `s` with every leading copy of `p` removed (`str::trim_start_matches`).
pub open spec fn strip_leading_copies(s: Seq<char>, p: Seq<char>) -> Seq<char>
    decreases s.len(),
{
    if p.len() > 0 && has_prefix(s, p) {
        strip_leading_copies(s.skip(p.len() as int), p)
    } else {
        s
    }
}

/// Where the CV link leads: a web address as it is, anything else as a file of
/// the media folder, without its `media#` prefixes.
pub open spec fn cv_url_spec(raw: Seq<char>) -> Seq<char> {
    if has_prefix(raw, "http://"@) || has_prefix(raw, "https://"@) {
        raw
    } else {
        "/public/media/"@ + strip_leading_copies(raw, "media#"@)
    }
}

/// Resolves the CV link of the about page.
pub fn resolve_cv_url(raw: &str) -> (url: String)
    ensures
        url@ == cv_url_spec(raw@),
{
    proof {
        reveal_strlit("media#");
    }
    let v = chars_of(raw);
    if starts_with_chars(&v, &chars_of("http://")) || starts_with_chars(&v, &chars_of("https://")) {
        return String::from_str(raw);
    }
    let p = chars_of("media#");
    let mut i: usize = 0;
    assert(v@.skip(0) =~= v@);
    while crate::text::matches_at(&v, i, &p)
        invariant
            i <= v.len(),
            p@ == "media#"@,
            p@.len() == 6,
            strip_leading_copies(v@, p@) == strip_leading_copies(v@.skip(i as int), p@),
        decreases v.len() - i,
    {
        assert(has_prefix(v@.skip(i as int), p@)) by {
            assert(v@.skip(i as int).take(6) =~= v@.subrange(i as int, i + 6));
        }
        assert(p@.len() > 0);
        assert(v@.skip(i as int).skip(6) =~= v@.skip(i + 6));
        i = i + 6;
    }
    assert(!has_prefix(v@.skip(i as int), p@)) by {
        if has_prefix(v@.skip(i as int), p@) {
            assert(v@.skip(i as int).take(6) =~= v@.subrange(i as int, i + 6));
        }
    }
    let mut url = String::from_str("/public/media/");
    crate::text::push_range(&mut url, &v, i, v.len());
    assert(v@.subrange(i as int, v@.len() as int) =~= v@.skip(i as int));
    url
}

/// The icon of a link on the about page.
#[derive(Clone, Copy, Debug, PartialEq, Eq, Structural)]
pub enum AboutLinkIcon {
    Github,
    Linkedin,
    Gitea,
    ExternalLink,
}

/// The icon of a link on the about page, from its `imgUrl`.
pub open spec fn about_link_icon_spec(img_url: Seq<char>) -> AboutLinkIcon {
    if img_url == "ico#github"@ {
        AboutLinkIcon::Github
    } else if img_url == "ico#linkedin2"@ {
        AboutLinkIcon::Linkedin
    } else if img_url == "ico#gitea"@ {
        AboutLinkIcon::Gitea
    } else {
        AboutLinkIcon::ExternalLink
    }
}

/// Picks the icon of a link on the about page.
pub fn about_link_icon(img_url: &str) -> (icon: AboutLinkIcon)
    ensures
        icon == about_link_icon_spec(img_url@),
{
    if str_eq(img_url, "ico#github") {
        AboutLinkIcon::Github
    } else if str_eq(img_url, "ico#linkedin2") {
        AboutLinkIcon::Linkedin
    } else if str_eq(img_url, "ico#gitea") {
        AboutLinkIcon::Gitea
    } else {
        AboutLinkIcon::ExternalLink
    }
}

/// The icon of a social button of the hero.
#[derive(Clone, Copy, Debug, PartialEq, Eq, Structural)]
pub enum HeroLinkIcon {
    Github,
    Linkedin,
    ExternalLink,
}

/// The icon of a social button of the hero, from its `imgUrl`.
pub open spec fn hero_link_icon_spec(img_url: Seq<char>) -> HeroLinkIcon {
    if img_url == "ico#github"@ {
        HeroLinkIcon::Github
    } else if img_url == "ico#linkedin2"@ {
        HeroLinkIcon::Linkedin
    } else {
        HeroLinkIcon::ExternalLink
    }
}

/// Picks the icon of a social button of the hero.
pub fn hero_link_icon(img_url: &str) -> (icon: HeroLinkIcon)
    ensures
        icon == hero_link_icon_spec(img_url@),
{
    if str_eq(img_url, "ico#github") {
        HeroLinkIcon::Github
    } else if str_eq(img_url, "ico#linkedin2") {
        HeroLinkIcon::Linkedin
    } else {
        HeroLinkIcon::ExternalLink
    }
}

/// The icon of a timeline entry.
#[derive(Clone, Copy, Debug, PartialEq, Eq, Structural)]
pub enum TimelineIcon {
    GraduationCap,
    Briefcase,
    Wrench,
    Circle,
}

/// The icon of a timeline entry, from its `icoUrl`.
pub open spec fn timeline_icon_spec(ico: Seq<char>) -> TimelineIcon {
    if ico == "ico#school"@ {
        TimelineIcon::GraduationCap
    } else if ico == "ico#work"@ {
        TimelineIcon::Briefcase
    } else if ico == "ico#handyman"@ {
        TimelineIcon::Wrench
    } else {
        TimelineIcon::Circle
    }
}

/// Picks the icon of a timeline entry.
pub fn timeline_icon_type(ico: &str) -> (icon: TimelineIcon)
    ensures
        icon == timeline_icon_spec(ico@),
{
    if str_eq(ico, "ico#school") {
        TimelineIcon::GraduationCap
    } else if str_eq(ico, "ico#work") {
        TimelineIcon::Briefcase
    } else if str_eq(ico, "ico#handyman") {
        TimelineIcon::Wrench
    } else {
        TimelineIcon::Circle
    }
}

/// What a link holds: name, address, whether it is a main link, and its icon.
pub open spec fn link_view(l: SocialLinkData) -> (Seq<char>, Seq<char>, bool, Seq<char>) {
    (l.name@, l.url@, l.primaire, l.img_url@)
}

/// The main links among `links`, in order.
pub open spec fn primary_links_spec(links: Seq<SocialLinkData>) -> Seq<
    (Seq<char>, Seq<char>, bool, Seq<char>),
>
    decreases links.len(),
{
    if links.len() == 0 {
        Seq::empty()
    } else if links.last().primaire {
        primary_links_spec(links.drop_last()).push(link_view(links.last()))
    } else {
        primary_links_spec(links.drop_last())
    }
}

/// The links the hero shows as buttons: the main ones.
pub fn primary_links(links: &Vec<SocialLinkData>) -> (r: Vec<SocialLinkData>)
    ensures
        r@.map_values(|l: SocialLinkData| link_view(l)) == primary_links_spec(links@),
{
    let mut out: Vec<SocialLinkData> = Vec::new();
    let mut i: usize = 0;
    while i < links.len()
        invariant
            i <= links.len(),
            out@.map_values(|l: SocialLinkData| link_view(l)) == primary_links_spec(
                links@.take(i as int),
            ),
        decreases links.len() - i,
    {
        let l = &links[i];
        assert(links@.take(i + 1).drop_last() =~= links@.take(i as int));
        assert(links@.take(i + 1).last() == *l);
        if l.primaire {
            out.push(
                SocialLinkData {
                    name: l.name.clone(),
                    url: l.url.clone(),
                    primaire: l.primaire,
                    img_url: l.img_url.clone(),
                },
            );
        }
        assert(out@.map_values(|l: SocialLinkData| link_view(l)) =~= primary_links_spec(
            links@.take(i + 1),
        ));
        i = i + 1;
    }
    assert(links@.take(i as int) =~= links@);
    out
}

// ───────────────────────────── the career timeline ─────────────────────────────

impl Ranked for HistoryEntryData {
    open spec fn rank(&self) -> nat {
        self.weight as nat
    }

    fn rank_value(&self) -> (r: u64) {
        self.weight as u64
    }
}

/// The timeline entries in the order the timeline shows them: by increasing
/// weight, entries of the same weight in their original order.
pub fn history_by_weight(entries: Vec<HistoryEntryData>) -> (sorted: Vec<HistoryEntryData>)
    ensures
        sorted@ == by_rank_spec(entries@),
{
    sort_by_rank(entries)
}

/// The timeline shows every entry once, by increasing weight.
pub proof fn lemma_history_by_weight(s: Seq<HistoryEntryData>)
    ensures
        forall|i: int, j: int|
            0 <= i < j < by_rank_spec(s).len() ==> (#[trigger] by_rank_spec(s)[i]).weight
                <= (#[trigger] by_rank_spec(s)[j]).weight,
        by_rank_spec(s).to_multiset() == s.to_multiset(),
{
    crate::listing::lemma_by_rank_sorted(s);
    assert forall|i: int, j: int| 0 <= i < j < by_rank_spec(s).len() implies (
    #[trigger] by_rank_spec(s)[i]).weight <= (#[trigger] by_rank_spec(s)[j]).weight by {
        assert(by_rank_spec(s)[i].rank() <= by_rank_spec(s)[j].rank());
    }
}

// ───────────────────────────── the contact card ─────────────────────────────

/// The contact details a page shows.
pub struct ContactCard {
    pub availability: String,
    pub location: String,
    pub current_work: String,
    pub email: String,
}

/// The value, or the default when there is none.
pub open spec fn or_default(o: Option<Seq<char>>, default: Seq<char>) -> Seq<char> {
    match o {
        Some(v) => v,
        None => default,
    }
}

/// The availability in the visitor's language: for English the English text, or
/// else the French one.
pub open spec fn availability_spec(data: HomeData, lang: Language) -> Option<Seq<char>> {
    match lang {
        Language::Fr => opt_view(data.contact_availability),
        Language::En => match opt_view(data.contact_availability_en) {
            Some(t) => Some(t),
            None => opt_view(data.contact_availability),
        },
    }
}

fn string_or(o: &Option<String>, default: &str) -> (s: String)
    ensures
        s@ == or_default(opt_view(*o), default@),
{
    match o {
        Some(v) => v.clone(),
        None => String::from_str(default),
    }
}

fn availability(data: &HomeData, lang: Language) -> (a: Option<String>)
    ensures
        opt_view(a) == availability_spec(*data, lang),
{
    match lang {
        Language::Fr => data.contact_availability.clone(),
        Language::En => match &data.contact_availability_en {
            Some(t) => Some(t.clone()),
            None => data.contact_availability.clone(),
        },
    }
}

/// The contact details of the about page, with its defaults.
pub fn about_contact_card(data: &HomeData, lang: Language) -> (card: ContactCard)
    ensures
        card.availability@ == or_default(availability_spec(*data, lang), "Open to collaborations"@),
        card.location@ == or_default(opt_view(data.contact_location), "Nouvelle-Aquitaine, France"@),
        card.current_work@ == or_default(opt_view(data.current_work), "Ingénieur plateforme"@),
        card.email@ == or_default(opt_view(data.contact_email), "max@maxleriche.net"@),
{
    let a = availability(data, lang);
    ContactCard {
        availability: string_or(&a, "Open to collaborations"),
        location: string_or(&data.contact_location, "Nouvelle-Aquitaine, France"),
        current_work: string_or(&data.current_work, "Ingénieur plateforme"),
        email: string_or(&data.contact_email, "max@maxleriche.net"),
    }
}

/// The default availability of the contact page.
pub open spec fn contact_availability_default(lang: Language) -> Seq<char> {
    match lang {
        Language::Fr => "Ouvert à des discussions techniques et collaborations"@,
        Language::En => "Open to technical discussions and collaborations"@,
    }
}

/// The contact details of the contact page, with its defaults.
pub fn contact_page_card(data: &HomeData, lang: Language) -> (card: ContactCard)
    ensures
        card.availability@ == or_default(
            availability_spec(*data, lang),
            contact_availability_default(lang),
        ),
        card.location@ == or_default(opt_view(data.contact_location), "Niort, France"@),
        card.current_work@ == or_default(
            opt_view(data.current_work),
            "Ingénieur Socle de fabrication / Couche d'échange"@,
        ),
        card.email@ == or_default(opt_view(data.contact_email), "contact@maxime-leriche.dev"@),
{
    let a = availability(data, lang);
    let default = match lang {
        Language::Fr => "Ouvert à des discussions techniques et collaborations",
        Language::En => "Open to technical discussions and collaborations",
    };
    ContactCard {
        availability: string_or(&a, default),
        location: string_or(&data.contact_location, "Niort, France"),
        current_work: string_or(&data.current_work, "Ingénieur Socle de fabrication / Couche d'échange"),
        email: string_or(&data.contact_email, "contact@maxime-leriche.dev"),
    }
}

/// The `mailto:` link of an address.
pub fn mailto_link(email: &str) -> (link: String)
    ensures
        link@ == "mailto:"@ + email@,
{
    let mut link = String::from_str("mailto:");
    crate::text::push_str(&mut link, email);
    link
}

} // verus!
