//! Where an image reference written in the content points: a URL, a file of the
//! media folder (`media#name`) or a symbol of the icon sprite (`icomoon#name`).
use vstd::prelude::*;

use crate::text::{chars_of, has_prefix, push_range, push_str, starts_with_chars, strip_leading, trim_range, trim_spec};

verus! {

/// A picture to show: an image URL or an icon of the sprite sheet.
pub enum VisualSource {
    Image(String),
    Icomoon(String),
}

/// A resolved picture, as a flag (`true` for an icon) and its URL.
pub open spec fn visual_view(v: VisualSource) -> (bool, Seq<char>) {
    match v {
        VisualSource::Image(s) => (false, s@),
        VisualSource::Icomoon(s) => (true, s@),
    }
}

/// `raw` starts with an explicit location: `http://`, `https://` or `/`.
pub open spec fn is_direct_url(raw: Seq<char>) -> bool {
    has_prefix(raw, "http://"@) || has_prefix(raw, "https://"@) || has_prefix(raw, "/"@)
}

/// The picture a header or technology visual refers to: nothing for a blank
/// reference; a direct URL as it is; `media#f` as `/public/media/f`; `icomoon#n` as
/// the sprite symbol `ico-n`; any other name as a file of the media folder.
pub open spec fn visual_spec(raw: Seq<char>) -> Option<(bool, Seq<char>)> {
    if trim_spec(raw).len() == 0 {
        None
    } else if is_direct_url(raw) {
        Some((false, raw))
    } else if has_prefix(raw, "media#"@) {
        Some((false, "/public/media/"@ + raw.skip(6)))
    } else if has_prefix(raw, "icomoon#"@) {
        Some((true, "/assets/icon/symbol-defs.svg#ico-"@ + raw.skip(8)))
    } else {
        Some((false, "/public/media/"@ + strip_leading(raw, '/')))
    }
}

/// The image a project or blog post refers to: like a visual, without icons and with
/// other names taken as they are.
pub open spec fn media_image_spec(raw: Seq<char>) -> Option<Seq<char>> {
    if trim_spec(raw).len() == 0 {
        None
    } else if is_direct_url(raw) {
        Some(raw)
    } else if has_prefix(raw, "media#"@) {
        Some("/public/media/"@ + raw.skip(6))
    } else {
        Some("/public/media/"@ + raw)
    }
}

pub fn is_direct_url_chars(v: &Vec<char>) -> (r: bool)
    ensures
        r == is_direct_url(v@),
{
    starts_with_chars(v, &chars_of("http://")) || starts_with_chars(v, &chars_of("https://"))
        || starts_with_chars(v, &chars_of("/"))
}

fn prefixed(prefix: &str, v: &Vec<char>, from: usize) -> (s: String)
    requires
        from <= v.len(),
    ensures
        s@ == prefix@ + v@.skip(from as int),
{
    let mut out = String::new();
    push_str(&mut out, prefix);
    push_range(&mut out, v, from, v.len());
    assert(v@.subrange(from as int, v@.len() as int) =~= v@.skip(from as int));
    out
}

fn is_blank(v: &Vec<char>) -> (r: bool)
    ensures
        r == (trim_spec(v@).len() == 0),
{
    let (a, b) = trim_range(v, 0, v.len());
    assert(v@.subrange(0, v@.len() as int) =~= v@);
    a == b
}

/// Resolves a visual reference.
pub fn resolve_visual(raw: &str) -> (r: Option<VisualSource>)
    ensures
        match r {
            Some(v) => visual_spec(raw@) == Some(visual_view(v)),
            None => visual_spec(raw@) is None,
        },
{
    proof {
        reveal_strlit("media#");
        reveal_strlit("icomoon#");
    }
    let v = chars_of(raw);
    if is_blank(&v) {
        return None;
    }
    if is_direct_url_chars(&v) {
        return Some(VisualSource::Image(String::from_str(raw)));
    }
    if starts_with_chars(&v, &chars_of("media#")) {
        return Some(VisualSource::Image(prefixed("/public/media/", &v, 6)));
    }
    if starts_with_chars(&v, &chars_of("icomoon#")) {
        return Some(VisualSource::Icomoon(prefixed("/assets/icon/symbol-defs.svg#ico-", &v, 8)));
    }
    let mut i: usize = 0;
    assert(v@.skip(0) =~= v@);
    while i < v.len() && v[i] == '/'
        invariant
            i <= v.len(),
            strip_leading(v@, '/') == strip_leading(v@.skip(i as int), '/'),
        decreases v.len() - i,
    {
        assert(v@.skip(i as int).drop_first() =~= v@.skip(i + 1));
        i = i + 1;
    }
    Some(VisualSource::Image(prefixed("/public/media/", &v, i)))
}

/// Resolves a project or blog image reference.
pub fn resolve_media_image(raw: &str) -> (r: Option<String>)
    ensures
        match r {
            Some(s) => media_image_spec(raw@) == Some(s@),
            None => media_image_spec(raw@) is None,
        },
{
    proof {
        reveal_strlit("media#");
    }
    let v = chars_of(raw);
    if is_blank(&v) {
        return None;
    }
    if is_direct_url_chars(&v) {
        return Some(String::from_str(raw));
    }
    if starts_with_chars(&v, &chars_of("media#")) {
        return Some(prefixed("/public/media/", &v, 6));
    }
    assert(v@.skip(0) =~= v@);
    Some(prefixed("/public/media/", &v, 0))
}

} // verus!
