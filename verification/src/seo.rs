//! SEO metadata: canonical URLs, preview images and the JSON-LD description of the
//! site's owner.
use vstd::prelude::*;

use crate::pages::home::{opt_view, HomeData};
use crate::text::{chars_of, has_prefix, join_with, push_char, push_range, push_str, strip_leading};

verus! {

pub open spec fn site_url() -> Seq<char> {
    "https://maxleriche.net"@
}

/// The canonical URL of a site path: the site root for `` and `/`, otherwise the
/// path without its leading slashes under the site root.
pub open spec fn canonical_url_spec(path: Seq<char>) -> Seq<char> {
    if path.len() == 0 || path == "/"@ {
        site_url()
    } else {
        site_url() + "/"@ + strip_leading(path, '/')
    }
}

/// The path with its leading slashes removed, as a range of `v`.
fn leading_slashes_end(v: &Vec<char>) -> (start: usize)
    ensures
        start <= v.len(),
        v@.subrange(start as int, v@.len() as int) == strip_leading(v@, '/'),
{
    let mut i: usize = 0;
    assert(v@.skip(0) =~= v@);
    while i < v.len() && v[i] == '/'
        invariant
            i <= v.len(),
            strip_leading(v@, '/') == strip_leading(v@.skip(i as int), '/'),
        decreases v.len() - i,
    {
        assert(v@.skip(i as int).drop_first() =~= v@.skip(i + 1));
        i = i + 1;
    }
    assert(v@.subrange(i as int, v@.len() as int) =~= v@.skip(i as int));
    i
}

fn is_root_path(v: &Vec<char>) -> (r: bool)
    ensures
        r == (v@.len() == 0 || v@ == "/"@),
{
    proof {
        reveal_strlit("/");
    }
    if v.len() == 0 {
        return true;
    }
    if v.len() == 1 && v[0] == '/' {
        assert(v@ =~= "/"@);
        return true;
    }
    assert(v@.len() != 1 || v@[0] != "/"@[0]);
    false
}

/// The canonical URL of a page of the site.
pub fn canonical_url(path: &str) -> (url: String)
    ensures
        url@ == canonical_url_spec(path@),
{
    let v = chars_of(path);
    let mut out = String::new();
    push_str(&mut out, "https://maxleriche.net");
    if is_root_path(&v) {
        return out;
    }
    push_str(&mut out, "/");
    let start = leading_slashes_end(&v);
    push_range(&mut out, &v, start, v.len());
    out
}

/// Every `/` replaced by `_`.
pub open spec fn slashes_to_underscores(s: Seq<char>) -> Seq<char> {
    s.map_values(|c: char| if c == '/' { '_' } else { c })
}

/// The preview image of a page: `home` for the root, otherwise the path without its
/// leading slashes and with `/` turned into `_`.
pub open spec fn og_minia_url_spec(path: Seq<char>) -> Seq<char> {
    let name = if path.len() == 0 || path == "/"@ {
        "home"@
    } else {
        slashes_to_underscores(strip_leading(path, '/'))
    };
    site_url() + "/public/minia/"@ + name + ".webp"@
}

/// The URL of the preview image generated for a page.
pub fn og_minia_url(path: &str) -> (url: String)
    ensures
        url@ == og_minia_url_spec(path@),
{
    let v = chars_of(path);
    let mut out = String::new();
    push_str(&mut out, "https://maxleriche.net/public/minia/");
    proof {
        reveal_strlit("https://maxleriche.net/public/minia/");
        reveal_strlit("https://maxleriche.net");
        reveal_strlit("/public/minia/");
    }
    assert("https://maxleriche.net/public/minia/"@ =~= site_url() + "/public/minia/"@);
    if is_root_path(&v) {
        push_str(&mut out, "home");
    } else {
        let start = leading_slashes_end(&v);
        let ghost base = out@;
        let mut i = start;
        while i < v.len()
            invariant
                start <= i <= v.len(),
                out@ == base + slashes_to_underscores(v@.subrange(start as int, i as int)),
            decreases v.len() - i,
        {
            if v[i] == '/' {
                push_char(&mut out, '_');
            } else {
                push_char(&mut out, v[i]);
            }
            assert(slashes_to_underscores(v@.subrange(start as int, i + 1)) =~= slashes_to_underscores(
                v@.subrange(start as int, i as int),
            ).push(if v[i as int] == '/' { '_' } else { v[i as int] }));
            i = i + 1;
        }
    }
    push_str(&mut out, ".webp");
    out
}

// ───────────────────────────── JSON-LD ─────────────────────────────

pub open spec fn hex_digit(d: nat) -> char {
    if d < 10 {
        crate::text::digit_char(d)
    } else if d == 10 {
        'a'
    } else if d == 11 {
        'b'
    } else if d == 12 {
        'c'
    } else if d == 13 {
        'd'
    } else if d == 14 {
        'e'
    } else {
        'f'
    }
}

/// How `serde_json` writes one character inside a string literal.
pub open spec fn json_escape_char(c: char) -> Seq<char> {
    if c == '"' {
        seq!['\\', '"']
    } else if c == '\\' {
        seq!['\\', '\\']
    } else if c == '\u{8}' {
        seq!['\\', 'b']
    } else if c == '\t' {
        seq!['\\', 't']
    } else if c == '\n' {
        seq!['\\', 'n']
    } else if c == '\u{c}' {
        seq!['\\', 'f']
    } else if c == '\r' {
        seq!['\\', 'r']
    } else if (c as u32) < 0x20 {
        seq!['\\', 'u', '0', '0', hex_digit(((c as u32) / 16) as nat), hex_digit(((c as u32) % 16) as nat)]
    } else {
        seq![c]
    }
}

pub open spec fn json_escape(s: Seq<char>) -> Seq<char>
    decreases s.len(),
{
    if s.len() == 0 {
        Seq::<char>::empty()
    } else {
        json_escape(s.drop_last()) + json_escape_char(s.last())
    }
}

/// A string written as a JSON string literal.
pub open spec fn json_quoted(s: Seq<char>) -> Seq<char> {
    seq!['"'] + json_escape(s) + seq!['"']
}

/// Trusted: `serde_json::to_string` on a `str`. Its serializer writes the string
/// between double quotes, escaping `"` and `\` with a backslash, the control
/// characters 8, 9, 10, 12 and 13 as `\b \t \n \f \r`, the other characters below
/// 0x20 as `\u00xx` with lowercase hex digits, and every other character as itself
/// (`format_escaped_str` and the `ESCAPE` table in `ser.rs`). Serializing a `str`
/// into the in-memory buffer cannot fail.
#[verifier::external_body]
fn json_string(s: &str) -> (r: String)
    ensures
        r@ == json_quoted(s@),
{
    match serde_json::to_string(s) {
        Ok(v) => v,
        Err(_) => String::new(),
    }
}

/// A JSON array of strings, written compactly.
pub open spec fn json_string_array(items: Seq<Seq<char>>) -> Seq<char> {
    "["@ + join_with(items.map_values(|s: Seq<char>| json_quoted(s)), ","@) + "]"@
}

/// The description shown in the person record: the English one when there is one.
pub open spec fn person_description(d: HomeData) -> Seq<char> {
    match d.short_description_en {
        Some(s) => s@,
        None => d.short_description@,
    }
}

/// An optional `"key":value,` member.
pub open spec fn optional_member(key: Seq<char>, value: Option<Seq<char>>) -> Seq<char> {
    match value {
        Some(v) => "\""@ + key + "\":"@ + json_quoted(v) + ","@,
        None => Seq::<char>::empty(),
    }
}

/// The schema.org `Person` record of the site's owner, as compact JSON with its
/// members in key order (the order of `serde_json`'s map).
pub open spec fn person_json_ld(d: HomeData) -> Seq<char> {
    "{\"@context\":\"https://schema.org\",\"@type\":\"Person\","@ + match opt_view(
        d.contact_location,
    ) {
        Some(loc) => "\"address\":{\"@type\":\"PostalAddress\",\"addressLocality\":"@
            + json_quoted(loc) + "},"@,
        None => Seq::<char>::empty(),
    } + "\"description\":"@ + json_quoted(person_description(d)) + ","@ + optional_member(
        "email"@,
        opt_view(d.contact_email),
    ) + optional_member("jobTitle"@, opt_view(d.current_work)) + "\"name\":"@ + json_quoted(
        d.name@,
    ) + ",\"sameAs\":"@ + json_string_array(
        d.url@.map_values(|l: crate::pages::home::SocialLinkData| l.url@),
    ) + ",\"url\":\"https://maxleriche.net\"}"@
}

fn push_optional_member(out: &mut String, key: &str, value: &Option<String>)
    ensures
        final(out)@ == old(out)@ + optional_member(key@, opt_view(*value)),
{
    match value {
        Some(v) => {
            push_str(out, "\"");
            push_str(out, key);
            push_str(out, "\":");
            let q = json_string(v.as_str());
            push_str(out, q.as_str());
            push_str(out, ",");
        },
        None => {},
    }
    assert(final(out)@ =~= old(out)@ + optional_member(key@, opt_view(*value)));
}

/// The JSON-LD `Person` record embedded in the home page.
pub fn build_person_json_ld(data: &HomeData) -> (json: String)
    ensures
        json@ == person_json_ld(*data),
{
    let mut out = String::new();
    push_str(&mut out, "{\"@context\":\"https://schema.org\",\"@type\":\"Person\",");
    match &data.contact_location {
        Some(loc) => {
            push_str(&mut out, "\"address\":{\"@type\":\"PostalAddress\",\"addressLocality\":");
            let q = json_string(loc.as_str());
            push_str(&mut out, q.as_str());
            push_str(&mut out, "},");
        },
        None => {},
    }
    push_str(&mut out, "\"description\":");
    let description = match &data.short_description_en {
        Some(s) => s,
        None => &data.short_description,
    };
    let q = json_string(description.as_str());
    push_str(&mut out, q.as_str());
    push_str(&mut out, ",");
    push_optional_member(&mut out, "email", &data.contact_email);
    push_optional_member(&mut out, "jobTitle", &data.current_work);
    push_str(&mut out, "\"name\":");
    let q = json_string(data.name.as_str());
    push_str(&mut out, q.as_str());
    push_str(&mut out, ",\"sameAs\":[");
    let ghost urls = data.url@.map_values(|l: crate::pages::home::SocialLinkData| l.url@);
    let ghost quoted = urls.map_values(|s: Seq<char>| json_quoted(s));
    let ghost before = out@;
    proof {
        reveal_strlit(",");
    }
    let mut i: usize = 0;
    while i < data.url.len()
        invariant
            i <= data.url.len(),
            urls == data.url@.map_values(|l: crate::pages::home::SocialLinkData| l.url@),
            quoted == urls.map_values(|s: Seq<char>| json_quoted(s)),
            out@ == before + join_with(quoted.take(i as int), ","@),
        decreases data.url.len() - i,
    {
        if i > 0 {
            push_str(&mut out, ",");
        }
        let q = json_string(data.url[i].url.as_str());
        push_str(&mut out, q.as_str());
        assert(quoted.take(i + 1).drop_last() =~= quoted.take(i as int));
        assert(quoted.take(i + 1).last() == json_quoted(data.url@[i as int].url@));
        if i == 0 {
            assert(quoted.take(1) =~= seq![json_quoted(data.url@[0].url@)]);
        }
        assert(out@ =~= before + join_with(quoted.take(i + 1), ","@));
        i = i + 1;
    }
    assert(quoted.take(i as int) =~= quoted);
    push_str(&mut out, "],\"url\":\"https://maxleriche.net\"}");
    proof {
        reveal_strlit("[");
        reveal_strlit("]");
        reveal_strlit(",\"sameAs\":[");
        reveal_strlit(",\"sameAs\":");
        reveal_strlit("],\"url\":\"https://maxleriche.net\"}");
        reveal_strlit(",\"url\":\"https://maxleriche.net\"}");
    }
    assert(out@ =~= person_json_ld(*data));
    out
}

/// The metadata of a fixed page: its title and description, the canonical URL
/// (also its `og:url`) and the preview image (`og:image`, `twitter:image`).
pub struct PageSeo {
    pub title: String,
    pub description: String,
    pub canonical: String,
    pub image: String,
}

/// The metadata a fixed page puts in its head.
pub fn static_page_seo(title: &str, description: &str, path: &str) -> (seo: PageSeo)
    ensures
        seo.title@ == title@,
        seo.description@ == description@,
        seo.canonical@ == canonical_url_spec(path@),
        seo.image@ == og_minia_url_spec(path@),
{
    PageSeo {
        title: String::from_str(title),
        description: String::from_str(description),
        canonical: canonical_url(path),
        image: og_minia_url(path),
    }
}

} // verus!
