//! Human-readable rendering of ISO-like dates.
use vstd::prelude::*;

use crate::i18n::Language;
use crate::text::{
    chars_of, decimal, parse_unsigned, parse_unsigned_range, push_decimal, push_range, push_str,
    split_char, before_char, split_ranges, string_of_range, trim_range, trim_spec, lemma_split_nonempty,
};

verus! {

/// The name of month `m` (1 to 12) in the given language.
pub open spec fn month_name(lang: Language, m: nat) -> Seq<char> {
    match lang {
        Language::Fr => if m == 1 { "janvier"@ } else if m == 2 { "fevrier"@ } else if m == 3 {
            "mars"@
        } else if m == 4 { "avril"@ } else if m == 5 { "mai"@ } else if m == 6 { "juin"@ }
        else if m == 7 { "juillet"@ } else if m == 8 { "aout"@ } else if m == 9 {
            "septembre"@
        } else if m == 10 { "octobre"@ } else if m == 11 { "novembre"@ } else {
            "decembre"@
        },
        Language::En => if m == 1 { "January"@ } else if m == 2 { "February"@ } else if m == 3 {
            "March"@
        } else if m == 4 { "April"@ } else if m == 5 { "May"@ } else if m == 6 { "June"@ }
        else if m == 7 { "July"@ } else if m == 8 { "August"@ } else if m == 9 {
            "September"@
        } else if m == 10 { "October"@ } else if m == 11 { "November"@ } else {
            "December"@
        },
    }
}

/// What `format_display_date` shows for `raw`: the trimmed input is cut at the first
/// `T`; its first three `-`-separated pieces are read as year, month and day. With a
/// month from 1 to 12 and a day that fits a `u32`, the date is written out
/// (`15 janvier 2024`, `January 15, 2024`); otherwise the trimmed input is shown
/// as it is, and an empty input gives an empty string.
pub open spec fn display_date(raw: Seq<char>, lang: Language) -> Seq<char> {
    let t = trim_spec(raw);
    let parts = split_char(before_char(t, 'T'), '-');
    if t.len() == 0 {
        Seq::<char>::empty()
    } else if parts.len() < 3 {
        t
    } else {
        match (parse_unsigned(parts[1], usize::MAX as nat), parse_unsigned(parts[2], u32::MAX as nat)) {
            (Some(m), Some(d)) => if 1 <= m && m <= 12 {
                match lang {
                    Language::Fr => decimal(d) + " "@ + month_name(lang, m) + " "@ + parts[0],
                    Language::En => month_name(lang, m) + " "@ + decimal(d) + ", "@ + parts[0],
                }
            } else {
                t
            },
            _ => t,
        }
    }
}

fn month_name_str(lang: Language, m: u64) -> (name: &'static str)
    requires
        1 <= m <= 12,
    ensures
        name@ == month_name(lang, m as nat),
{
    match lang {
        Language::Fr => if m == 1 { "janvier" } else if m == 2 { "fevrier" } else if m == 3 {
            "mars"
        } else if m == 4 { "avril" } else if m == 5 { "mai" } else if m == 6 { "juin" }
        else if m == 7 { "juillet" } else if m == 8 { "aout" } else if m == 9 { "septembre" }
        else if m == 10 { "octobre" } else if m == 11 { "novembre" } else { "decembre" },
        Language::En => if m == 1 { "January" } else if m == 2 { "February" } else if m == 3 {
            "March"
        } else if m == 4 { "April" } else if m == 5 { "May" } else if m == 6 { "June" }
        else if m == 7 { "July" } else if m == 8 { "August" } else if m == 9 { "September" }
        else if m == 10 { "October" } else if m == 11 { "November" } else { "December" },
    }
}

/// Renders a date such as `2024-01-15T10:00:00Z` for display in the given language.
pub fn format_display_date(raw: &str, lang: Language) -> (out: String)
    ensures
        out@ == display_date(raw@, lang),
{
    let v = chars_of(raw);
    let (a, b) = trim_range(&v, 0, v.len());
    assert(v@.subrange(0, v@.len() as int) =~= raw@);
    let ghost t = v@.subrange(a as int, b as int);
    if a == b {
        return String::new();
    }
    let t_pieces = split_ranges(&v, a, b, 'T');
    proof {
        lemma_split_nonempty(t, 'T');
    }
    let (da, db) = t_pieces[0];
    let parts = split_ranges(&v, da, db, '-');
    let ghost sp = split_char(before_char(t, 'T'), '-');
    if parts.len() < 3 {
        return string_of_range(&v, a, b);
    }
    let (ya, yb) = parts[0];
    let (ma, mb) = parts[1];
    let (xa, xb) = parts[2];
    let month = parse_unsigned_range(&v, ma, mb, usize::MAX as u64);
    let day = parse_unsigned_range(&v, xa, xb, u32::MAX as u64);
    match (month, day) {
        (Some(m), Some(d)) => {
            if 1 <= m && m <= 12 {
                let name = month_name_str(lang, m);
                let mut out = String::new();
                match lang {
                    Language::Fr => {
                        push_decimal(&mut out, d);
                        push_str(&mut out, " ");
                        push_str(&mut out, name);
                        push_str(&mut out, " ");
                        push_range(&mut out, &v, ya, yb);
                    },
                    Language::En => {
                        push_str(&mut out, name);
                        push_str(&mut out, " ");
                        push_decimal(&mut out, d);
                        push_str(&mut out, ", ");
                        push_range(&mut out, &v, ya, yb);
                    },
                }
                assert(out@ =~= display_date(raw@, lang));
                out
            } else {
                string_of_range(&v, a, b)
            }
        },
        _ => string_of_range(&v, a, b),
    }
}

} // verus!
