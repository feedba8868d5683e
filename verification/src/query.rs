//! The URL query strings that keep the search and filters of a page in its address:
//! splitting `?k=v&…` into pairs and writing pairs back.
use vstd::prelude::*;

use crate::text::{
    lemma_first_piece,
    chars_of, join_with, leading_end, push_char, push_range, push_str, split_char, split_ranges,
    str_eq, strip_leading,
};

verus! {

/// The key of a `key=value` pair: everything before the first `=`.
pub open spec fn pair_key(p: Seq<char>) -> Seq<char> {
    split_char(p, '=')[0]
}

/// The value of a `key=value` pair: everything after the first `=`, or nothing.
pub open spec fn pair_value(p: Seq<char>) -> Seq<char> {
    if pair_key(p).len() < p.len() {
        p.skip(pair_key(p).len() as int + 1)
    } else {
        Seq::<char>::empty()
    }
}

/// The non-empty `&`-separated parts of a query, as (key, value) pairs, in order.
pub open spec fn parts_as_pairs(parts: Seq<Seq<char>>) -> Seq<(Seq<char>, Seq<char>)>
    decreases parts.len(),
{
    if parts.len() == 0 {
        Seq::empty()
    } else if parts.last().len() == 0 {
        parts_as_pairs(parts.drop_last())
    } else {
        parts_as_pairs(parts.drop_last()).push((pair_key(parts.last()), pair_value(parts.last())))
    }
}

/// The raw (still encoded) pairs of a query string such as `?q=rust&page=2`.
pub open spec fn query_pairs(query: Seq<char>) -> Seq<(Seq<char>, Seq<char>)> {
    parts_as_pairs(split_char(strip_leading(query, '?'), '&'))
}

pub open spec fn string_pairs(v: Seq<(String, String)>) -> Seq<(Seq<char>, Seq<char>)> {
    v.map_values(|p: (String, String)| (p.0@, p.1@))
}

/// Splits a query string into its raw pairs, skipping empty parts.
pub fn split_query(query: &str) -> (pairs: Vec<(String, String)>)
    ensures
        string_pairs(pairs@) == query_pairs(query@),
{
    let v = chars_of(query);
    let start = leading_end(&v, '?');
    let ranges = split_ranges(&v, start, v.len(), '&');
    let ghost parts = split_char(strip_leading(query@, '?'), '&');
    let mut pairs: Vec<(String, String)> = Vec::new();
    let mut k: usize = 0;
    while k < ranges.len()
        invariant
            k <= ranges.len() == parts.len(),
            v@ == query@,
            parts == split_char(strip_leading(query@, '?'), '&'),
            forall|j: int|
                0 <= j < ranges.len() ==> (#[trigger] ranges@[j]).0 <= ranges@[j].1 <= v.len()
                    && v@.subrange(ranges@[j].0 as int, ranges@[j].1 as int) == parts[j],
            string_pairs(pairs@) == parts_as_pairs(parts.take(k as int)),
        decreases ranges.len() - k,
    {
        let (a, b) = ranges[k];
        let ghost p = parts[k as int];
        assert(parts.take(k + 1).drop_last() =~= parts.take(k as int));
        assert(parts.take(k + 1).last() == p);
        if a < b {
            proof {
                lemma_first_piece(p, '=');
            }
            let eq = split_ranges(&v, a, b, '=');
            let (ka, kb) = eq[0];
            let key = crate::text::string_of_range(&v, ka, kb);
            let value = if kb < b {
                crate::text::string_of_range(&v, kb + 1, b)
            } else {
                String::new()
            };
            assert(key@ == pair_key(p));
            assert(kb - a == pair_key(p).len());
            assert(p == v@.subrange(a as int, b as int));
            if kb < b {
                assert(v@.subrange(kb + 1, b as int) =~= p.skip(pair_key(p).len() as int + 1));
            }
            assert(value@ == pair_value(p));
            let ghost before = string_pairs(pairs@);
            pairs.push((key, value));
            assert(string_pairs(pairs@) =~= before.push((pair_key(p), pair_value(p))));
        }
        k = k + 1;
    }
    assert(parts.take(ranges.len() as int) =~= parts);
    pairs
}

/// The value with every `+` turned into a space, as forms encode spaces.
pub open spec fn plus_as_space(s: Seq<char>) -> Seq<char> {
    s.map_values(|c: char| if c == '+' { ' ' } else { c })
}

/// Turns the `+` of a query component into spaces, before percent-decoding.
pub fn plus_to_space(value: &str) -> (r: String)
    ensures
        r@ == plus_as_space(value@),
{
    let v = chars_of(value);
    let mut out = String::new();
    let mut i: usize = 0;
    while i < v.len()
        invariant
            i <= v.len(),
            out@ == plus_as_space(v@.take(i as int)),
        decreases v.len() - i,
    {
        if v[i] == '+' {
            push_char(&mut out, ' ');
        } else {
            push_char(&mut out, v[i]);
        }
        assert(plus_as_space(v@.take(i + 1)) =~= plus_as_space(v@.take(i as int)).push(
            if v[i as int] == '+' { ' ' } else { v[i as int] },
        ));
        i = i + 1;
    }
    assert(v@.take(v.len() as int) =~= v@);
    out
}

/// A query string from already encoded pairs: `?k=v&k2=v2`, or nothing for no pairs.
pub open spec fn query_string_spec(pairs: Seq<(Seq<char>, Seq<char>)>) -> Seq<char> {
    if pairs.len() == 0 {
        Seq::<char>::empty()
    } else {
        "?"@ + join_with(pairs.map_values(|p: (Seq<char>, Seq<char>)| p.0 + "="@ + p.1), "&"@)
    }
}

/// Writes encoded pairs as a query string.
pub fn query_string(pairs: &[(String, String)]) -> (q: String)
    ensures
        q@ == query_string_spec(string_pairs(pairs@)),
{
    proof {
        reveal_strlit("?");
        reveal_strlit("&");
        reveal_strlit("=");
    }
    let mut out = String::new();
    if pairs.len() == 0 {
        return out;
    }
    push_str(&mut out, "?");
    let ghost items = string_pairs(pairs@).map_values(|p: (Seq<char>, Seq<char>)| p.0 + "="@ + p.1);
    let mut i: usize = 0;
    while i < pairs.len()
        invariant
            i <= pairs.len(),
            items == string_pairs(pairs@).map_values(|p: (Seq<char>, Seq<char>)| p.0 + "="@ + p.1),
            out@ == "?"@ + join_with(items.take(i as int), "&"@),
        decreases pairs.len() - i,
    {
        if i > 0 {
            push_str(&mut out, "&");
        }
        push_str(&mut out, pairs[i].0.as_str());
        push_str(&mut out, "=");
        push_str(&mut out, pairs[i].1.as_str());
        assert(items.take(i + 1).drop_last() =~= items.take(i as int));
        assert(items[i as int] == pairs@[i as int].0@ + "="@ + pairs@[i as int].1@);
        if i == 0 {
            assert(items.take(1) =~= seq![items[0]]);
        }
        assert(out@ =~= "?"@ + join_with(items.take(i + 1), "&"@));
        i = i + 1;
    }
    assert(items.take(i as int) =~= items);
    out
}

/// Writing a query from pairs and splitting it again gives the pairs back, when
/// keys and values hold no `&` or `=` and keys are not empty (as encoded
/// components never do).
pub proof fn lemma_query_round_trip_single(key: Seq<char>, value: Seq<char>)
    requires
        key.len() > 0,
        !key.contains('&') && !key.contains('=') && !key.contains('?'),
        !value.contains('&'),
    ensures
        query_pairs(query_string_spec(seq![(key, value)])) == seq![(key, value)],
{
    reveal_strlit("?");
    reveal_strlit("=");
    let items = seq![(key, value)].map_values(|p: (Seq<char>, Seq<char>)| p.0 + "="@ + p.1);
    assert(items =~= seq![key + "="@ + value]);
    let body = key + "="@ + value;
    let q = "?"@ + body;
    assert(query_string_spec(seq![(key, value)]) == q);
    assert(q.drop_first() =~= body);
    assert(strip_leading(body, '?') == body) by {
        assert(body[0] == key[0]);
        assert(key.contains(key[0]));
    }
    assert(strip_leading(q, '?') == body);
    lemma_split_without(body, '&');
    assert(split_char(body, '&') == seq![body]);
    lemma_first_piece_is_key(key, value);
    assert(pair_key(body) == key);
    assert(body.skip(key.len() as int + 1) =~= value);
    assert(seq![body].drop_last() =~= Seq::<Seq<char>>::empty());
    assert(seq![body].last() == body);
    assert(body.len() > 0);
    assert(parts_as_pairs(Seq::<Seq<char>>::empty()) =~= Seq::<(Seq<char>, Seq<char>)>::empty());
    assert(parts_as_pairs(seq![body]) =~= seq![(key, value)]);
}

proof fn lemma_split_without(s: Seq<char>, c: char)
    requires
        !s.contains(c),
    ensures
        split_char(s, c) == seq![s],
{
    lemma_first_piece(s, c);
    let f = split_char(s, c)[0];
    if f.len() < s.len() {
        assert(s.contains(c)) by {
            assert(s[f.len() as int] == c);
        }
    }
    assert(s.take(s.len() as int) =~= s);
    assert(split_char(s, c) =~= seq![s]);
}

proof fn lemma_first_piece_is_key(key: Seq<char>, value: Seq<char>)
    requires
        !key.contains('='),
    ensures
        split_char(key + "="@ + value, '=')[0] == key,
{
    reveal_strlit("=");
    let s = key + "="@ + value;
    lemma_first_piece(s, '=');
    let f = split_char(s, '=')[0];
    assert(s[key.len() as int] == '=');
    if f.len() > key.len() {
        assert(s[key.len() as int] != '=');
    }
    if f.len() < key.len() {
        assert(s[f.len() as int] == key[f.len() as int]);
        assert(key.contains('='));
    }
    assert(f =~= key);
}

} // verus!
