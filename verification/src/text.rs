//! Character-level string utilities shared by the rest of the library.
//!
//! Strings are modelled by their view, a `Seq<char>`. Executable helpers read a
//! `&str` once into a `Vec<char>` and then work on index ranges of that vector.
use vstd::prelude::*;
use vstd::std_specs::iter::IteratorSpec;

verus! {

// ───────────────────────────── specifications ─────────────────────────────

/// Unicode `White_Space`, the property that `str::trim` and `char::is_whitespace` use.
pub open spec fn is_ws(c: char) -> bool {
    ||| ('\u{9}' <= c && c <= '\u{d}')
    ||| c == ' '
    ||| c == '\u{85}'
    ||| c == '\u{a0}'
    ||| c == '\u{1680}'
    ||| ('\u{2000}' <= c && c <= '\u{200a}')
    ||| c == '\u{2028}'
    ||| c == '\u{2029}'
    ||| c == '\u{202f}'
    ||| c == '\u{205f}'
    ||| c == '\u{3000}'
}

pub open spec fn is_ascii_digit(c: char) -> bool {
    '0' <= c && c <= '9'
}

pub open spec fn is_ascii_alnum(c: char) -> bool {
    ||| is_ascii_digit(c)
    ||| ('a' <= c && c <= 'z')
    ||| ('A' <= c && c <= 'Z')
}

/// `char::to_ascii_lowercase`.
pub open spec fn ascii_lower(c: char) -> char {
    if 'A' <= c && c <= 'Z' {
        ((c as u32) + 32) as char
    } else {
        c
    }
}

/// `str::to_ascii_lowercase`.
pub open spec fn ascii_lower_seq(s: Seq<char>) -> Seq<char> {
    s.map_values(|c: char| ascii_lower(c))
}

/// The string with its leading whitespace removed (`str::trim_start`).
pub open spec fn trim_start_spec(s: Seq<char>) -> Seq<char>
    decreases s.len(),
{
    if s.len() > 0 && is_ws(s[0]) {
        trim_start_spec(s.drop_first())
    } else {
        s
    }
}

/// The string with its trailing whitespace removed (`str::trim_end`).
pub open spec fn trim_end_spec(s: Seq<char>) -> Seq<char>
    decreases s.len(),
{
    if s.len() > 0 && is_ws(s.last()) {
        trim_end_spec(s.drop_last())
    } else {
        s
    }
}

/// `str::trim`.
pub open spec fn trim_spec(s: Seq<char>) -> Seq<char> {
    trim_end_spec(trim_start_spec(s))
}

/// The string with every leading occurrence of `c` removed (`str::trim_start_matches`).
pub open spec fn strip_leading(s: Seq<char>, c: char) -> Seq<char>
    decreases s.len(),
{
    if s.len() > 0 && s[0] == c {
        strip_leading(s.drop_first(), c)
    } else {
        s
    }
}

/// The string with every trailing occurrence of `c` removed.
pub open spec fn strip_trailing(s: Seq<char>, c: char) -> Seq<char>
    decreases s.len(),
{
    if s.len() > 0 && s.last() == c {
        strip_trailing(s.drop_last(), c)
    } else {
        s
    }
}

/// `p` is a prefix of `s` (`str::starts_with`).
pub open spec fn has_prefix(s: Seq<char>, p: Seq<char>) -> bool {
    p.len() <= s.len() && s.subrange(0, p.len() as int) == p
}

/// `n` occurs in `h` starting at index `i`.
pub open spec fn occurs_at(h: Seq<char>, n: Seq<char>, i: int) -> bool {
    0 <= i && i + n.len() <= h.len() && h.subrange(i, i + n.len()) == n
}

/// `str::contains` with a string pattern.
pub open spec fn contains_seq(h: Seq<char>, n: Seq<char>) -> bool {
    exists|i: int| occurs_at(h, n, i)
}

/// `i` is the first index at which `n` occurs in `h` (`str::find`).
pub open spec fn first_occurrence(h: Seq<char>, n: Seq<char>, i: int) -> bool {
    &&& occurs_at(h, n, i)
    &&& forall|j: int| 0 <= j < i ==> !occurs_at(h, n, j)
}

/// `str::split` with a single character separator: the pieces between the separators.
pub open spec fn split_char(s: Seq<char>, c: char) -> Seq<Seq<char>>
    decreases s.len(),
{
    if s.len() == 0 {
        seq![Seq::<char>::empty()]
    } else {
        let r = split_char(s.drop_last(), c);
        if s.last() == c {
            r.push(Seq::<char>::empty())
        } else {
            r.update(r.len() - 1, r.last().push(s.last()))
        }
    }
}

/// `pieces.join(sep)`.
pub open spec fn join_with(pieces: Seq<Seq<char>>, sep: Seq<char>) -> Seq<char>
    decreases pieces.len(),
{
    if pieces.len() == 0 {
        Seq::<char>::empty()
    } else if pieces.len() == 1 {
        pieces[0]
    } else {
        join_with(pieces.drop_last(), sep) + sep + pieces.last()
    }
}

/// The piece before the first `c`, or the whole string (`s.split(c).next()`).
pub open spec fn before_char(s: Seq<char>, c: char) -> Seq<char> {
    split_char(s, c)[0]
}

/// The value of a string of ASCII digits.
pub open spec fn digits_value(s: Seq<char>) -> nat
    decreases s.len(),
{
    if s.len() == 0 {
        0
    } else {
        10 * digits_value(s.drop_last()) + ((s.last() as nat) - ('0' as nat)) as nat
    }
}

pub open spec fn all_digits(s: Seq<char>) -> bool {
    forall|i: int| 0 <= i < s.len() ==> is_ascii_digit(#[trigger] s[i])
}

/// `str::parse` into an unsigned integer type whose largest value is `max`:
/// an optional `+`, then one or more ASCII digits whose value fits.
pub open spec fn parse_unsigned(s: Seq<char>, max: nat) -> Option<nat> {
    let body = if s.len() > 0 && s[0] == '+' {
        s.drop_first()
    } else {
        s
    };
    if body.len() > 0 && all_digits(body) && digits_value(body) <= max {
        Some(digits_value(body))
    } else {
        None
    }
}

pub open spec fn digit_char(d: nat) -> char {
    if d == 0 { '0' } else if d == 1 { '1' } else if d == 2 { '2' } else if d == 3 { '3' }
    else if d == 4 { '4' } else if d == 5 { '5' } else if d == 6 { '6' } else if d == 7 { '7' }
    else if d == 8 { '8' } else { '9' }
}

/// Decimal rendering of a natural number (`Display` for unsigned integers).
pub open spec fn decimal(n: nat) -> Seq<char>
    decreases n,
{
    if n < 10 {
        seq![digit_char(n)]
    } else {
        decimal(n / 10).push(digit_char(n % 10))
    }
}

// ───────────────────────────── lemmas ─────────────────────────────

pub proof fn lemma_split_nonempty(s: Seq<char>, c: char)
    ensures
        split_char(s, c).len() >= 1,
    decreases s.len(),
{
    if s.len() > 0 {
        lemma_split_nonempty(s.drop_last(), c);
    }
}

/// The first piece of a split is the text up to the first separator, or all of it.
pub proof fn lemma_first_piece(s: Seq<char>, c: char)
    ensures
        split_char(s, c).len() >= 1,
        split_char(s, c)[0].len() <= s.len(),
        split_char(s, c)[0] == s.take(split_char(s, c)[0].len() as int),
        forall|j: int| 0 <= j < split_char(s, c)[0].len() ==> s[j] != c,
        split_char(s, c)[0].len() < s.len() ==> s[split_char(s, c)[0].len() as int] == c,
        (split_char(s, c).len() == 1) == (split_char(s, c)[0].len() == s.len()),
    decreases s.len(),
{
    if s.len() == 0 {
        assert(s.take(0) =~= s);
    } else {
        let d = s.drop_last();
        lemma_first_piece(d, c);
        let r = split_char(d, c);
        let f = r[0];
        assert(forall|j: int| 0 <= j < d.len() ==> d[j] == s[j]);
        if s.last() == c {
            assert(split_char(s, c)[0] == f);
            assert(f =~= s.take(f.len() as int));
        } else if r.len() > 1 {
            assert(split_char(s, c)[0] == f);
            assert(f =~= s.take(f.len() as int));
        } else {
            assert(f =~= d);
            assert(split_char(s, c)[0] == f.push(s.last()));
            assert(f.push(s.last()) =~= s);
            assert(s.take(s.len() as int) =~= s);
        }
    }
}

/// Parsing the decimal rendering of a number gives the number back.
pub proof fn lemma_decimal_digits(n: nat)
    ensures
        all_digits(decimal(n)),
        digits_value(decimal(n)) == n,
        decimal(n).len() >= 1,
        decimal(n)[0] != '+',
    decreases n,
{
    lemma_digit_char_value(n % 10);
    if n < 10 {
        assert(decimal(n).drop_last() =~= Seq::<char>::empty());
        assert(digits_value(decimal(n).drop_last()) == 0);
        assert(decimal(n).last() == digit_char(n));
    } else {
        lemma_digit_char_value(n % 10);
        lemma_decimal_digits(n / 10);
        let d = decimal(n / 10);
        assert(decimal(n).drop_last() =~= d);
        assert(decimal(n)[0] == d[0]);
        assert(decimal(n).last() == digit_char(n % 10));
        assert(digits_value(decimal(n)) == 10 * digits_value(d) + (n % 10));
        assert(n == 10 * (n / 10) + n % 10);
    }
}

pub proof fn lemma_digit_char_value(d: nat)
    requires
        d < 10,
    ensures
        (digit_char(d) as nat) == d + 48,
        is_ascii_digit(digit_char(d)),
{
}

/// A digit string is worth at least as much as each of its prefixes.
pub proof fn lemma_digits_prefix_le(s: Seq<char>, k: int)
    requires
        0 <= k <= s.len(),
        all_digits(s),
    ensures
        digits_value(s.take(k)) <= digits_value(s),
    decreases s.len(),
{
    if k < s.len() {
        assert(s.drop_last().take(k) =~= s.take(k));
        lemma_digits_prefix_le(s.drop_last(), k);
    } else {
        assert(s.take(k) =~= s);
    }
}

/// Each piece of a joined list stands in the joined text whole: the text is
/// something, the piece, then something.
pub proof fn lemma_join_piece(ps: Seq<Seq<char>>, sep: Seq<char>, k: int) -> (ab: (Seq<char>, Seq<char>))
    requires
        0 <= k < ps.len(),
    ensures
        join_with(ps, sep) == ab.0 + ps[k] + ab.1,
    decreases ps.len(),
{
    if ps.len() == 1 {
        assert(join_with(ps, sep) =~= Seq::<char>::empty() + ps[k] + Seq::<char>::empty());
        (Seq::<char>::empty(), Seq::<char>::empty())
    } else {
        let d = ps.drop_last();
        if k == ps.len() - 1 {
            let a = join_with(d, sep) + sep;
            assert(join_with(ps, sep) =~= a + ps[k] + Seq::<char>::empty());
            (a, Seq::<char>::empty())
        } else {
            let (a, b) = lemma_join_piece(d, sep, k);
            assert(d[k] == ps[k]);
            let b2 = b + sep + ps.last();
            assert(join_with(ps, sep) =~= a + ps[k] + b2);
            (a, b2)
        }
    }
}

/// Text that occurs in a part occurs in the whole.
pub proof fn lemma_contains_in_middle(a: Seq<char>, x: Seq<char>, b: Seq<char>, n: Seq<char>)
    requires
        contains_seq(x, n),
    ensures
        contains_seq(a + x + b, n),
{
    let i = choose|i: int| occurs_at(x, n, i);
    let h = a + x + b;
    assert(h.subrange(a.len() + i, a.len() + i + n.len()) =~= x.subrange(i, i + n.len()));
    assert(occurs_at(h, n, a.len() + i));
}

/// Lowercasing (ASCII) a concatenation lowercases each part.
pub proof fn lemma_ascii_lower_concat(a: Seq<char>, b: Seq<char>)
    ensures
        ascii_lower_seq(a + b) == ascii_lower_seq(a) + ascii_lower_seq(b),
{
    assert(ascii_lower_seq(a + b) =~= ascii_lower_seq(a) + ascii_lower_seq(b));
}

// ───────────────────────────── std wrappers ─────────────────────────────

/// The characters of a string slice, in order.
pub(crate) fn chars_of(s: &str) -> (v: Vec<char>)
    ensures
        v@ == s@,
{
    broadcast use vstd::string::axiom_spec_iter, vstd::string::next_postcondition;

    let mut v: Vec<char> = Vec::new();
    let mut it = s.chars();
    assert(IteratorSpec::remaining(&it) == s@);
    loop
        invariant
            v@ + IteratorSpec::remaining(&it) == s@,
            IteratorSpec::decrease(&it) is Some,
        ensures
            v@ == s@,
        decreases IteratorSpec::decrease(&it)->0,
    {
        match it.next() {
            Some(c) => {
                v.push(c);
            },
            None => {
                assert(v@ =~= v@ + IteratorSpec::remaining(&it));
                break;
            },
        }
    }
    v
}

/// Trusted: `String::push` appends the character at the end of the string.
#[verifier::external_body]
pub(crate) fn push_char(s: &mut String, c: char)
    ensures
        final(s)@ == old(s)@.push(c),
{
    s.push(c)
}


// ───────────────────────────── names for std results ─────────────────────────────

/// What `str::to_lowercase` returns for a string: its lowercase form under the
/// Unicode `Lowercase` mapping (a final sigma becomes `ς`).
pub uninterp spec fn lowercase(s: Seq<char>) -> Seq<char>;

/// What `char::is_alphanumeric` returns: whether the character is Unicode
/// `Alphabetic` or `Numeric`.
pub uninterp spec fn alphanumeric(c: char) -> bool;

/// What `char::to_lowercase` yields for one character: its lowercase mapping, one or
/// more characters.
pub uninterp spec fn char_lowercase(c: char) -> Seq<char>;

/// Trusted: `str::to_lowercase`; the result is the named lowercase form of the input.
#[verifier::external_body]
pub(crate) fn to_lowercase(s: &str) -> (r: String)
    ensures
        r@ == lowercase(s@),
{
    s.to_lowercase()
}

/// Trusted: `char::is_alphanumeric`; the result is the named property of the character.
#[verifier::external_body]
pub(crate) fn is_alphanumeric(c: char) -> (r: bool)
    ensures
        r == alphanumeric(c),
{
    c.is_alphanumeric()
}

/// Trusted: `char::to_lowercase` collected into a `Vec`; it holds the named lowercase
/// mapping of the character.
#[verifier::external_body]
pub(crate) fn char_to_lowercase(c: char) -> (r: Vec<char>)
    ensures
        r@ == char_lowercase(c),
{
    c.to_lowercase().collect()
}

// ───────────────────────────── searching ─────────────────────────────

/// The index that `str::find` reports for `n` in `h`.
pub open spec fn find_spec(h: Seq<char>, n: Seq<char>) -> Option<int> {
    if contains_seq(h, n) {
        Some(choose|i: int| first_occurrence(h, n, i))
    } else {
        None
    }
}

pub proof fn lemma_find_spec(h: Seq<char>, n: Seq<char>, i: int)
    requires
        first_occurrence(h, n, i),
    ensures
        find_spec(h, n) == Some(i),
{
    assert(contains_seq(h, n));
    let j = choose|j: int| first_occurrence(h, n, j);
    assert(first_occurrence(h, n, j));
    if j < i {
    } else if i < j {
    }
}

/// `a == b` for two string slices.
pub fn str_eq(a: &str, b: &str) -> (r: bool)
    ensures
        r == (a@ == b@),
{
    let x = chars_of(a);
    let y = chars_of(b);
    if x.len() != y.len() {
        return false;
    }
    let mut i: usize = 0;
    while i < x.len()
        invariant
            x@ == a@,
            y@ == b@,
            x.len() == y.len(),
            i <= x.len(),
            forall|j: int| 0 <= j < i ==> x@[j] == y@[j],
        decreases x.len() - i,
    {
        if x[i] != y[i] {
            assert(x@[i as int] != y@[i as int]);
            return false;
        }
        i = i + 1;
    }
    assert(x@ =~= y@);
    true
}

/// The first index at which `n` occurs in `v[lo..]`, counted from `lo`.
pub fn find_from(v: &Vec<char>, lo: usize, n: &Vec<char>) -> (r: Option<usize>)
    requires
        lo <= v.len(),
    ensures
        r matches Some(i) ==> find_spec(v@.skip(lo as int), n@) == Some(i as int) && lo + i
            + n.len() <= v.len(),
        r is None ==> find_spec(v@.skip(lo as int), n@) is None,
{
    let mut tail: Vec<char> = Vec::new();
    let mut i = lo;
    while i < v.len()
        invariant
            lo <= i <= v.len(),
            tail@ == v@.subrange(lo as int, i as int),
        decreases v.len() - i,
    {
        tail.push(v[i]);
        assert(v@.subrange(lo as int, i + 1) =~= v@.subrange(lo as int, i as int).push(v[i as int]));
        i = i + 1;
    }
    assert(tail@ =~= v@.skip(lo as int));
    match find_seq(&tail, n) {
        Some(k) => {
            proof {
                lemma_find_spec(tail@, n@, k as int);
            }
            Some(k)
        },
        None => None,
    }
}

// ───────────────────────────── executable helpers ─────────────────────────────

pub fn is_ws_char(c: char) -> (r: bool)
    ensures
        r == is_ws(c),
{
    ('\u{9}' <= c && c <= '\u{d}') || c == ' ' || c == '\u{85}' || c == '\u{a0}' || c
        == '\u{1680}' || ('\u{2000}' <= c && c <= '\u{200a}') || c == '\u{2028}' || c
        == '\u{2029}' || c == '\u{202f}' || c == '\u{205f}' || c == '\u{3000}'
}

pub fn is_digit_char(c: char) -> (r: bool)
    ensures
        r == is_ascii_digit(c),
{
    '0' <= c && c <= '9'
}

pub fn is_alnum_char(c: char) -> (r: bool)
    ensures
        r == is_ascii_alnum(c),
{
    ('0' <= c && c <= '9') || ('a' <= c && c <= 'z') || ('A' <= c && c <= 'Z')
}

pub fn lower_ascii_char(c: char) -> (r: char)
    ensures
        r == ascii_lower(c),
{
    if 'A' <= c && c <= 'Z' {
        let code: u8 = (c as u8) + 32;
        code as char
    } else {
        c
    }
}

/// Appends `v[lo..hi]` to `out`.
pub fn push_range(out: &mut String, v: &Vec<char>, lo: usize, hi: usize)
    requires
        lo <= hi <= v.len(),
    ensures
        final(out)@ == old(out)@ + v@.subrange(lo as int, hi as int),
{
    let mut i = lo;
    while i < hi
        invariant
            lo <= i <= hi <= v.len(),
            out@ == old(out)@ + v@.subrange(lo as int, i as int),
        decreases hi - i,
    {
        push_char(out, v[i]);
        assert(v@.subrange(lo as int, i + 1) =~= v@.subrange(lo as int, i as int).push(v[i as int]));
        i = i + 1;
    }
}

/// Where `v` starts once every leading `c` is skipped.
pub fn leading_end(v: &Vec<char>, c: char) -> (start: usize)
    ensures
        start <= v.len(),
        v@.subrange(start as int, v@.len() as int) == strip_leading(v@, c),
        v@.skip(start as int) == strip_leading(v@, c),
{
    let mut i: usize = 0;
    assert(v@.skip(0) =~= v@);
    while i < v.len() && v[i] == c
        invariant
            i <= v.len(),
            strip_leading(v@, c) == strip_leading(v@.skip(i as int), c),
        decreases v.len() - i,
    {
        assert(v@.skip(i as int).drop_first() =~= v@.skip(i + 1));
        i = i + 1;
    }
    assert(v@.subrange(i as int, v@.len() as int) =~= v@.skip(i as int));
    i
}

/// A new string holding `v[lo..hi]`.
pub fn string_of_range(v: &Vec<char>, lo: usize, hi: usize) -> (s: String)
    requires
        lo <= hi <= v.len(),
    ensures
        s@ == v@.subrange(lo as int, hi as int),
{
    let mut s = String::new();
    push_range(&mut s, v, lo, hi);
    assert(s@ =~= v@.subrange(lo as int, hi as int));
    s
}

/// Appends a string slice to `out`.
pub fn push_str(out: &mut String, s: &str)
    ensures
        final(out)@ == old(out)@ + s@,
{
    out.append(s);
}

/// The bounds of `v[lo..hi]` once its leading and trailing whitespace is removed.
pub fn trim_range(v: &Vec<char>, lo: usize, hi: usize) -> (r: (usize, usize))
    requires
        lo <= hi <= v.len(),
    ensures
        lo <= r.0 <= r.1 <= hi,
        v@.subrange(r.0 as int, r.1 as int) == trim_spec(v@.subrange(lo as int, hi as int)),
{
    let mut a = lo;
    while a < hi && is_ws_char(v[a])
        invariant
            lo <= a <= hi <= v.len(),
            trim_start_spec(v@.subrange(lo as int, hi as int)) == trim_start_spec(
                v@.subrange(a as int, hi as int),
            ),
        decreases hi - a,
    {
        assert(v@.subrange(a as int, hi as int).drop_first() =~= v@.subrange(a + 1, hi as int));
        a = a + 1;
    }
    assert(trim_start_spec(v@.subrange(a as int, hi as int)) == v@.subrange(a as int, hi as int));
    let mut b = hi;
    while b > a && is_ws_char(v[b - 1])
        invariant
            lo <= a <= b <= hi <= v.len(),
            trim_end_spec(v@.subrange(a as int, hi as int)) == trim_end_spec(
                v@.subrange(a as int, b as int),
            ),
        decreases b - a,
    {
        assert(v@.subrange(a as int, b as int).drop_last() =~= v@.subrange(a as int, b - 1));
        b = b - 1;
    }
    (a, b)
}

/// Whether `v[i..]` begins with `p`.
pub fn matches_at(v: &Vec<char>, i: usize, p: &Vec<char>) -> (r: bool)
    requires
        i <= v.len(),
    ensures
        r == occurs_at(v@, p@, i as int),
{
    if p.len() > v.len() - i {
        return false;
    }
    let mut k: usize = 0;
    while k < p.len()
        invariant
            i + p.len() <= v.len(),
            k <= p.len(),
            forall|j: int| 0 <= j < k ==> v@[i + j] == p@[j],
        decreases p.len() - k,
    {
        if v[i + k] != p[k] {
            assert(v@.subrange(i as int, i + p.len())[k as int] != p@[k as int]);
            return false;
        }
        k = k + 1;
    }
    assert(v@.subrange(i as int, i + p.len()) =~= p@);
    true
}

/// The first index at which `p` occurs in `v`, if any (`str::find`).
pub fn find_seq(v: &Vec<char>, p: &Vec<char>) -> (r: Option<usize>)
    ensures
        r matches Some(i) ==> first_occurrence(v@, p@, i as int),
        r is None ==> !contains_seq(v@, p@),
{
    if p.len() > v.len() {
        assert forall|j: int| !occurs_at(v@, p@, j) by {}
        return None;
    }
    let last = v.len() - p.len();
    let mut i: usize = 0;
    while i < last
        invariant
            last + p.len() == v.len(),
            i <= last,
            forall|j: int| 0 <= j < i ==> !occurs_at(v@, p@, j),
        decreases last - i,
    {
        if matches_at(v, i, p) {
            return Some(i);
        }
        i = i + 1;
    }
    if matches_at(v, last, p) {
        return Some(last);
    }
    assert forall|j: int| !occurs_at(v@, p@, j) by {
        if 0 <= j < last {
        }
    }
    None
}

/// Whether `p` occurs in `v` (`str::contains`).
pub fn contains_chars(v: &Vec<char>, p: &Vec<char>) -> (r: bool)
    ensures
        r == contains_seq(v@, p@),
{
    match find_seq(v, p) {
        Some(i) => true,
        None => false,
    }
}

/// Whether `v` begins with `p` (`str::starts_with`).
pub fn starts_with_chars(v: &Vec<char>, p: &Vec<char>) -> (r: bool)
    ensures
        r == has_prefix(v@, p@),
{
    matches_at(v, 0, p)
}

/// The ranges of the pieces of `v[lo..hi]` between occurrences of `c` (`str::split`).
pub fn split_ranges(v: &Vec<char>, lo: usize, hi: usize, c: char) -> (r: Vec<(usize, usize)>)
    requires
        lo <= hi <= v.len(),
    ensures
        r.len() == split_char(v@.subrange(lo as int, hi as int), c).len(),
        r.len() > 0,
        r@[0].0 == lo,
        forall|k: int|
            0 <= k < r.len() ==> lo <= (#[trigger] r@[k]).0 <= r@[k].1 <= hi && v@.subrange(
                r@[k].0 as int,
                r@[k].1 as int,
            ) == split_char(v@.subrange(lo as int, hi as int), c)[k],
{
    let mut r: Vec<(usize, usize)> = Vec::new();
    let mut start = lo;
    let mut i = lo;
    assert(split_char(v@.subrange(lo as int, lo as int), c) =~= seq![Seq::<char>::empty()]);
    while i < hi
        invariant
            lo <= start <= i <= hi <= v.len(),
            r.len() > 0 ==> r@[0].0 == lo,
            r.len() == 0 ==> start == lo,
            split_char(v@.subrange(lo as int, i as int), c).len() == r.len() + 1,
            forall|k: int|
                0 <= k < r.len() ==> lo <= (#[trigger] r@[k]).0 <= r@[k].1 <= start
                    && v@.subrange(r@[k].0 as int, r@[k].1 as int) == split_char(
                    v@.subrange(lo as int, i as int),
                    c,
                )[k],
            split_char(v@.subrange(lo as int, i as int), c)[r.len() as int] == v@.subrange(
                start as int,
                i as int,
            ),
        decreases hi - i,
    {
        let ghost prev = split_char(v@.subrange(lo as int, i as int), c);
        assert(v@.subrange(lo as int, i + 1).drop_last() =~= v@.subrange(lo as int, i as int));
        assert(v@.subrange(lo as int, i + 1).last() == v[i as int]);
        if v[i] == c {
            r.push((start, i));
            start = i + 1;
            assert(v@.subrange(start as int, i + 1) =~= Seq::<char>::empty());
        } else {
            assert(v@.subrange(start as int, i + 1) =~= v@.subrange(start as int, i as int).push(
                v[i as int],
            ));
        }
        i = i + 1;
    }
    r.push((start, hi));
    r
}

/// Appends the decimal rendering of `n`.
pub fn push_decimal(out: &mut String, n: u64)
    ensures
        final(out)@ == old(out)@ + decimal(n as nat),
    decreases n,
{
    if n >= 10 {
        push_decimal(out, n / 10);
    }
    let d = n % 10;
    let c = if d == 0 { '0' } else if d == 1 { '1' } else if d == 2 { '2' } else if d == 3 { '3' }
        else if d == 4 { '4' } else if d == 5 { '5' } else if d == 6 { '6' } else if d == 7 { '7' }
        else if d == 8 { '8' } else { '9' };
    push_char(out, c);
    proof {
        if n >= 10 {
            assert(decimal(n as nat) == decimal((n / 10) as nat).push(digit_char((n % 10) as nat)));
        }
    }
    assert(final(out)@ =~= old(out)@ + decimal(n as nat));
}

/// Parses `v[lo..hi]` as an unsigned integer no larger than `max` (`str::parse`).
pub fn parse_unsigned_range(v: &Vec<char>, lo: usize, hi: usize, max: u64) -> (r: Option<u64>)
    requires
        lo <= hi <= v.len(),
    ensures
        r matches Some(x) ==> parse_unsigned(v@.subrange(lo as int, hi as int), max as nat)
            == Some(x as nat),
        r is None ==> parse_unsigned(v@.subrange(lo as int, hi as int), max as nat) is None,
{
    let ghost s = v@.subrange(lo as int, hi as int);
    let start = if lo < hi && v[lo] == '+' {
        lo + 1
    } else {
        lo
    };
    let ghost body = v@.subrange(start as int, hi as int);
    assert(body =~= (if s.len() > 0 && s[0] == '+' {
        s.drop_first()
    } else {
        s
    }));
    if start == hi {
        return None;
    }
    let mut acc: u64 = 0;
    let mut i = start;
    while i < hi
        invariant
            lo <= start <= i <= hi <= v.len(),
            s == v@.subrange(lo as int, hi as int),
            body == v@.subrange(start as int, hi as int),
            body == (if s.len() > 0 && s[0] == '+' {
                s.drop_first()
            } else {
                s
            }),
            all_digits(v@.subrange(start as int, i as int)),
            acc as nat == digits_value(v@.subrange(start as int, i as int)),
            acc <= max,
        decreases hi - i,
    {
        let c = v[i];
        assert(body[i - start] == c);
        if !is_digit_char(c) {
            return None;
        }
        let d = (c as u64) - 48;
        let ghost pre = v@.subrange(start as int, i + 1);
        assert(pre.drop_last() =~= v@.subrange(start as int, i as int));
        assert(pre.take(i + 1 - start) =~= pre);
        assert(body.take(i + 1 - start) =~= pre);
        if d > max || acc > (max - d) / 10 {
            proof {
                assert(acc * 10 + d > max) by (nonlinear_arith)
                    requires
                        d > max || acc > (max - d) / 10,
                ;
                assert(all_digits(pre));
                assert(digits_value(pre) == 10 * acc + d);
                if all_digits(body) {
                    lemma_digits_prefix_le(body, i + 1 - start);
                }
            }
            return None;
        }
        proof {
            assert(acc * 10 + d <= max) by (nonlinear_arith)
                requires
                    acc <= (max - d) / 10,
                    d <= max,
            ;
        }
        acc = acc * 10 + d;
        i = i + 1;
    }
    assert(v@.subrange(start as int, i as int) =~= body);
    Some(acc)
}

} // verus!
