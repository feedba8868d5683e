//! What a fenced code block shows: its language badge, its optional title and its
//! source text.
use vstd::prelude::*;

use super::{attr, attr_value, MarkdownNode};
use crate::text::{
    chars_of, find_from, find_spec, has_prefix, is_ws, is_ws_char, lowercase, push_char,
    push_range, push_str, starts_with_chars, str_eq, string_of_range, to_lowercase, trim_range,
    trim_spec,
};

verus! {

// ───────────────────────────── title ─────────────────────────────

/// The title given as `title="…"` (or with `'` quotes): the trimmed text up to the
/// closing quote after the first `title=` followed by that quote, if not empty.
pub open spec fn quoted_title(raw: Seq<char>, q: char) -> Option<Seq<char>> {
    match find_spec(raw, "title="@.push(q)) {
        Some(start) => {
            let tail = raw.skip(start + 7);
            match find_spec(tail, seq![q]) {
                Some(e) => {
                    let v = trim_spec(tail.take(e));
                    if v.len() > 0 {
                        Some(v)
                    } else {
                        None
                    }
                },
                None => None,
            }
        },
        None => None,
    }
}

pub open spec fn is_title_mark(c: char) -> bool {
    c == '{' || c == '}' || c == '"' || c == '\''
}

pub open spec fn strip_marks_start(s: Seq<char>) -> Seq<char>
    decreases s.len(),
{
    if s.len() > 0 && is_title_mark(s[0]) {
        strip_marks_start(s.drop_first())
    } else {
        s
    }
}

pub open spec fn strip_marks_end(s: Seq<char>) -> Seq<char>
    decreases s.len(),
{
    if s.len() > 0 && is_title_mark(s.last()) {
        strip_marks_end(s.drop_last())
    } else {
        s
    }
}

/// The index of the first whitespace character, or the length when there is none.
pub open spec fn first_ws_index(s: Seq<char>) -> int
    decreases s.len(),
{
    if s.len() == 0 {
        0
    } else if is_ws(s[0]) {
        0
    } else {
        1 + first_ws_index(s.drop_first())
    }
}

/// The compact form `title=MySnippet`: the word after the first `title=`, without
/// surrounding braces and quotes, if not empty.
pub open spec fn compact_title(raw: Seq<char>) -> Option<Seq<char>> {
    match find_spec(raw, "title="@) {
        Some(start) => {
            let tail = raw.skip(start + 6);
            let v = strip_marks_end(strip_marks_start(tail.take(first_ws_index(tail))));
            if v.len() > 0 {
                Some(v)
            } else {
                None
            }
        },
        None => None,
    }
}

/// The title written in a code fence's info string.
pub open spec fn code_title(raw: Seq<char>) -> Option<Seq<char>> {
    match quoted_title(raw, '"') {
        Some(v) => Some(v),
        None => match quoted_title(raw, '\'') {
            Some(v) => Some(v),
            None => compact_title(raw),
        },
    }
}

fn quoted_title_of(v: &Vec<char>, q: char) -> (r: Option<String>)
    ensures
        match r {
            Some(t) => quoted_title(v@, q) == Some(t@),
            None => quoted_title(v@, q) is None,
        },
{
    proof {
        reveal_strlit("title=");
    }
    let mut key = chars_of("title=");
    key.push(q);
    assert(v@.skip(0) =~= v@);
    match find_from(v, 0, &key) {
        Some(start) => {
            let value_start = start + 7;
            let mut quote: Vec<char> = Vec::new();
            quote.push(q);
            assert(quote@ =~= seq![q]);
            let ghost tail = v@.skip(value_start as int);
            match find_from(v, value_start, &quote) {
                Some(e) => {
                    let (a, b) = trim_range(v, value_start, value_start + e);
                    assert(v@.subrange(value_start as int, value_start + e) =~= tail.take(
                        e as int,
                    ));
                    if a < b {
                        Some(string_of_range(v, a, b))
                    } else {
                        None
                    }
                },
                None => None,
            }
        },
        None => None,
    }
}

fn compact_title_of(v: &Vec<char>) -> (r: Option<String>)
    ensures
        match r {
            Some(t) => compact_title(v@) == Some(t@),
            None => compact_title(v@) is None,
        },
{
    proof {
        reveal_strlit("title=");
    }
    let key = chars_of("title=");
    assert(v@.skip(0) =~= v@);
    match find_from(v, 0, &key) {
        Some(start) => {
            let value_start = start + 6;
            let ghost tail = v@.skip(value_start as int);
            let mut end = value_start;
            while end < v.len() && !is_ws_char(v[end])
                invariant
                    value_start <= end <= v.len(),
                    tail == v@.skip(value_start as int),
                    first_ws_index(tail) == (end - value_start) + first_ws_index(v@.skip(end as int)),
                decreases v.len() - end,
            {
                assert(v@.skip(end as int).drop_first() =~= v@.skip(end + 1));
                end = end + 1;
            }
            assert(first_ws_index(v@.skip(end as int)) == 0);
            let mut a = value_start;
            let ghost word = v@.subrange(value_start as int, end as int);
            assert(word =~= tail.take(first_ws_index(tail)));
            while a < end && (v[a] == '{' || v[a] == '}' || v[a] == '"' || v[a] == '\'')
                invariant
                    value_start <= a <= end <= v.len(),
                    strip_marks_start(word) == strip_marks_start(v@.subrange(a as int, end as int)),
                decreases end - a,
            {
                assert(v@.subrange(a as int, end as int).drop_first() =~= v@.subrange(
                    a + 1,
                    end as int,
                ));
                a = a + 1;
            }
            let mut b = end;
            while b > a && (v[b - 1] == '{' || v[b - 1] == '}' || v[b - 1] == '"' || v[b - 1]
                == '\'')
                invariant
                    a <= b <= end <= v.len(),
                    strip_marks_end(v@.subrange(a as int, end as int)) == strip_marks_end(
                        v@.subrange(a as int, b as int),
                    ),
                decreases b - a,
            {
                assert(v@.subrange(a as int, b as int).drop_last() =~= v@.subrange(
                    a as int,
                    b - 1,
                ));
                b = b - 1;
            }
            if a < b {
                Some(string_of_range(v, a, b))
            } else {
                None
            }
        },
        None => None,
    }
}

/// The title written in a code fence's info string, such as `rust title="main.rs"`.
pub fn extract_code_title(raw: &str) -> (title: Option<String>)
    ensures
        match title {
            Some(t) => code_title(raw@) == Some(t@),
            None => code_title(raw@) is None,
        },
{
    let v = chars_of(raw);
    match quoted_title_of(&v, '"') {
        Some(t) => Some(t),
        None => match quoted_title_of(&v, '\'') {
            Some(t) => Some(t),
            None => compact_title_of(&v),
        },
    }
}

// ───────────────────────────── language ─────────────────────────────

/// Characters that separate the words of an info string.
pub open spec fn lang_sep(c: char) -> bool {
    is_ws(c) || c == '{' || c == '}'
}

/// The words of an info string (`split` on whitespace and braces).
pub open spec fn split_lang(s: Seq<char>) -> Seq<Seq<char>>
    decreases s.len(),
{
    if s.len() == 0 {
        seq![Seq::<char>::empty()]
    } else {
        let r = split_lang(s.drop_last());
        if lang_sep(s.last()) {
            r.push(Seq::<char>::empty())
        } else {
            r.update(r.len() - 1, r.last().push(s.last()))
        }
    }
}

/// The first word that is not blank and is not a `title=` setting.
pub open spec fn first_language_word(ps: Seq<Seq<char>>) -> Option<Seq<char>>
    decreases ps.len(),
{
    if ps.len() == 0 {
        None
    } else if trim_spec(ps[0]).len() > 0 && !has_prefix(ps[0], "title="@) {
        Some(ps[0])
    } else {
        first_language_word(ps.drop_first())
    }
}

/// The language of a code fence: its first word, trimmed and lowercased, or `txt`.
pub open spec fn code_language(raw: Seq<char>) -> Seq<char> {
    match first_language_word(split_lang(raw)) {
        Some(w) => lowercase(trim_spec(w)),
        None => lowercase(trim_spec("txt"@)),
    }
}

fn split_lang_ranges(v: &Vec<char>) -> (r: Vec<(usize, usize)>)
    ensures
        r.len() == split_lang(v@).len(),
        forall|k: int|
            0 <= k < r.len() ==> (#[trigger] r@[k]).0 <= r@[k].1 <= v.len() && v@.subrange(
                r@[k].0 as int,
                r@[k].1 as int,
            ) == split_lang(v@)[k],
{
    let mut r: Vec<(usize, usize)> = Vec::new();
    let mut start: usize = 0;
    let mut i: usize = 0;
    assert(split_lang(v@.subrange(0, 0)) =~= seq![Seq::<char>::empty()]);
    while i < v.len()
        invariant
            start <= i <= v.len(),
            split_lang(v@.subrange(0, i as int)).len() == r.len() + 1,
            forall|k: int|
                0 <= k < r.len() ==> (#[trigger] r@[k]).0 <= r@[k].1 <= start && v@.subrange(
                    r@[k].0 as int,
                    r@[k].1 as int,
                ) == split_lang(v@.subrange(0, i as int))[k],
            split_lang(v@.subrange(0, i as int))[r.len() as int] == v@.subrange(
                start as int,
                i as int,
            ),
        decreases v.len() - i,
    {
        assert(v@.subrange(0, i + 1).drop_last() =~= v@.subrange(0, i as int));
        assert(v@.subrange(0, i + 1).last() == v[i as int]);
        let c = v[i];
        if is_ws_char(c) || c == '{' || c == '}' {
            r.push((start, i));
            start = i + 1;
            assert(v@.subrange(start as int, i + 1) =~= Seq::<char>::empty());
        } else {
            assert(v@.subrange(start as int, i + 1) =~= v@.subrange(start as int, i as int).push(
                v[i as int],
            ));
        }
        i = i + 1;
    }
    r.push((start, v.len()));
    assert(v@.subrange(0, v.len() as int) =~= v@);
    r
}

/// The language of a code fence's info string, lowercased; `txt` when it names none.
pub fn clean_language(raw: &str) -> (language: String)
    ensures
        language@ == code_language(raw@),
{
    proof {
        reveal_strlit("title=");
    }
    let v = chars_of(raw);
    let ranges = split_lang_ranges(&v);
    let prefix = chars_of("title=");
    let ghost ps = split_lang(v@);
    let mut k: usize = 0;
    assert(ps.skip(0) =~= ps);
    while k < ranges.len()
        invariant
            k <= ranges.len() == ps.len(),
            ps == split_lang(v@),
            v@ == raw@,
            prefix@ == "title="@,
            forall|j: int|
                0 <= j < ranges.len() ==> (#[trigger] ranges@[j]).0 <= ranges@[j].1 <= v.len()
                    && v@.subrange(ranges@[j].0 as int, ranges@[j].1 as int) == ps[j],
            first_language_word(ps) == first_language_word(ps.skip(k as int)),
        decreases ranges.len() - k,
    {
        let (a, b) = ranges[k];
        let (ta, tb) = trim_range(&v, a, b);
        let mut word: Vec<char> = Vec::new();
        let mut j = a;
        while j < b
            invariant
                a <= j <= b <= v.len(),
                word@ == v@.subrange(a as int, j as int),
            decreases b - j,
        {
            word.push(v[j]);
            assert(v@.subrange(a as int, j + 1) =~= v@.subrange(a as int, j as int).push(v[j as int]));
            j = j + 1;
        }
        assert(ps.skip(k as int)[0] == ps[k as int]);
        if ta < tb && !starts_with_chars(&word, &prefix) {
            let trimmed = string_of_range(&v, ta, tb);
            return to_lowercase(trimmed.as_str());
        }
        assert(ps.skip(k as int).drop_first() =~= ps.skip(k + 1));
        k = k + 1;
    }
    let d = chars_of("txt");
    let (ta, tb) = trim_range(&d, 0, d.len());
    assert(d@.subrange(0, d@.len() as int) =~= "txt"@);
    let trimmed = string_of_range(&d, ta, tb);
    to_lowercase(trimmed.as_str())
}

/// The class of the `<code>` element of a block in the given language.
pub fn code_class(language: &str) -> (class: String)
    ensures
        class@ == (if language@.len() == 0 {
            "language-text"@
        } else {
            "language-"@ + language@
        }),
{
    let v = chars_of(language);
    let mut out = String::new();
    if v.len() == 0 {
        push_str(&mut out, "language-text");
    } else {
        push_str(&mut out, "language-");
        push_str(&mut out, language);
    }
    out
}

// ───────────────────────────── source text ─────────────────────────────

pub open spec fn is_text_like(kind: Seq<char>) -> bool {
    kind == "text"@ || kind == "code"@ || kind == "html"@
}

pub open spec fn is_break(kind: Seq<char>) -> bool {
    kind == "soft_break"@ || kind == "hard_break"@
}

/// The source text held by the children of a code block: text-like nodes give their
/// text, breaks a newline, other nodes the text of their own children.
pub open spec fn code_text(ns: Seq<MarkdownNode>) -> Seq<char>
    decreases ns,
{
    if ns.len() == 0 {
        Seq::<char>::empty()
    } else {
        let last = ns.last();
        proof {
            assert(decreases_to!(ns => last));
            assert(decreases_to!(last => last.children));
            assert(decreases_to!(last.children => last.children@));
        }
        code_text(ns.drop_last()) + if is_text_like(last.kind@) {
            last.text@
        } else if is_break(last.kind@) {
            seq!['\n']
        } else {
            code_text(last.children@)
        }
    }
}

/// Appends the source text of `nodes` to `out`.
pub fn append_code_text(nodes: &[MarkdownNode], out: &mut String)
    ensures
        final(out)@ == old(out)@ + code_text(nodes@),
    decreases nodes@,
{
    let mut i: usize = 0;
    while i < nodes.len()
        invariant
            i <= nodes.len(),
            out@ == old(out)@ + code_text(nodes@.take(i as int)),
        decreases nodes.len() - i,
    {
        let child = &nodes[i];
        let k = child.kind.as_str();
        assert(nodes@.take(i + 1).drop_last() =~= nodes@.take(i as int));
        assert(nodes@.take(i + 1).last() == nodes@[i as int]);
        if str_eq(k, "text") || str_eq(k, "code") || str_eq(k, "html") {
            push_str(out, child.text.as_str());
        } else if str_eq(k, "soft_break") || str_eq(k, "hard_break") {
            push_char(out, '\n');
        } else {
            proof {
                assert(decreases_to!(nodes@ => nodes@[i as int]));
            }
            append_code_text(child.children.as_slice(), out);
        }
        assert(out@ =~= old(out)@ + code_text(nodes@.take(i + 1)));
        i = i + 1;
    }
    assert(nodes@.take(nodes.len() as int) =~= nodes@);
}

/// The source text of a code block: its own text, or else the text of its children.
pub open spec fn code_block_source(n: MarkdownNode) -> Seq<char> {
    if n.text@.len() > 0 {
        n.text@
    } else {
        code_text(n.children@)
    }
}

/// A code block with text of its own shows exactly that text; one without shows
/// the text of its children, text after text, each line break as a newline.
pub proof fn lemma_code_block_source(n: MarkdownNode, a: MarkdownNode, br: MarkdownNode, b: MarkdownNode)
    ensures
        n.text@.len() > 0 ==> code_block_source(n) == n.text@,
        n.text@.len() == 0 && n.children@ == seq![a] && a.kind@ == "text"@ ==> code_block_source(n)
            == a.text@,
        n.text@.len() == 0 && n.children@ == seq![a, br, b] && a.kind@ == "text"@ && br.kind@
            == "soft_break"@ && b.kind@ == "code"@ ==> code_block_source(n) == a.text@ + seq!['\n']
            + b.text@,
{
    reveal_strlit("text");
    reveal_strlit("soft_break");
    reveal_strlit("code");
    assert(code_text(Seq::<MarkdownNode>::empty()) =~= Seq::<char>::empty());
    assert(is_text_like("text"@) && is_text_like("code"@) && is_break("soft_break"@));
    reveal_strlit("html");
    assert("soft_break"@.len() == 10 && "text"@.len() == 4 && "code"@.len() == 4 && "html"@.len() == 4);
    assert(!is_text_like("soft_break"@));
    assert(seq![a].last() == a);
    assert(seq![a, br].last() == br);
    if n.text@.len() == 0 && n.children@ == seq![a] && a.kind@ == "text"@ {
        let ns = n.children@;
        assert(ns.drop_last() =~= Seq::<MarkdownNode>::empty());
        assert(code_text(ns) =~= a.text@);
    }
    if n.text@.len() == 0 && n.children@ == seq![a, br, b] && a.kind@ == "text"@ && br.kind@
        == "soft_break"@ && b.kind@ == "code"@ {
        let ns = n.children@;
        assert(ns.drop_last() =~= seq![a, br]);
        assert(seq![a, br].drop_last() =~= seq![a]);
        assert(seq![a].drop_last() =~= Seq::<MarkdownNode>::empty());
        assert(code_text(seq![a]) =~= a.text@);
        assert(code_text(seq![a, br]) =~= a.text@ + seq!['\n']);
        assert(code_text(ns) =~= a.text@ + seq!['\n'] + b.text@);
    }
}

/// The source text a code block displays and copies.
pub fn code_block_text(node: &MarkdownNode) -> (text: String)
    ensures
        text@ == code_block_source(*node),
{
    let mut out = String::new();
    push_str(&mut out, node.text.as_str());
    if chars_of(node.text.as_str()).len() == 0 {
        append_code_text(node.children.as_slice(), &mut out);
    }
    assert(out@ =~= code_block_source(*node));
    out
}

/// The title of a code block: its `title` attribute, or the one its info string gives.
pub open spec fn code_block_title_spec(n: MarkdownNode) -> Option<Seq<char>> {
    match attr(n, "title"@) {
        Some(t) => Some(t),
        None => code_title(match attr(n, "language"@) {
            Some(l) => l,
            None => Seq::<char>::empty(),
        }),
    }
}

/// The title shown above a code block, if any.
pub fn code_block_title(node: &MarkdownNode) -> (title: Option<String>)
    ensures
        match title {
            Some(t) => code_block_title_spec(*node) == Some(t@),
            None => code_block_title_spec(*node) is None,
        },
{
    match attr_value(node, "title") {
        Some(t) => Some(t.clone()),
        None => {
            let raw = match attr_value(node, "language") {
                Some(l) => l.clone(),
                None => String::new(),
            };
            extract_code_title(raw.as_str())
        },
    }
}

/// The language badge of a code block.
pub fn code_block_language(node: &MarkdownNode) -> (language: String)
    ensures
        language@ == code_language(
            match attr(*node, "language"@) {
                Some(l) => l,
                None => Seq::<char>::empty(),
            },
        ),
{
    let raw = match attr_value(node, "language") {
        Some(l) => l.clone(),
        None => String::new(),
    };
    clean_language(raw.as_str())
}

} // verus!
