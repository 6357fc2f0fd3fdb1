//! Stripping the common indentation of the lines after the first.
use vstd::prelude::*;

use crate::chars::{is_whitespace, is_ws};
use crate::line_ending::{chars_view, join_spec, split_spec};

verus! {

/// Every character of `l` is whitespace (its trimmed form is empty).
pub open spec fn is_blank(l: Seq<char>) -> bool {
    forall|i: int| 0 <= i < l.len() ==> is_ws(#[trigger] l[i])
}

/// The number of whitespace characters at the start of `l`.
pub open spec fn leading_ws(l: Seq<char>) -> nat
    decreases l.len(),
{
    if l.len() == 0 || !is_ws(l[0]) {
        0
    } else {
        1 + leading_ws(l.skip(1))
    }
}

/// The least indentation among the non-blank lines, if there is one.
pub open spec fn min_indent_opt(lines: Seq<Seq<char>>) -> Option<nat>
    decreases lines.len(),
{
    if lines.len() == 0 {
        None
    } else {
        let prev = min_indent_opt(lines.drop_last());
        let l = lines.last();
        if is_blank(l) {
            prev
        } else {
            match prev {
                None => Some(leading_ws(l)),
                Some(m) => Some(if leading_ws(l) < m { leading_ws(l) } else { m }),
            }
        }
    }
}

/// The least indentation among the non-blank lines, or 0 when all are blank.
pub open spec fn min_indent(lines: Seq<Seq<char>>) -> nat {
    match min_indent_opt(lines) {
        Some(m) => m,
        None => 0,
    }
}

/// A blank line becomes empty; any other loses its first `m` characters.
pub open spec fn rewrite_line(l: Seq<char>, m: nat) -> Seq<char> {
    if is_blank(l) {
        Seq::empty()
    } else {
        l.skip(m as int)
    }
}

/// Each line rewritten with the least indentation of them all.
pub open spec fn rewrite_lines(lines: Seq<Seq<char>>) -> Seq<Seq<char>> {
    lines.map_values(|l: Seq<char>| rewrite_line(l, min_indent(lines)))
}

/// The first line kept as it is (dropped if blank), the others rewritten.
pub open spec fn indent_lines(lines: Seq<Seq<char>>) -> Seq<Seq<char>> {
    let rest = rewrite_lines(lines.skip(1));
    if lines.len() == 0 || is_blank(lines[0]) {
        rest
    } else {
        seq![lines[0]] + rest
    }
}

/// The rewritten form of a text whose newlines are all LF.
pub open spec fn indent_spec(n: Seq<char>) -> Seq<char> {
    join_spec(indent_lines(split_spec(n)), seq!['\n'])
}

/// `leading_ws` counts the whitespace prefix, and stops at a character that is
/// not whitespace.
pub proof fn lemma_leading_ws(l: Seq<char>)
    ensures
        leading_ws(l) <= l.len(),
        forall|j: int| 0 <= j < leading_ws(l) ==> is_ws(#[trigger] l[j]),
        leading_ws(l) < l.len() ==> !is_ws(l[leading_ws(l) as int]),
        is_blank(l) <==> leading_ws(l) == l.len(),
    decreases l.len(),
{
    if l.len() > 0 && is_ws(l[0]) {
        let t = l.skip(1);
        lemma_leading_ws(t);
        assert forall|j: int| 0 <= j < leading_ws(l) implies is_ws(#[trigger] l[j]) by {
            if j > 0 {
                assert(l[j] == t[j - 1]);
            }
        }
        if leading_ws(l) < l.len() {
            assert(l[leading_ws(l) as int] == t[leading_ws(t) as int]);
        }
        if is_blank(l) {
            assert forall|i: int| 0 <= i < t.len() implies is_ws(#[trigger] t[i]) by {
                assert(t[i] == l[i + 1]);
            }
        }
    }
    if leading_ws(l) < l.len() {
        assert(!is_ws(l[leading_ws(l) as int]));
    }
}

/// The least indentation is at most that of every non-blank line and equal to
/// that of one of them; without a non-blank line there is none.
pub proof fn lemma_min_indent(lines: Seq<Seq<char>>)
    ensures
        min_indent_opt(lines) is None <==> forall|i: int|
            0 <= i < lines.len() ==> is_blank(#[trigger] lines[i]),
        min_indent_opt(lines) is Some ==> {
            &&& forall|i: int|
                0 <= i < lines.len() && !is_blank(#[trigger] lines[i]) ==> min_indent(lines)
                    <= leading_ws(lines[i])
            &&& exists|i: int|
                0 <= i < lines.len() && !is_blank(#[trigger] lines[i]) && leading_ws(lines[i])
                    == min_indent(lines)
        },
    decreases lines.len(),
{
    if lines.len() > 0 {
        let p = lines.drop_last();
        lemma_min_indent(p);
        let n = lines.len() - 1;
        assert forall|i: int| 0 <= i < n implies #[trigger] lines[i] == p[i] by {}
        if min_indent_opt(p) is Some {
            let k = choose|i: int|
                0 <= i < p.len() && !is_blank(#[trigger] p[i]) && leading_ws(p[i])
                    == min_indent(p);
            assert(lines[k] == p[k]);
        }
        if !is_blank(lines[n]) {
            assert(lines[n] == lines.last());
        }
    }
}

/// Whether every character of `l` is whitespace.
pub(crate) fn is_blank_chars(l: &Vec<char>) -> (r: bool)
    ensures
        r == is_blank(l@),
{
    let mut i: usize = 0;
    while i < l.len()
        invariant
            i <= l.len(),
            forall|j: int| 0 <= j < i ==> is_ws(#[trigger] l@[j]),
        decreases l.len() - i,
    {
        if !is_whitespace(l[i]) {
            return false;
        }
        i += 1;
    }
    true
}

/// The number of whitespace characters at the start of `l`.
pub(crate) fn leading_ws_chars(l: &Vec<char>) -> (r: usize)
    ensures
        r == leading_ws(l@),
{
    let mut i: usize = 0;
    assert(l@.skip(0) =~= l@);
    while i < l.len() && is_whitespace(l[i])
        invariant
            i <= l.len(),
            leading_ws(l@) == i + leading_ws(l@.skip(i as int)),
        decreases l.len() - i,
    {
        assert(l@.skip(i as int).skip(1) =~= l@.skip(i + 1));
        i += 1;
    }
    i
}

/// The least indentation among the non-blank lines, or 0 when all are blank.
pub(crate) fn min_indent_chars(lines: &Vec<Vec<char>>) -> (r: usize)
    ensures
        r == min_indent(chars_view(lines@)),
{
    let ghost lv = chars_view(lines@);
    let mut found = false;
    let mut m: usize = 0;
    let mut i: usize = 0;
    while i < lines.len()
        invariant
            i <= lines.len(),
            lv == chars_view(lines@),
            !found ==> m == 0,
            min_indent_opt(lv.take(i as int)) == if found {
                Some(m as nat)
            } else {
                None::<nat>
            },
        decreases lines.len() - i,
    {
        assert(lv.take(i + 1).drop_last() =~= lv.take(i as int));
        assert(lv.take(i + 1).last() == lines@[i as int]@);
        if !is_blank_chars(&lines[i]) {
            let w = leading_ws_chars(&lines[i]);
            if !found || w < m {
                m = w;
            }
            found = true;
        }
        i += 1;
    }
    assert(lv.take(i as int) =~= lv);
    m
}

/// Splitting always yields at least one line.
pub proof fn lemma_split_len(s: Seq<char>)
    ensures
        split_spec(s).len() >= 1,
    decreases s.len(),
{
    if s.len() > 0 {
        lemma_split_len(s.drop_last());
    }
}

/// After the rewrite, a blank line is an empty one.
pub proof fn lemma_blank_lines_empty(lines: Seq<Seq<char>>)
    ensures
        forall|i: int|
            0 <= i < indent_lines(lines).len() && is_blank(#[trigger] indent_lines(lines)[i])
                ==> indent_lines(lines)[i].len() == 0,
{
    let rest = lines.skip(1);
    let m = min_indent(rest);
    lemma_min_indent(rest);
    assert forall|i: int|
        0 <= i < rest.len() && is_blank(#[trigger] rewrite_lines(rest)[i]) implies rewrite_lines(
        rest,
    )[i].len() == 0 by {
        let l = rest[i];
        if !is_blank(l) {
            lemma_leading_ws(l);
            let k = leading_ws(l) - m;
            assert(l.skip(m as int)[k] == l[leading_ws(l) as int]);
        }
    }
    let out = indent_lines(lines);
    if !(lines.len() == 0 || is_blank(lines[0])) {
        assert forall|i: int| 0 < i < out.len() implies #[trigger] out[i] == rewrite_lines(
            rest,
        )[i - 1] by {}
        assert(out[0] == lines[0]);
    }
}

/// Copies `l` without its first `m` characters.
pub(crate) fn skip_chars(l: &Vec<char>, m: usize) -> (r: Vec<char>)
    requires
        m <= l.len(),
    ensures
        r@ == l@.skip(m as int),
{
    let mut out: Vec<char> = Vec::new();
    let mut i: usize = m;
    while i < l.len()
        invariant
            m <= i <= l.len(),
            out@ == l@.subrange(m as int, i as int),
        decreases l.len() - i,
    {
        out.push(l[i]);
        i += 1;
        assert(out@ =~= l@.subrange(m as int, i as int));
    }
    assert(out@ =~= l@.skip(m as int));
    out
}

/// Each line rewritten with the least indentation `m` of them all.
pub(crate) fn rewrite_lines_chars(lines: &Vec<Vec<char>>, m: usize) -> (r: Vec<Vec<char>>)
    requires
        m == min_indent(chars_view(lines@)),
    ensures
        chars_view(r@) == rewrite_lines(chars_view(lines@)),
{
    let ghost lv = chars_view(lines@);
    proof {
        lemma_min_indent(lv);
    }
    let mut out: Vec<Vec<char>> = Vec::new();
    let mut i: usize = 0;
    while i < lines.len()
        invariant
            i <= lines.len(),
            lv == chars_view(lines@),
            m == min_indent(lv),
            out@.len() == i,
            forall|j: int| 0 <= j < i ==> (#[trigger] out@[j])@ == rewrite_line(lv[j], m as nat),
            forall|j: int|
                0 <= j < lines.len() && !is_blank(#[trigger] lv[j]) ==> m <= leading_ws(lv[j]),
        decreases lines.len() - i,
    {
        let l = &lines[i];
        assert(lv[i as int] == l@);
        if is_blank_chars(l) {
            out.push(Vec::new());
        } else {
            proof {
                lemma_leading_ws(l@);
            }
            out.push(skip_chars(l, m));
        }
        i += 1;
    }
    assert(chars_view(out@) =~= rewrite_lines(lv));
    out
}

} // verus!
