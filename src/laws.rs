//! Properties of the rewrite that hold for every input.
use vstd::prelude::*;

use crate::auto_indent_spec;
use crate::chars::is_ws;
use crate::indent::{
    indent_lines, indent_spec, is_blank, leading_ws, lemma_leading_ws, lemma_min_indent,
    min_indent, rewrite_lines,
};
use crate::line_ending::{
    crlf_at, detect_spec, has_crlf, join_spec, normalize_spec, restore_spec, split_spec, LineEnding,
};

verus! {


/// `s` ends with `suffix`.
pub open spec fn ends_with(s: Seq<char>, suffix: Seq<char>) -> bool {
    suffix.len() <= s.len() && s.skip(s.len() - suffix.len()) == suffix
}

/// Splitting at line feeds: joining the lines back gives the text, no line
/// holds a line feed, and the last line is empty exactly when the text is empty
/// or ends with a line feed.
pub proof fn lemma_split(s: Seq<char>)
    ensures
        split_spec(s).len() >= 1,
        join_spec(split_spec(s), seq!['\n']) == s,
        forall|i: int| 0 <= i < split_spec(s).len() ==> lacks(#[trigger] split_spec(s)[i], '\n'),
        split_spec(s).last().len() == 0 <==> (s.len() == 0 || s.last() == '\n'),
    decreases s.len(),
{
    if s.len() > 0 {
        let d = s.drop_last();
        lemma_split(d);
        let p = split_spec(d);
        let q = split_spec(s);
        if s.last() == '\n' {
            assert(q.drop_last() =~= p);
            assert(join_spec(q, seq!['\n']) =~= s);
            assert forall|i: int| 0 <= i < q.len() implies lacks(#[trigger] q[i], '\n') by {
                if i < p.len() {
                    assert(q[i] == p[i]);
                }
            }
        } else {
            let x = p.last().push(s.last());
            if p.len() == 1 {
                assert(q.len() == 1 && q[0] == x);
                assert(join_spec(p, seq!['\n']) == p[0]);
                assert(join_spec(q, seq!['\n']) == q[0]);
                assert(s =~= d.push(s.last()));
            } else {
                assert(q.drop_last() =~= p.drop_last());
                assert(q.last() == x);
                let a = join_spec(p.drop_last(), seq!['\n']);
                assert(join_spec(q, seq!['\n']) == a + seq!['\n'] + x);
                assert(join_spec(p, seq!['\n']) == a + seq!['\n'] + p.last());
                assert(s =~= d.push(s.last()));
                assert(join_spec(q, seq!['\n']) =~= s);
            }
            assert forall|i: int| 0 <= i < q.len() implies lacks(#[trigger] q[i], '\n') by {
                if i < p.len() - 1 {
                    assert(q[i] == p[i]);
                } else {
                    assert(lacks(p[p.len() - 1], '\n'));
                }
            }
        }
    }
}

/// Dropping `m` characters of whitespace from the front lowers the count of
/// leading whitespace by `m`.
pub proof fn lemma_leading_ws_skip(l: Seq<char>, m: nat)
    requires
        m <= leading_ws(l),
    ensures
        leading_ws(l.skip(m as int)) == leading_ws(l) - m,
    decreases m,
{
    lemma_leading_ws(l);
    if m > 0 {
        assert(is_ws(l[0]));
        lemma_leading_ws_skip(l.skip(1), (m - 1) as nat);
        assert(l.skip(1).skip(m - 1) =~= l.skip(m as int));
    } else {
        assert(l.skip(0) =~= l);
    }
}

/// After the rewrite, each non-blank line has lost exactly the least
/// indentation of the lines, which is no more than its own, and one non-blank
/// line, where there is one, starts without whitespace.
pub proof fn lemma_min_indent_removed(lines: Seq<Seq<char>>)
    ensures
        rewrite_lines(lines).len() == lines.len(),
        forall|i: int|
            0 <= i < lines.len() && !is_blank(#[trigger] lines[i]) ==> {
                &&& min_indent(lines) <= leading_ws(lines[i])
                &&& leading_ws(rewrite_lines(lines)[i]) == leading_ws(lines[i]) - min_indent(
                    lines,
                )
            },
        (exists|i: int| 0 <= i < lines.len() && !is_blank(#[trigger] lines[i])) ==> exists|
            i: int,
        |
            0 <= i < lines.len() && !is_blank(#[trigger] lines[i]) && leading_ws(
                rewrite_lines(lines)[i],
            ) == 0,
{
    lemma_min_indent(lines);
    let m = min_indent(lines);
    assert forall|i: int|
        0 <= i < lines.len() && !is_blank(#[trigger] lines[i]) implies leading_ws(
        rewrite_lines(lines)[i],
    ) == leading_ws(lines[i]) - m by {
        lemma_leading_ws_skip(lines[i], m);
    }
    if exists|i: int| 0 <= i < lines.len() && !is_blank(#[trigger] lines[i]) {
        let k = choose|i: int|
            0 <= i < lines.len() && !is_blank(#[trigger] lines[i]) && leading_ws(lines[i]) == m;
        lemma_leading_ws_skip(lines[k], m);
    }
}

/// The character `c` does not occur in `s`.
pub open spec fn lacks(s: Seq<char>, c: char) -> bool {
    forall|i: int| 0 <= i < s.len() ==> s[i] != c
}

/// Normalising leaves no carriage return, and the result ends with a line feed
/// exactly when the text ends with a line feed or a carriage return.
pub proof fn lemma_normalize(s: Seq<char>)
    ensures
        lacks(normalize_spec(s), '\r'),
        normalize_spec(s).len() > 0 && normalize_spec(s).last() == '\n' <==> s.len() > 0 && (
        s.last() == '\n' || s.last() == '\r'),
    decreases s.len(),
{
    if s.len() > 0 {
        let d = s.drop_last();
        lemma_normalize(d);
        if s.last() == '\n' && s.len() >= 2 && s[s.len() - 2] == '\r' {
            assert(d.last() == '\r');
        }
    }
}

/// Lines split from a text that lacks `c` lack it too.
pub proof fn lemma_split_lacks(s: Seq<char>, c: char)
    requires
        lacks(s, c),
    ensures
        forall|i: int| 0 <= i < split_spec(s).len() ==> lacks(#[trigger] split_spec(s)[i], c),
    decreases s.len(),
{
    if s.len() > 0 {
        let d = s.drop_last();
        lemma_split(d);
        lemma_split_lacks(d, c);
        let p = split_spec(d);
        let q = split_spec(s);
        assert forall|i: int| 0 <= i < q.len() implies lacks(#[trigger] q[i], c) by {
            if i < p.len() - 1 {
                assert(q[i] == p[i]);
            } else if i == p.len() - 1 {
                assert(lacks(p[i], c));
                assert(s.last() == s[s.len() - 1]);
            }
        }
    }
}

/// Lines that lack `c`, joined with a separator that lacks it, lack it.
pub proof fn lemma_join_lacks(lines: Seq<Seq<char>>, sep: Seq<char>, c: char)
    requires
        lacks(sep, c),
        forall|i: int| 0 <= i < lines.len() ==> lacks(#[trigger] lines[i], c),
    ensures
        lacks(join_spec(lines, sep), c),
    decreases lines.len(),
{
    if lines.len() > 1 {
        let p = lines.drop_last();
        assert forall|i: int| 0 <= i < p.len() implies lacks(#[trigger] p[i], c) by {
            assert(p[i] == lines[i]);
        }
        lemma_join_lacks(p, sep, c);
        assert(lacks(lines[lines.len() - 1], c));
    } else if lines.len() == 1 {
        assert(lacks(lines[0], c));
    }
}

/// Each rewritten line lacks `c` when every line does.
pub proof fn lemma_indent_lines_lack(lines: Seq<Seq<char>>, c: char)
    requires
        lines.len() >= 1,
        forall|i: int| 0 <= i < lines.len() ==> lacks(#[trigger] lines[i], c),
    ensures
        forall|i: int|
            0 <= i < indent_lines(lines).len() ==> lacks(#[trigger] indent_lines(lines)[i], c),
{
    let rest = lines.skip(1);
    let out = indent_lines(lines);
    lemma_min_indent(rest);
    assert forall|i: int| 0 <= i < rest.len() implies lacks(
        #[trigger] rewrite_lines(rest)[i],
        c,
    ) by {
        assert(rest[i] == lines[i + 1]);
        assert(lacks(lines[i + 1], c));
        lemma_leading_ws(rest[i]);
    }
    assert forall|i: int| 0 <= i < out.len() implies lacks(#[trigger] out[i], c) by {
        if !(lines.len() == 0 || is_blank(lines[0])) {
            if i > 0 {
                assert(out[i] == rewrite_lines(rest)[i - 1]);
            } else {
                assert(lacks(lines[0], c));
            }
        }
    }
}

/// The rewritten text of a text without carriage returns has none either.
pub proof fn lemma_indent_lacks_cr(n: Seq<char>)
    requires
        lacks(n, '\r'),
    ensures
        lacks(indent_spec(n), '\r'),
{
    let lines = split_spec(n);
    lemma_split(n);
    lemma_split_lacks(n, '\r');
    lemma_indent_lines_lack(lines, '\r');
    lemma_join_lacks(indent_lines(lines), seq!['\n'], '\r');
}

/// Every character is whitespace or a line feed.
pub open spec fn ws_or_lf(s: Seq<char>) -> bool {
    forall|i: int| 0 <= i < s.len() ==> is_ws(#[trigger] s[i]) || s[i] == '\n'
}

/// Normalising a text of whitespace alone leaves whitespace and line feeds.
pub proof fn lemma_normalize_blank(s: Seq<char>)
    requires
        is_blank(s),
    ensures
        ws_or_lf(normalize_spec(s)),
    decreases s.len(),
{
    if s.len() > 0 {
        let d = s.drop_last();
        assert forall|i: int| 0 <= i < d.len() implies is_ws(#[trigger] d[i]) by {
            assert(d[i] == s[i]);
        }
        lemma_normalize_blank(d);
        assert(is_ws(s[s.len() - 1]));
    }
}

/// The lines of a text of whitespace and line feeds are blank.
pub proof fn lemma_split_blank(s: Seq<char>)
    requires
        ws_or_lf(s),
    ensures
        forall|i: int| 0 <= i < split_spec(s).len() ==> is_blank(#[trigger] split_spec(s)[i]),
    decreases s.len(),
{
    if s.len() > 0 {
        let d = s.drop_last();
        assert forall|i: int| 0 <= i < d.len() implies is_ws(#[trigger] d[i]) || d[i] == '\n' by {
            assert(d[i] == s[i]);
        }
        lemma_split(d);
        lemma_split_blank(d);
        let p = split_spec(d);
        let q = split_spec(s);
        assert(ws_or_lf(s) ==> (is_ws(s[s.len() - 1]) || s[s.len() - 1] == '\n'));
        assert forall|i: int| 0 <= i < q.len() implies is_blank(#[trigger] q[i]) by {
            if i < p.len() - 1 {
                assert(q[i] == p[i]);
            } else if i == p.len() - 1 {
                assert(is_blank(p[i]));
            }
        }
    }
}

/// Lines without line feeds, joined with line feeds, end with a line feed
/// exactly when there are two or more and the last is empty.
pub proof fn lemma_join_ends(lines: Seq<Seq<char>>)
    requires
        lines.len() >= 1,
        forall|i: int| 0 <= i < lines.len() ==> lacks(#[trigger] lines[i], '\n'),
    ensures
        ({
            let j = join_spec(lines, seq!['\n']);
            j.len() > 0 && j.last() == '\n'
        }) <==> lines.len() >= 2 && lines.last().len() == 0,
{
    let j = join_spec(lines, seq!['\n']);
    let l = lines.last();
    assert(lacks(lines[lines.len() - 1], '\n'));
    if lines.len() >= 2 {
        let a = join_spec(lines.drop_last(), seq!['\n']);
        assert(j == a + seq!['\n'] + l);
        if l.len() > 0 {
            assert(j.last() == l.last());
        }
    } else if j.len() > 0 {
        assert(j == lines[0]);
        assert(j.last() == j[j.len() - 1]);
    }
}

/// Blank lines joined with line feeds make a blank text.
pub proof fn lemma_join_blank(lines: Seq<Seq<char>>)
    requires
        forall|i: int| 0 <= i < lines.len() ==> is_blank(#[trigger] lines[i]),
    ensures
        is_blank(join_spec(lines, seq!['\n'])),
    decreases lines.len(),
{
    if lines.len() > 1 {
        let p = lines.drop_last();
        assert forall|i: int| 0 <= i < p.len() implies is_blank(#[trigger] p[i]) by {
            assert(p[i] == lines[i]);
        }
        lemma_join_blank(p);
        let a = join_spec(p, seq!['\n']);
        let l = lines[lines.len() - 1];
        assert(is_blank(l));
        let j = a + seq!['\n'] + l;
        assert forall|i: int| 0 <= i < j.len() implies is_ws(#[trigger] j[i]) by {
            if i < a.len() {
                assert(j[i] == a[i]);
            } else if i > a.len() {
                assert(j[i] == l[i - a.len() - 1]);
            }
        }
    } else if lines.len() == 1 {
        assert(is_blank(lines[0]));
    }
}

/// A text is blank when its normalised form is.
pub proof fn lemma_blank_from_normalize(s: Seq<char>)
    requires
        is_blank(normalize_spec(s)),
    ensures
        is_blank(s),
    decreases s.len(),
{
    if s.len() > 0 {
        let d = s.drop_last();
        let p = normalize_spec(d);
        let n = normalize_spec(s);
        assert forall|i: int| 0 <= i < p.len() implies is_ws(#[trigger] p[i]) by {
            assert(n[i] == p[i]);
        }
        lemma_blank_from_normalize(d);
        let c = s[s.len() - 1];
        assert(s.last() == c);
        if c != '\r' && c != '\n' {
            assert(n[p.len() as int] == c);
        }
        assert forall|i: int| 0 <= i < s.len() implies is_ws(#[trigger] s[i]) by {
            if i < d.len() {
                assert(s[i] == d[i]);
            }
        }
    }
}

/// A text without carriage returns, restored to a convention, ends with that
/// convention's newline exactly when it ends with a line feed.
pub proof fn lemma_restore_ends(t: Seq<char>, k: LineEnding)
    requires
        lacks(t, '\r'),
    ensures
        ends_with(restore_spec(t, k.spec_chars()), k.spec_chars()) <==> t.len() > 0 && t.last()
            == '\n',
{
    let nl = k.spec_chars();
    let r = restore_spec(t, nl);
    if t.len() > 0 {
        let p = restore_spec(t.drop_last(), nl);
        if t.last() == '\n' {
            assert(r.skip(r.len() - nl.len()) =~= nl);
        } else {
            assert(t.last() == t[t.len() - 1]);
            if ends_with(r, nl) {
                assert(r.last() == nl.last());
            }
        }
    }
}

/// The rewrite ends with a newline exactly when the normalised input does.
/// This holds of every input that is not whitespace alone and whose last line
/// is either empty or not blank: a last line of whitespace alone, as in
/// `"a\n  b\n  "`, is emptied, which leaves the newline before it at the end.
pub proof fn lemma_trailing_newline(s: Seq<char>)
    requires
        !is_blank(s),
        split_spec(normalize_spec(s)).last().len() == 0 || !is_blank(
            split_spec(normalize_spec(s)).last(),
        ),
    ensures
        ends_with(auto_indent_spec(s), detect_spec(s).spec_chars()) <==> normalize_spec(s).len()
            > 0 && normalize_spec(s).last() == '\n',
{
    let n = normalize_spec(s);
    lemma_normalize(s);
    lemma_indent_lacks_cr(n);
    lemma_restore_ends(indent_spec(n), detect_spec(s));
    let lines = split_spec(n);
    lemma_split(n);
    if forall|i: int| 0 <= i < lines.len() ==> is_blank(#[trigger] lines[i]) {
        lemma_join_blank(lines);
        lemma_blank_from_normalize(s);
    }
    lemma_indent_lines_lack(lines, '\n');
    let out = indent_lines(lines);
    let rest = lines.skip(1);
    lemma_min_indent(rest);
    let t = indent_spec(n);
    if lines.len() == 1 {
        assert(join_spec(lines, seq!['\n']) == lines[0]);
        assert(!is_blank(lines[0]));
        assert(out =~= seq![lines[0]]);
        assert(t == lines[0]);
        if n.len() > 0 {
            assert(lacks(lines[0], '\n'));
            assert(n.last() == n[n.len() - 1]);
        }
    } else {
        let last = lines.last();
        assert(last == rest[rest.len() - 1]);
        let w = rewrite_lines(rest)[rest.len() - 1];
        assert(out.last() == w);
        if !is_blank(last) {
            lemma_leading_ws(last);
            lemma_leading_ws_skip(last, min_indent(rest));
        }
        lemma_join_ends(out);
        lemma_join_ends(lines);
        assert(out.len() >= 2 || (out.len() == 1 && is_blank(lines[0]) && lines.len() == 2));
        if out.len() == 1 {
            assert(lines[1] == last);
            assert(!is_blank(last));
            assert(out[0] == w);
            lemma_join_ends(lines);
        }
    }
}

/// `s` writes its newlines in convention `k` alone: no carriage return for LF,
/// no line feed for CR, and for CRLF every carriage return followed by a line
/// feed and every line feed preceded by a carriage return.
pub open spec fn uses_only(s: Seq<char>, k: LineEnding) -> bool {
    match k {
        LineEnding::LF => lacks(s, '\r'),
        LineEnding::CR => lacks(s, '\n'),
        LineEnding::CRLF => forall|i: int|
            0 <= i < s.len() ==> (#[trigger] s[i] == '\r' ==> i + 1 < s.len() && s[i + 1] == '\n')
                && (s[i] == '\n' ==> i > 0 && s[i - 1] == '\r'),
    }
}

/// Restoring appends the newline for a line feed and the character itself
/// for any other.
pub proof fn lemma_restore_push(t: Seq<char>, c: char, nl: Seq<char>)
    ensures
        restore_spec(t.push(c), nl) == if c == '\n' {
            restore_spec(t, nl) + nl
        } else {
            restore_spec(t, nl).push(c)
        },
{
    assert(t.push(c).drop_last() =~= t);
}

/// A text written in one convention comes back unchanged when normalised and
/// then restored to that convention.
pub proof fn lemma_round_trip(s: Seq<char>, k: LineEnding)
    requires
        uses_only(s, k),
    ensures
        restore_spec(normalize_spec(s), k.spec_chars()) == s,
    decreases s.len(),
{
    let nl = k.spec_chars();
    if s.len() > 0 {
        let n = s.len() - 1;
        let d = s.drop_last();
        let c = s[n];
        assert(s.last() == c);
        assert(s =~= d.push(c));
        if k == LineEnding::CRLF && c == '\n' {
            assert(s[n - 1] == '\r');
            let dd = d.drop_last();
            assert(d.last() == '\r');
            assert forall|i: int| 0 <= i < dd.len() implies (#[trigger] dd[i] == '\r' ==> i + 1
                < dd.len() && dd[i + 1] == '\n') && (dd[i] == '\n' ==> i > 0 && dd[i - 1]
                == '\r') by {
                assert(dd[i] == s[i]);
                assert(s[i] == '\r' ==> i + 1 < s.len() && s[i + 1] == '\n');
                assert(s[i] == '\n' ==> i > 0 && s[i - 1] == '\r');
                if i + 1 < dd.len() {
                    assert(dd[i + 1] == s[i + 1]);
                }
                if i > 0 {
                    assert(dd[i - 1] == s[i - 1]);
                }
            }
            lemma_round_trip(dd, k);
            lemma_restore_push(normalize_spec(dd), '\n', nl);
            assert(d =~= dd.push('\r'));
            assert(normalize_spec(s) == normalize_spec(d));
            assert(normalize_spec(d) == normalize_spec(dd).push('\n'));
            assert(s =~= dd + nl);
        } else {
            assert forall|i: int| 0 <= i < d.len() implies d[i] == s[i] by {}
            if k == LineEnding::CRLF {
                assert forall|i: int| 0 <= i < d.len() implies (#[trigger] d[i] == '\r' ==> i + 1
                    < d.len() && d[i + 1] == '\n') && (d[i] == '\n' ==> i > 0 && d[i - 1]
                    == '\r') by {
                    assert(s[i] == '\r' ==> i + 1 < s.len() && s[i + 1] == '\n');
                    assert(s[i] == '\n' ==> i > 0 && s[i - 1] == '\r');
                    if i + 1 < d.len() {
                        assert(d[i + 1] == s[i + 1]);
                    }
                    if i > 0 {
                        assert(d[i - 1] == s[i - 1]);
                    }
                }
                assert(s[n] == '\r' ==> n + 1 < s.len());
            }
            lemma_round_trip(d, k);
            let x = if c == '\r' { '\n' } else { c };
            if k == LineEnding::LF {
                assert(s[n] != '\r');
                if n > 0 {
                    assert(s[n - 1] != '\r');
                }
            }
            if k == LineEnding::CR {
                assert(s[n] != '\n');
            }
            assert(normalize_spec(s) == normalize_spec(d).push(x));
            lemma_restore_push(normalize_spec(d), x, nl);
            assert(restore_spec(normalize_spec(d), nl) == d);
            if c == '\r' {
                assert(k == LineEnding::CR);
            } else if c == '\n' {
                assert(k == LineEnding::LF);
            }
        }
    } else {
        assert(s =~= Seq::<char>::empty());
    }
}

/// A text without carriage returns, restored to convention `k`, uses `k` alone.
pub proof fn lemma_restore_uses_only(t: Seq<char>, k: LineEnding)
    requires
        lacks(t, '\r'),
    ensures
        uses_only(restore_spec(t, k.spec_chars()), k),
    decreases t.len(),
{
    let nl = k.spec_chars();
    if t.len() > 0 {
        let d = t.drop_last();
        let c = t[t.len() - 1];
        assert(t.last() == c);
        assert forall|i: int| 0 <= i < d.len() implies d[i] != '\r' by {
            assert(d[i] == t[i]);
        }
        lemma_restore_uses_only(d, k);
        let p = restore_spec(d, nl);
        let r = restore_spec(t, nl);
        let tail = if c == '\n' { nl } else { seq![c] };
        assert(r =~= p + tail);
        assert forall|i: int| 0 <= i < r.len() implies #[trigger] r[i] == if i < p.len() {
            p[i]
        } else {
            tail[i - p.len()]
        } by {}
        if k == LineEnding::CRLF {
            assert forall|i: int| 0 <= i < r.len() implies (#[trigger] r[i] == '\r' ==> i + 1
                < r.len() && r[i + 1] == '\n') && (r[i] == '\n' ==> i > 0 && r[i - 1]
                == '\r') by {
                if i < p.len() {
                    assert(p[i] == '\r' ==> i + 1 < p.len() && p[i + 1] == '\n');
                    assert(p[i] == '\n' ==> i > 0 && p[i - 1] == '\r');
                }
            }
        }
    }
}

/// A text without newlines is left as it is by normalising, splitting and
/// restoring.
pub proof fn lemma_no_newline(s: Seq<char>, nl: Seq<char>)
    requires
        lacks(s, '\r'),
        lacks(s, '\n'),
    ensures
        normalize_spec(s) == s,
        split_spec(s) == seq![s],
        restore_spec(s, nl) == s,
    decreases s.len(),
{
    if s.len() > 0 {
        let d = s.drop_last();
        assert forall|i: int| 0 <= i < d.len() implies d[i] != '\r' && d[i] != '\n' by {
            assert(d[i] == s[i]);
        }
        lemma_no_newline(d, nl);
        assert(s.last() == s[s.len() - 1]);
        assert(s =~= d.push(s.last()));
        assert(split_spec(s) =~= seq![s]);
    } else {
        assert(s =~= Seq::<char>::empty());
    }
}

/// The output writes its newlines in the convention detected in the input
/// alone; and an input that writes them in one convention alone is given back,
/// once normalised, unchanged by restoring that convention, and has an output
/// in that convention alone.
pub proof fn lemma_line_endings_kept(s: Seq<char>, k: LineEnding)
    ensures
        uses_only(auto_indent_spec(s), detect_spec(s)),
        uses_only(s, k) ==> restore_spec(normalize_spec(s), k.spec_chars()) == s,
        uses_only(s, k) ==> uses_only(auto_indent_spec(s), k),
{
    let n = normalize_spec(s);
    lemma_normalize(s);
    if !is_blank(s) {
        lemma_indent_lacks_cr(n);
        lemma_restore_uses_only(indent_spec(n), detect_spec(s));
    }
    if uses_only(s, k) {
        lemma_round_trip(s, k);
        if detect_spec(s) != k {
            if k == LineEnding::CRLF {
                assert forall|i: int| 0 <= i < s.len() implies s[i] != '\r' && s[i] != '\n' by {
                    assert(s[i] == '\r' ==> i + 1 < s.len() && s[i + 1] == '\n');
                    assert(s[i] == '\n' ==> i > 0 && s[i - 1] == '\r');
                    if s[i] == '\r' {
                        assert(crlf_at(s, i));
                    }
                    if s[i] == '\n' {
                        assert(crlf_at(s, i - 1));
                    }
                }
            } else if k == LineEnding::CR {
                assert(!has_crlf(s)) by {
                    if has_crlf(s) {
                        let i = choose|i: int| crlf_at(s, i);
                        assert(s[i + 1] == '\n');
                    }
                }
            }
            lemma_no_newline(s, detect_spec(s).spec_chars());
            if !is_blank(s) {
                let lines = split_spec(s);
                assert(lines[0] == s);
                assert(indent_lines(lines) =~= seq![s]);
                assert(indent_spec(n) == s);
            }
            let out = auto_indent_spec(s);
            assert(lacks(out, '\r') && lacks(out, '\n'));
        }
    }
}

/// A text already flush is left unchanged: when the first line is not blank,
/// every blank line after it is empty, and the lines after it share no
/// indentation, the rewrite gives back the normalised text, so an input in one
/// newline convention comes out exactly as it went in.
pub proof fn lemma_flush_unchanged(s: Seq<char>)
    requires
        !is_blank(split_spec(normalize_spec(s))[0]),
        forall|i: int|
            1 <= i < split_spec(normalize_spec(s)).len() && is_blank(
                #[trigger] split_spec(normalize_spec(s))[i],
            ) ==> split_spec(normalize_spec(s))[i].len() == 0,
        min_indent(split_spec(normalize_spec(s)).skip(1)) == 0,
    ensures
        indent_spec(normalize_spec(s)) == normalize_spec(s),
        auto_indent_spec(s) == restore_spec(normalize_spec(s), detect_spec(s).spec_chars()),
        uses_only(s, detect_spec(s)) ==> auto_indent_spec(s) == s,
{
    let n = normalize_spec(s);
    let lines = split_spec(n);
    lemma_split(n);
    if is_blank(s) {
        lemma_normalize_blank(s);
        lemma_split_blank(n);
    }
    let rest = lines.skip(1);
    assert forall|i: int| 0 <= i < rest.len() implies #[trigger] rewrite_lines(rest)[i]
        == rest[i] by {
        assert(rest[i] == lines[i + 1]);
        if is_blank(rest[i]) {
            assert(rest[i] =~= Seq::<char>::empty());
        } else {
            assert(rest[i].skip(0) =~= rest[i]);
        }
    }
    assert(indent_lines(lines) =~= lines);
    if uses_only(s, detect_spec(s)) {
        lemma_round_trip(s, detect_spec(s));
    }
}

} // verus!
