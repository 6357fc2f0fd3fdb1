//! Detecting, normalising and restoring the newline convention of a text.
use vstd::prelude::*;

use crate::chars::{from_chars, to_chars};

verus! {

/// The newline convention of a text.
#[derive(Debug, Clone, Copy, PartialEq, Eq, Structural)]
pub enum LineEnding {
    /// `"\n"`
    LF,
    /// `"\r\n"`
    CRLF,
    /// `"\r"`
    CR,
}

/// A carriage return immediately followed by a line feed starts at `i`.
pub open spec fn crlf_at(s: Seq<char>, i: int) -> bool {
    0 <= i && i + 1 < s.len() && s[i] == '\r' && s[i + 1] == '\n'
}

pub open spec fn has_crlf(s: Seq<char>) -> bool {
    exists|i: int| #[trigger] crlf_at(s, i)
}

pub open spec fn has_cr(s: Seq<char>) -> bool {
    exists|i: int| 0 <= i < s.len() && s[i] == '\r'
}

/// The convention of a whole text: CRLF if it holds one anywhere, else CR if it
/// holds a carriage return, else LF.
pub open spec fn detect_spec(s: Seq<char>) -> LineEnding {
    if has_crlf(s) {
        LineEnding::CRLF
    } else if has_cr(s) {
        LineEnding::CR
    } else {
        LineEnding::LF
    }
}

/// `s` with every CRLF pair and every lone CR turned into one LF.
pub open spec fn normalize_spec(s: Seq<char>) -> Seq<char>
    decreases s.len(),
{
    if s.len() == 0 {
        Seq::empty()
    } else {
        let p = normalize_spec(s.drop_last());
        let c = s.last();
        if c == '\r' {
            p.push('\n')
        } else if c == '\n' && s.len() >= 2 && s[s.len() - 2] == '\r' {
            p
        } else {
            p.push(c)
        }
    }
}

/// `s` with every LF replaced by `nl`.
pub open spec fn restore_spec(s: Seq<char>, nl: Seq<char>) -> Seq<char>
    decreases s.len(),
{
    if s.len() == 0 {
        Seq::empty()
    } else {
        let p = restore_spec(s.drop_last(), nl);
        if s.last() == '\n' {
            p + nl
        } else {
            p.push(s.last())
        }
    }
}

/// The lines of `s`, split at each LF; the LF itself belongs to no line.
/// The last line is empty exactly when `s` ends with an LF.
pub open spec fn split_spec(s: Seq<char>) -> Seq<Seq<char>>
    decreases s.len(),
{
    if s.len() == 0 {
        seq![Seq::empty()]
    } else {
        let p = split_spec(s.drop_last());
        if s.last() == '\n' {
            p.push(Seq::empty())
        } else {
            p.update(p.len() - 1, p.last().push(s.last()))
        }
    }
}

/// The lines joined, with `sep` between each two neighbours.
pub open spec fn join_spec(lines: Seq<Seq<char>>, sep: Seq<char>) -> Seq<char>
    decreases lines.len(),
{
    if lines.len() == 0 {
        Seq::empty()
    } else if lines.len() == 1 {
        lines[0]
    } else {
        join_spec(lines.drop_last(), sep) + sep + lines.last()
    }
}

/// The characters of each string.
pub open spec fn strings_view(v: Seq<String>) -> Seq<Seq<char>> {
    v.map_values(|l: String| l@)
}

impl LineEnding {
    /// The newline sequence of this convention.
    pub open spec fn spec_chars(self) -> Seq<char> {
        match self {
            LineEnding::LF => seq!['\n'],
            LineEnding::CRLF => seq!['\r', '\n'],
            LineEnding::CR => seq!['\r'],
        }
    }

    /// Detects the convention of `s` (see `detect_spec`).
    pub fn detect(s: &str) -> (r: Self)
        ensures
            r == detect_spec(s@),
    {
        let v = to_chars(s);
        Self::detect_chars(&v)
    }

    /// The same as `detect`.
    pub fn from(s: &str) -> (r: Self)
        ensures
            r == detect_spec(s@),
    {
        Self::detect(s)
    }

    pub(crate) fn detect_chars(v: &Vec<char>) -> (r: Self)
        ensures
            r == detect_spec(v@),
    {
        let mut crlf = false;
        let mut cr = false;
        let mut i: usize = 0;
        while i < v.len()
            invariant
                i <= v.len(),
                crlf <==> exists|j: int| j < i && #[trigger] crlf_at(v@, j),
                cr <==> exists|j: int| 0 <= j < i && v@[j] == '\r',
            decreases v.len() - i,
        {
            if v[i] == '\r' {
                cr = true;
                if i + 1 < v.len() && v[i + 1] == '\n' {
                    crlf = true;
                    assert(crlf_at(v@, i as int));
                }
            }
            i += 1;
        }
        if crlf {
            LineEnding::CRLF
        } else if cr {
            LineEnding::CR
        } else {
            LineEnding::LF
        }
    }

    /// Rewrites every CRLF pair and every lone CR as one LF.
    pub fn normalize(s: &str) -> (r: String)
        ensures
            r@ == normalize_spec(s@),
    {
        let v = to_chars(s);
        let n = normalize_chars(&v);
        from_chars(&n)
    }

    /// Replaces every LF of `s` by this convention's newline.
    pub fn restore(&self, s: &str) -> (r: String)
        ensures
            r@ == restore_spec(s@, self.spec_chars()),
    {
        let v = to_chars(s);
        let out = self.restore_chars(&v);
        from_chars(&out)
    }

    /// The same as `restore`.
    pub fn denormalize(&self, s: &str) -> (r: String)
        ensures
            r@ == restore_spec(s@, self.spec_chars()),
    {
        self.restore(s)
    }

    /// Joins the lines with this convention's newline.
    pub fn restore_from_lines(&self, lines: Vec<String>) -> (r: String)
        ensures
            r@ == join_spec(strings_view(lines@), self.spec_chars()),
    {
        let mut v: Vec<Vec<char>> = Vec::new();
        let mut i: usize = 0;
        while i < lines.len()
            invariant
                i <= lines.len(),
                v@.len() == i,
                forall|j: int| 0 <= j < i ==> #[trigger] v@[j]@ == lines@[j]@,
            decreases lines.len() - i,
        {
            v.push(to_chars(lines[i].as_str()));
            i += 1;
        }
        assert(chars_view(v@) =~= strings_view(lines@));
        let out = self.join_chars(&v);
        from_chars(&out)
    }

    /// The same as `restore_from_lines`.
    pub fn apply_to_lines(&self, lines: Vec<String>) -> (r: String)
        ensures
            r@ == join_spec(strings_view(lines@), self.spec_chars()),
    {
        self.restore_from_lines(lines)
    }

    /// Splits `s` at each LF (see `split_spec`).
    pub fn split_into_lines(s: &str) -> (r: Vec<String>)
        ensures
            strings_view(r@) == split_spec(s@),
    {
        let v = to_chars(s);
        let lines = split_chars(&v);
        let mut r: Vec<String> = Vec::new();
        let mut i: usize = 0;
        while i < lines.len()
            invariant
                i <= lines.len(),
                r@.len() == i,
                forall|j: int| 0 <= j < i ==> #[trigger] r@[j]@ == lines@[j]@,
            decreases lines.len() - i,
        {
            r.push(from_chars(&lines[i]));
            i += 1;
        }
        assert(strings_view(r@) =~= chars_view(lines@));
        r
    }

    /// The newline sequence of this convention, as characters.
    pub(crate) fn newline_chars(&self) -> (r: Vec<char>)
        ensures
            r@ == self.spec_chars(),
    {
        match self {
            LineEnding::LF => vec!['\n'],
            LineEnding::CRLF => vec!['\r', '\n'],
            LineEnding::CR => vec!['\r'],
        }
    }

    pub(crate) fn restore_chars(&self, v: &Vec<char>) -> (r: Vec<char>)
        ensures
            r@ == restore_spec(v@, self.spec_chars()),
    {
        let nl = self.newline_chars();
        let mut out: Vec<char> = Vec::new();
        let mut i: usize = 0;
        while i < v.len()
            invariant
                i <= v.len(),
                nl@ == self.spec_chars(),
                out@ == restore_spec(v@.take(i as int), nl@),
            decreases v.len() - i,
        {
            assert(v@.take(i + 1).drop_last() =~= v@.take(i as int));
            if v[i] == '\n' {
                append_chars(&mut out, &nl);
            } else {
                out.push(v[i]);
            }
            i += 1;
        }
        assert(v@.take(i as int) =~= v@);
        out
    }

    pub(crate) fn join_chars(&self, lines: &Vec<Vec<char>>) -> (r: Vec<char>)
        ensures
            r@ == join_spec(chars_view(lines@), self.spec_chars()),
    {
        let nl = self.newline_chars();
        let mut out: Vec<char> = Vec::new();
        let mut i: usize = 0;
        while i < lines.len()
            invariant
                i <= lines.len(),
                nl@ == self.spec_chars(),
                out@ == join_spec(chars_view(lines@).take(i as int), nl@),
            decreases lines.len() - i,
        {
            let ghost lv = chars_view(lines@);
            assert(lv.take(i + 1).drop_last() =~= lv.take(i as int));
            if i > 0 {
                append_chars(&mut out, &nl);
            }
            append_chars(&mut out, &lines[i]);
            i += 1;
        }
        assert(chars_view(lines@).take(i as int) =~= chars_view(lines@));
        out
    }
    /// The newline sequence of this convention.
    pub fn as_str(&self) -> (r: &'static str)
        ensures
            r@ == self.spec_chars(),
    {
        match self {
            LineEnding::LF => {
                proof {
                    reveal_strlit("\n");
                }
                "\n"
            },
            LineEnding::CRLF => {
                proof {
                    reveal_strlit("\r\n");
                }
                "\r\n"
            },
            LineEnding::CR => {
                proof {
                    reveal_strlit("\r");
                }
                "\r"
            },
        }
    }
}

/// The characters of each line.
pub open spec fn chars_view(v: Seq<Vec<char>>) -> Seq<Seq<char>> {
    v.map_values(|l: Vec<char>| l@)
}

pub(crate) fn append_chars(out: &mut Vec<char>, more: &Vec<char>)
    ensures
        final(out)@ == old(out)@ + more@,
{
    let mut i: usize = 0;
    while i < more.len()
        invariant
            i <= more.len(),
            out@ == old(out)@ + more@.take(i as int),
        decreases more.len() - i,
    {
        out.push(more[i]);
        i += 1;
        assert(more@.take(i as int) =~= more@.take(i - 1).push(more@[i - 1]));
    }
    assert(more@.take(i as int) =~= more@);
}

pub(crate) fn normalize_chars(v: &Vec<char>) -> (r: Vec<char>)
    ensures
        r@ == normalize_spec(v@),
{
    let mut out: Vec<char> = Vec::new();
    let mut i: usize = 0;
    while i < v.len()
        invariant
            i <= v.len(),
            out@ == normalize_spec(v@.take(i as int)),
        decreases v.len() - i,
    {
        let ghost t = v@.take(i + 1);
        assert(t.drop_last() =~= v@.take(i as int));
        let c = v[i];
        if c == '\r' {
            out.push('\n');
        } else if c == '\n' && i > 0 && v[i - 1] == '\r' {
        } else {
            out.push(c);
        }
        i += 1;
    }
    assert(v@.take(i as int) =~= v@);
    out
}

pub(crate) fn split_chars(v: &Vec<char>) -> (r: Vec<Vec<char>>)
    ensures
        chars_view(r@) == split_spec(v@),
{
    let mut lines: Vec<Vec<char>> = Vec::new();
    let mut cur: Vec<char> = Vec::new();
    let mut i: usize = 0;
    while i < v.len()
        invariant
            i <= v.len(),
            chars_view(lines@).push(cur@) == split_spec(v@.take(i as int)),
        decreases v.len() - i,
    {
        let ghost t = v@.take(i + 1);
        assert(t.drop_last() =~= v@.take(i as int));
        let ghost before = chars_view(lines@).push(cur@);
        if v[i] == '\n' {
            let done = cur;
            lines.push(done);
            cur = Vec::new();
            assert(chars_view(lines@).push(cur@) =~= before.push(Seq::empty()));
        } else {
            cur.push(v[i]);
            assert(chars_view(lines@).push(cur@) =~= before.update(
                before.len() - 1,
                before.last().push(v@[i as int]),
            ));
        }
        i += 1;
    }
    assert(v@.take(i as int) =~= v@);
    lines.push(cur);
    assert(chars_view(lines@) =~= split_spec(v@));
    lines
}


} // verus!
