//! Flushes the indentation of a multi-line text to column zero.
//!
//! The lines after the first lose the indentation they all share; blank lines
//! become empty; the first line is kept as it is, or dropped when blank. The
//! text's newline convention (LF, CRLF or CR) is detected and kept.
use vstd::prelude::*;

pub mod chars;
pub mod indent;
pub mod laws;
pub mod line_ending;

pub use line_ending::LineEnding;

use chars::{from_chars, to_chars};
use indent::{
    indent_lines, indent_spec, is_blank, is_blank_chars, lemma_blank_lines_empty, lemma_split_len,
    min_indent_chars, rewrite_lines_chars,
};
use line_ending::{chars_view, detect_spec, normalize_chars, normalize_spec, restore_spec, split_chars};

verus! {

/// What `auto_indent` returns: empty for a text of whitespace alone; else the
/// text normalised to LF, rewritten, and given back its own newline convention.
pub open spec fn auto_indent_spec(s: Seq<char>) -> Seq<char> {
    if is_blank(s) {
        Seq::empty()
    } else {
        restore_spec(indent_spec(normalize_spec(s)), detect_spec(s).spec_chars())
    }
}

/// The rewrite, bound to the newline convention of one input.
struct AutoIndent {
    line_ending: LineEnding,
}

impl AutoIndent {
    /// Detects the newline convention of `input`.
    fn new(input: &str) -> (r: Self)
        ensures
            r.line_ending == detect_spec(input@),
    {
        AutoIndent { line_ending: LineEnding::from(input) }
    }

    /// Rewrites `input`, writing its newlines in this convention.
    fn apply(&self, input: &str) -> (r: String)
        ensures
            r@ == (if is_blank(input@) {
                Seq::empty()
            } else {
                restore_spec(indent_spec(normalize_spec(input@)), self.line_ending.spec_chars())
            }),
    {
        let v = to_chars(input);
        if is_blank_chars(&v) {
            return String::new();
        }
        let n = normalize_chars(&v);
        let mut lines = split_chars(&n);
        let ghost all = chars_view(lines@);
        proof {
            lemma_split_len(n@);
            lemma_blank_lines_empty(all);
        }
        let first = lines.remove(0);
        assert(chars_view(lines@) =~= all.skip(1));
        let keep_first = !is_blank_chars(&first);
        let m = min_indent_chars(&lines);
        let mut rest = rewrite_lines_chars(&lines, m);
        let mut result: Vec<Vec<char>> = Vec::new();
        if keep_first {
            result.push(first);
        }
        result.append(&mut rest);
        assert(chars_view(result@) =~= indent_lines(all));
        let k = result.len();
        if k > 0 && is_blank_chars(&result[k - 1]) {
            assert(result@[k - 1]@ == indent_lines(all)[k - 1]);
            assert(indent_lines(all)[k - 1] =~= Seq::<char>::empty());
            result.set(k - 1, Vec::new());
            assert(chars_view(result@) =~= indent_lines(all));
        }
        let lf = LineEnding::LF;
        let joined = lf.join_chars(&result);
        let out = self.line_ending.restore_chars(&joined);
        from_chars(&out)
    }
}

/// Flushes the indentation of `input` (see `auto_indent_spec`), keeping its
/// newline convention.
pub fn auto_indent(input: &str) -> (r: String)
    ensures
        r@ == auto_indent_spec(input@),
{
    AutoIndent::new(input).apply(input)
}

} // verus!
