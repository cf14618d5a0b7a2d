//! Configuration checks and input preparation for the callers of the
//! pipeline.
//!
//! Conflicting or missing options are static configuration errors, reported
//! before any conversion runs; the conversion engine itself never fails on
//! any input string.

use vstd::prelude::*;
use crate::error::ConversionError;
use crate::text::string_of_chars;

verus! {

/// Mutually exclusive options supplied together: a source style with a
/// custom boundary string, or a target style with a raw pattern or
/// delimiter override.
pub open spec fn conflicting(
    has_to: bool,
    has_from: bool,
    has_boundaries: bool,
    has_pattern: bool,
    has_delimiter: bool,
) -> bool {
    (has_from && has_boundaries) || (has_to && has_pattern) || (has_to && has_delimiter)
}

/// A required option or input is missing: neither a target style nor a
/// pattern override was given, or there is no input at all.
pub open spec fn missing_required(has_to: bool, has_pattern: bool, has_input: bool) -> bool {
    (!has_to && !has_pattern) || !has_input
}

/// Checks the configuration before any conversion runs.  A source style and
/// a custom boundary string together are a configuration error, never a
/// silent precedence choice; so are a target style and a raw pattern or
/// delimiter override.
pub fn validate_options(
    has_to: bool,
    has_from: bool,
    has_boundaries: bool,
    has_pattern: bool,
    has_delimiter: bool,
    has_input: bool,
) -> (r: Result<(), ConversionError>)
    ensures
        (r matches Err(e) && e is ConflictingOptions) <==> conflicting(
            has_to,
            has_from,
            has_boundaries,
            has_pattern,
            has_delimiter,
        ),
        (r matches Err(e) && e is MissingRequired) <==> !conflicting(
            has_to,
            has_from,
            has_boundaries,
            has_pattern,
            has_delimiter,
        ) && missing_required(has_to, has_pattern, has_input),
        r is Ok <==> !conflicting(has_to, has_from, has_boundaries, has_pattern, has_delimiter)
            && !missing_required(has_to, has_pattern, has_input),
{
    if (has_from && has_boundaries) || (has_to && has_pattern) || (has_to && has_delimiter) {
        Err(ConversionError::ConflictingOptions)
    } else if (!has_to && !has_pattern) || !has_input {
        Err(ConversionError::MissingRequired)
    } else {
        Ok(())
    }
}

/// An ASCII whitespace character.  Only the ASCII range is modelled; other
/// whitespace passes through untrimmed.
pub open spec fn is_ascii_space(c: char) -> bool {
    c == ' ' || c == '\t' || c == '\n' || c == '\r' || c == '\u{000B}' || c == '\u{000C}'
}

/// `w` with its trailing ASCII whitespace removed.
pub open spec fn trim_end_spec(w: Seq<char>) -> Seq<char>
    decreases w.len(),
{
    if w.len() > 0 && is_ascii_space(w[w.len() - 1]) {
        trim_end_spec(w.drop_last())
    } else {
        w
    }
}

fn ascii_space(c: char) -> (r: bool)
    ensures
        r == is_ascii_space(c),
{
    c == ' ' || c == '\t' || c == '\n' || c == '\r' || c == '\u{000B}' || c == '\u{000C}'
}

fn trim_end_chars(w: &Vec<char>) -> (r: Vec<char>)
    ensures
        r@ == trim_end_spec(w@),
{
    let mut end = w.len();
    proof {
        assert(w@.subrange(0, end as int) =~= w@);
    }
    while end > 0 && ascii_space(w[end - 1])
        invariant
            end <= w@.len(),
            trim_end_spec(w@) == trim_end_spec(w@.subrange(0, end as int)),
        decreases end,
    {
        proof {
            let pre = w@.subrange(0, end as int);
            assert(pre.len() == end);
            assert(pre[end - 1] == w@[end - 1]);
            assert(pre.drop_last() =~= w@.subrange(0, end - 1));
        }
        end = end - 1;
    }
    let mut r: Vec<char> = Vec::new();
    let mut i: usize = 0;
    while i < end
        invariant
            i <= end <= w@.len(),
            r@ == w@.subrange(0, i as int),
        decreases end - i,
    {
        r.push(w[i]);
        proof {
            assert(r@ =~= w@.subrange(0, i + 1));
        }
        i = i + 1;
    }
    proof {
        let fin = w@.subrange(0, end as int);
        assert(fin.len() == end);
        if end > 0 {
            assert(fin[end - 1] == w@[end - 1]);
        }
        assert(trim_end_spec(fin) == fin);
        assert(r@ =~= fin);
    }
    r
}

/// The input lines of `s` from position `i` on, with `cur` the line under
/// construction: a newline closes the line, every line is trimmed of its
/// trailing whitespace, and an unterminated final line is kept unless empty.
pub open spec fn lines_from(s: Seq<char>, i: int, cur: Seq<char>) -> Seq<Seq<char>>
    decreases s.len() - i,
{
    if i >= s.len() {
        if cur.len() == 0 {
            Seq::empty()
        } else {
            seq![trim_end_spec(cur)]
        }
    } else if s[i] == '\n' {
        seq![trim_end_spec(cur)] + lines_from(s, i + 1, Seq::empty())
    } else {
        lines_from(s, i + 1, cur.push(s[i]))
    }
}

/// The input lines of `s`, each with trailing whitespace removed.
pub open spec fn lines_spec(s: Seq<char>) -> Seq<Seq<char>> {
    lines_from(s, 0, Seq::empty())
}

/// Splits piped input into one converter input per line, trimming each
/// line's trailing whitespace; empty input yields no lines.
pub fn lines_to_inputs(s: &str) -> (r: Vec<String>)
    ensures
        r.deep_view() == lines_spec(s@),
{
    let cs = crate::text::chars_of_str(s);
    let n = cs.len();
    let mut out: Vec<String> = Vec::new();
    let mut cur: Vec<char> = Vec::new();
    let mut i: usize = 0;
    proof {
        assert(out.deep_view() + lines_from(s@, 0, cur@) =~~= lines_spec(s@));
    }
    while i < n
        invariant
            n == s@.len(),
            cs@ == s@,
            i <= n,
            lines_spec(s@) == out.deep_view() + lines_from(s@, i as int, cur@),
        decreases n - i,
    {
        let ghost pre_out = out.deep_view();
        let ghost pre_cur = cur@;
        if cs[i] == '\n' {
            let line = trim_end_chars(&cur);
            out.push(string_of_chars(&line));
            cur = Vec::new();
            proof {
                assert(out.deep_view() =~~= pre_out.push(trim_end_spec(pre_cur)));
                assert(lines_from(s@, i as int, pre_cur) == seq![trim_end_spec(pre_cur)]
                    + lines_from(s@, i + 1, cur@));
                assert(pre_out + (seq![trim_end_spec(pre_cur)] + lines_from(s@, i + 1, cur@)) =~~= (
                pre_out.push(trim_end_spec(pre_cur)) + lines_from(s@, i + 1, cur@)));
            }
        } else {
            cur.push(cs[i]);
            proof {
                assert(cur@ == pre_cur.push(s@[i as int]));
                assert(lines_from(s@, i as int, pre_cur) == lines_from(s@, i + 1, cur@));
            }
        }
        i = i + 1;
    }
    if cur.len() > 0 {
        let ghost pre_out = out.deep_view();
        let ghost pre_cur = cur@;
        let line = trim_end_chars(&cur);
        out.push(string_of_chars(&line));
        proof {
            assert(out.deep_view() =~~= pre_out.push(trim_end_spec(pre_cur)));
            assert(lines_from(s@, n as int, pre_cur) == seq![trim_end_spec(pre_cur)]);
            assert(pre_out + seq![trim_end_spec(pre_cur)] =~~= pre_out.push(trim_end_spec(pre_cur)));
        }
    } else {
        proof {
            assert(cur@ =~= Seq::<char>::empty());
            assert(lines_from(s@, n as int, cur@) == Seq::<Seq<char>>::empty());
            assert(out.deep_view() + Seq::<Seq<char>>::empty() =~~= out.deep_view());
        }
    }
    out
}

} // verus!

