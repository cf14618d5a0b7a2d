//! Name lookup for styles and patterns.
//!
//! Lookup is case-insensitive and punctuation-insensitive: the supplied name
//! is first normalized to its flat, lowercase, delimiter-stripped form, then
//! compared against every catalog entry's normalized name and, for styles,
//! the short alternate name.  The first exact match wins; there is no fuzzy
//! matching.

use vstd::prelude::*;
use vstd::string::StringExecFns;
use crate::boundary::Boundary;
use crate::case::Case;
use crate::convert::{convert_spec, convert_with};
use crate::error::ConversionError;
use crate::pattern::{all_patterns, all_patterns_spec, mutate_word, Pattern, WordCase, word_cased};
use crate::text::{chars_eq, chars_of_str};

verus! {

/// A name normalized to its flat form: split along the default boundaries,
/// lowercased, and concatenated without a delimiter.
pub open spec fn flat_of(s: Seq<char>) -> Seq<char> {
    convert_spec(s, Boundary::defaults_spec(), Pattern::Lowercase, Seq::empty())
}

/// Normalizes a name to its flat form.
pub fn flatten_name(s: &str) -> (r: String)
    ensures
        r@ == flat_of(s@),
{
    let bs = Boundary::defaults();
    let r = convert_with(s, &bs, Pattern::Lowercase, "");
    proof {
        reveal_strlit("");
        assert(""@ =~= Seq::<char>::empty());
    }
    r
}

/// Whether the flat form `f` names the style `c`, by its normalized
/// canonical name or by its short alternate name.
pub open spec fn case_name_matches(c: Case, f: Seq<char>) -> bool {
    f == c.flat_name_spec() || (c.short_name_spec() matches Some(sn) && f == sn)
}

/// The first style among `cands` that the flat form `f` names.
pub open spec fn lookup_case(cands: Seq<Case>, f: Seq<char>) -> Option<Case>
    decreases cands.len(),
{
    if cands.len() == 0 {
        None
    } else if case_name_matches(cands[0], f) {
        Some(cands[0])
    } else {
        lookup_case(cands.drop_first(), f)
    }
}

/// The style a raw name resolves to, if any.
pub open spec fn resolve_case_spec(s: Seq<char>) -> Option<Case> {
    lookup_case(Case::all_cases_spec(), flat_of(s))
}

/// Style name lookup sees only the normalized form: two names with the same
/// flat form resolve to the same style (or both to none).
pub proof fn lemma_resolution_depends_only_on_flat_form(s1: Seq<char>, s2: Seq<char>)
    requires
        flat_of(s1) == flat_of(s2),
    ensures
        resolve_case_spec(s1) == resolve_case_spec(s2),
{
}

/// The style's short alternate lookup name, where it has one.
pub fn short_name_of(c: &Case) -> (r: Option<&'static str>)
    ensures
        r is Some <==> c.short_name_spec() is Some,
        r matches Some(s) ==> c.short_name_spec() == Some(s@),
{
    match c {
        Case::PseudoRandom => Some("pseudo"),
        Case::ScreamingSnake => Some("screaming"),
        Case::Alternating => Some("alternate"),
        _ => None,
    }
}

/// Resolves a raw style name: the name is normalized, then compared against
/// every style's normalized canonical name and short alternate name, in
/// catalog order.  An unmatched name is reported with the offending text.
pub fn case_value_parser(s: &str) -> (r: Result<Case, ConversionError>)
    ensures
        r matches Ok(c) ==> resolve_case_spec(s@) == Some(c),
        r matches Err(e) ==> resolve_case_spec(s@) is None && (e matches
            ConversionError::UnknownCase { raw } && raw@ == s@),
{
    let flat = flatten_name(s);
    let fcs = chars_of_str(flat.as_str());
    let cands = Case::all_cases();
    let n = cands.len();
    let mut i: usize = 0;
    proof {
        assert(Case::all_cases_spec().skip(0) =~= Case::all_cases_spec());
    }
    while i < n
        invariant
            n == cands@.len(),
            cands@ == Case::all_cases_spec(),
            fcs@ == flat_of(s@),
            resolve_case_spec(s@) == lookup_case(
                Case::all_cases_spec().skip(i as int),
                flat_of(s@),
            ),
            i <= n,
        decreases n - i,
    {
        let ghost rest = Case::all_cases_spec().skip(i as int);
        proof {
            assert(rest[0] == Case::all_cases_spec()[i as int]);
            assert(rest.drop_first() =~= Case::all_cases_spec().skip(i + 1));
        }
        let c = cands[i];
        let cname = c.flat_name_chars();
        let mut matched: bool = chars_eq(&fcs, &cname);
        match short_name_of(&c) {
            Some(sn) => {
                let sncs = chars_of_str(sn);
                if chars_eq(&fcs, &sncs) {
                    matched = true;
                }
            },
            None => {},
        }
        proof {
            assert(matched == case_name_matches(Case::all_cases_spec()[i as int], flat_of(s@)));
        }
        if matched {
            return Ok(c);
        }
        i = i + 1;
    }
    proof {
        assert(Case::all_cases_spec().skip(n as int) =~= Seq::<Case>::empty());
    }
    Err(ConversionError::UnknownCase { raw: String::from_str(s) })
}

/// Whether the flat form `f` names the pattern `p`.
pub open spec fn pattern_name_matches(p: Pattern, f: Seq<char>) -> bool {
    f == word_cased(p.name_spec(), WordCase::Lower)
}

/// The first pattern among `cands` that the flat form `f` names.
pub open spec fn lookup_pattern(cands: Seq<Pattern>, f: Seq<char>) -> Option<Pattern>
    decreases cands.len(),
{
    if cands.len() == 0 {
        None
    } else if pattern_name_matches(cands[0], f) {
        Some(cands[0])
    } else {
        lookup_pattern(cands.drop_first(), f)
    }
}

/// The pattern a raw name resolves to, if any.
pub open spec fn resolve_pattern_spec(s: Seq<char>) -> Option<Pattern> {
    lookup_pattern(all_patterns_spec(), flat_of(s))
}

/// Resolves a raw pattern name, normalized the same way as style names.
pub fn pattern_value_parser(s: &str) -> (r: Result<Pattern, ConversionError>)
    ensures
        r matches Ok(p) ==> resolve_pattern_spec(s@) == Some(p),
        r matches Err(e) ==> resolve_pattern_spec(s@) is None && (e matches
            ConversionError::UnknownPattern { raw } && raw@ == s@),
{
    let flat = flatten_name(s);
    let fcs = chars_of_str(flat.as_str());
    let cands = all_patterns();
    let n = cands.len();
    let mut i: usize = 0;
    proof {
        assert(all_patterns_spec().skip(0) =~= all_patterns_spec());
    }
    while i < n
        invariant
            n == cands@.len(),
            cands@ == all_patterns_spec(),
            fcs@ == flat_of(s@),
            resolve_pattern_spec(s@) == lookup_pattern(
                all_patterns_spec().skip(i as int),
                flat_of(s@),
            ),
            i <= n,
        decreases n - i,
    {
        let ghost rest = all_patterns_spec().skip(i as int);
        proof {
            assert(rest[0] == all_patterns_spec()[i as int]);
            assert(rest.drop_first() =~= all_patterns_spec().skip(i + 1));
        }
        let p = cands[i];
        let pcs = chars_of_str(p.name());
        let pname = mutate_word(&pcs, WordCase::Lower);
        if chars_eq(&fcs, &pname) {
            return Ok(p);
        }
        i = i + 1;
    }
    proof {
        assert(all_patterns_spec().skip(n as int) =~= Seq::<Pattern>::empty());
    }
    Err(ConversionError::UnknownPattern { raw: String::from_str(s) })
}

} // verus!
