//! Extensions to the style and pattern catalogs: display names, the alias
//! and short-name relations, and example renderings.

use vstd::prelude::*;
use vstd::string::StringExecFns;
use crate::boundary::Boundary;
use crate::case::Case;
use crate::convert::{convert, convert_spec};
use crate::pattern::Pattern;
use crate::text::string_of_chars;

verus! {

/// Extends a case style with naming functions.
pub trait CaseExtension: Sized {
    /// What `name_in_case` returns when the rendering is deterministic.
    spec fn name_in_case_spec(self) -> Seq<char>;

    /// Whether the rendering of the style's own name is deterministic.
    spec fn name_in_case_deterministic(self) -> bool;

    /// The style this style is a documented alias of, if any.
    spec fn is_alias_spec(self) -> Option<Self>;

    /// The style's short alternate lookup name, if any.
    spec fn short_name_spec_ext(self) -> Option<Seq<char>>;

    /// The style's name normalized to flat case.
    spec fn name_to_flat_case_spec(self) -> Seq<char>;

    /// The name of the case rendered in the case itself.
    fn name_in_case(self) -> (r: String)
        ensures
            self.name_in_case_deterministic() ==> r@ == self.name_in_case_spec(),
    ;

    /// If the case is an alias of another (one directional).
    fn is_alias(&self) -> (r: Option<Self>)
        ensures
            r == self.is_alias_spec(),
    ;

    /// An alternative, shorter lookup name.
    fn short_name(&self) -> (r: Option<&'static str>)
        ensures
            r is Some <==> self.short_name_spec_ext() is Some,
            r matches Some(s) ==> self.short_name_spec_ext() == Some(s@),
    ;

    /// The case's name converted to flat case.
    fn name_to_flat_case(&self) -> (r: String)
        ensures
            r@ == self.name_to_flat_case_spec(),
    ;
}

impl CaseExtension for Case {
    open spec fn name_in_case_spec(self) -> Seq<char> {
        convert_spec(
            self.name_spec() + "Case"@,
            Boundary::defaults_spec(),
            self.pattern_spec(),
            self.delim_spec(),
        )
    }

    open spec fn name_in_case_deterministic(self) -> bool {
        self.deterministic_spec()
    }

    open spec fn is_alias_spec(self) -> Option<Case> {
        self.alias_spec()
    }

    open spec fn short_name_spec_ext(self) -> Option<Seq<char>> {
        self.short_name_spec()
    }

    open spec fn name_to_flat_case_spec(self) -> Seq<char> {
        self.flat_name_spec()
    }

    fn name_in_case(self) -> (r: String) {
        let full = String::from_str(self.name()).concat("Case");
        convert(full.as_str(), self, None, None)
    }

    fn is_alias(&self) -> (r: Option<Case>) {
        match self {
            Case::UpperCamel => Some(Case::Pascal),
            Case::UpperKebab => Some(Case::Cobol),
            Case::ScreamingSnake => Some(Case::UpperSnake),
            _ => None,
        }
    }

    fn short_name(&self) -> (r: Option<&'static str>) {
        crate::resolve::short_name_of(self)
    }

    fn name_to_flat_case(&self) -> (r: String) {
        let cs = self.flat_name_chars();
        string_of_chars(&cs)
    }
}

/// Extends a pattern with an example rendering.
pub trait PatternExtension {
    /// The example text.
    spec fn example_spec(&self) -> Seq<char>;

    /// Prints an example of the pattern.
    fn example(&self) -> (r: String)
        ensures
            r@ == self.example_spec(),
    ;
}

impl PatternExtension for Pattern {
    open spec fn example_spec(&self) -> Seq<char> {
        match self {
            Pattern::Lowercase => "lower, lower, ..."@,
            Pattern::Uppercase => "UPPER, UPPER, ..."@,
            Pattern::Capital => "Capital, Capital, ..."@,
            Pattern::Sentence => "Capital, lower, lower, ..."@,
            Pattern::Camel => "lower, Capital, Capital, ..."@,
            Pattern::Alternating => "aLtErNaTiNg, aLtErNaTiNg, ..."@,
            Pattern::Toggle => "tOGGLE, tOGGLE, ..."@,
            Pattern::PseudoRandom => "pSUeDorANdOm, pSUedORaNdoM, ..."@,
            Pattern::Random => "RanDOM, RAndom, ..."@,
        }
    }

    fn example(&self) -> (r: String) {
        match self {
            Pattern::Lowercase => String::from_str("lower, lower, ..."),
            Pattern::Uppercase => String::from_str("UPPER, UPPER, ..."),
            Pattern::Capital => String::from_str("Capital, Capital, ..."),
            Pattern::Sentence => String::from_str("Capital, lower, lower, ..."),
            Pattern::Camel => String::from_str("lower, Capital, Capital, ..."),
            Pattern::Alternating => String::from_str("aLtErNaTiNg, aLtErNaTiNg, ..."),
            Pattern::Toggle => String::from_str("tOGGLE, tOGGLE, ..."),
            Pattern::PseudoRandom => String::from_str("pSUeDorANdOm, pSUedORaNdoM, ..."),
            Pattern::Random => String::from_str("RanDOM, RAndom, ..."),
        }
    }
}

} // verus!
