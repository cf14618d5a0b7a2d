//! The registry of named case styles.
//!
//! Every style maps to exactly one pattern, one join delimiter, and one
//! canonical set of boundaries used when the style is the source of a
//! conversion.  The names are explicit data stored here, not derived from
//! any structural tag.

use vstd::prelude::*;
use crate::boundary::Boundary;
use crate::pattern::{deterministic_pattern, mutate_word, Pattern, WordCase, word_cased};
use crate::text::chars_of_str;

verus! {

/// One named case style.
#[derive(Clone, Copy, Debug, PartialEq, Eq)]
pub enum Case {
    /// `MY VARIABLE NAME`
    Upper,
    /// `my variable name`
    Lower,
    /// `My Variable Name`
    Title,
    /// `mY vARIABLE nAME`
    Toggle,
    /// `myVariableName`
    Camel,
    /// `MyVariableName`
    Pascal,
    /// `MyVariableName`; an alias of `Pascal`
    UpperCamel,
    /// `my_variable_name`
    Snake,
    /// `MY_VARIABLE_NAME`
    UpperSnake,
    /// `MY_VARIABLE_NAME`; an alias of `UpperSnake`
    ScreamingSnake,
    /// `my-variable-name`
    Kebab,
    /// `MY-VARIABLE-NAME`
    Cobol,
    /// `MY-VARIABLE-NAME`; an alias of `Cobol`
    UpperKebab,
    /// `My-Variable-Name`
    Train,
    /// `myvariablename`
    Flat,
    /// `MYVARIABLENAME`
    UpperFlat,
    /// `mY vArIaBlE nAmE`
    Alternating,
    /// `MY vaRiAbLE nAMe` (varies from run to run)
    Random,
    /// `mY vArIAblE NamE` (varies from run to run)
    PseudoRandom,
}

impl Case {
    /// The boundaries used to split input already in this style.
    pub open spec fn boundaries_spec(self) -> Seq<Boundary> {
        match self {
            Case::Upper | Case::Lower | Case::Title | Case::Toggle | Case::Alternating
                | Case::Random | Case::PseudoRandom => seq![Boundary::Space],
            Case::Snake | Case::UpperSnake | Case::ScreamingSnake => seq![Boundary::Underscore],
            Case::Kebab | Case::Cobol | Case::UpperKebab | Case::Train => seq![Boundary::Hyphen],
            Case::Flat | Case::UpperFlat => Seq::empty(),
            Case::Camel | Case::UpperCamel | Case::Pascal => seq![
                Boundary::LowerUpper,
                Boundary::Acronym,
                Boundary::LowerDigit,
                Boundary::UpperDigit,
                Boundary::DigitLower,
                Boundary::DigitUpper,
            ],
        }
    }

    /// The boundaries used to split input already in this style.
    pub fn boundaries(&self) -> (r: Vec<Boundary>)
        ensures
            r@ == self.boundaries_spec(),
    {
        let r: Vec<Boundary> = match self {
            Case::Upper | Case::Lower | Case::Title | Case::Toggle | Case::Alternating
                | Case::Random | Case::PseudoRandom => vec![Boundary::Space],
            Case::Snake | Case::UpperSnake | Case::ScreamingSnake => vec![Boundary::Underscore],
            Case::Kebab | Case::Cobol | Case::UpperKebab | Case::Train => vec![Boundary::Hyphen],
            Case::Flat | Case::UpperFlat => Vec::new(),
            Case::Camel | Case::UpperCamel | Case::Pascal => vec![
                Boundary::LowerUpper,
                Boundary::Acronym,
                Boundary::LowerDigit,
                Boundary::UpperDigit,
                Boundary::DigitLower,
                Boundary::DigitUpper,
            ],
        };
        proof {
            assert(r@ =~= self.boundaries_spec());
        }
        r
    }

    /// The pattern used to case the words of this style.
    pub open spec fn pattern_spec(self) -> Pattern {
        match self {
            Case::Upper | Case::UpperSnake | Case::ScreamingSnake | Case::UpperFlat | Case::Cobol
                | Case::UpperKebab => Pattern::Uppercase,
            Case::Lower | Case::Snake | Case::Kebab | Case::Flat => Pattern::Lowercase,
            Case::Title | Case::Pascal | Case::UpperCamel | Case::Train => Pattern::Capital,
            Case::Camel => Pattern::Camel,
            Case::Toggle => Pattern::Toggle,
            Case::Alternating => Pattern::Alternating,
            Case::Random => Pattern::Random,
            Case::PseudoRandom => Pattern::PseudoRandom,
        }
    }

    /// The pattern used to case the words of this style.
    pub fn pattern(&self) -> (r: Pattern)
        ensures
            r == self.pattern_spec(),
    {
        match self {
            Case::Upper | Case::UpperSnake | Case::ScreamingSnake | Case::UpperFlat | Case::Cobol
                | Case::UpperKebab => Pattern::Uppercase,
            Case::Lower | Case::Snake | Case::Kebab | Case::Flat => Pattern::Lowercase,
            Case::Title | Case::Pascal | Case::UpperCamel | Case::Train => Pattern::Capital,
            Case::Camel => Pattern::Camel,
            Case::Toggle => Pattern::Toggle,
            Case::Alternating => Pattern::Alternating,
            Case::Random => Pattern::Random,
            Case::PseudoRandom => Pattern::PseudoRandom,
        }
    }

    /// The string put between words when joining into this style.
    pub open spec fn delim_spec(self) -> Seq<char> {
        match self {
            Case::Upper | Case::Lower | Case::Title | Case::Toggle | Case::Alternating
                | Case::Random | Case::PseudoRandom => seq![' '],
            Case::Snake | Case::UpperSnake | Case::ScreamingSnake => seq!['_'],
            Case::Kebab | Case::Cobol | Case::UpperKebab | Case::Train => seq!['-'],
            Case::Flat | Case::UpperFlat | Case::Camel | Case::UpperCamel | Case::Pascal => Seq::empty(),
        }
    }

    /// The string put between words when joining into this style.
    pub fn delim(&self) -> (r: &'static str)
        ensures
            r@ == self.delim_spec(),
    {
        match self {
            Case::Upper | Case::Lower | Case::Title | Case::Toggle | Case::Alternating
                | Case::Random | Case::PseudoRandom => {
                let d = " ";
                proof {
                    reveal_strlit(" ");
                    assert(d@ =~= seq![' ']);
                }
                d
            },
            Case::Snake | Case::UpperSnake | Case::ScreamingSnake => {
                let d = "_";
                proof {
                    reveal_strlit("_");
                    assert(d@ =~= seq!['_']);
                }
                d
            },
            Case::Kebab | Case::Cobol | Case::UpperKebab | Case::Train => {
                let d = "-";
                proof {
                    reveal_strlit("-");
                    assert(d@ =~= seq!['-']);
                }
                d
            },
            Case::Flat | Case::UpperFlat | Case::Camel | Case::UpperCamel | Case::Pascal => {
                let d = "";
                proof {
                    reveal_strlit("");
                    assert(d@ =~= Seq::<char>::empty());
                }
                d
            },
        }
    }

    /// Whether converting into this style is a function of the input alone.
    pub open spec fn deterministic_spec(self) -> bool {
        deterministic_pattern(self.pattern_spec())
    }

    /// The style's canonical name.
    pub open spec fn name_spec(self) -> Seq<char> {
        match self {
            Case::Upper => "Upper"@,
            Case::Lower => "Lower"@,
            Case::Title => "Title"@,
            Case::Toggle => "Toggle"@,
            Case::Camel => "Camel"@,
            Case::Pascal => "Pascal"@,
            Case::UpperCamel => "UpperCamel"@,
            Case::Snake => "Snake"@,
            Case::UpperSnake => "UpperSnake"@,
            Case::ScreamingSnake => "ScreamingSnake"@,
            Case::Kebab => "Kebab"@,
            Case::Cobol => "Cobol"@,
            Case::UpperKebab => "UpperKebab"@,
            Case::Train => "Train"@,
            Case::Flat => "Flat"@,
            Case::UpperFlat => "UpperFlat"@,
            Case::Alternating => "Alternating"@,
            Case::Random => "Random"@,
            Case::PseudoRandom => "PseudoRandom"@,
        }
    }

    /// The style's canonical name.
    pub fn name(&self) -> (r: &'static str)
        ensures
            r@ == self.name_spec(),
    {
        match self {
            Case::Upper => "Upper",
            Case::Lower => "Lower",
            Case::Title => "Title",
            Case::Toggle => "Toggle",
            Case::Camel => "Camel",
            Case::Pascal => "Pascal",
            Case::UpperCamel => "UpperCamel",
            Case::Snake => "Snake",
            Case::UpperSnake => "UpperSnake",
            Case::ScreamingSnake => "ScreamingSnake",
            Case::Kebab => "Kebab",
            Case::Cobol => "Cobol",
            Case::UpperKebab => "UpperKebab",
            Case::Train => "Train",
            Case::Flat => "Flat",
            Case::UpperFlat => "UpperFlat",
            Case::Alternating => "Alternating",
            Case::Random => "Random",
            Case::PseudoRandom => "PseudoRandom",
        }
    }

    /// The style's normalized, delimiter-free, lowercase lookup name.
    pub open spec fn flat_name_spec(self) -> Seq<char> {
        word_cased(self.name_spec(), WordCase::Lower)
    }

    /// The characters of the style's normalized lookup name.
    pub fn flat_name_chars(&self) -> (r: Vec<char>)
        ensures
            r@ == self.flat_name_spec(),
    {
        let cs = chars_of_str(self.name());
        mutate_word(&cs, WordCase::Lower)
    }

    /// The style's short alternate lookup name, where it has one.
    pub open spec fn short_name_spec(self) -> Option<Seq<char>> {
        match self {
            Case::PseudoRandom => Some("pseudo"@),
            Case::ScreamingSnake => Some("screaming"@),
            Case::Alternating => Some("alternate"@),
            _ => None,
        }
    }

    /// The style whose definition this style is a documented alias of, if
    /// any; the relation is one-directional.
    pub open spec fn alias_spec(self) -> Option<Case> {
        match self {
            Case::UpperCamel => Some(Case::Pascal),
            Case::UpperKebab => Some(Case::Cobol),
            Case::ScreamingSnake => Some(Case::UpperSnake),
            _ => None,
        }
    }

    /// The full ordered catalog of styles.
    pub open spec fn all_cases_spec() -> Seq<Case> {
        seq![
            Case::Upper,
            Case::Lower,
            Case::Title,
            Case::Toggle,
            Case::Camel,
            Case::Pascal,
            Case::UpperCamel,
            Case::Snake,
            Case::UpperSnake,
            Case::ScreamingSnake,
            Case::Kebab,
            Case::Cobol,
            Case::UpperKebab,
            Case::Train,
            Case::Flat,
            Case::UpperFlat,
            Case::Alternating,
            Case::Random,
            Case::PseudoRandom,
        ]
    }

    /// Every style, in the documented catalog order.
    pub fn all_cases() -> (r: Vec<Case>)
        ensures
            r@ == Case::all_cases_spec(),
    {
        let r: Vec<Case> = vec![
            Case::Upper,
            Case::Lower,
            Case::Title,
            Case::Toggle,
            Case::Camel,
            Case::Pascal,
            Case::UpperCamel,
            Case::Snake,
            Case::UpperSnake,
            Case::ScreamingSnake,
            Case::Kebab,
            Case::Cobol,
            Case::UpperKebab,
            Case::Train,
            Case::Flat,
            Case::UpperFlat,
            Case::Alternating,
            Case::Random,
            Case::PseudoRandom,
        ];
        proof {
            assert(r@ =~= Case::all_cases_spec());
        }
        r
    }
}

} // verus!
