//! The catalog of rules that decide where one word ends and the next begins.
//!
//! A boundary is either a delimiter (a character that is consumed by the
//! split) or a transition (a pair of adjacent character classes whose
//! juncture marks a split point without consuming anything).  The acronym
//! boundary is the one transition that also looks one character ahead.

use vstd::prelude::*;
use crate::chars::{is_digit, is_lower, is_upper};

verus! {

/// One splitting rule.
#[derive(Clone, Copy, Debug, PartialEq, Eq)]
pub enum Boundary {
    /// Splits on `-`, consuming the character.
    Hyphen,
    /// Splits on `_`, consuming the character.
    Underscore,
    /// Splits on a space, consuming the character.
    Space,
    /// Splits on an arbitrary caller-supplied character, consuming it.
    CustomDelim(char),
    /// Splits between an uppercase letter followed by a lowercase letter.
    /// Seldom wanted, and not part of the defaults.
    UpperLower,
    /// Splits between a lowercase letter followed by an uppercase letter.
    LowerUpper,
    /// Splits between a digit followed by an uppercase letter.
    DigitUpper,
    /// Splits between an uppercase letter followed by a digit.
    UpperDigit,
    /// Splits between a digit followed by a lowercase letter.
    DigitLower,
    /// Splits between a lowercase letter followed by a digit.
    LowerDigit,
    /// Splits a run of two or more uppercase letters followed by a lowercase
    /// letter, before the last uppercase letter of the run.
    Acronym,
}

/// The character a delimiter boundary consumes; `None` for transitions.
pub open spec fn delim_char(b: Boundary) -> Option<char> {
    match b {
        Boundary::Hyphen => Some('-'),
        Boundary::Underscore => Some('_'),
        Boundary::Space => Some(' '),
        Boundary::CustomDelim(c) => Some(c),
        _ => None,
    }
}

/// Whether some boundary in `bs` is a delimiter consuming `c`.
pub open spec fn delim_at(bs: Seq<Boundary>, c: char) -> bool {
    exists|k: int| 0 <= k < bs.len() && delim_char(bs[k]) == Some(c)
}

/// Whether transition boundary `b` splits between `prev` and `cur`, with
/// `next` the character after `cur`, if any (used by the acronym rule).
pub open spec fn transition_match(b: Boundary, prev: char, cur: char, next: Option<char>) -> bool {
    match b {
        Boundary::UpperLower => is_upper(prev) && is_lower(cur),
        Boundary::LowerUpper => is_lower(prev) && is_upper(cur),
        Boundary::DigitUpper => is_digit(prev) && is_upper(cur),
        Boundary::UpperDigit => is_upper(prev) && is_digit(cur),
        Boundary::DigitLower => is_digit(prev) && is_lower(cur),
        Boundary::LowerDigit => is_lower(prev) && is_digit(cur),
        Boundary::Acronym => is_upper(prev) && is_upper(cur) && (next matches Some(n) && is_lower(
            n,
        )),
        _ => false,
    }
}

/// Whether some boundary in `bs` splits `s` immediately before position `i`.
pub open spec fn transition_at(bs: Seq<Boundary>, s: Seq<char>, i: int) -> bool {
    exists|k: int|
        0 <= k < bs.len() && transition_match(
            bs[k],
            s[i - 1],
            s[i],
            if i + 1 < s.len() {
                Some(s[i + 1])
            } else {
                None
            },
        )
}

pub fn delim_char_of(b: Boundary) -> (r: Option<char>)
    ensures
        r == delim_char(b),
{
    match b {
        Boundary::Hyphen => Some('-'),
        Boundary::Underscore => Some('_'),
        Boundary::Space => Some(' '),
        Boundary::CustomDelim(c) => Some(c),
        _ => None,
    }
}

pub fn is_delim_at(bs: &Vec<Boundary>, c: char) -> (r: bool)
    ensures
        r == delim_at(bs@, c),
{
    let mut k: usize = 0;
    while k < bs.len()
        invariant
            k <= bs@.len(),
            forall|j: int| 0 <= j < k ==> delim_char(bs@[j]) != Some(c),
        decreases bs@.len() - k,
    {
        match delim_char_of(bs[k]) {
            Some(d) => {
                if d == c {
                    return true;
                }
            },
            None => {},
        }
        k = k + 1;
    }
    false
}

pub fn matches_transition(b: Boundary, prev: char, cur: char, next: Option<char>) -> (r: bool)
    ensures
        r == transition_match(b, prev, cur, next),
{
    match b {
        Boundary::UpperLower => crate::chars::upper_char(prev) && crate::chars::lower_char(cur),
        Boundary::LowerUpper => crate::chars::lower_char(prev) && crate::chars::upper_char(cur),
        Boundary::DigitUpper => crate::chars::digit_char(prev) && crate::chars::upper_char(cur),
        Boundary::UpperDigit => crate::chars::upper_char(prev) && crate::chars::digit_char(cur),
        Boundary::DigitLower => crate::chars::digit_char(prev) && crate::chars::lower_char(cur),
        Boundary::LowerDigit => crate::chars::lower_char(prev) && crate::chars::digit_char(cur),
        Boundary::Acronym => crate::chars::upper_char(prev) && crate::chars::upper_char(cur) && (
        match next {
            Some(n) => crate::chars::lower_char(n),
            None => false,
        }),
        _ => false,
    }
}

pub fn is_transition_at(bs: &Vec<Boundary>, s: &Vec<char>, i: usize) -> (r: bool)
    requires
        1 <= i < s@.len(),
    ensures
        r == transition_at(bs@, s@, i as int),
{
    let n = s.len();
    let next: Option<char> = if i < n - 1 {
        Some(s[i + 1])
    } else {
        None
    };
    let mut k: usize = 0;
    while k < bs.len()
        invariant
            1 <= i < s@.len(),
            k <= bs@.len(),
            next == (if i + 1 < s@.len() {
                Some(s@[i + 1])
            } else {
                None::<char>
            }),
            forall|j: int|
                0 <= j < k ==> !transition_match(
                    bs@[j],
                    s@[i - 1],
                    s@[i as int],
                    if i + 1 < s@.len() {
                        Some(s@[i + 1])
                    } else {
                        None
                    },
                ),
        decreases bs@.len() - k,
    {
        if matches_transition(bs[k], s[i - 1], s[i], next) {
            return true;
        }
        k = k + 1;
    }
    false
}

impl Boundary {
    /// The catalog of the ten named boundaries, in their documented order.
    pub open spec fn all_spec() -> Seq<Boundary> {
        seq![
            Boundary::Hyphen,
            Boundary::Underscore,
            Boundary::Space,
            Boundary::LowerUpper,
            Boundary::UpperLower,
            Boundary::DigitUpper,
            Boundary::UpperDigit,
            Boundary::DigitLower,
            Boundary::LowerDigit,
            Boundary::Acronym,
        ]
    }

    /// Every named boundary, including `UpperLower`.
    pub fn all() -> (r: Vec<Boundary>)
        ensures
            r@ == Boundary::all_spec(),
    {
        let r: Vec<Boundary> = vec![
            Boundary::Hyphen,
            Boundary::Underscore,
            Boundary::Space,
            Boundary::LowerUpper,
            Boundary::UpperLower,
            Boundary::DigitUpper,
            Boundary::UpperDigit,
            Boundary::DigitLower,
            Boundary::LowerDigit,
            Boundary::Acronym,
        ];
        proof {
            assert(r@ =~= Boundary::all_spec());
        }
        r
    }

    /// The boundaries used when no source style is declared: every delimiter
    /// and every transition except `UpperLower`.
    pub open spec fn defaults_spec() -> Seq<Boundary> {
        seq![
            Boundary::Underscore,
            Boundary::Hyphen,
            Boundary::Space,
            Boundary::LowerUpper,
            Boundary::UpperDigit,
            Boundary::DigitUpper,
            Boundary::DigitLower,
            Boundary::LowerDigit,
            Boundary::Acronym,
        ]
    }

    /// The default boundary set.
    pub fn defaults() -> (r: Vec<Boundary>)
        ensures
            r@ == Boundary::defaults_spec(),
    {
        let r: Vec<Boundary> = vec![
            Boundary::Underscore,
            Boundary::Hyphen,
            Boundary::Space,
            Boundary::LowerUpper,
            Boundary::UpperDigit,
            Boundary::DigitUpper,
            Boundary::DigitLower,
            Boundary::LowerDigit,
            Boundary::Acronym,
        ];
        proof {
            assert(r@ =~= Boundary::defaults_spec());
        }
        r
    }
}

/// A pair position whose left neighbour pair was two uppercase letters:
/// such a pair belongs to an acronym run, and two-character detection skips
/// it so that a run like `AAa` reports only the acronym boundary.
pub open spec fn pair_in_acronym_run(s: Seq<char>, k: int) -> bool {
    k >= 1 && is_upper(s[k - 1]) && is_upper(s[k])
}

/// Whether the boundary `b` is exhibited somewhere in `s`: a delimiter by
/// its character occurring, a transition by an adjacent pair of the right
/// classes outside an acronym run, the acronym boundary by an
/// upper-upper-lower triple.
pub open spec fn detected_in(b: Boundary, s: Seq<char>) -> bool {
    if delim_char(b) is Some {
        exists|i: int| 0 <= i < s.len() && delim_char(b) == Some(#[trigger] s[i])
    } else if b is Acronym {
        exists|k: int|
            0 <= k && k + 2 < s.len() && #[trigger] is_upper(s[k]) && is_upper(s[k + 1])
                && is_lower(s[k + 2])
    } else {
        exists|k: int|
            0 <= k && k + 1 < s.len() && #[trigger] transition_match(b, s[k], s[k + 1], None)
                && !pair_in_acronym_run(s, k)
    }
}

fn detected(b: Boundary, s: &Vec<char>) -> (r: bool)
    ensures
        r == detected_in(b, s@),
{
    let n = s.len();
    match delim_char_of(b) {
        Some(d) => {
            let mut i: usize = 0;
            while i < n
                invariant
                    n == s@.len(),
                    i <= n,
                    delim_char(b) == Some(d),
                    forall|j: int| 0 <= j < i ==> s@[j] != d,
                decreases n - i,
            {
                if s[i] == d {
                    return true;
                }
                i = i + 1;
            }
            false
        },
        None => {
            match b {
                Boundary::Acronym => {
                    if n < 3 {
                        return false;
                    }
                    let mut k: usize = 0;
                    while k < n - 2
                        invariant
                            b is Acronym,
                            n == s@.len(),
                            3 <= n,
                            k <= n - 2,
                            forall|j: int|
                                0 <= j < k ==> !(#[trigger] is_upper(s@[j]) && is_upper(s@[j + 1])
                                    && is_lower(s@[j + 2])),
                        decreases n - k,
                    {
                        if crate::chars::upper_char(s[k]) && crate::chars::upper_char(s[k + 1])
                            && crate::chars::lower_char(s[k + 2]) {
                            return true;
                        }
                        k = k + 1;
                    }
                    false
                },
                _ => {
                    if n < 2 {
                        return false;
                    }
                    let mut k: usize = 0;
                    while k < n - 1
                        invariant
                            n == s@.len(),
                            2 <= n,
                            k <= n - 1,
                            delim_char(b) is None,
                            !(b is Acronym),
                            forall|j: int|
                                0 <= j < k ==> !(transition_match(b, s@[j], s@[j + 1], None)
                                    && !pair_in_acronym_run(s@, j)),
                        decreases n - k,
                    {
                        let in_run: bool = k >= 1 && crate::chars::upper_char(s[k - 1])
                            && crate::chars::upper_char(s[k]);
                        if !in_run && matches_transition(b, s[k], s[k + 1], None) {
                            return true;
                        }
                        k = k + 1;
                    }
                    false
                },
            }
        },
    }
}

/// The candidates kept by detection, in candidate order.
pub open spec fn list_from_filter(cands: Seq<Boundary>, s: Seq<char>) -> Seq<Boundary>
    decreases cands.len(),
{
    if cands.len() == 0 {
        Seq::empty()
    } else {
        (if detected_in(cands[0], s) {
            seq![cands[0]]
        } else {
            Seq::empty()
        }) + list_from_filter(cands.drop_first(), s)
    }
}

/// The named boundaries exhibited in `s`, in catalog order.
pub open spec fn list_from_spec(s: Seq<char>) -> Seq<Boundary> {
    Boundary::list_from_filter_all(s)
}

impl Boundary {
    /// The named boundaries exhibited in `s`, in catalog order.
    pub open spec fn list_from_filter_all(s: Seq<char>) -> Seq<Boundary> {
        list_from_filter(Boundary::all_spec(), s)
    }

    /// Returns every named boundary that is identified within the given
    /// string, a shorthand for writing the boundaries out directly.
    pub fn list_from(s: &str) -> (r: Vec<Boundary>)
        ensures
            r@ == list_from_spec(s@),
    {
        let cs = crate::text::chars_of_str(s);
        let cands = Boundary::all();
        let n = cands.len();
        let mut r: Vec<Boundary> = Vec::new();
        let mut i: usize = 0;
        proof {
            assert(Boundary::all_spec().skip(0) =~= Boundary::all_spec());
            assert(r@ + list_from_filter(Boundary::all_spec(), s@) =~= list_from_filter(
                Boundary::all_spec(),
                s@,
            ));
        }
        while i < n
            invariant
                n == cands@.len(),
                cands@ == Boundary::all_spec(),
                cs@ == s@,
                i <= n,
                list_from_spec(s@) == r@ + list_from_filter(Boundary::all_spec().skip(i as int), s@),
            decreases n - i,
        {
            let ghost pre = r@;
            let ghost rest = Boundary::all_spec().skip(i as int);
            proof {
                assert(rest[0] == Boundary::all_spec()[i as int]);
                assert(rest.drop_first() =~= Boundary::all_spec().skip(i + 1));
            }
            if detected(cands[i], &cs) {
                r.push(cands[i]);
                proof {
                    assert(list_from_filter(rest, s@) == seq![Boundary::all_spec()[i as int]]
                        + list_from_filter(Boundary::all_spec().skip(i + 1), s@));
                    assert(pre + (seq![Boundary::all_spec()[i as int]] + list_from_filter(
                        Boundary::all_spec().skip(i + 1),
                        s@,
                    )) =~= r@ + list_from_filter(Boundary::all_spec().skip(i + 1), s@));
                }
            } else {
                proof {
                    assert(list_from_filter(rest, s@) == Seq::<Boundary>::empty()
                        + list_from_filter(Boundary::all_spec().skip(i + 1), s@));
                    assert(pre + (Seq::<Boundary>::empty() + list_from_filter(
                        Boundary::all_spec().skip(i + 1),
                        s@,
                    )) =~= r@ + list_from_filter(Boundary::all_spec().skip(i + 1), s@));
                }
            }
            i = i + 1;
        }
        proof {
            assert(Boundary::all_spec().skip(n as int) =~= Seq::<Boundary>::empty());
            assert(r@ + Seq::<Boundary>::empty() =~= r@);
        }
        r
    }
}

} // verus!
