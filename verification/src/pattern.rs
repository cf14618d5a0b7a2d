//! The catalog of per-word letter-casing transformations, applied across a
//! whole word sequence.
//!
//! A deterministic pattern fixes the result completely.  `Random` and
//! `PseudoRandom` are non-deterministic across runs by design: each call
//! draws fresh bits, and only the structure of the result (length, and that
//! every character is a case variant of the input character) is promised.

use vstd::prelude::*;
use crate::chars::{is_letter, lower_char, to_lower, to_upper, upper_of, lower_of, upper_char};
use crate::text::{chars_of_str, string_of_chars};

verus! {

/// How the letters of one word are cased.
#[derive(Clone, Copy, Debug, PartialEq, Eq)]
pub enum WordCase {
    /// Every character lowercase.
    Lower,
    /// Every character uppercase.
    Upper,
    /// First character uppercase, the rest lowercase.
    Capital,
    /// First character lowercase, the rest uppercase.
    Toggle,
}

/// How the words of a sequence are cased, by position.
#[derive(Clone, Copy, Debug, PartialEq, Eq)]
pub enum Pattern {
    /// Every word lowercase.
    Lowercase,
    /// Every word uppercase.
    Uppercase,
    /// Every word capitalized.
    Capital,
    /// The first word capitalized, the rest lowercase.
    Sentence,
    /// The first word lowercase, the rest capitalized.
    Camel,
    /// Letters alternate between lower and upper, starting lower, resetting
    /// at each word; characters that are not letters are skipped over.
    Alternating,
    /// Every word with its first character lowercase and the rest uppercase.
    Toggle,
    /// Mixed case from random bits, never placing three characters of one
    /// case in a row within a word; differs from run to run by design.
    PseudoRandom,
    /// Every character's case drawn independently at random; differs from
    /// run to run by design.
    Random,
}

/// One word cased by `wc`.
pub open spec fn word_cased(w: Seq<char>, wc: WordCase) -> Seq<char> {
    match wc {
        WordCase::Lower => Seq::new(w.len(), |i: int| to_lower(w[i])),
        WordCase::Upper => Seq::new(w.len(), |i: int| to_upper(w[i])),
        WordCase::Capital => Seq::new(
            w.len(),
            |i: int|
                if i == 0 {
                    to_upper(w[i])
                } else {
                    to_lower(w[i])
                },
        ),
        WordCase::Toggle => Seq::new(
            w.len(),
            |i: int|
                if i == 0 {
                    to_lower(w[i])
                } else {
                    to_upper(w[i])
                },
        ),
    }
}

/// One word with its letters alternating between cases, `upper_next` giving
/// the case of the next letter; other characters pass through unchanged.
pub open spec fn alt_cased(w: Seq<char>, upper_next: bool) -> Seq<char>
    decreases w.len(),
{
    if w.len() == 0 {
        Seq::empty()
    } else if is_letter(w[0]) {
        seq![
            if upper_next {
                to_upper(w[0])
            } else {
                to_lower(w[0])
            },
        ] + alt_cased(w.drop_first(), !upper_next)
    } else {
        seq![w[0]] + alt_cased(w.drop_first(), upper_next)
    }
}

/// One word cased by random bits: character `i` is uppercase when `bits[i]`.
pub open spec fn random_cased(w: Seq<char>, bits: Seq<bool>) -> Seq<char> {
    Seq::new(
        w.len(),
        |i: int|
            if bits[i] {
                to_upper(w[i])
            } else {
                to_lower(w[i])
            },
    )
}

/// One word cased by the biased scheme: with no case forced, a bit picks the
/// case of the current character and forces the opposite case on the next
/// one, so no three characters in a row share a case.
pub open spec fn pseudo_cased(w: Seq<char>, bits: Seq<bool>, forced: Option<bool>) -> Seq<char>
    decreases w.len(),
{
    if w.len() == 0 {
        Seq::empty()
    } else {
        match forced {
            None => if bits.len() > 0 && bits[0] {
                seq![to_upper(w[0])] + pseudo_cased(w.drop_first(), bits.drop_first(), Some(false))
            } else {
                seq![to_lower(w[0])] + pseudo_cased(w.drop_first(), bits.drop_first(), Some(true))
            },
            Some(u) => if u {
                seq![to_upper(w[0])] + pseudo_cased(w.drop_first(), bits.drop_first(), None)
            } else {
                seq![to_lower(w[0])] + pseudo_cased(w.drop_first(), bits.drop_first(), None)
            },
        }
    }
}

/// Whether the pattern's output is a function of its input alone.
pub open spec fn deterministic_pattern(p: Pattern) -> bool {
    !(p is Random || p is PseudoRandom)
}

/// Word `i` of a sequence, cased by a deterministic pattern.  For the random
/// patterns this is the word unchanged; their output is only related to the
/// input structurally.
pub open spec fn word_mutated(w: Seq<char>, p: Pattern, i: int) -> Seq<char> {
    match p {
        Pattern::Lowercase => word_cased(w, WordCase::Lower),
        Pattern::Uppercase => word_cased(w, WordCase::Upper),
        Pattern::Capital => word_cased(w, WordCase::Capital),
        Pattern::Toggle => word_cased(w, WordCase::Toggle),
        Pattern::Sentence => if i == 0 {
            word_cased(w, WordCase::Capital)
        } else {
            word_cased(w, WordCase::Lower)
        },
        Pattern::Camel => if i == 0 {
            word_cased(w, WordCase::Lower)
        } else {
            word_cased(w, WordCase::Capital)
        },
        Pattern::Alternating => alt_cased(w, false),
        Pattern::PseudoRandom => w,
        Pattern::Random => w,
    }
}

/// A word sequence cased by a deterministic pattern.
pub open spec fn mutate_spec(ws: Seq<Seq<char>>, p: Pattern) -> Seq<Seq<char>> {
    Seq::new(ws.len(), |i: int| word_mutated(ws[i], p, i))
}

/// `a` is `b` with only letter cases changed: same length, and every
/// character of `a` is the upper or the lower variant of its counterpart.
pub open spec fn case_variant(a: Seq<char>, b: Seq<char>) -> bool {
    a.len() == b.len() && forall|j: int|
        0 <= j < a.len() ==> a[j] == to_upper(b[j]) || a[j] == to_lower(b[j])
}

proof fn lemma_alt_cased_variant(w: Seq<char>, upper_next: bool)
    ensures
        case_variant(alt_cased(w, upper_next), w),
    decreases w.len(),
{
    if w.len() == 0 {
    } else {
        let a = alt_cased(w, upper_next);
        if is_letter(w[0]) {
            lemma_alt_cased_variant(w.drop_first(), !upper_next);
            let rest = alt_cased(w.drop_first(), !upper_next);
            assert forall|j: int| 0 <= j < a.len() implies a[j] == to_upper(w[j]) || a[j]
                == to_lower(w[j]) by {
                if j > 0 {
                    assert(a[j] == rest[j - 1]);
                    assert(w.drop_first()[j - 1] == w[j]);
                }
            }
        } else {
            lemma_alt_cased_variant(w.drop_first(), upper_next);
            let rest = alt_cased(w.drop_first(), upper_next);
            assert forall|j: int| 0 <= j < a.len() implies a[j] == to_upper(w[j]) || a[j]
                == to_lower(w[j]) by {
                if j > 0 {
                    assert(a[j] == rest[j - 1]);
                    assert(w.drop_first()[j - 1] == w[j]);
                }
            }
        }
    }
}

proof fn lemma_pseudo_cased_variant(w: Seq<char>, bits: Seq<bool>, forced: Option<bool>)
    ensures
        case_variant(pseudo_cased(w, bits, forced), w),
    decreases w.len(),
{
    if w.len() == 0 {
    } else {
        let a = pseudo_cased(w, bits, forced);
        let forced2: Option<bool> = match forced {
            None => if bits.len() > 0 && bits[0] {
                Some(false)
            } else {
                Some(true)
            },
            Some(_) => None,
        };
        lemma_pseudo_cased_variant(w.drop_first(), bits.drop_first(), forced2);
        let rest = pseudo_cased(w.drop_first(), bits.drop_first(), forced2);
        assert(a.drop_first() =~= rest);
        assert forall|j: int| 0 <= j < a.len() implies a[j] == to_upper(w[j]) || a[j] == to_lower(
            w[j],
        ) by {
            if j > 0 {
                assert(a[j] == rest[j - 1]);
                assert(w.drop_first()[j - 1] == w[j]);
            }
        }
    }
}

proof fn lemma_word_cased_idempotent(w: Seq<char>, wc: WordCase)
    ensures
        word_cased(word_cased(w, wc), wc) == word_cased(w, wc),
{
    let a = word_cased(w, wc);
    assert forall|j: int| 0 <= j < a.len() implies word_cased(a, wc)[j] == a[j] by {
        crate::chars::lemma_recase(w[j]);
    }
    assert(word_cased(a, wc) =~= a);
}

proof fn lemma_alt_cased_idempotent(w: Seq<char>, upper_next: bool)
    ensures
        alt_cased(alt_cased(w, upper_next), upper_next) == alt_cased(w, upper_next),
    decreases w.len(),
{
    if w.len() == 0 {
    } else {
        let a = alt_cased(w, upper_next);
        crate::chars::lemma_recase(w[0]);
        if is_letter(w[0]) {
            let x = if upper_next {
                to_upper(w[0])
            } else {
                to_lower(w[0])
            };
            let rest = alt_cased(w.drop_first(), !upper_next);
            lemma_alt_cased_idempotent(w.drop_first(), !upper_next);
            assert(a.drop_first() =~= rest);
            assert(a[0] == x);
            assert(is_letter(x));
            assert(alt_cased(a, upper_next) == seq![
                if upper_next {
                    to_upper(x)
                } else {
                    to_lower(x)
                },
            ] + alt_cased(rest, !upper_next));
            assert(seq![x] + rest =~= a);
        } else {
            let rest = alt_cased(w.drop_first(), upper_next);
            lemma_alt_cased_idempotent(w.drop_first(), upper_next);
            assert(a.drop_first() =~= rest);
            assert(a[0] == w[0]);
            assert(alt_cased(a, upper_next) == seq![w[0]] + alt_cased(rest, upper_next));
            assert(seq![w[0]] + rest =~= a);
        }
    }
}

/// A word cased by a deterministic pattern is a case variant of its source.
pub proof fn lemma_word_mutated_variant(w: Seq<char>, p: Pattern, i: int)
    requires
        deterministic_pattern(p),
    ensures
        case_variant(word_mutated(w, p, i), w),
{
    if p is Alternating {
        lemma_alt_cased_variant(w, false);
    }
}

/// A deterministic pattern is idempotent: applying it to a word sequence a
/// second time changes nothing, so a converted string re-converted from and
/// to its own style keeps its casing.
pub proof fn lemma_mutate_idempotent(ws: Seq<Seq<char>>, p: Pattern)
    requires
        deterministic_pattern(p),
    ensures
        mutate_spec(mutate_spec(ws, p), p) == mutate_spec(ws, p),
{
    let a = mutate_spec(ws, p);
    assert forall|i: int| 0 <= i < a.len() implies mutate_spec(a, p)[i] == a[i] by {
        match p {
            Pattern::Lowercase => lemma_word_cased_idempotent(ws[i], WordCase::Lower),
            Pattern::Uppercase => lemma_word_cased_idempotent(ws[i], WordCase::Upper),
            Pattern::Capital => lemma_word_cased_idempotent(ws[i], WordCase::Capital),
            Pattern::Toggle => lemma_word_cased_idempotent(ws[i], WordCase::Toggle),
            Pattern::Sentence => {
                lemma_word_cased_idempotent(ws[i], WordCase::Capital);
                lemma_word_cased_idempotent(ws[i], WordCase::Lower);
            },
            Pattern::Camel => {
                lemma_word_cased_idempotent(ws[i], WordCase::Lower);
                lemma_word_cased_idempotent(ws[i], WordCase::Capital);
            },
            Pattern::Alternating => lemma_alt_cased_idempotent(ws[i], false),
            _ => {},
        }
    }
    assert(mutate_spec(a, p) =~= a);
}

/// One word cased by `wc`.
pub fn mutate_word(w: &Vec<char>, wc: WordCase) -> (r: Vec<char>)
    ensures
        r@ == word_cased(w@, wc),
{
    let n = w.len();
    let mut r: Vec<char> = Vec::new();
    let mut i: usize = 0;
    while i < n
        invariant
            n == w@.len(),
            i <= n,
            r@.len() == i,
            forall|j: int| 0 <= j < i ==> r@[j] == word_cased(w@, wc)[j],
        decreases n - i,
    {
        let c = w[i];
        let m = match wc {
            WordCase::Lower => lower_of(c),
            WordCase::Upper => upper_of(c),
            WordCase::Capital => if i == 0 {
                upper_of(c)
            } else {
                lower_of(c)
            },
            WordCase::Toggle => if i == 0 {
                lower_of(c)
            } else {
                upper_of(c)
            },
        };
        r.push(m);
        i = i + 1;
    }
    proof {
        assert(r@ =~= word_cased(w@, wc));
    }
    r
}

/// One word with alternating letter cases, starting lowercase.
pub fn mutate_word_alternating(w: &Vec<char>) -> (r: Vec<char>)
    ensures
        r@ == alt_cased(w@, false),
{
    let n = w.len();
    let mut r: Vec<char> = Vec::new();
    let mut upper_next: bool = false;
    let mut i: usize = 0;
    proof {
        assert(w@.skip(0) =~= w@);
        assert(r@ + alt_cased(w@, false) =~= alt_cased(w@, false));
    }
    while i < n
        invariant
            n == w@.len(),
            i <= n,
            alt_cased(w@, false) == r@ + alt_cased(w@.skip(i as int), upper_next),
        decreases n - i,
    {
        let ghost pre_r = r@;
        let ghost pre_upper = upper_next;
        let c = w[i];
        proof {
            assert(w@.skip(i as int)[0] == w@[i as int]);
            assert(w@.skip(i as int).drop_first() =~= w@.skip(i + 1));
        }
        if lower_char(c) || upper_char(c) {
            if upper_next {
                r.push(upper_of(c));
            } else {
                r.push(lower_of(c));
            }
            upper_next = !upper_next;
            proof {
                assert(alt_cased(w@.skip(i as int), pre_upper) == seq![
                    if pre_upper {
                        to_upper(w@[i as int])
                    } else {
                        to_lower(w@[i as int])
                    },
                ] + alt_cased(w@.skip(i + 1), !pre_upper));
                assert(r@ =~= pre_r.push(
                    if pre_upper {
                        to_upper(w@[i as int])
                    } else {
                        to_lower(w@[i as int])
                    },
                ));
                assert(pre_r + (seq![
                    if pre_upper {
                        to_upper(w@[i as int])
                    } else {
                        to_lower(w@[i as int])
                    },
                ] + alt_cased(w@.skip(i + 1), upper_next)) =~= r@ + alt_cased(
                    w@.skip(i + 1),
                    upper_next,
                ));
            }
        } else {
            r.push(c);
            proof {
                assert(alt_cased(w@.skip(i as int), pre_upper) == seq![w@[i as int]] + alt_cased(
                    w@.skip(i + 1),
                    pre_upper,
                ));
                assert(r@ =~= pre_r.push(w@[i as int]));
                assert(pre_r + (seq![w@[i as int]] + alt_cased(w@.skip(i + 1), upper_next)) =~= r@
                    + alt_cased(w@.skip(i + 1), upper_next));
            }
        }
        i = i + 1;
    }
    proof {
        assert(w@.skip(n as int) =~= Seq::<char>::empty());
        assert(alt_cased(Seq::<char>::empty(), upper_next) == Seq::<char>::empty());
        assert(r@ + Seq::<char>::empty() =~= r@);
    }
    r
}

/// One word cased by the given random bits, one per character.
pub fn mutate_word_random(w: &Vec<char>, bits: &Vec<bool>) -> (r: Vec<char>)
    requires
        bits@.len() == w@.len(),
    ensures
        r@ == random_cased(w@, bits@),
{
    let n = w.len();
    let mut r: Vec<char> = Vec::new();
    let mut i: usize = 0;
    while i < n
        invariant
            n == w@.len(),
            bits@.len() == n,
            i <= n,
            r@.len() == i,
            forall|j: int| 0 <= j < i ==> r@[j] == random_cased(w@, bits@)[j],
        decreases n - i,
    {
        if bits[i] {
            r.push(upper_of(w[i]));
        } else {
            r.push(lower_of(w[i]));
        }
        i = i + 1;
    }
    proof {
        assert(r@ =~= random_cased(w@, bits@));
    }
    r
}

/// One word cased by the biased scheme, driven by the given bits.
pub fn mutate_word_pseudo(w: &Vec<char>, bits: &Vec<bool>) -> (r: Vec<char>)
    requires
        bits@.len() == w@.len(),
    ensures
        r@ == pseudo_cased(w@, bits@, None),
{
    let n = w.len();
    let mut r: Vec<char> = Vec::new();
    let mut forced: Option<bool> = None;
    let mut i: usize = 0;
    proof {
        assert(w@.skip(0) =~= w@);
        assert(bits@.skip(0) =~= bits@);
        assert(r@ + pseudo_cased(w@, bits@, None) =~= pseudo_cased(w@, bits@, None));
    }
    while i < n
        invariant
            n == w@.len(),
            bits@.len() == n,
            i <= n,
            pseudo_cased(w@, bits@, None) == r@ + pseudo_cased(
                w@.skip(i as int),
                bits@.skip(i as int),
                forced,
            ),
        decreases n - i,
    {
        let ghost pre_r = r@;
        let ghost pre_forced = forced;
        proof {
            assert(w@.skip(i as int)[0] == w@[i as int]);
            assert(w@.skip(i as int).drop_first() =~= w@.skip(i + 1));
            assert(bits@.skip(i as int).drop_first() =~= bits@.skip(i + 1));
            assert(bits@.skip(i as int).len() > 0 ==> bits@.skip(i as int)[0] == bits@[i as int]);
        }
        let up: bool;
        match forced {
            None => {
                if bits[i] {
                    up = true;
                    forced = Some(false);
                } else {
                    up = false;
                    forced = Some(true);
                }
            },
            Some(u) => {
                up = u;
                forced = None;
            },
        }
        if up {
            r.push(upper_of(w[i]));
        } else {
            r.push(lower_of(w[i]));
        }
        proof {
            let c = if up {
                to_upper(w@[i as int])
            } else {
                to_lower(w@[i as int])
            };
            assert(pseudo_cased(w@.skip(i as int), bits@.skip(i as int), pre_forced) == seq![c]
                + pseudo_cased(w@.skip(i + 1), bits@.skip(i + 1), forced));
            assert(r@ =~= pre_r.push(c));
            assert(pre_r + (seq![c] + pseudo_cased(w@.skip(i + 1), bits@.skip(i + 1), forced)) =~= r@
                + pseudo_cased(w@.skip(i + 1), bits@.skip(i + 1), forced));
        }
        i = i + 1;
    }
    proof {
        assert(w@.skip(n as int) =~= Seq::<char>::empty());
        assert(pseudo_cased(Seq::<char>::empty(), bits@.skip(n as int), forced)
            == Seq::<char>::empty());
        assert(r@ + Seq::<char>::empty() =~= r@);
    }
    r
}

/// Relies on `rand::random`: draws one boolean from the thread-local
/// generator, each outcome equally likely.  Nothing is promised of the value.
#[verifier::external_body]
fn random_bool() -> bool {
    rand::random::<bool>()
}

/// Draws `n` fresh random bits.
fn random_bits(n: usize) -> (r: Vec<bool>)
    ensures
        r@.len() == n,
{
    let mut r: Vec<bool> = Vec::new();
    let mut i: usize = 0;
    while i < n
        invariant
            i <= n,
            r@.len() == i,
        decreases n - i,
    {
        r.push(random_bool());
        i = i + 1;
    }
    r
}

/// Words cased by the pattern, at the character level.  A deterministic
/// pattern fixes the result exactly; the random patterns promise only that
/// each word keeps its length and characters up to letter case.
pub fn mutate_chars(words: &Vec<Vec<char>>, p: Pattern) -> (r: Vec<Vec<char>>)
    ensures
        r.deep_view().len() == words.deep_view().len(),
        forall|i: int|
            0 <= i < r.deep_view().len() ==> case_variant(
                r.deep_view()[i],
                words.deep_view()[i],
            ),
        deterministic_pattern(p) ==> r.deep_view() == mutate_spec(words.deep_view(), p),
{
    let n = words.len();
    let mut r: Vec<Vec<char>> = Vec::new();
    let mut i: usize = 0;
    while i < n
        invariant
            n == words@.len(),
            i <= n,
            r.deep_view().len() == i,
            forall|j: int|
                0 <= j < i ==> case_variant(r.deep_view()[j], words.deep_view()[j]),
            deterministic_pattern(p) ==> forall|j: int|
                0 <= j < i ==> r.deep_view()[j] == mutate_spec(words.deep_view(), p)[j],
        decreases n - i,
    {
        let ghost pre_r = r.deep_view();
        let w = &words[i];
        proof {
            assert(w@ == words.deep_view()[i as int]);
        }
        let mw: Vec<char> = match p {
            Pattern::Lowercase => mutate_word(w, WordCase::Lower),
            Pattern::Uppercase => mutate_word(w, WordCase::Upper),
            Pattern::Capital => mutate_word(w, WordCase::Capital),
            Pattern::Toggle => mutate_word(w, WordCase::Toggle),
            Pattern::Sentence => if i == 0 {
                mutate_word(w, WordCase::Capital)
            } else {
                mutate_word(w, WordCase::Lower)
            },
            Pattern::Camel => if i == 0 {
                mutate_word(w, WordCase::Lower)
            } else {
                mutate_word(w, WordCase::Capital)
            },
            Pattern::Alternating => {
                let out = mutate_word_alternating(w);
                proof {
                    lemma_alt_cased_variant(w@, false);
                }
                out
            },
            Pattern::Random => {
                let bits = random_bits(w.len());
                let out = mutate_word_random(w, &bits);
                proof {
                    assert(case_variant(out@, w@));
                }
                out
            },
            Pattern::PseudoRandom => {
                let bits = random_bits(w.len());
                let out = mutate_word_pseudo(w, &bits);
                proof {
                    lemma_pseudo_cased_variant(w@, bits@, None);
                }
                out
            },
        };
        proof {
            assert(case_variant(mw@, w@));
            if deterministic_pattern(p) {
                assert(mw@ == word_mutated(words.deep_view()[i as int], p, i as int));
            }
        }
        r.push(mw);
        proof {
            assert(r.deep_view() =~~= pre_r.push(mw@));
        }
        i = i + 1;
    }
    proof {
        if deterministic_pattern(p) {
            assert(r.deep_view() =~= mutate_spec(words.deep_view(), p));
        }
    }
    r
}

/// The full ordered catalog of patterns, for listing and name lookup.
pub open spec fn all_patterns_spec() -> Seq<Pattern> {
    seq![
        Pattern::Lowercase,
        Pattern::Uppercase,
        Pattern::Capital,
        Pattern::Sentence,
        Pattern::Camel,
        Pattern::Alternating,
        Pattern::Toggle,
        Pattern::PseudoRandom,
        Pattern::Random,
    ]
}

/// Every pattern, in the documented catalog order.
pub fn all_patterns() -> (r: Vec<Pattern>)
    ensures
        r@ == all_patterns_spec(),
{
    let r: Vec<Pattern> = vec![
        Pattern::Lowercase,
        Pattern::Uppercase,
        Pattern::Capital,
        Pattern::Sentence,
        Pattern::Camel,
        Pattern::Alternating,
        Pattern::Toggle,
        Pattern::PseudoRandom,
        Pattern::Random,
    ];
    proof {
        assert(r@ =~= all_patterns_spec());
    }
    r
}

impl Pattern {
    /// The pattern's canonical name.
    pub open spec fn name_spec(self) -> Seq<char> {
        match self {
            Pattern::Lowercase => "Lowercase"@,
            Pattern::Uppercase => "Uppercase"@,
            Pattern::Capital => "Capital"@,
            Pattern::Sentence => "Sentence"@,
            Pattern::Camel => "Camel"@,
            Pattern::Alternating => "Alternating"@,
            Pattern::Toggle => "Toggle"@,
            Pattern::PseudoRandom => "PseudoRandom"@,
            Pattern::Random => "Random"@,
        }
    }

    /// The pattern's canonical name.
    pub fn name(&self) -> (r: &'static str)
        ensures
            r@ == self.name_spec(),
    {
        match self {
            Pattern::Lowercase => "Lowercase",
            Pattern::Uppercase => "Uppercase",
            Pattern::Capital => "Capital",
            Pattern::Sentence => "Sentence",
            Pattern::Camel => "Camel",
            Pattern::Alternating => "Alternating",
            Pattern::Toggle => "Toggle",
            Pattern::PseudoRandom => "PseudoRandom",
            Pattern::Random => "Random",
        }
    }

    /// Words cased by this pattern.  A deterministic pattern fixes the
    /// result exactly; the random patterns promise only that each word keeps
    /// its length and characters up to letter case.
    pub fn mutate(&self, words: &Vec<String>) -> (r: Vec<String>)
        ensures
            r.deep_view().len() == words.deep_view().len(),
            forall|i: int|
                0 <= i < r.deep_view().len() ==> case_variant(
                    r.deep_view()[i],
                    words.deep_view()[i],
                ),
            deterministic_pattern(*self) ==> r.deep_view() == mutate_spec(words.deep_view(), *self),
    {
        let n = words.len();
        let mut cw: Vec<Vec<char>> = Vec::new();
        let mut i: usize = 0;
        while i < n
            invariant
                n == words@.len(),
                i <= n,
                cw.deep_view() == words.deep_view().subrange(0, i as int),
            decreases n - i,
        {
            let ghost pre = cw.deep_view();
            let wi = &words[i];
            cw.push(chars_of_str(wi.as_str()));
            proof {
                assert(cw.deep_view() =~~= pre.push(words.deep_view()[i as int]));
                assert(pre.push(words.deep_view()[i as int]) =~~= words.deep_view().subrange(
                    0,
                    i + 1,
                ));
            }
            i = i + 1;
        }
        proof {
            assert(words.deep_view().subrange(0, n as int) =~~= words.deep_view());
        }
        let mc = mutate_chars(&cw, *self);
        let m = mc.len();
        let mut out: Vec<String> = Vec::new();
        let mut j: usize = 0;
        while j < m
            invariant
                m == mc@.len(),
                j <= m,
                out.deep_view() == mc.deep_view().subrange(0, j as int),
            decreases m - j,
        {
            let ghost pre = out.deep_view();
            out.push(string_of_chars(&mc[j]));
            proof {
                assert(out.deep_view() =~~= pre.push(mc.deep_view()[j as int]));
                assert(pre.push(mc.deep_view()[j as int]) =~~= mc.deep_view().subrange(0, j + 1));
            }
            j = j + 1;
        }
        proof {
            assert(mc.deep_view().subrange(0, m as int) =~~= mc.deep_view());
        }
        out
    }
}

} // verus!
