//! The pipeline: split the input into words, case the words with a pattern,
//! and join them with a delimiter.

use vstd::prelude::*;
use vstd::string::StringExecFns;
use crate::boundary::{Boundary, delim_char};
use crate::case::Case;
use crate::pattern::{case_variant, deterministic_pattern, mutate_spec, Pattern};
use crate::segment::{split, split_spec};

verus! {

/// Words joined with `d` between adjacent words: none before the first,
/// none after the last, and the delimiter itself never cased.
pub open spec fn join_spec(ws: Seq<Seq<char>>, d: Seq<char>) -> Seq<char>
    decreases ws.len(),
{
    if ws.len() == 0 {
        Seq::empty()
    } else if ws.len() == 1 {
        ws[0]
    } else {
        ws[0] + d + join_spec(ws.drop_first(), d)
    }
}

proof fn lemma_join_push(ws: Seq<Seq<char>>, d: Seq<char>, w: Seq<char>)
    ensures
        join_spec(ws.push(w), d) == if ws.len() == 0 {
            w
        } else {
            join_spec(ws, d) + d + w
        },
    decreases ws.len(),
{
    if ws.len() == 0 {
        assert(ws.push(w).len() == 1);
        assert(ws.push(w)[0] == w);
    } else {
        lemma_join_push(ws.drop_first(), d, w);
        assert(ws.push(w).drop_first() =~= ws.drop_first().push(w));
        assert(ws.push(w)[0] == ws[0]);
    }
}

/// Joins the words with the delimiter; an empty word sequence joins to the
/// empty string.
pub fn join(words: &Vec<String>, delim: &str) -> (r: String)
    ensures
        r@ == join_spec(words.deep_view(), delim@),
{
    let n = words.len();
    let mut r = String::new();
    let mut i: usize = 0;
    proof {
        assert(words.deep_view().subrange(0, 0) =~~= Seq::<Seq<char>>::empty());
    }
    while i < n
        invariant
            n == words@.len(),
            i <= n,
            r@ == join_spec(words.deep_view().subrange(0, i as int), delim@),
        decreases n - i,
    {
        let ghost pre = words.deep_view().subrange(0, i as int);
        if i > 0 {
            r.append(delim);
        }
        let wi = &words[i];
        r.append(wi.as_str());
        proof {
            assert(wi@ == words.deep_view()[i as int]);
            assert(words.deep_view().subrange(0, i + 1) =~~= pre.push(
                words.deep_view()[i as int],
            ));
            lemma_join_push(pre, delim@, words.deep_view()[i as int]);
        }
        i = i + 1;
    }
    proof {
        assert(words.deep_view().subrange(0, n as int) =~~= words.deep_view());
    }
    r
}

/// The full pipeline on explicit parts: split along `bs`, case with `p`,
/// join with `d`.
pub open spec fn convert_spec(s: Seq<char>, bs: Seq<Boundary>, p: Pattern, d: Seq<char>) -> Seq<
    char,
> {
    join_spec(mutate_spec(split_spec(s, bs), p), d)
}

/// Converts `input` with an explicit boundary set, pattern and delimiter.
/// With a deterministic pattern the result is fixed exactly; with a random
/// pattern the result joins some case variant of each split word.
pub fn convert_with(input: &str, bs: &Vec<Boundary>, p: Pattern, delim: &str) -> (r: String)
    ensures
        deterministic_pattern(p) ==> r@ == convert_spec(input@, bs@, p, delim@),
        exists|vs: Seq<Seq<char>>|
            {
                &&& vs.len() == split_spec(input@, bs@).len()
                &&& (forall|i: int|
                    0 <= i < vs.len() ==> case_variant(vs[i], split_spec(input@, bs@)[i]))
                &&& r@ == #[trigger] join_spec(vs, delim@)
            },
        input@.len() == 0 ==> r@.len() == 0,
{
    let words = split(input, bs);
    let mutated = p.mutate(&words);
    let out = join(&mutated, delim);
    proof {
        let vs = mutated.deep_view();
        assert(vs.len() == split_spec(input@, bs@).len());
        assert(out@ == join_spec(vs, delim@));
        if input@.len() == 0 {
            crate::segment::lemma_split_empty(bs@);
            assert(input@ =~= Seq::<char>::empty());
            assert(vs.len() == 0);
            assert(join_spec(vs, delim@) == Seq::<char>::empty());
        }
    }
    out
}

/// The boundaries used to split: an explicit custom set strictly overrides
/// everything; otherwise the source style's canonical set; otherwise the
/// defaults.
pub open spec fn boundaries_for(from: Option<Case>, custom: Option<Seq<Boundary>>) -> Seq<
    Boundary,
> {
    match custom {
        Some(bs) => bs,
        None => match from {
            Some(c) => c.boundaries_spec(),
            None => Boundary::defaults_spec(),
        },
    }
}

/// A custom boundary set strictly overrides both the default boundaries and
/// any source style's boundaries.
pub proof fn lemma_custom_boundaries_override(from: Option<Case>, bs: Seq<Boundary>)
    ensures
        boundaries_for(from, Some(bs)) == bs,
{
}

/// The boundary sets a caller may pass, as their mathematical view.
pub open spec fn custom_view(custom: Option<&Vec<Boundary>>) -> Option<Seq<Boundary>> {
    match custom {
        Some(v) => Some(v@),
        None => None,
    }
}

/// Converts `input` into the style `to`.  The input is split along the
/// custom boundaries when given, else along `from`'s boundaries when given,
/// else along the defaults; the words are cased by `to`'s pattern and joined
/// with `to`'s delimiter.  A source style and a custom boundary set are
/// mutually exclusive; handing both is a configuration error that the
/// options check reports before any conversion runs.
pub fn convert(input: &str, to: Case, from: Option<Case>, custom: Option<&Vec<Boundary>>) -> (r:
    String)
    requires
        !(from is Some && custom is Some),
    ensures
        to.deterministic_spec() ==> r@ == convert_spec(
            input@,
            boundaries_for(from, custom_view(custom)),
            to.pattern_spec(),
            to.delim_spec(),
        ),
        exists|vs: Seq<Seq<char>>|
            {
                &&& vs.len() == split_spec(
                    input@,
                    boundaries_for(from, custom_view(custom)),
                ).len()
                &&& (forall|i: int|
                    0 <= i < vs.len() ==> case_variant(
                        vs[i],
                        split_spec(input@, boundaries_for(from, custom_view(custom)))[i],
                    ))
                &&& r@ == #[trigger] join_spec(vs, to.delim_spec())
            },
        input@.len() == 0 ==> r@.len() == 0,
{
    let p = to.pattern();
    let d = to.delim();
    match custom {
        Some(v) => convert_with(input, v, p, d),
        None => {
            match from {
                Some(c) => {
                    let bs = c.boundaries();
                    convert_with(input, &bs, p, d)
                },
                None => {
                    let bs = Boundary::defaults();
                    convert_with(input, &bs, p, d)
                },
            }
        },
    }
}

/// A string is canonically in a style when splitting it along the style's
/// boundaries yields words that the style's pattern leaves unchanged, and
/// joining those words with the style's delimiter gives the string back.
pub open spec fn canonical_in(s: Seq<char>, c: Case) -> bool {
    &&& mutate_spec(split_spec(s, c.boundaries_spec()), c.pattern_spec()) == split_spec(
        s,
        c.boundaries_spec(),
    )
    &&& join_spec(split_spec(s, c.boundaries_spec()), c.delim_spec()) == s
}

/// Converting into a deterministic single-delimiter style — one whose
/// boundary set consumes exactly its own delimiter character, as the snake,
/// kebab and space-delimited styles do — is idempotent: converting the
/// result again, from and to the same style, changes nothing.
pub proof fn lemma_convert_idempotent(s: Seq<char>, to: Case)
    requires
        to.deterministic_spec(),
        to.boundaries_spec().len() > 0,
        to.delim_spec().len() == 1,
        !crate::chars::is_letter(to.delim_spec()[0]),
        crate::segment::delims_of(to.boundaries_spec(), to.delim_spec()[0]),
    ensures
        convert_spec(
            convert_spec(s, to.boundaries_spec(), to.pattern_spec(), to.delim_spec()),
            to.boundaries_spec(),
            to.pattern_spec(),
            to.delim_spec(),
        ) == convert_spec(s, to.boundaries_spec(), to.pattern_spec(), to.delim_spec()),
{
    let bs = to.boundaries_spec();
    let p = to.pattern_spec();
    let d = to.delim_spec();
    let c = d[0];
    let ws = split_spec(s, bs);
    let mws = mutate_spec(ws, p);
    crate::segment::lemma_split_no_empty_words(s, bs);
    crate::segment::lemma_split_words_delim_free(s, bs);
    assert(delim_char(bs[0]) == Some(c));
    assert forall|j: int| 0 <= j < mws.len() implies #[trigger] mws[j].len() > 0 by {
        crate::pattern::lemma_word_mutated_variant(ws[j], p, j);
    }
    assert forall|j: int, l: int|
        0 <= j < mws.len() && 0 <= l < mws[j].len() implies #[trigger] mws[j][l] != c by {
        crate::pattern::lemma_word_mutated_variant(ws[j], p, j);
        crate::chars::lemma_recase(ws[j][l]);
        assert(!crate::boundary::delim_at(bs, ws[j][l]));
        assert(ws[j][l] != c);
    }
    crate::pattern::lemma_mutate_idempotent(ws, p);
    crate::segment::lemma_split_join_round_trip(mws, bs, c);
    assert(seq![c] =~= d);
}

/// Converting a string that is already canonically in a deterministic style
/// `c`, with `c` as both source and target, gives the string back unchanged.
pub proof fn lemma_convert_identity_on_canonical(s: Seq<char>, c: Case)
    requires
        c.deterministic_spec(),
        canonical_in(s, c),
    ensures
        convert_spec(s, c.boundaries_spec(), c.pattern_spec(), c.delim_spec()) == s,
{
}

/// Joining no words yields the empty string, whatever the delimiter.
pub proof fn lemma_join_no_words(d: Seq<char>)
    ensures
        join_spec(Seq::empty(), d) == Seq::<char>::empty(),
{
}

/// Converting the empty string yields the empty string, whatever the parts.
pub proof fn lemma_convert_empty(bs: Seq<Boundary>, p: Pattern, d: Seq<char>)
    ensures
        convert_spec(Seq::empty(), bs, p, d) == Seq::<char>::empty(),
{
    crate::segment::lemma_split_empty(bs);
    assert(mutate_spec(Seq::empty(), p) =~= Seq::<Seq<char>>::empty());
}

} // verus!
