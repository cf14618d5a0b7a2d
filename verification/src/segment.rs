//! The splitter: scans the input once, left to right, closing the current
//! word at every delimiter (consuming it) and at every transition boundary
//! (between the two characters).  Empty words are never emitted.

use vstd::prelude::*;
use crate::boundary::{
    Boundary, delim_at, delim_char, is_delim_at, is_transition_at, transition_at,
    transition_match,
};
use crate::text::{chars_of_str, string_of_chars};

verus! {

/// The words of `s` from position `i` on, with `cur` the word under
/// construction.  A delimiter closes `cur` (dropping it when empty) and is
/// consumed; a transition closes `cur` and starts the next word at the
/// current character; every other character is appended to `cur`.
pub open spec fn split_from(s: Seq<char>, bs: Seq<Boundary>, i: int, cur: Seq<char>) -> Seq<
    Seq<char>,
>
    decreases s.len() - i,
{
    if i >= s.len() {
        if cur.len() == 0 {
            Seq::empty()
        } else {
            seq![cur]
        }
    } else if delim_at(bs, s[i]) {
        if cur.len() == 0 {
            split_from(s, bs, i + 1, Seq::empty())
        } else {
            seq![cur] + split_from(s, bs, i + 1, Seq::empty())
        }
    } else if 1 <= i && cur.len() > 0 && transition_at(bs, s, i) {
        seq![cur] + split_from(s, bs, i + 1, seq![s[i]])
    } else {
        split_from(s, bs, i + 1, cur.push(s[i]))
    }
}

/// The ordered words obtained by splitting `s` along the boundaries `bs`.
pub open spec fn split_spec(s: Seq<char>, bs: Seq<Boundary>) -> Seq<Seq<char>> {
    split_from(s, bs, 0, Seq::empty())
}

/// All words of `s`, concatenated.
pub open spec fn concat_words(ws: Seq<Seq<char>>) -> Seq<char>
    decreases ws.len(),
{
    if ws.len() == 0 {
        Seq::empty()
    } else {
        ws[0] + concat_words(ws.drop_first())
    }
}

/// `s` from position `i` on, with the characters consumed by delimiter
/// boundaries removed.
pub open spec fn strip_from(s: Seq<char>, bs: Seq<Boundary>, i: int) -> Seq<char>
    decreases s.len() - i,
{
    if i >= s.len() {
        Seq::empty()
    } else if delim_at(bs, s[i]) {
        strip_from(s, bs, i + 1)
    } else {
        seq![s[i]] + strip_from(s, bs, i + 1)
    }
}

/// `s` with every delimiter character removed.
pub open spec fn strip_delims(s: Seq<char>, bs: Seq<Boundary>) -> Seq<char> {
    strip_from(s, bs, 0)
}

proof fn lemma_concat_cons(w: Seq<char>, rest: Seq<Seq<char>>)
    ensures
        concat_words(seq![w] + rest) == w + concat_words(rest),
{
    assert((seq![w] + rest).drop_first() =~= rest);
    assert((seq![w] + rest)[0] == w);
}

proof fn lemma_split_concat(s: Seq<char>, bs: Seq<Boundary>, i: int, cur: Seq<char>)
    requires
        0 <= i,
    ensures
        concat_words(split_from(s, bs, i, cur)) == cur + strip_from(s, bs, i),
    decreases s.len() - i,
{
    if i >= s.len() {
        if cur.len() == 0 {
            assert(split_from(s, bs, i, cur) == Seq::<Seq<char>>::empty());
            assert(concat_words(Seq::<Seq<char>>::empty()) == Seq::<char>::empty());
            assert(cur + strip_from(s, bs, i) =~= Seq::<char>::empty());
            assert(concat_words(split_from(s, bs, i, cur)) == cur + strip_from(s, bs, i));
        } else {
            assert(split_from(s, bs, i, cur) == seq![cur]);
            assert(seq![cur].drop_first() =~= Seq::<Seq<char>>::empty());
            assert(concat_words(seq![cur]) == cur + concat_words(Seq::<Seq<char>>::empty()));
            assert(cur + Seq::<char>::empty() =~= cur);
            assert(cur + strip_from(s, bs, i) =~= cur);
            assert(concat_words(split_from(s, bs, i, cur)) == cur + strip_from(s, bs, i));
        }
    } else if delim_at(bs, s[i]) {
        lemma_split_concat(s, bs, i + 1, Seq::empty());
        if cur.len() == 0 {
            assert(split_from(s, bs, i, cur) == split_from(s, bs, i + 1, Seq::empty()));
            assert(Seq::<char>::empty() + strip_from(s, bs, i + 1) =~= strip_from(s, bs, i + 1));
            assert(cur + strip_from(s, bs, i) =~= strip_from(s, bs, i + 1));
            assert(concat_words(split_from(s, bs, i, cur)) == cur + strip_from(s, bs, i));
        } else {
            assert(split_from(s, bs, i, cur) == seq![cur] + split_from(s, bs, i + 1, Seq::empty()));
            lemma_concat_cons(cur, split_from(s, bs, i + 1, Seq::empty()));
            assert(Seq::<char>::empty() + strip_from(s, bs, i + 1) =~= strip_from(s, bs, i + 1));
            assert(cur + strip_from(s, bs, i) == cur + strip_from(s, bs, i + 1));
            assert(concat_words(split_from(s, bs, i, cur)) == cur + strip_from(s, bs, i));
        }
    } else if 1 <= i && cur.len() > 0 && transition_at(bs, s, i) {
        lemma_split_concat(s, bs, i + 1, seq![s[i]]);
        lemma_concat_cons(cur, split_from(s, bs, i + 1, seq![s[i]]));
        assert(split_from(s, bs, i, cur) == seq![cur] + split_from(s, bs, i + 1, seq![s[i]]));
        assert(cur + (seq![s[i]] + strip_from(s, bs, i + 1)) =~= cur + strip_from(s, bs, i));
        assert(concat_words(split_from(s, bs, i, cur)) == cur + strip_from(s, bs, i));
    } else {
        lemma_split_concat(s, bs, i + 1, cur.push(s[i]));
        assert(split_from(s, bs, i, cur) == split_from(s, bs, i + 1, cur.push(s[i])));
        assert(cur.push(s[i]) + strip_from(s, bs, i + 1) =~= cur + strip_from(s, bs, i));
        assert(concat_words(split_from(s, bs, i, cur)) == cur + strip_from(s, bs, i));
    }
}

/// The splitter never loses or reorders non-delimiter characters:
/// concatenating all returned words reproduces the input with exactly the
/// delimiter characters removed.
pub proof fn lemma_split_preserves_characters(s: Seq<char>, bs: Seq<Boundary>)
    ensures
        concat_words(split_spec(s, bs)) == strip_delims(s, bs),
{
    lemma_split_concat(s, bs, 0, Seq::empty());
    assert(Seq::<char>::empty() + strip_from(s, bs, 0) =~= strip_from(s, bs, 0));
}

proof fn lemma_split_from_no_empty(s: Seq<char>, bs: Seq<Boundary>, i: int, cur: Seq<char>)
    requires
        0 <= i,
    ensures
        forall|j: int|
            0 <= j < split_from(s, bs, i, cur).len() ==> split_from(s, bs, i, cur)[j].len() > 0,
    decreases s.len() - i,
{
    let ws = split_from(s, bs, i, cur);
    if i >= s.len() {
        assert forall|j: int| 0 <= j < ws.len() implies ws[j].len() > 0 by {
            assert(ws[0] == cur);
        }
    } else if delim_at(bs, s[i]) {
        lemma_split_from_no_empty(s, bs, i + 1, Seq::empty());
        let rest = split_from(s, bs, i + 1, Seq::<char>::empty());
        if cur.len() > 0 {
            assert(ws == seq![cur] + rest);
            assert forall|j: int| 0 <= j < ws.len() implies ws[j].len() > 0 by {
                if j == 0 {
                    assert((seq![cur] + rest)[0] == cur);
                } else {
                    assert((seq![cur] + rest)[j] == rest[j - 1]);
                }
            }
        } else {
            assert forall|j: int| 0 <= j < ws.len() implies ws[j].len() > 0 by {
                assert(ws[j] == rest[j]);
            }
        }
    } else if 1 <= i && cur.len() > 0 && transition_at(bs, s, i) {
        lemma_split_from_no_empty(s, bs, i + 1, seq![s[i]]);
        let rest = split_from(s, bs, i + 1, seq![s[i]]);
        assert(ws == seq![cur] + rest);
        assert forall|j: int| 0 <= j < ws.len() implies ws[j].len() > 0 by {
            if j == 0 {
                assert((seq![cur] + rest)[0] == cur);
            } else {
                assert((seq![cur] + rest)[j] == rest[j - 1]);
            }
        }
    } else {
        lemma_split_from_no_empty(s, bs, i + 1, cur.push(s[i]));
        let rest = split_from(s, bs, i + 1, cur.push(s[i]));
        assert forall|j: int| 0 <= j < ws.len() implies ws[j].len() > 0 by {
            assert(ws[j] == rest[j]);
        }
    }
}

/// Splitting never produces an empty word: consecutive, leading and trailing
/// delimiters are absorbed.
pub proof fn lemma_split_no_empty_words(s: Seq<char>, bs: Seq<Boundary>)
    ensures
        forall|j: int| 0 <= j < split_spec(s, bs).len() ==> split_spec(s, bs)[j].len() > 0,
{
    lemma_split_from_no_empty(s, bs, 0, Seq::empty());
}

/// A word holding no character that a delimiter boundary in `bs` consumes.
pub open spec fn word_delim_free(w: Seq<char>, bs: Seq<Boundary>) -> bool {
    forall|l: int| 0 <= l < w.len() ==> !delim_at(bs, #[trigger] w[l])
}

proof fn lemma_split_from_delim_free(s: Seq<char>, bs: Seq<Boundary>, i: int, cur: Seq<char>)
    requires
        0 <= i,
        word_delim_free(cur, bs),
    ensures
        forall|j: int|
            0 <= j < split_from(s, bs, i, cur).len() ==> word_delim_free(
                #[trigger] split_from(s, bs, i, cur)[j],
                bs,
            ),
    decreases s.len() - i,
{
    let ws = split_from(s, bs, i, cur);
    if i >= s.len() {
        assert forall|j: int| 0 <= j < ws.len() implies word_delim_free(ws[j], bs) by {
            assert(ws[0] == cur);
        }
    } else if delim_at(bs, s[i]) {
        lemma_split_from_delim_free(s, bs, i + 1, Seq::empty());
        let rest = split_from(s, bs, i + 1, Seq::<char>::empty());
        if cur.len() > 0 {
            assert(ws == seq![cur] + rest);
            assert forall|j: int| 0 <= j < ws.len() implies word_delim_free(ws[j], bs) by {
                if j == 0 {
                    assert((seq![cur] + rest)[0] == cur);
                } else {
                    assert((seq![cur] + rest)[j] == rest[j - 1]);
                }
            }
        } else {
            assert forall|j: int| 0 <= j < ws.len() implies word_delim_free(ws[j], bs) by {
                assert(ws[j] == rest[j]);
            }
        }
    } else if 1 <= i && cur.len() > 0 && transition_at(bs, s, i) {
        assert(word_delim_free(seq![s[i]], bs)) by {
            assert(seq![s[i]][0] == s[i]);
        }
        lemma_split_from_delim_free(s, bs, i + 1, seq![s[i]]);
        let rest = split_from(s, bs, i + 1, seq![s[i]]);
        assert(ws == seq![cur] + rest);
        assert forall|j: int| 0 <= j < ws.len() implies word_delim_free(ws[j], bs) by {
            if j == 0 {
                assert((seq![cur] + rest)[0] == cur);
            } else {
                assert((seq![cur] + rest)[j] == rest[j - 1]);
            }
        }
    } else {
        assert(word_delim_free(cur.push(s[i]), bs)) by {
            assert(forall|l: int|
                0 <= l < cur.len() ==> cur.push(s[i])[l] == #[trigger] cur[l]);
            assert(cur.push(s[i])[cur.len() as int] == s[i]);
        }
        lemma_split_from_delim_free(s, bs, i + 1, cur.push(s[i]));
        let rest = split_from(s, bs, i + 1, cur.push(s[i]));
        assert forall|j: int| 0 <= j < ws.len() implies word_delim_free(ws[j], bs) by {
            assert(ws[j] == rest[j]);
        }
    }
}

/// No word of a split contains a character that a delimiter boundary of the
/// split consumes.
pub proof fn lemma_split_words_delim_free(s: Seq<char>, bs: Seq<Boundary>)
    ensures
        forall|j: int|
            0 <= j < split_spec(s, bs).len() ==> word_delim_free(
                #[trigger] split_spec(s, bs)[j],
                bs,
            ),
{
    lemma_split_from_delim_free(s, bs, 0, Seq::empty());
}

/// A boundary set made of delimiters only, all consuming the character `c`.
pub open spec fn delims_of(bs: Seq<Boundary>, c: char) -> bool {
    forall|k: int| 0 <= k < bs.len() ==> delim_char(#[trigger] bs[k]) == Some(c)
}

proof fn lemma_no_transitions(bs: Seq<Boundary>, s: Seq<char>, i: int, c: char)
    requires
        delims_of(bs, c),
    ensures
        !transition_at(bs, s, i),
{
    assert forall|k: int| 0 <= k < bs.len() implies !transition_match(
        bs[k],
        s[i - 1],
        s[i],
        if i + 1 < s.len() {
            Some(s[i + 1])
        } else {
            None
        },
    ) by {
        assert(delim_char(bs[k]) == Some(c));
    }
}

proof fn lemma_walk_word(s: Seq<char>, bs: Seq<Boundary>, c: char, i: int, m: int, cur: Seq<char>)
    requires
        delims_of(bs, c),
        0 <= i,
        0 <= m,
        i + m <= s.len(),
        forall|l: int| i <= l < i + m ==> s[l] != c,
    ensures
        split_from(s, bs, i, cur) == split_from(s, bs, i + m, cur + s.subrange(i, i + m)),
    decreases m,
{
    if m == 0 {
        assert(cur + s.subrange(i, i) =~= cur);
    } else {
        assert(!delim_at(bs, s[i])) by {
            assert forall|k: int| 0 <= k < bs.len() implies delim_char(bs[k]) != Some(s[i]) by {
                assert(delim_char(bs[k]) == Some(c));
            }
        }
        lemma_no_transitions(bs, s, i, c);
        assert(split_from(s, bs, i, cur) == split_from(s, bs, i + 1, cur.push(s[i])));
        lemma_walk_word(s, bs, c, i + 1, m - 1, cur.push(s[i]));
        assert(cur.push(s[i]) + s.subrange(i + 1, i + m) =~= cur + s.subrange(i, i + m));
    }
}

proof fn lemma_split_join_from(s: Seq<char>, bs: Seq<Boundary>, c: char, i: int, ws: Seq<Seq<char>>)
    requires
        bs.len() > 0,
        delims_of(bs, c),
        0 <= i <= s.len(),
        s.skip(i) == crate::convert::join_spec(ws, seq![c]),
        forall|j: int| 0 <= j < ws.len() ==> #[trigger] ws[j].len() > 0,
        forall|j: int, l: int| 0 <= j < ws.len() && 0 <= l < ws[j].len() ==> #[trigger] ws[j][l]
            != c,
    ensures
        split_from(s, bs, i, Seq::empty()) == ws,
    decreases ws.len(),
{
    let d = seq![c];
    if ws.len() == 0 {
        assert(s.skip(i).len() == 0);
        assert(i >= s.len());
        assert(split_from(s, bs, i, Seq::<char>::empty()) =~= ws);
    } else {
        let w0 = ws[0];
        let m = w0.len() as int;
        if ws.len() == 1 {
            assert(s.skip(i) == w0);
            assert(s.skip(i).len() == s.len() - i);
            assert(i + m == s.len());
        } else {
            assert(crate::convert::join_spec(ws, d) == w0 + d + crate::convert::join_spec(
                ws.drop_first(),
                d,
            ));
            assert(s.skip(i).len() == s.len() - i);
            assert(i + m < s.len());
        }
        assert forall|l: int| i <= l < i + m implies s[l] != c by {
            assert(s[l] == s.skip(i)[l - i]);
            if ws.len() == 1 {
                assert(s.skip(i)[l - i] == w0[l - i]);
            } else {
                assert(s.skip(i)[l - i] == w0[l - i]);
            }
        }
        lemma_walk_word(s, bs, c, i, m, Seq::empty());
        assert(Seq::<char>::empty() + s.subrange(i, i + m) =~= s.subrange(i, i + m));
        assert(s.subrange(i, i + m) =~= w0) by {
            assert(forall|l: int|
                0 <= l < m ==> #[trigger] s.subrange(i, i + m)[l] == s.skip(i)[l]);
            if ws.len() > 1 {
                assert(crate::convert::join_spec(ws, d) == w0 + d + crate::convert::join_spec(
                    ws.drop_first(),
                    d,
                ));
            }
        }
        if ws.len() == 1 {
            assert(s.skip(i) == w0);
            assert(i + m == s.len());
            assert(split_from(s, bs, i + m, w0) == seq![w0]);
            assert(seq![w0] =~= ws);
        } else {
            assert(crate::convert::join_spec(ws, d) == w0 + d + crate::convert::join_spec(
                ws.drop_first(),
                d,
            ));
            assert(i + m < s.len());
            assert(s[i + m] == s.skip(i)[m]);
            assert(s[i + m] == c);
            assert(delim_at(bs, c)) by {
                assert(delim_char(bs[0]) == Some(c));
            }
            assert(split_from(s, bs, i + m, w0) == seq![w0] + split_from(
                s,
                bs,
                i + m + 1,
                Seq::<char>::empty(),
            ));
            assert(s.skip(i + m + 1) =~= crate::convert::join_spec(ws.drop_first(), d)) by {
                assert(forall|l: int|
                    0 <= l < s.len() - i - m - 1 ==> #[trigger] s.skip(i + m + 1)[l] == s.skip(
                        i,
                    )[m + 1 + l]);
            }
            assert forall|j: int| 0 <= j < ws.drop_first().len() implies #[trigger] ws.drop_first()[j].len()
                > 0 by {
                assert(ws.drop_first()[j] == ws[j + 1]);
            }
            assert forall|j: int, l: int|
                0 <= j < ws.drop_first().len() && 0 <= l < ws.drop_first()[j].len() implies #[trigger] ws.drop_first()[j][l]
                != c by {
                assert(ws.drop_first()[j] == ws[j + 1]);
            }
            lemma_split_join_from(s, bs, c, i + m + 1, ws.drop_first());
            assert(seq![w0] + ws.drop_first() =~= ws);
        }
    }
}

/// Splitting along a set of delimiter boundaries that all consume `c`
/// recovers exactly the words that were joined with `c`, provided no word is
/// empty and none contains `c`: the delimited styles lose nothing in a
/// round trip through their own delimiter.
pub proof fn lemma_split_join_round_trip(ws: Seq<Seq<char>>, bs: Seq<Boundary>, c: char)
    requires
        bs.len() > 0,
        delims_of(bs, c),
        forall|j: int| 0 <= j < ws.len() ==> #[trigger] ws[j].len() > 0,
        forall|j: int, l: int| 0 <= j < ws.len() && 0 <= l < ws[j].len() ==> #[trigger] ws[j][l]
            != c,
    ensures
        split_spec(crate::convert::join_spec(ws, seq![c]), bs) == ws,
{
    let s = crate::convert::join_spec(ws, seq![c]);
    assert(s.skip(0) =~= s);
    lemma_split_join_from(s, bs, c, 0, ws);
}

proof fn lemma_split_from_no_boundaries(s: Seq<char>, bs: Seq<Boundary>, i: int, cur: Seq<char>)
    requires
        bs.len() == 0,
        0 <= i <= s.len(),
    ensures
        split_from(s, bs, i, cur) == if cur.len() + s.skip(i).len() == 0 {
            Seq::<Seq<char>>::empty()
        } else {
            seq![cur + s.skip(i)]
        },
    decreases s.len() - i,
{
    if i >= s.len() {
        assert(s.skip(i) =~= Seq::<char>::empty());
        if cur.len() > 0 {
            assert(cur + s.skip(i) =~= cur);
        }
    } else {
        assert(!delim_at(bs, s[i]));
        assert(!transition_at(bs, s, i));
        lemma_split_from_no_boundaries(s, bs, i + 1, cur.push(s[i]));
        assert(cur.push(s[i]) + s.skip(i + 1) =~= cur + s.skip(i));
        assert(s.skip(i).len() > 0);
    }
}

/// With an empty boundary set the whole input is one word, or no word at
/// all when the input is empty.
pub proof fn lemma_split_without_boundaries(s: Seq<char>, bs: Seq<Boundary>)
    requires
        bs.len() == 0,
    ensures
        split_spec(s, bs) == if s.len() == 0 {
            Seq::<Seq<char>>::empty()
        } else {
            seq![s]
        },
{
    lemma_split_from_no_boundaries(s, bs, 0, Seq::empty());
    assert(s.skip(0) =~= s);
    if s.len() > 0 {
        assert(Seq::<char>::empty() + s =~= s);
    }
}

/// Splitting the empty string yields no words, whatever the boundaries.
pub proof fn lemma_split_empty(bs: Seq<Boundary>)
    ensures
        split_spec(Seq::empty(), bs) == Seq::<Seq<char>>::empty(),
{
}

/// Splits the characters of `s` into words along the boundaries `bs`.
pub fn split_chars(s: &Vec<char>, bs: &Vec<Boundary>) -> (r: Vec<Vec<char>>)
    ensures
        r.deep_view() == split_spec(s@, bs@),
{
    let n = s.len();
    let mut words: Vec<Vec<char>> = Vec::new();
    let mut cur: Vec<char> = Vec::new();
    let mut i: usize = 0;
    proof {
        assert(words.deep_view() + split_from(s@, bs@, 0, cur@) =~~= split_spec(s@, bs@));
    }
    while i < n
        invariant
            n == s@.len(),
            i <= n,
            split_spec(s@, bs@) == words.deep_view() + split_from(s@, bs@, i as int, cur@),
        decreases n - i,
    {
        let ghost pre_words = words.deep_view();
        let ghost pre_cur = cur@;
        if is_delim_at(bs, s[i]) {
            if cur.len() > 0 {
                words.push(cur);
                cur = Vec::new();
                proof {
                    assert(words.deep_view() =~~= pre_words.push(pre_cur));
                    assert(split_from(s@, bs@, i as int, pre_cur) == seq![pre_cur] + split_from(
                        s@,
                        bs@,
                        i + 1,
                        Seq::empty(),
                    ));
                    assert(pre_words + (seq![pre_cur] + split_from(s@, bs@, i + 1, cur@)) =~~= (
                    pre_words.push(pre_cur) + split_from(s@, bs@, i + 1, cur@)));
                }
            } else {
                proof {
                    assert(pre_cur =~= Seq::<char>::empty());
                }
            }
        } else if i >= 1 && cur.len() > 0 && is_transition_at(bs, s, i) {
            words.push(cur);
            cur = Vec::new();
            cur.push(s[i]);
            proof {
                assert(words.deep_view() =~~= pre_words.push(pre_cur));
                assert(cur@ =~= seq![s@[i as int]]);
                assert(split_from(s@, bs@, i as int, pre_cur) == seq![pre_cur] + split_from(
                    s@,
                    bs@,
                    i + 1,
                    seq![s@[i as int]],
                ));
                assert(pre_words + (seq![pre_cur] + split_from(s@, bs@, i + 1, cur@)) =~~= (
                pre_words.push(pre_cur) + split_from(s@, bs@, i + 1, cur@)));
            }
        } else {
            cur.push(s[i]);
            proof {
                assert(cur@ == pre_cur.push(s@[i as int]));
                assert(split_from(s@, bs@, i as int, pre_cur) == split_from(
                    s@,
                    bs@,
                    i + 1,
                    pre_cur.push(s@[i as int]),
                ));
            }
        }
        i = i + 1;
    }
    if cur.len() > 0 {
        let ghost pre_words = words.deep_view();
        let ghost pre_cur = cur@;
        words.push(cur);
        proof {
            assert(words.deep_view() =~~= pre_words.push(pre_cur));
            assert(split_from(s@, bs@, n as int, pre_cur) == seq![pre_cur]);
            assert(pre_words + seq![pre_cur] =~~= pre_words.push(pre_cur));
        }
    } else {
        proof {
            assert(cur@ =~= Seq::<char>::empty());
            assert(split_from(s@, bs@, n as int, cur@) == Seq::<Seq<char>>::empty());
            assert(words.deep_view() + Seq::<Seq<char>>::empty() =~~= words.deep_view());
        }
    }
    words
}

/// Splits `s` into words along the boundaries `bs`.
pub fn split(s: &str, bs: &Vec<Boundary>) -> (r: Vec<String>)
    ensures
        r.deep_view() == split_spec(s@, bs@),
{
    let cs = chars_of_str(s);
    let parts = split_chars(&cs, bs);
    let mut out: Vec<String> = Vec::new();
    let mut j: usize = 0;
    while j < parts.len()
        invariant
            j <= parts@.len(),
            parts.deep_view() == split_spec(s@, bs@),
            out.deep_view() =~~= parts.deep_view().subrange(0, j as int),
        decreases parts@.len() - j,
    {
        let ghost pre_out = out.deep_view();
        out.push(string_of_chars(&parts[j]));
        proof {
            assert(out.deep_view() =~~= pre_out.push(parts@[j as int]@));
            assert(parts.deep_view()[j as int] == parts@[j as int].deep_view());
            assert(parts@[j as int].deep_view() =~= parts@[j as int]@);
            assert(pre_out.push(parts@[j as int]@) =~~= parts.deep_view().subrange(0, j + 1));
        }
        j = j + 1;
    }
    proof {
        assert(parts.deep_view().subrange(0, parts@.len() as int) =~~= parts.deep_view());
    }
    out
}

} // verus!
