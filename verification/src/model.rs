//! Mathematical model of the minification and its laws.
//!
//! `minify_seq` states the transformation over a `Seq<char>`: a
//! whitespace character is elided exactly when the position after it is
//! not a word boundary, that is, when it is the last character or the
//! next character is not a word character. Everything else survives
//! unchanged and in order.

use vstd::prelude::*;

use crate::charclass::is_space_char;
use crate::charclass::is_word_char;

verus! {

/// The character at position `i` of `s` is elided by minification:
/// it is whitespace and the position after it is not a word boundary
/// (the text ends there, or the next character is not a word
/// character).
pub open spec fn elided_at(s: Seq<char>, i: int) -> bool
    recommends
        0 <= i < s.len(),
{
    is_space_char(s[i]) && (i + 1 == s.len() || !is_word_char(s[i + 1]))
}

/// The minified form of `s`: each character is kept unless it is
/// elided, and the kept characters appear in their original order.
pub open spec fn minify_seq(s: Seq<char>) -> Seq<char>
    decreases s.len(),
{
    if s.len() == 0 {
        Seq::empty()
    } else if elided_at(s, 0) {
        minify_seq(s.skip(1))
    } else {
        seq![s[0]] + minify_seq(s.skip(1))
    }
}

/// A text in which minification finds nothing to remove: every
/// whitespace character is immediately followed by a word character.
pub open spec fn fully_minified(s: Seq<char>) -> bool {
    forall|i: int|
        0 <= i < s.len() && is_space_char(#[trigger] s[i]) ==> i + 1 < s.len() && is_word_char(
            s[i + 1],
        )
}

/// Minifying the suffix of `s` that starts at `i` takes one step that
/// is decided by `elided_at(s, i)`.
pub proof fn lemma_minify_seq_skip_step(s: Seq<char>, i: int)
    requires
        0 <= i < s.len(),
    ensures
        minify_seq(s.skip(i)) == if elided_at(s, i) {
            minify_seq(s.skip(i + 1))
        } else {
            seq![s[i]] + minify_seq(s.skip(i + 1))
        },
{
    assert(s.skip(i).skip(1) =~= s.skip(i + 1));
    assert(s.skip(i)[0] == s[i]);
    assert(elided_at(s.skip(i), 0) == elided_at(s, i));
}

/// The minified text is never longer than the original.
pub proof fn lemma_minify_len(s: Seq<char>)
    ensures
        minify_seq(s).len() <= s.len(),
    decreases s.len(),
{
    if s.len() > 0 {
        lemma_minify_len(s.skip(1));
    }
}

/// A surviving first character stays first.
pub proof fn lemma_minify_head(s: Seq<char>)
    requires
        s.len() > 0,
        !elided_at(s, 0),
    ensures
        minify_seq(s).len() > 0,
        minify_seq(s)[0] == s[0],
{
}

/// A last character that is not whitespace survives and stays last.
pub proof fn lemma_minify_last(s: Seq<char>)
    requires
        s.len() > 0,
        !is_space_char(s.last()),
    ensures
        minify_seq(s).len() > 0,
        minify_seq(s).last() == s.last(),
    decreases s.len(),
{
    if s.len() == 1 {
        assert(minify_seq(s) == seq![s[0]] + minify_seq(s.skip(1)));
        assert(minify_seq(s.skip(1)) =~= Seq::<char>::empty());
        assert((seq![s[0]] + Seq::<char>::empty()).last() == s[0]);
    } else {
        assert(s.skip(1).last() == s.last());
        lemma_minify_last(s.skip(1));
        if !elided_at(s, 0) {
            assert((seq![s[0]] + minify_seq(s.skip(1))).last() == minify_seq(s.skip(1)).last());
        }
    }
}

/// Minification leaves no whitespace standing at a non-word-boundary
/// position: in the output, every whitespace character is immediately
/// followed by a word character. In particular no whitespace survives
/// at the end of the text, before another whitespace character, or
/// before a tag delimiter or other punctuation.
pub proof fn lemma_minify_fully_minified(s: Seq<char>)
    ensures
        fully_minified(minify_seq(s)),
    decreases s.len(),
{
    if s.len() > 0 {
        lemma_minify_fully_minified(s.skip(1));
        if !elided_at(s, 0) {
            let rest = minify_seq(s.skip(1));
            let out = minify_seq(s);
            assert(out == seq![s[0]] + rest);
            assert forall|i: int|
                0 <= i < out.len() && is_space_char(#[trigger] out[i]) implies i + 1 < out.len()
                && is_word_char(out[i + 1]) by {
                if i == 0 {
                    assert(is_space_char(s[0]));
                    assert(s.len() > 1 && is_word_char(s[1]));
                    assert(s.skip(1)[0] == s[1]);
                    lemma_minify_head(s.skip(1));
                    assert(out[1] == rest[0]);
                } else {
                    assert(out[i] == rest[i - 1]);
                    assert(is_space_char(rest[i - 1]));
                    assert(i < rest.len() && is_word_char(rest[i]));
                    assert(out[i + 1] == rest[i]);
                }
            }
        }
    }
}

/// A text in which every whitespace character already sits before a
/// word character is a fixed point of minification.
pub proof fn lemma_minify_fixed_point(s: Seq<char>)
    requires
        fully_minified(s),
    ensures
        minify_seq(s) == s,
    decreases s.len(),
{
    if s.len() == 0 {
        assert(minify_seq(s) =~= s);
    } else {
        assert(!elided_at(s, 0)) by {
            if is_space_char(s[0]) {
                assert(1 < s.len() && is_word_char(s[1]));
            }
        }
        assert forall|i: int|
            0 <= i < s.skip(1).len() && is_space_char(#[trigger] s.skip(1)[i]) implies i + 1
            < s.skip(1).len() && is_word_char(s.skip(1)[i + 1]) by {
            assert(s.skip(1)[i] == s[i + 1]);
            assert(is_space_char(s[i + 1]));
            assert(i + 2 < s.len() && is_word_char(s[i + 2]));
            assert(s.skip(1)[i + 1] == s[i + 2]);
        }
        lemma_minify_fixed_point(s.skip(1));
        assert(minify_seq(s) =~= s);
    }
}

/// `a` is a subsequence of `b`: the characters of `a` occur in `b` in
/// the same order.
pub open spec fn is_subsequence_of(a: Seq<char>, b: Seq<char>) -> bool
    decreases b.len(),
{
    if a.len() == 0 {
        true
    } else if b.len() == 0 {
        false
    } else if a[0] == b[0] {
        is_subsequence_of(a.skip(1), b.skip(1))
    } else {
        is_subsequence_of(a, b.skip(1))
    }
}

/// A subsequence of the tail of `b` is a subsequence of `b`.
proof fn lemma_subsequence_widen(a: Seq<char>, b: Seq<char>)
    requires
        b.len() > 0,
        is_subsequence_of(a, b.skip(1)),
    ensures
        is_subsequence_of(a, b),
    decreases b.len(), 0int,
{
    if a.len() > 0 && a[0] == b[0] {
        lemma_subsequence_drop(a, b.skip(1));
    }
}

/// Dropping the head of a subsequence leaves a subsequence.
proof fn lemma_subsequence_drop(a: Seq<char>, b: Seq<char>)
    requires
        a.len() > 0,
        is_subsequence_of(a, b),
    ensures
        is_subsequence_of(a.skip(1), b),
    decreases b.len(), 1int,
{
    if a[0] == b[0] {
        lemma_subsequence_widen(a.skip(1), b);
    } else {
        lemma_subsequence_drop(a, b.skip(1));
        lemma_subsequence_widen(a.skip(1), b);
    }
}

/// No insertion and no reordering: the minified text is a subsequence
/// of the original.
pub proof fn lemma_minify_subsequence(s: Seq<char>)
    ensures
        is_subsequence_of(minify_seq(s), s),
    decreases s.len(),
{
    if s.len() > 0 {
        lemma_minify_subsequence(s.skip(1));
        if elided_at(s, 0) {
            lemma_subsequence_widen(minify_seq(s), s);
        } else {
            let out = minify_seq(s);
            assert(out == seq![s[0]] + minify_seq(s.skip(1)));
            assert(out[0] == s[0]);
            assert(out.skip(1) =~= minify_seq(s.skip(1)));
        }
    }
}

/// Minification splits after any non-whitespace character: no elision
/// decision made before such a character looks beyond it.
pub proof fn lemma_minify_split(s: Seq<char>, i: int)
    requires
        0 <= i < s.len(),
        !is_space_char(s[i]),
    ensures
        minify_seq(s) == minify_seq(s.take(i + 1)) + minify_seq(s.skip(i + 1)),
    decreases i,
{
    if i == 0 {
        assert(!elided_at(s, 0));
        let t = s.take(1);
        assert(t.len() == 1 && t[0] == s[0]);
        assert(!elided_at(t, 0));
        assert(t.skip(1) =~= Seq::<char>::empty());
        assert(minify_seq(t) == seq![t[0]] + minify_seq(t.skip(1)));
        assert(minify_seq(s) =~= minify_seq(t) + minify_seq(s.skip(1)));
    } else {
        let s1 = s.skip(1);
        assert(s1[i - 1] == s[i]);
        lemma_minify_split(s1, i - 1);
        let t = s.take(i + 1);
        assert(s1.take(i) =~= t.skip(1));
        assert(s1.skip(i) =~= s.skip(i + 1));
        assert(t[0] == s[0] && t[1] == s[1]);
        assert(elided_at(t, 0) == elided_at(s, 0));
        if elided_at(s, 0) {
            assert(minify_seq(s) == minify_seq(s1));
            assert(minify_seq(t) == minify_seq(t.skip(1)));
        } else {
            assert(minify_seq(s) == seq![s[0]] + minify_seq(s1));
            assert(minify_seq(t) == seq![t[0]] + minify_seq(t.skip(1)));
            assert(minify_seq(s) =~= minify_seq(t) + minify_seq(s.skip(i + 1)));
        }
    }
}

/// A run of whitespace that ends at a non-word character is elided
/// entirely.
pub proof fn lemma_space_run_elided(t: Seq<char>, m: int)
    requires
        0 <= m < t.len(),
        forall|k: int| 0 <= k < m ==> is_space_char(#[trigger] t[k]),
        !is_word_char(t[m]),
    ensures
        minify_seq(t) == minify_seq(t.skip(m)),
    decreases m,
{
    if m == 0 {
        assert(t.skip(0) =~= t);
    } else {
        assert(is_space_char(t[0]));
        if 1 < m {
            assert(is_space_char(t[1]));
            crate::charclass::lemma_space_char_not_word_char(t[1]);
        } else {
            assert(t[1] == t[m]);
        }
        assert(elided_at(t, 0));
        let t1 = t.skip(1);
        assert forall|k: int| 0 <= k < m - 1 implies is_space_char(#[trigger] t1[k]) by {
            assert(t1[k] == t[k + 1]);
        }
        assert(t1[m - 1] == t[m]);
        lemma_space_run_elided(t1, m - 1);
        assert(t1.skip(m - 1) =~= t.skip(m));
    }
}

/// Tag-adjacency collapse: whitespace standing strictly between a `>`
/// and a following `<` is removed entirely, and in the output the two
/// delimiters stand immediately next to each other.
pub proof fn lemma_intertag_collapse(s: Seq<char>, i: int, j: int)
    requires
        0 <= i < j < s.len(),
        s[i] == '>',
        s[j] == '<',
        forall|k: int| i < k < j ==> is_space_char(#[trigger] s[k]),
    ensures
        minify_seq(s) == minify_seq(s.take(i + 1)) + minify_seq(s.skip(j)),
        minify_seq(s.take(i + 1)).len() > 0,
        minify_seq(s.take(i + 1)).last() == '>',
        minify_seq(s.skip(j)).len() > 0,
        minify_seq(s.skip(j))[0] == '<',
{
    assert(!is_space_char(s[i]));
    lemma_minify_split(s, i);
    let t = s.skip(i + 1);
    let m: int = j - i - 1;
    assert(t[m] == s[j]);
    assert(!is_word_char(t[m]));
    assert forall|k: int| 0 <= k < m implies is_space_char(#[trigger] t[k]) by {
        assert(t[k] == s[k + i + 1]);
    }
    lemma_space_run_elided(t, m);
    assert(t.skip(m) =~= s.skip(j));
    let p = s.take(i + 1);
    assert(p.last() == s[i]);
    lemma_minify_last(p);
    assert(s.skip(j)[0] == '<');
    assert(!elided_at(s.skip(j), 0));
    lemma_minify_head(s.skip(j));
}

/// Word-boundary preservation: a whitespace character standing between
/// two word characters survives, with its two neighbours surviving
/// right beside it.
pub proof fn lemma_word_boundary_preserved(s: Seq<char>, i: int)
    requires
        1 <= i,
        i + 1 < s.len(),
        is_word_char(s[i - 1]),
        is_space_char(s[i]),
        is_word_char(s[i + 1]),
    ensures
        minify_seq(s) == minify_seq(s.take(i)) + seq![s[i]] + minify_seq(s.skip(i + 1)),
        minify_seq(s.take(i)).len() > 0,
        minify_seq(s.take(i)).last() == s[i - 1],
        minify_seq(s.skip(i + 1)).len() > 0,
        minify_seq(s.skip(i + 1))[0] == s[i + 1],
{
    crate::charclass::lemma_space_char_not_word_char(s[i - 1]);
    lemma_minify_split(s, i - 1);
    let t = s.skip(i);
    assert(t[0] == s[i] && t[1] == s[i + 1]);
    assert(!elided_at(t, 0));
    assert(minify_seq(t) == seq![t[0]] + minify_seq(t.skip(1)));
    assert(t.skip(1) =~= s.skip(i + 1));
    assert(s.take(i) =~= s.take(i - 1 + 1));
    assert(minify_seq(s) =~= minify_seq(s.take(i)) + seq![s[i]] + minify_seq(s.skip(i + 1)));
    let p = s.take(i);
    assert(p.last() == s[i - 1]);
    lemma_minify_last(p);
    crate::charclass::lemma_space_char_not_word_char(s[i + 1]);
    assert(!elided_at(s.skip(i + 1), 0));
    lemma_minify_head(s.skip(i + 1));
}

/// Idempotence: a second minification finds nothing further to remove.
pub proof fn lemma_minify_idempotent(s: Seq<char>)
    ensures
        minify_seq(minify_seq(s)) == minify_seq(s),
{
    lemma_minify_fully_minified(s);
    lemma_minify_fixed_point(minify_seq(s));
}

} // verus!
