//! N-gram generation.

use vstd::prelude::*;

use crate::chars::{append_chars, chars_of, string_from_chars};
use crate::{strings_view, strs_view};

verus! {

/// The character n-grams of a text: every window of `n` consecutive
/// characters, in order; none when the text is shorter than `n`.
pub open spec fn spec_char_ngrams(s: Seq<char>, n: int) -> Seq<Seq<char>> {
    if s.len() < n {
        Seq::empty()
    } else {
        Seq::new((s.len() - n + 1) as nat, |i: int| s.subrange(i, i + n))
    }
}

/// Generate character n-grams.
pub fn char_ngrams(text: &str, n: usize) -> (r: Vec<String>)
    requires
        n >= 1,
    ensures
        strings_view(r@) == spec_char_ngrams(text@, n as int),
{
    let cs = chars_of(text);
    let len = cs.len();
    let mut r: Vec<String> = Vec::new();
    if len < n {
        proof {
            assert(strings_view(r@) =~= spec_char_ngrams(text@, n as int));
        }
        return r;
    }
    let count = len - n + 1;
    for i in 0..count
        invariant
            n >= 1,
            len == cs.len(),
            cs@ == text@,
            len >= n,
            count == len - n + 1,
            r@.len() == i,
            forall|j: int| 0 <= j < i ==> (#[trigger] r@[j])@ == cs@.subrange(j, j + n),
    {
        let mut g: Vec<char> = Vec::new();
        for k in 0..n
            invariant
                n >= 1,
                len == cs.len(),
                i + n <= len,
                g@ == cs@.subrange(i as int, i as int + k),
        {
            g.push(cs[i + k]);
            proof {
                assert(cs@.subrange(i as int, i as int + k + 1) =~= cs@.subrange(
                    i as int,
                    i as int + k,
                ).push(cs@[i as int + k]));
            }
        }
        r.push(string_from_chars(&g));
    }
    proof {
        assert(strings_view(r@) =~= spec_char_ngrams(text@, n as int));
    }
    r
}

/// Words joined with single ASCII spaces.
pub open spec fn spec_join_words(ws: Seq<Seq<char>>) -> Seq<char>
    decreases ws.len(),
{
    if ws.len() == 0 {
        Seq::empty()
    } else if ws.len() == 1 {
        ws[0]
    } else {
        ws[0] + seq![' '] + spec_join_words(ws.skip(1))
    }
}

/// The word n-grams of a token list: every window of `n` consecutive words
/// joined with single spaces, in order; none when there are fewer than `n`
/// words.
pub open spec fn spec_word_ngrams(ws: Seq<Seq<char>>, n: int) -> Seq<Seq<char>> {
    if ws.len() < n {
        Seq::empty()
    } else {
        Seq::new((ws.len() - n + 1) as nat, |i: int| spec_join_words(ws.subrange(i, i + n)))
    }
}

/// Appending one more word to a space-join appends a separator and the word.
proof fn lemma_join_words_snoc(ws: Seq<Seq<char>>, k: int)
    requires
        1 <= k < ws.len(),
    ensures
        spec_join_words(ws.take(k + 1)) == spec_join_words(ws.take(k)) + seq![' '] + ws[k],
    decreases k,
{
    if k == 1 {
        let two = ws.take(2);
        assert(two.skip(1) =~= seq![ws[1]]);
        assert(spec_join_words(seq![ws[1]]) == ws[1]);
        assert(ws.take(1)[0] == ws[0]);
        assert(spec_join_words(ws.take(1)) == ws[0]);
        assert(two[0] + seq![' '] + spec_join_words(two.skip(1)) == ws.take(1)[0] + seq![' ']
            + ws[1]);
    } else {
        lemma_join_words_snoc(ws.skip(1), k - 1);
        assert(ws.take(k + 1).skip(1) =~= ws.skip(1).take(k));
        assert(ws.take(k).skip(1) =~= ws.skip(1).take(k - 1));
        assert(ws.skip(1)[k - 1] == ws[k]);
        assert(spec_join_words(ws.take(k + 1)) == ws[0] + seq![' '] + spec_join_words(
            ws.skip(1).take(k),
        ));
        assert(spec_join_words(ws.take(k)) == ws[0] + seq![' '] + spec_join_words(
            ws.skip(1).take(k - 1),
        ));
        assert(ws[0] + seq![' '] + (spec_join_words(ws.skip(1).take(k - 1)) + seq![' '] + ws[k])
            =~= (ws[0] + seq![' '] + spec_join_words(ws.skip(1).take(k - 1))) + seq![' '] + ws[k]);
    }
}

/// Generate word n-grams, joining each window with single spaces.
pub fn word_ngrams(words: &[&str], n: usize) -> (r: Vec<String>)
    requires
        n >= 1,
    ensures
        strings_view(r@) == spec_word_ngrams(strs_view(words@), n as int),
{
    let len = words.len();
    let ghost ws = strs_view(words@);
    let mut r: Vec<String> = Vec::new();
    if len < n {
        proof {
            assert(strings_view(r@) =~= spec_word_ngrams(ws, n as int));
        }
        return r;
    }
    let count = len - n + 1;
    for i in 0..count
        invariant
            n >= 1,
            len == words.len(),
            ws == strs_view(words@),
            len >= n,
            count == len - n + 1,
            r@.len() == i,
            forall|j: int| 0 <= j < i ==> (#[trigger] r@[j])@ == spec_join_words(
                ws.subrange(j, j + n),
            ),
    {
        let ghost window = ws.subrange(i as int, i as int + n as int);
        let mut g: Vec<char> = Vec::new();
        for k in 0..n
            invariant
                n >= 1,
                len == words.len(),
                ws == strs_view(words@),
                i + n <= len,
                window == ws.subrange(i as int, i as int + n as int),
                g@ == spec_join_words(window.take(k as int)),
        {
            if k > 0 {
                g.push(' ');
            }
            let w = words[i + k];
            let wc = chars_of(w);
            append_chars(&mut g, &wc);
            proof {
                assert(window[k as int] == ws[i as int + k]);
                assert(ws[i as int + k] == words@[i as int + k]@);
                if k == 0 {
                    assert(window.take(1) =~= seq![window[0]]);
                    assert(spec_join_words(seq![window[0]]) == window[0]);
                    assert(g@ =~= window[0]);
                } else {
                    lemma_join_words_snoc(window, k as int);
                    assert(g@ =~= spec_join_words(window.take(k as int)) + seq![' ']
                        + window[k as int]);
                }
            }
        }
        proof {
            assert(window.take(n as int) =~= window);
        }
        r.push(string_from_chars(&g));
    }
    proof {
        assert(strings_view(r@) =~= spec_word_ngrams(ws, n as int));
    }
    r
}

/// The token n-grams of a token list: every window of `n` consecutive
/// tokens, in order; none when `n` is zero or there are fewer than `n`
/// tokens.
pub open spec fn spec_token_ngrams(ws: Seq<&str>, n: int) -> Seq<Seq<&str>> {
    if n == 0 || ws.len() < n {
        Seq::empty()
    } else {
        Seq::new((ws.len() - n + 1) as nat, |i: int| ws.subrange(i, i + n))
    }
}

/// Generate token n-grams as vectors of `&str`.
///
/// This is a convenience for callers that want to apply their own
/// hashing/keying scheme instead of joining tokens into a single string.
pub fn token_ngrams<'a>(words: &'a [&'a str], n: usize) -> (r: Vec<Vec<&'a str>>)
    ensures
        r@.len() == spec_token_ngrams(words@, n as int).len(),
        forall|i: int|
            0 <= i < r@.len() ==> (#[trigger] r@[i])@ == spec_token_ngrams(words@, n as int)[i],
{
    let len = words.len();
    let mut r: Vec<Vec<&'a str>> = Vec::new();
    if n == 0 || len < n {
        return r;
    }
    let count = len - n + 1;
    for i in 0..count
        invariant
            n >= 1,
            len == words.len(),
            len >= n,
            count == len - n + 1,
            r@.len() == i,
            forall|j: int| 0 <= j < i ==> (#[trigger] r@[j])@ == words@.subrange(j, j + n),
    {
        let mut g: Vec<&'a str> = Vec::new();
        for k in 0..n
            invariant
                n >= 1,
                len == words.len(),
                i + n <= len,
                g@ == words@.subrange(i as int, i as int + k),
        {
            g.push(words[i + k]);
            proof {
                assert(words@.subrange(i as int, i as int + k + 1) =~= words@.subrange(
                    i as int,
                    i as int + k,
                ).push(words@[i as int + k]));
            }
        }
        r.push(g);
    }
    r
}

} // verus!
