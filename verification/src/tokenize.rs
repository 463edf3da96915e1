//! Text tokenization utilities, reported in character offsets.

use unicode_segmentation::UnicodeSegmentation;
use vstd::prelude::*;

use crate::chars::{advance_chars, advance_to_byte, chars_of, lemma_utf8_len_take_mono, utf8_len};
use crate::strs_view;

verus! {

/// What UAX#29 word segmentation returns: the words of the text, in order,
/// as a function of the characters alone.
pub uninterp spec fn words_of(s: Seq<char>) -> Seq<Seq<char>>;

/// What UAX#29 sentence segmentation returns: the sentences of the text, in
/// order, as a function of the characters alone.
pub uninterp spec fn sentences_of(s: Seq<char>) -> Seq<Seq<char>>;

/// The character spans `[start, end)` of the UAX#29 words of the text, in
/// left-to-right order, as a function of the characters alone.
pub uninterp spec fn word_spans_of(s: Seq<char>) -> Seq<(int, int)>;

/// Relies on unicode-segmentation's `unicode_words()`: the words of the
/// UAX#29 word segmentation, a pure function of the characters alone.
#[verifier::external_body]
pub fn words<'a>(text: &'a str) -> (r: Vec<&'a str>)
    ensures
        strs_view(r@) == words_of(text@),
{
    text.unicode_words().collect()
}

/// Relies on unicode-segmentation's `unicode_sentences()`: the sentences of
/// the UAX#29 sentence segmentation, a pure function of the characters
/// alone.
#[verifier::external_body]
pub fn sentences<'a>(text: &'a str) -> (r: Vec<&'a str>)
    ensures
        strs_view(r@) == sentences_of(text@),
{
    text.unicode_sentences().collect()
}

/// One word of a text, with its half-open **character-offset** range
/// `[start, end)` into the original input.
#[derive(Debug, Clone, PartialEq, Eq)]
pub struct Token {
    pub text: String,
    pub start: usize,
    pub end: usize,
}

/// Relies on unicode-segmentation's `unicode_word_indices()`: each yielded
/// pair is a word of the UAX#29 word segmentation together with its byte
/// offset into the text, and the yielded words are exactly those of
/// `unicode_words()`, in the same order. Every word is a non-empty substring
/// of the text, the words appear in left-to-right order without overlap, and
/// each byte offset is the byte length of the text before the word (a
/// character boundary, since the word is a substring).
#[verifier::external_body]
fn word_indices(text: &str) -> (r: Vec<(usize, String)>)
    ensures
        r@.len() == word_spans_of(text@).len(),
        r@.len() == words_of(text@).len(),
        forall|i: int|
            0 <= i < r@.len() ==> {
                let sp = word_spans_of(text@)[i];
                let t = #[trigger] r@[i];
                &&& 0 <= sp.0 < sp.1 <= text@.len()
                &&& t.0 == utf8_len(text@.take(sp.0))
                &&& t.1@ == text@.subrange(sp.0, sp.1)
                &&& t.1@ == words_of(text@)[i]
                &&& (i > 0 ==> sp.0 >= word_spans_of(text@)[i - 1].1)
            },
{
    text.unicode_word_indices().map(|(b, w)| (b, w.to_owned())).collect()
}

/// The contract of offset tokenization: one token per segmented word, each
/// holding the word's text — the corresponding element of the Unicode word
/// segmentation — and its character span into the input, in left-to-right
/// order without overlap.
pub open spec fn tokens_ok(text: Seq<char>, out: Seq<Token>) -> bool {
    let spans = word_spans_of(text);
    &&& out.len() == spans.len()
    &&& out.len() == words_of(text).len()
    &&& forall|i: int|
        0 <= i < spans.len() ==> {
            let tk = #[trigger] out[i];
            &&& tk.start == spans[i].0
            &&& tk.end == spans[i].1
            &&& tk.start < tk.end <= text.len()
            &&& tk.text@ == text.subrange(tk.start as int, tk.end as int)
            &&& tk.text@ == words_of(text)[i]
        }
    &&& forall|i: int| 0 < i < spans.len() ==> (#[trigger] out[i]).start >= out[i - 1].end
}

/// Tokenize into words with **character offsets** into the original text.
///
/// The segmenter yields byte offsets; they are translated to character
/// offsets by advancing incrementally from the last word boundary in one
/// forward pass, rather than rescanning from the start for every word.
#[verifier::loop_isolation(false)]
#[verifier::rlimit(60)]
pub fn tokenize_with_offsets(text: &str) -> (r: Vec<Token>)
    ensures
        tokens_ok(text@, r@),
{
    let idx = word_indices(text);
    let cs = chars_of(text);
    let n = cs.len();
    let total_bytes = text.as_bytes().len();
    proof {
        assert(total_bytes == utf8_len(cs@));
        assert(cs@.take(0) =~= Seq::<char>::empty());
        assert(utf8_len(Seq::<char>::empty()) == 0);
        assert(cs@.take(n as int) =~= cs@);
    }
    let count = idx.len();
    let mut tokens: Vec<Token> = Vec::new();
    let mut last_byte: usize = 0;
    let mut last_char: usize = 0;
    for m in 0..count
        invariant
            tokens@.len() == m,
            last_char <= n,
            last_byte == utf8_len(cs@.take(last_char as int)),
            m == 0 ==> last_byte == 0 && last_char == 0,
            m > 0 ==> last_char as int == word_spans_of(cs@)[m - 1].1,
            forall|q: int|
                0 <= q < m ==> {
                    let tk = #[trigger] tokens@[q];
                    let sp = word_spans_of(cs@)[q];
                    &&& tk.start == sp.0
                    &&& tk.end == sp.1
                    &&& tk.start < tk.end <= n
                    &&& tk.text@ == cs@.subrange(tk.start as int, tk.end as int)
                    &&& tk.text@ == words_of(cs@)[q]
                },
            forall|q: int| 0 < q < m ==> (#[trigger] tokens@[q]).start >= tokens@[q - 1].end,
    {
        let ghost sp = word_spans_of(cs@)[m as int];
        let byte_start = idx[m].0;
        proof {
            if last_char as int > sp.0 {
                lemma_utf8_len_take_mono(cs@, sp.0, last_char as int);
                assert(false);
            }
            lemma_utf8_len_take_mono(cs@, last_char as int, sp.0);
        }
        advance_to_byte(&cs, byte_start, &mut last_byte, &mut last_char, Ghost(sp.0));
        let start = last_char;
        let word = idx[m].1.clone();
        let wchars = chars_of(word.as_str());
        let wlen = wchars.len();
        proof {
            assert(wlen as int == sp.1 - sp.0);
            lemma_utf8_len_take_mono(cs@, sp.1, n as int);
        }
        let end = start + wlen;
        advance_chars(&cs, end, &mut last_byte, &mut last_char);
        tokens.push(Token { text: word, start, end });
        proof {
            assert(tokens@[m as int].text@ =~= cs@.subrange(sp.0, sp.1));
        }
    }
    tokens
}

} // verus!
