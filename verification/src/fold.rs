//! Case folding and diacritics stripping.

use unicode_casefold::UnicodeCaseFold;
use vstd::prelude::*;

use crate::chars::{chars_of, string_from_chars};
use crate::unicode::{lemma_filter_take_step, nfd, nfd_of, nfkc, nfkc_of};

verus! {

/// The combining marks stripped by [`strip_diacritics`]: the combining
/// diacritical marks blocks (U+0300..U+036F and U+1DC0..U+1DFF), combining
/// marks for symbols (U+20D0..U+20FF), and combining half marks
/// (U+FE20..U+FE2F).
pub open spec fn is_combining_mark(c: char) -> bool {
    let u = c as u32;
    (0x300 <= u && u <= 0x36F) || (0x1DC0 <= u && u <= 0x1DFF) || (0x20D0 <= u && u <= 0x20FF) || (
    0xFE20 <= u && u <= 0xFE2F)
}

fn is_combining_mark_char(c: char) -> (r: bool)
    ensures
        r == is_combining_mark(c),
{
    let u = c as u32;
    (0x300 <= u && u <= 0x36F) || (0x1DC0 <= u && u <= 0x1DFF) || (0x20D0 <= u && u <= 0x20FF) || (
    0xFE20 <= u && u <= 0xFE2F)
}

/// The predicate selecting the characters that diacritic stripping keeps.
pub open spec fn mark_keep() -> spec_fn(char) -> bool {
    |c: char| !is_combining_mark(c)
}

/// Diacritic stripping: canonical decomposition (NFD) with every combining
/// mark deleted. No recomposition is applied — the result stays in a
/// decomposed-minus-marks form.
pub open spec fn spec_strip_diacritics(s: Seq<char>) -> Seq<char> {
    nfd_of(s).filter(mark_keep())
}

/// Strip diacritics: decompose to NFD and delete combining marks.
pub fn strip_diacritics(text: &str) -> (r: String)
    ensures
        r@ == spec_strip_diacritics(text@),
{
    let decomposed = nfd(text);
    let cs = chars_of(decomposed.as_str());
    let n = cs.len();
    let mut out: Vec<char> = Vec::new();
    for i in 0..n
        invariant
            n == cs.len(),
            cs@ == nfd_of(text@),
            out@ == cs@.take(i as int).filter(mark_keep()),
    {
        let c = cs[i];
        if !is_combining_mark_char(c) {
            out.push(c);
        }
        proof {
            lemma_filter_take_step(cs@, mark_keep(), i as int);
        }
    }
    proof {
        assert(cs@.take(n as int) =~= cs@);
    }
    string_from_chars(&out)
}

/// What `str::to_lowercase` returns, as a function of the characters alone.
pub uninterp spec fn lower_of(s: Seq<char>) -> Seq<char>;

/// Lowercase using Rust's built-in Unicode-aware `to_lowercase`.
///
/// This is **not** full Unicode case folding. For search/index keys where
/// full case folding matters, prefer [`fold_nfkc_casefold`].
///
/// Relies on `str::to_lowercase`: the Unicode lowercase mapping, a pure
/// function of the characters alone.
#[verifier::external_body]
pub fn fold(text: &str) -> (r: String)
    ensures
        r@ == lower_of(text@),
{
    text.to_lowercase()
}

/// What full, non-Turkic Unicode case folding returns, as a function of the
/// characters alone.
pub uninterp spec fn casefold_of(s: Seq<char>) -> Seq<char>;

/// Relies on unicode-casefold's `case_fold()` iterator: full, non-Turkic
/// Unicode case folding driven by fixed tables, a pure function of the
/// characters alone.
#[verifier::external_body]
fn case_fold_str(text: &str) -> (r: String)
    ensures
        r@ == casefold_of(text@),
{
    text.case_fold().collect()
}

/// Full-case-fold composition: NFKC normalization followed by full Unicode
/// case folding.
pub open spec fn spec_fold_nfkc_casefold(s: Seq<char>) -> Seq<char> {
    casefold_of(nfkc_of(s))
}

/// Normalize to NFKC and then apply full Unicode case folding.
///
/// This is useful for building robust lookup keys for identifiers/names: it
/// removes compatibility distinctions (NFKC) and applies language-agnostic
/// case folding.
pub fn fold_nfkc_casefold(text: &str) -> (r: String)
    ensures
        r@ == spec_fold_nfkc_casefold(text@),
{
    let composed = nfkc(text);
    case_fold_str(composed.as_str())
}

/// Like [`fold_nfkc_casefold`], but writes into an existing `String`.
pub fn fold_nfkc_casefold_into(text: &str, out: &mut String)
    ensures
        final(out)@ == spec_fold_nfkc_casefold(text@),
{
    *out = fold_nfkc_casefold(text);
}

} // verus!
