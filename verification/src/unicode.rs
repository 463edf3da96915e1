//! Unicode normalization utilities: invisible/format character classes,
//! newline and whitespace transforms, and normalization-form conversion.

use unicode_normalization::UnicodeNormalization;
use vstd::prelude::*;
use vstd::seq_lib::*;

use crate::chars::{append_chars, chars_of, string_from_chars};

verus! {

/// What Unicode NFC normalization returns, as a function of the character
/// sequence alone.
pub uninterp spec fn nfc_of(s: Seq<char>) -> Seq<char>;

/// What Unicode NFD normalization returns, as a function of the character
/// sequence alone.
pub uninterp spec fn nfd_of(s: Seq<char>) -> Seq<char>;

/// What Unicode NFKC normalization returns, as a function of the character
/// sequence alone.
pub uninterp spec fn nfkc_of(s: Seq<char>) -> Seq<char>;

/// What Unicode NFKD normalization returns, as a function of the character
/// sequence alone.
pub uninterp spec fn nfkd_of(s: Seq<char>) -> Seq<char>;

/// Relies on unicode-normalization's `nfc()` iterator: canonical
/// decomposition followed by canonical composition, a pure function of the
/// characters alone.
#[verifier::external_body]
pub fn nfc(text: &str) -> (r: String)
    ensures
        r@ == nfc_of(text@),
{
    text.nfc().collect()
}

/// Relies on unicode-normalization's `nfd()` iterator: canonical
/// decomposition, a pure function of the characters alone.
#[verifier::external_body]
pub fn nfd(text: &str) -> (r: String)
    ensures
        r@ == nfd_of(text@),
{
    text.nfd().collect()
}

/// Relies on unicode-normalization's `nfkc()` iterator: compatibility
/// decomposition followed by canonical composition, a pure function of the
/// characters alone.
#[verifier::external_body]
pub fn nfkc(text: &str) -> (r: String)
    ensures
        r@ == nfkc_of(text@),
{
    text.nfkc().collect()
}

/// Relies on unicode-normalization's `nfkd()` iterator: compatibility
/// decomposition, a pure function of the characters alone.
#[verifier::external_body]
pub fn nfkd(text: &str) -> (r: String)
    ensures
        r@ == nfkd_of(text@),
{
    text.nfkd().collect()
}

/// The Unicode `White_Space` property, written out as the fixed set of
/// scalar values it contains.
pub open spec fn is_ws_char(c: char) -> bool {
    let u = c as u32;
    (0x9 <= u && u <= 0xD) || u == 0x20 || u == 0x85 || u == 0xA0 || u == 0x1680 || (0x2000 <= u
        && u <= 0x200A) || u == 0x2028 || u == 0x2029 || u == 0x202F || u == 0x205F || u == 0x3000
}

/// Decides the Unicode `White_Space` property.
pub fn is_unicode_whitespace(c: char) -> (r: bool)
    ensures
        r == is_ws_char(c),
{
    let u = c as u32;
    (0x9 <= u && u <= 0xD) || u == 0x20 || u == 0x85 || u == 0xA0 || u == 0x1680 || (0x2000 <= u
        && u <= 0x200A) || u == 0x2028 || u == 0x2029 || u == 0x202F || u == 0x205F || u == 0x3000
}

/// The five zero-width scalar values targeted by [`remove_zero_width`]:
/// ZERO WIDTH SPACE, ZERO WIDTH NON-JOINER, ZERO WIDTH JOINER, WORD JOINER,
/// and ZERO WIDTH NO-BREAK SPACE (BOM).
pub open spec fn is_zero_width(c: char) -> bool {
    c == '\u{200B}' || c == '\u{200C}' || c == '\u{200D}' || c == '\u{2060}' || c == '\u{FEFF}'
}

/// The twelve bidirectional control scalar values targeted by
/// [`remove_bidi_controls`]: embeddings and overrides (U+202A..U+202E),
/// isolates (U+2066..U+2069), the LRM/RLM marks (U+200E, U+200F), and the
/// ARABIC LETTER MARK (U+061C).
pub open spec fn is_bidi_control(c: char) -> bool {
    let u = c as u32;
    (0x202A <= u && u <= 0x202E) || (0x2066 <= u && u <= 0x2069) || u == 0x200E || u == 0x200F
        || u == 0x061C
}

fn is_zero_width_char(c: char) -> (r: bool)
    ensures
        r == is_zero_width(c),
{
    c == '\u{200B}' || c == '\u{200C}' || c == '\u{200D}' || c == '\u{2060}' || c == '\u{FEFF}'
}

fn is_bidi_control_char(c: char) -> (r: bool)
    ensures
        r == is_bidi_control(c),
{
    let u = c as u32;
    (0x202A <= u && u <= 0x202E) || (0x2066 <= u && u <= 0x2069) || u == 0x200E || u == 0x200F
        || u == 0x061C
}

/// The predicate selecting the characters that zero-width removal keeps.
pub open spec fn zw_keep() -> spec_fn(char) -> bool {
    |c: char| !is_zero_width(c)
}

/// The predicate selecting the offset pairs that zero-width detection
/// reports.
pub open spec fn zw_hit() -> spec_fn((usize, char)) -> bool {
    |t: (usize, char)| is_zero_width(t.1)
}

/// The predicate selecting the characters that bidi-control removal keeps.
pub open spec fn bidi_keep() -> spec_fn(char) -> bool {
    |c: char| !is_bidi_control(c)
}

/// The predicate selecting the offset pairs that bidi-control detection
/// reports.
pub open spec fn bidi_hit() -> spec_fn((usize, char)) -> bool {
    |t: (usize, char)| is_bidi_control(t.1)
}

/// The characters of a sequence paired with their character offsets.
pub open spec fn offset_pairs(s: Seq<char>) -> Seq<(usize, char)> {
    Seq::new(s.len(), |i: int| (i as usize, s[i]))
}

/// The text with every zero-width character deleted; all other characters
/// are kept, in order.
pub open spec fn spec_remove_zero_width(s: Seq<char>) -> Seq<char> {
    s.filter(zw_keep())
}

/// Every zero-width occurrence as a `(character offset, character)` pair,
/// in left-to-right order.
pub open spec fn spec_zero_width_offsets(s: Seq<char>) -> Seq<(usize, char)> {
    offset_pairs(s).filter(zw_hit())
}

/// The text with every bidi control character deleted; all other characters
/// are kept, in order.
pub open spec fn spec_remove_bidi_controls(s: Seq<char>) -> Seq<char> {
    s.filter(bidi_keep())
}

/// Every bidi-control occurrence as a `(character offset, character)` pair,
/// in left-to-right order.
pub open spec fn spec_bidi_offsets(s: Seq<char>) -> Seq<(usize, char)> {
    offset_pairs(s).filter(bidi_hit())
}

/// Remove common zero-width characters that often cause "ghost mismatches".
///
/// Warning: some of these characters are semantically meaningful in certain
/// scripts (e.g. ZWNJ/ZWJ) or sequences (emoji ZWJ). Treat this as a
/// normalization step for matching/search, not as general text rewriting.
pub fn remove_zero_width(text: &str) -> (r: String)
    ensures
        r@ == spec_remove_zero_width(text@),
{
    let cs = chars_of(text);
    let n = cs.len();
    let mut out: Vec<char> = Vec::new();
    for i in 0..n
        invariant
            n == cs.len(),
            cs@ == text@,
            out@ == spec_remove_zero_width(cs@.take(i as int)),
    {
        let c = cs[i];
        if !is_zero_width_char(c) {
            out.push(c);
        }
        proof {
            lemma_filter_take_step(cs@, zw_keep(), i as int);
        }
    }
    proof {
        assert(cs@.take(n as int) =~= cs@);
    }
    string_from_chars(&out)
}

/// Like [`remove_zero_width`], but writes into an existing `String`.
pub fn remove_zero_width_into(text: &str, out: &mut String)
    ensures
        final(out)@ == spec_remove_zero_width(text@),
{
    *out = remove_zero_width(text);
}

/// Check whether text contains any of the "common zero-width" characters
/// targeted by [`remove_zero_width`].
pub fn contains_zero_width(text: &str) -> (r: bool)
    ensures
        r == exists|i: int| 0 <= i < text@.len() && is_zero_width(text@[i]),
{
    let cs = chars_of(text);
    let n = cs.len();
    for i in 0..n
        invariant
            n == cs.len(),
            cs@ == text@,
            forall|j: int| 0 <= j < i ==> !is_zero_width(cs@[j]),
    {
        if is_zero_width_char(cs[i]) {
            return true;
        }
    }
    false
}

/// Return all "common zero-width" characters found, with **character
/// offsets** (not byte offsets), in left-to-right order.
pub fn zero_width_with_offsets(text: &str) -> (r: Vec<(usize, char)>)
    ensures
        r@ == spec_zero_width_offsets(text@),
{
    let cs = chars_of(text);
    let n = cs.len();
    let mut out: Vec<(usize, char)> = Vec::new();
    for i in 0..n
        invariant
            n == cs.len(),
            cs@ == text@,
            out@ == spec_zero_width_offsets(cs@.take(i as int)),
    {
        let c = cs[i];
        if is_zero_width_char(c) {
            out.push((i, c));
        }
        proof {
            lemma_offsets_take_step(cs@, zw_hit(), i as int);
        }
    }
    proof {
        assert(cs@.take(n as int) =~= cs@);
    }
    out
}

/// Remove Unicode bidirectional control characters.
///
/// This targets the classes of control characters used in "Trojan Source"
/// style display obfuscation attacks (plus the common LRM/RLM marks). It is a
/// *policy* tool: for some natural-language text you may want to keep these.
pub fn remove_bidi_controls(text: &str) -> (r: String)
    ensures
        r@ == spec_remove_bidi_controls(text@),
{
    let cs = chars_of(text);
    let n = cs.len();
    let mut out: Vec<char> = Vec::new();
    for i in 0..n
        invariant
            n == cs.len(),
            cs@ == text@,
            out@ == spec_remove_bidi_controls(cs@.take(i as int)),
    {
        let c = cs[i];
        if !is_bidi_control_char(c) {
            out.push(c);
        }
        proof {
            lemma_filter_take_step(cs@, bidi_keep(), i as int);
        }
    }
    proof {
        assert(cs@.take(n as int) =~= cs@);
    }
    string_from_chars(&out)
}

/// Like [`remove_bidi_controls`], but writes into an existing `String`.
pub fn remove_bidi_controls_into(text: &str, out: &mut String)
    ensures
        final(out)@ == spec_remove_bidi_controls(text@),
{
    *out = remove_bidi_controls(text);
}

/// Check whether text contains bidi control characters.
pub fn contains_bidi_controls(text: &str) -> (r: bool)
    ensures
        r == exists|i: int| 0 <= i < text@.len() && is_bidi_control(text@[i]),
{
    let cs = chars_of(text);
    let n = cs.len();
    for i in 0..n
        invariant
            n == cs.len(),
            cs@ == text@,
            forall|j: int| 0 <= j < i ==> !is_bidi_control(cs@[j]),
    {
        if is_bidi_control_char(cs[i]) {
            return true;
        }
    }
    false
}

/// Return all bidi control characters found, with **character offsets**.
///
/// This is useful when you want to *detect and report* instead of silently
/// stripping. Offsets are in **characters**, not bytes.
pub fn bidi_controls_with_offsets(text: &str) -> (r: Vec<(usize, char)>)
    ensures
        r@ == spec_bidi_offsets(text@),
{
    let cs = chars_of(text);
    let n = cs.len();
    let mut out: Vec<(usize, char)> = Vec::new();
    for i in 0..n
        invariant
            n == cs.len(),
            cs@ == text@,
            out@ == spec_bidi_offsets(cs@.take(i as int)),
    {
        let c = cs[i];
        if is_bidi_control_char(c) {
            out.push((i, c));
        }
        proof {
            lemma_offsets_take_step(cs@, bidi_hit(), i as int);
        }
    }
    proof {
        assert(cs@.take(n as int) =~= cs@);
    }
    out
}

/// Steps a filter over one more element of a prefix: filtering `s.take(i+1)`
/// extends filtering `s.take(i)` by `s[i]` exactly when the predicate holds.
pub(crate) proof fn lemma_filter_take_step<A>(s: Seq<A>, p: spec_fn(A) -> bool, i: int)
    requires
        0 <= i < s.len(),
    ensures
        s.take(i + 1).filter(p) == if p(s[i]) {
            s.take(i).filter(p).push(s[i])
        } else {
            s.take(i).filter(p)
        },
{
    broadcast use Seq::lemma_filter_push;

    assert(s.take(i + 1) =~= s.take(i).push(s[i]));
}

/// The offset-pair analogue of [`lemma_filter_take_step`].
proof fn lemma_offsets_take_step(s: Seq<char>, q: spec_fn((usize, char)) -> bool, i: int)
    requires
        0 <= i < s.len(),
    ensures
        offset_pairs(s.take(i + 1)).filter(q) == if q((i as usize, s[i])) {
            offset_pairs(s.take(i)).filter(q).push((i as usize, s[i]))
        } else {
            offset_pairs(s.take(i)).filter(q)
        },
{
    broadcast use Seq::lemma_filter_push;

    assert(offset_pairs(s.take(i + 1)) =~= offset_pairs(s.take(i)).push((i as usize, s[i])));
}

/// A filter keeps a sequence unchanged when every element already satisfies
/// the predicate.
pub(crate) proof fn lemma_filter_noop<A>(s: Seq<A>, p: spec_fn(A) -> bool)
    requires
        forall|i: int| 0 <= i < s.len() ==> p(s[i]),
    ensures
        s.filter(p) == s,
    decreases s.len(),
{
    reveal(Seq::filter);
    if s.len() > 0 {
        lemma_filter_noop(s.drop_last(), p);
        assert(s.filter(p) =~= s);
    } else {
        assert(s.filter(p) =~= s);
    }
}

/// Every element of a filtered sequence occurs in the original sequence.
pub(crate) proof fn lemma_filter_element_of<A>(s: Seq<A>, p: spec_fn(A) -> bool, i: int)
    requires
        0 <= i < s.filter(p).len(),
    ensures
        exists|j: int| 0 <= j < s.len() && s[j] == s.filter(p)[i],
    decreases s.len(),
{
    reveal(Seq::filter);
    if s.len() > 0 {
        let sub = s.drop_last().filter(p);
        if i < sub.len() {
            lemma_filter_element_of(s.drop_last(), p, i);
            let j = choose|j: int| 0 <= j < s.drop_last().len() && s.drop_last()[j] == sub[i];
            assert(s[j] == s.filter(p)[i]);
        } else {
            assert(s[s.len() - 1] == s.filter(p)[i]);
        }
    }
}

/// Every element a collapsing scan emits is either the ASCII space it
/// inserts as a separator or a character of the input.
pub(crate) proof fn lemma_collapse_scan_element_of(s: Seq<char>, iw: bool, e: bool, i: int)
    requires
        0 <= i < collapse_scan(s, iw, e).len(),
    ensures
        collapse_scan(s, iw, e)[i] == ' ' || exists|j: int|
            0 <= j < s.len() && s[j] == collapse_scan(s, iw, e)[i],
    decreases s.len(),
{
    let r = collapse_scan(s, iw, e);
    if s.len() == 0 {
    } else if is_ws_char(s[0]) {
        lemma_collapse_scan_element_of(s.skip(1), true, e, i);
        if r[i] != ' ' {
            let j = choose|j: int| 0 <= j < s.skip(1).len() && s.skip(1)[j] == r[i];
            assert(s[j + 1] == r[i]);
        }
    } else {
        let rec = collapse_scan(s.skip(1), false, false);
        let sep: Seq<char> = if iw && !e {
            seq![' ']
        } else {
            Seq::empty()
        };
        let k = sep.len() as int;
        if i < k {
            assert(r[i] == ' ');
        } else if i == k {
            assert(r[i] == s[0]);
        } else {
            assert(r[i] == rec[i - k - 1]);
            lemma_collapse_scan_element_of(s.skip(1), false, false, i - k - 1);
            if r[i] != ' ' {
                let j = choose|j: int| 0 <= j < s.skip(1).len() && s.skip(1)[j] == rec[i - k - 1];
                assert(s[j + 1] == r[i]);
            }
        }
    }
}

/// Removal and detection split the input exactly: the characters a removal
/// keeps plus the occurrences the offset report lists account for every
/// character of the input.
proof fn lemma_removal_exact_gen(
    s: Seq<char>,
    k: spec_fn(char) -> bool,
    q: spec_fn((usize, char)) -> bool,
)
    requires
        forall|u: usize, c: char| #[trigger] q((u, c)) == !k(c),
    ensures
        s.filter(k).len() + offset_pairs(s).filter(q).len() == s.len(),
    decreases s.len(),
{
    broadcast use Seq::lemma_filter_push;

    if s.len() > 0 {
        let butlast = s.drop_last();
        lemma_removal_exact_gen(butlast, k, q);
        assert(s =~= butlast.push(s.last()));
        assert(offset_pairs(s) =~= offset_pairs(butlast).push(
            (((s.len() - 1) as usize), s.last()),
        ));
        assert(q((((s.len() - 1) as usize), s.last())) == !k(s.last()));
    } else {
        reveal(Seq::filter);
    }
}

/// Every pair an offset report lists is a genuine occurrence: the reported
/// character is in the class and sits at the reported character offset.
proof fn lemma_offsets_sound_gen(s: Seq<char>, q: spec_fn((usize, char)) -> bool)
    requires
        s.len() <= usize::MAX,
    ensures
        forall|i: int|
            0 <= i < offset_pairs(s).filter(q).len() ==> {
                let t = #[trigger] offset_pairs(s).filter(q)[i];
                &&& t.0 < s.len()
                &&& s[t.0 as int] == t.1
                &&& q(t)
            },
    decreases s.len(),
{
    broadcast use Seq::lemma_filter_push;
    broadcast use Seq::lemma_filter_pred;

    if s.len() > 0 {
        let butlast = s.drop_last();
        lemma_offsets_sound_gen(butlast, q);
        assert(offset_pairs(s) =~= offset_pairs(butlast).push(
            (((s.len() - 1) as usize), s.last()),
        ));
    } else {
        reveal(Seq::filter);
    }
}

/// An offset report misses nothing and is strictly increasing: every
/// occurrence of the class appears in it, and reported offsets grow from
/// left to right.
proof fn lemma_offsets_complete_gen(
    s: Seq<char>,
    p: spec_fn(char) -> bool,
    q: spec_fn((usize, char)) -> bool,
)
    requires
        s.len() <= usize::MAX,
        forall|u: usize, c: char| #[trigger] q((u, c)) == p(c),
    ensures
        forall|k: int|
            0 <= k < s.len() && p(#[trigger] s[k]) ==> offset_pairs(s).filter(q).contains(
                (k as usize, s[k]),
            ),
        forall|i: int, j: int|
            0 <= i < j < offset_pairs(s).filter(q).len() ==> (#[trigger] offset_pairs(s).filter(
                q,
            )[i]).0 < (#[trigger] offset_pairs(s).filter(q)[j]).0,
    decreases s.len(),
{
    broadcast use Seq::lemma_filter_push;

    let f = offset_pairs(s).filter(q);
    if s.len() == 0 {
        reveal(Seq::filter);
    } else {
        let butlast = s.drop_last();
        let fb = offset_pairs(butlast).filter(q);
        lemma_offsets_complete_gen(butlast, p, q);
        lemma_offsets_sound_gen(butlast, q);
        assert(offset_pairs(s) =~= offset_pairs(butlast).push(
            (((s.len() - 1) as usize), s.last()),
        ));
        assert(q((((s.len() - 1) as usize), s.last())) == p(s.last()));
        assert forall|k: int| 0 <= k < s.len() && p(#[trigger] s[k]) implies f.contains(
            (k as usize, s[k]),
        ) by {
            if k < s.len() - 1 {
                assert(butlast[k] == s[k]);
                assert(fb.contains((k as usize, s[k])));
                let ix = choose|ix: int| 0 <= ix < fb.len() && fb[ix] == (k as usize, s[k]);
                assert(f[ix] == (k as usize, s[k]));
            } else {
                assert(f.last() == (((s.len() - 1) as usize), s.last()));
            }
        }
        assert forall|i: int, j: int| 0 <= i < j < f.len() implies (#[trigger] f[i]).0
            < (#[trigger] f[j]).0 by {
            if j < fb.len() {
                assert(fb[i] == f[i] && fb[j] == f[j]);
            } else {
                assert(f[j] == (((s.len() - 1) as usize), s.last()));
                assert(f[i] == fb[i]);
                assert(fb[i].0 < butlast.len());
            }
        }
    }
}

/// Law: `zero_width_with_offsets` reports every zero-width occurrence, with
/// strictly increasing offsets; `contains_zero_width` holds exactly when the
/// report is non-empty.
pub proof fn lemma_zero_width_offsets_complete(s: Seq<char>)
    requires
        s.len() <= usize::MAX,
    ensures
        forall|k: int|
            0 <= k < s.len() && is_zero_width(#[trigger] s[k]) ==> spec_zero_width_offsets(
                s,
            ).contains((k as usize, s[k])),
        forall|i: int, j: int|
            0 <= i < j < spec_zero_width_offsets(s).len() ==> (#[trigger] spec_zero_width_offsets(
                s,
            )[i]).0 < (#[trigger] spec_zero_width_offsets(s)[j]).0,
        (exists|k: int| 0 <= k < s.len() && is_zero_width(s[k])) <==> spec_zero_width_offsets(
            s,
        ).len() > 0,
{
    lemma_offsets_complete_gen(s, |c: char| is_zero_width(c), zw_hit());
    lemma_offsets_sound_gen(s, zw_hit());
    if spec_zero_width_offsets(s).len() > 0 {
        let t = spec_zero_width_offsets(s)[0];
        assert(0 <= t.0 < s.len() && is_zero_width(s[t.0 as int]));
    }
    if exists|k: int| 0 <= k < s.len() && is_zero_width(s[k]) {
        let k = choose|k: int| 0 <= k < s.len() && is_zero_width(s[k]);
        assert(spec_zero_width_offsets(s).contains((k as usize, s[k])));
    }
}

/// Law: `bidi_controls_with_offsets` reports every bidi-control occurrence,
/// with strictly increasing offsets; `contains_bidi_controls` holds exactly
/// when the report is non-empty.
pub proof fn lemma_bidi_offsets_complete(s: Seq<char>)
    requires
        s.len() <= usize::MAX,
    ensures
        forall|k: int|
            0 <= k < s.len() && is_bidi_control(#[trigger] s[k]) ==> spec_bidi_offsets(
                s,
            ).contains((k as usize, s[k])),
        forall|i: int, j: int|
            0 <= i < j < spec_bidi_offsets(s).len() ==> (#[trigger] spec_bidi_offsets(s)[i]).0 < (
            #[trigger] spec_bidi_offsets(s)[j]).0,
        (exists|k: int| 0 <= k < s.len() && is_bidi_control(s[k])) <==> spec_bidi_offsets(
            s,
        ).len() > 0,
{
    lemma_offsets_complete_gen(s, |c: char| is_bidi_control(c), bidi_hit());
    lemma_offsets_sound_gen(s, bidi_hit());
    if spec_bidi_offsets(s).len() > 0 {
        let t = spec_bidi_offsets(s)[0];
        assert(0 <= t.0 < s.len() && is_bidi_control(s[t.0 as int]));
    }
    if exists|k: int| 0 <= k < s.len() && is_bidi_control(s[k]) {
        let k = choose|k: int| 0 <= k < s.len() && is_bidi_control(s[k]);
        assert(spec_bidi_offsets(s).contains((k as usize, s[k])));
    }
}

/// Law: `remove_zero_width` keeps exactly the characters that
/// `zero_width_with_offsets` does not report — the character count of the
/// result plus the number of reported offsets equals the character count of
/// the input.
pub proof fn lemma_zero_width_removal_exact(s: Seq<char>)
    ensures
        spec_remove_zero_width(s).len() + spec_zero_width_offsets(s).len() == s.len(),
{
    lemma_removal_exact_gen(s, zw_keep(), zw_hit());
}

/// Law: `remove_bidi_controls` keeps exactly the characters that
/// `bidi_controls_with_offsets` does not report.
pub proof fn lemma_bidi_removal_exact(s: Seq<char>)
    ensures
        spec_remove_bidi_controls(s).len() + spec_bidi_offsets(s).len() == s.len(),
{
    lemma_removal_exact_gen(s, bidi_keep(), bidi_hit());
}

/// Law: every pair `zero_width_with_offsets` reports is a genuine
/// occurrence of a zero-width character at that character offset.
pub proof fn lemma_zero_width_offsets_sound(s: Seq<char>)
    requires
        s.len() <= usize::MAX,
    ensures
        forall|i: int|
            0 <= i < spec_zero_width_offsets(s).len() ==> {
                let t = #[trigger] spec_zero_width_offsets(s)[i];
                &&& t.0 < s.len()
                &&& s[t.0 as int] == t.1
                &&& is_zero_width(t.1)
            },
{
    lemma_offsets_sound_gen(s, zw_hit());
}

/// Law: every pair `bidi_controls_with_offsets` reports is a genuine
/// occurrence of a bidi control character at that character offset.
pub proof fn lemma_bidi_offsets_sound(s: Seq<char>)
    requires
        s.len() <= usize::MAX,
    ensures
        forall|i: int|
            0 <= i < spec_bidi_offsets(s).len() ==> {
                let t = #[trigger] spec_bidi_offsets(s)[i];
                &&& t.0 < s.len()
                &&& s[t.0 as int] == t.1
                &&& is_bidi_control(t.1)
            },
{
    lemma_offsets_sound_gen(s, bidi_hit());
}

/// The sequence with leading whitespace dropped.
pub open spec fn trim_front(s: Seq<char>) -> Seq<char>
    decreases s.len(),
{
    if s.len() > 0 && is_ws_char(s[0]) {
        trim_front(s.skip(1))
    } else {
        s
    }
}

/// The sequence with trailing whitespace dropped.
pub open spec fn trim_back(s: Seq<char>) -> Seq<char>
    decreases s.len(),
{
    if s.len() > 0 && is_ws_char(s.last()) {
        trim_back(s.drop_last())
    } else {
        s
    }
}

/// The sequence with leading and trailing whitespace dropped.
pub open spec fn spec_trim(s: Seq<char>) -> Seq<char> {
    trim_back(trim_front(s))
}

/// The lines of a sequence, split on `'\n'`; always at least one line, and
/// the separators themselves are not part of any line.
pub open spec fn spec_split_lines(s: Seq<char>) -> Seq<Seq<char>>
    decreases s.len(),
{
    if s.len() == 0 {
        seq![Seq::<char>::empty()]
    } else if s[0] == '\n' {
        seq![Seq::<char>::empty()] + spec_split_lines(s.skip(1))
    } else {
        let rest = spec_split_lines(s.skip(1));
        seq![seq![s[0]] + rest[0]] + rest.skip(1)
    }
}

/// The lines joined back with `'\n'` between them.
pub open spec fn spec_join_lines(ls: Seq<Seq<char>>) -> Seq<char>
    decreases ls.len(),
{
    if ls.len() == 0 {
        Seq::empty()
    } else if ls.len() == 1 {
        ls[0]
    } else {
        ls[0] + seq!['\n'] + spec_join_lines(ls.skip(1))
    }
}

/// What joining contributes after the first line: a separator before each
/// further line.
pub open spec fn spec_join_tail(ls: Seq<Seq<char>>) -> Seq<char>
    decreases ls.len(),
{
    if ls.len() == 0 {
        Seq::empty()
    } else {
        seq!['\n'] + ls[0] + spec_join_tail(ls.skip(1))
    }
}

/// Trimming as a function value, usable with `map_values`.
pub open spec fn trim_map() -> spec_fn(Seq<char>) -> Seq<char> {
    |l: Seq<char>| spec_trim(l)
}

/// The predicate selecting non-empty lines.
pub open spec fn nonempty_line() -> spec_fn(Seq<char>) -> bool {
    |l: Seq<char>| l.len() > 0
}

/// Line-wise document cleaning: normalize newlines, trim each line
/// (preserving internal spacing), drop blank lines, and rejoin with `'\n'`.
pub open spec fn spec_trim_lines(s: Seq<char>) -> Seq<char> {
    spec_join_lines(
        spec_split_lines(spec_normalize_newlines(s)).map_values(trim_map()).filter(
            nonempty_line(),
        ),
    )
}

/// The views of a vector of character vectors.
pub open spec fn lines_view(v: Seq<Vec<char>>) -> Seq<Seq<char>> {
    Seq::new(v.len(), |i: int| v[i]@)
}

/// Splitting always yields at least one line.
proof fn lemma_split_lines_nonempty(s: Seq<char>)
    ensures
        spec_split_lines(s).len() >= 1,
    decreases s.len(),
{
    if s.len() > 0 {
        lemma_split_lines_nonempty(s.skip(1));
    }
}

/// A line's first element followed by the remaining lines is the whole
/// split.
proof fn lemma_prepend_first_id(ls: Seq<Seq<char>>)
    requires
        ls.len() >= 1,
    ensures
        seq![ls[0]] + ls.skip(1) =~= ls,
{
}

fn split_chars(cs: &Vec<char>) -> (r: Vec<Vec<char>>)
    ensures
        lines_view(r@) == spec_split_lines(cs@),
{
    let n = cs.len();
    let mut out: Vec<Vec<char>> = Vec::new();
    let mut cur: Vec<char> = Vec::new();
    proof {
        assert(cs@.skip(0) =~= cs@);
        lemma_split_lines_nonempty(cs@);
        lemma_prepend_first_id(spec_split_lines(cs@));
        assert(lines_view(out@) + (seq![cur@ + spec_split_lines(cs@)[0]] + spec_split_lines(
            cs@,
        ).skip(1)) =~= spec_split_lines(cs@)) by {
            assert(cur@ + spec_split_lines(cs@)[0] =~= spec_split_lines(cs@)[0]);
            assert(lines_view(out@) =~= Seq::<Seq<char>>::empty());
        }
    }
    for i in 0..n
        invariant
            n == cs.len(),
            spec_split_lines(cs@) == lines_view(out@) + (seq![cur@ + spec_split_lines(
                cs@.skip(i as int),
            )[0]] + spec_split_lines(cs@.skip(i as int)).skip(1)),
    {
        let ghost t = cs@.skip(i as int);
        let ghost rest = spec_split_lines(cs@.skip(i as int + 1));
        proof {
            assert(t.skip(1) =~= cs@.skip(i as int + 1));
            lemma_split_lines_nonempty(cs@.skip(i as int + 1));
        }
        let c = cs[i];
        if c == '\n' {
            let ghost out0 = out@;
            let ghost cur0 = cur@;
            let finished = cur;
            cur = Vec::new();
            out.push(finished);
            proof {
                assert(spec_split_lines(t) == seq![Seq::<char>::empty()] + rest);
                assert(lines_view(out@) =~= lines_view(out0).push(cur0));
                assert(cur0 + spec_split_lines(t)[0] =~= cur0);
                assert(cur@ + rest[0] =~= rest[0]);
                assert(spec_split_lines(t).skip(1) =~= rest);
                assert(lines_view(out0) + (seq![cur0 + spec_split_lines(t)[0]]
                    + spec_split_lines(t).skip(1)) =~= lines_view(out@) + (seq![cur@ + rest[0]]
                    + rest.skip(1)));
            }
        } else {
            let ghost cur0 = cur@;
            cur.push(c);
            proof {
                assert(spec_split_lines(t) == seq![seq![c] + rest[0]] + rest.skip(1));
                assert(cur0 + spec_split_lines(t)[0] =~= cur@ + rest[0]);
                assert(spec_split_lines(t).skip(1) =~= rest.skip(1));
                assert(lines_view(out@) + (seq![cur0 + spec_split_lines(t)[0]]
                    + spec_split_lines(t).skip(1)) =~= lines_view(out@) + (seq![cur@ + rest[0]]
                    + rest.skip(1)));
            }
        }
    }
    proof {
        assert(cs@.skip(n as int) =~= Seq::<char>::empty());
        assert(spec_split_lines(Seq::<char>::empty()) == seq![Seq::<char>::empty()]);
        assert(cur@ + Seq::<char>::empty() =~= cur@);
        assert(seq![Seq::<char>::empty()].skip(1) =~= Seq::<Seq<char>>::empty());
    }
    let last = cur;
    out.push(last);
    proof {
        assert(lines_view(out@) =~= spec_split_lines(cs@));
    }
    out
}

fn trim_chars(line: &Vec<char>) -> (r: Vec<char>)
    ensures
        r@ == spec_trim(line@),
{
    let n = line.len();
    let mut s: usize = 0;
    proof {
        assert(line@.skip(0) =~= line@);
    }
    while s < n && is_unicode_whitespace(line[s])
        invariant
            n == line.len(),
            s <= n,
            trim_front(line@) == trim_front(line@.skip(s as int)),
        decreases n - s,
    {
        proof {
            assert(line@.skip(s as int).skip(1) =~= line@.skip(s as int + 1));
        }
        s = s + 1;
    }
    proof {
        assert(trim_front(line@) == line@.skip(s as int));
    }
    let mut e: usize = n;
    while e > s && is_unicode_whitespace(line[e - 1])
        invariant
            n == line.len(),
            s <= e <= n,
            trim_back(line@.skip(s as int)) == trim_back(line@.subrange(s as int, e as int)),
        decreases e,
    {
        proof {
            assert(line@.subrange(s as int, e as int).drop_last() =~= line@.subrange(
                s as int,
                e as int - 1,
            ));
            assert(line@.subrange(s as int, e as int).last() == line@[e as int - 1]);
        }
        e = e - 1;
    }
    proof {
        assert(trim_back(line@.subrange(s as int, e as int)) == line@.subrange(s as int, e as int));
    }
    let mut out: Vec<char> = Vec::new();
    let mut k: usize = s;
    while k < e
        invariant
            s <= k <= e <= n,
            n == line.len(),
            out@ == line@.subrange(s as int, k as int),
        decreases e - k,
    {
        out.push(line[k]);
        proof {
            assert(line@.subrange(s as int, k as int + 1) =~= line@.subrange(s as int, k as int)
                .push(line@[k as int]));
        }
        k = k + 1;
    }
    out
}

/// Joining a non-empty line list is the first line followed by the tail
/// contribution.
proof fn lemma_join_lines_head(ls: Seq<Seq<char>>)
    requires
        ls.len() >= 1,
    ensures
        spec_join_lines(ls) == ls[0] + spec_join_tail(ls.skip(1)),
    decreases ls.len(),
{
    if ls.len() == 1 {
        assert(ls.skip(1).len() == 0);
        assert(ls[0] + Seq::<char>::empty() =~= ls[0]);
    } else {
        lemma_join_lines_head(ls.skip(1));
        assert(ls.skip(1).skip(1) =~= ls.skip(2));
        assert(ls.skip(1)[0] + spec_join_tail(ls.skip(1).skip(1)) == spec_join_lines(ls.skip(1)));
        assert(ls[0] + seq!['\n'] + spec_join_lines(ls.skip(1)) =~= ls[0] + (seq!['\n'] + ls.skip(
            1,
        )[0] + spec_join_tail(ls.skip(2))));
        assert(spec_join_tail(ls.skip(1)) == seq!['\n'] + ls.skip(1)[0] + spec_join_tail(
            ls.skip(1).skip(1),
        ));
    }
}

fn join_lines(lines: &Vec<Vec<char>>) -> (r: Vec<char>)
    ensures
        r@ == spec_join_lines(lines_view(lines@)),
{
    let m = lines.len();
    let mut out: Vec<char> = Vec::new();
    if m == 0 {
        proof {
            assert(lines_view(lines@).len() == 0);
        }
        return out;
    }
    append_chars(&mut out, &lines[0]);
    proof {
        lemma_join_lines_head(lines_view(lines@));
        assert(Seq::<char>::empty() + lines@[0]@ =~= lines@[0]@);
        assert(lines_view(lines@)[0] == lines@[0]@);
        assert(lines_view(lines@).skip(1) =~= Seq::new((m - 1) as nat, |i: int| lines@[i + 1]@));
    }
    let ghost lv = lines_view(lines@);
    let mut j: usize = 1;
    while j < m
        invariant
            m == lines.len(),
            1 <= j <= m,
            lv == lines_view(lines@),
            spec_join_lines(lv) == out@ + spec_join_tail(lv.skip(j as int)),
        decreases m - j,
    {
        let ghost out0 = out@;
        out.push('\n');
        append_chars(&mut out, &lines[j]);
        proof {
            assert(lv.skip(j as int)[0] == lines@[j as int]@);
            assert(lv.skip(j as int).skip(1) =~= lv.skip(j as int + 1));
            assert(spec_join_tail(lv.skip(j as int)) == seq!['\n'] + lines@[j as int]@
                + spec_join_tail(lv.skip(j as int + 1)));
            assert(out@ =~= out0 + seq!['\n'] + lines@[j as int]@);
            assert(out0 + (seq!['\n'] + lines@[j as int]@ + spec_join_tail(lv.skip(j as int + 1)))
                =~= out@ + spec_join_tail(lv.skip(j as int + 1)));
        }
        j = j + 1;
    }
    proof {
        assert(lv.skip(m as int).len() == 0);
        assert(out@ + Seq::<char>::empty() =~= out@);
    }
    out
}

/// Trim each line (preserving internal spacing) and drop blank lines.
///
/// This is a "document cleaning" primitive:
/// - preserves case
/// - preserves internal whitespace runs
/// - normalizes newlines to `\n`
/// - trims leading/trailing whitespace per line
/// - removes empty lines
///
/// For a *search key* (casefold + diacritics stripping + whitespace
/// collapse), use `crate::scrub_with` with an explicit `ScrubConfig`.
pub fn trim_lines_preserve_spaces(text: &str) -> (r: String)
    ensures
        r@ == spec_trim_lines(text@),
{
    broadcast use Seq::lemma_filter_push;

    let normalized = normalize_newlines(text);
    let cs = chars_of(normalized.as_str());
    let lines = split_chars(&cs);
    let ghost all = lines_view(lines@);
    let m = lines.len();
    let mut kept: Vec<Vec<char>> = Vec::new();
    proof {
        assert(all.take(0) =~= Seq::<Seq<char>>::empty());
        assert(all.take(0).map_values(trim_map()) =~= Seq::<Seq<char>>::empty());
        reveal(Seq::filter);
        assert(lines_view(kept@) =~= Seq::<Seq<char>>::empty().filter(nonempty_line()));
    }
    for i in 0..m
        invariant
            m == lines.len(),
            all == lines_view(lines@),
            lines_view(kept@) == all.take(i as int).map_values(trim_map()).filter(
                nonempty_line(),
            ),
    {
        let t = trim_chars(&lines[i]);
        let ghost kept0 = kept@;
        let keep = t.len() > 0;
        if keep {
            kept.push(t);
        }
        proof {
            assert(all.take(i as int + 1).map_values(trim_map()) =~= all.take(
                i as int,
            ).map_values(trim_map()).push(spec_trim(lines@[i as int]@)));
            Seq::lemma_filter_push(
                all.take(i as int).map_values(trim_map()),
                spec_trim(lines@[i as int]@),
                nonempty_line(),
            );
            if keep {
                assert(lines_view(kept@) =~= lines_view(kept0).push(t@));
            }
        }
    }
    proof {
        assert(all.take(m as int) =~= all);
    }
    let joined = join_lines(&kept);
    string_from_chars(&joined)
}

/// Law: `remove_zero_width` leaves no zero-width character behind, and is
/// idempotent.
pub proof fn lemma_remove_zero_width_clean(s: Seq<char>)
    ensures
        forall|i: int|
            0 <= i < spec_remove_zero_width(s).len() ==> !is_zero_width(
                #[trigger] spec_remove_zero_width(s)[i],
            ),
        spec_remove_zero_width(spec_remove_zero_width(s)) == spec_remove_zero_width(s),
{
    broadcast use Seq::lemma_filter_pred;

    assert forall|i: int| 0 <= i < spec_remove_zero_width(s).len() implies !is_zero_width(
        #[trigger] spec_remove_zero_width(s)[i],
    ) by {
        assert(zw_keep()(s.filter(zw_keep())[i]));
    }
    lemma_filter_noop(spec_remove_zero_width(s), zw_keep());
}

/// Newline normalization: any CR immediately followed by LF collapses to a
/// single LF; any standalone CR becomes LF; all other characters pass
/// through unchanged.
pub open spec fn spec_normalize_newlines(s: Seq<char>) -> Seq<char>
    decreases s.len(),
{
    if s.len() == 0 {
        s
    } else if s[0] == '\r' {
        if s.len() >= 2 && s[1] == '\n' {
            seq!['\n'] + spec_normalize_newlines(s.skip(2))
        } else {
            seq!['\n'] + spec_normalize_newlines(s.skip(1))
        }
    } else {
        seq![s[0]] + spec_normalize_newlines(s.skip(1))
    }
}

/// Normalize newlines to LF (`\n`).
///
/// Converts:
/// - Windows CRLF (`\r\n`) to `\n`
/// - Old Mac CR (`\r`) to `\n`
pub fn normalize_newlines(text: &str) -> (r: String)
    ensures
        r@ == spec_normalize_newlines(text@),
{
    let cs = chars_of(text);
    let n = cs.len();
    let mut out: Vec<char> = Vec::new();
    let mut i: usize = 0;
    proof {
        assert(cs@.skip(0) =~= cs@);
        assert(out@ + spec_normalize_newlines(cs@) =~= spec_normalize_newlines(cs@));
    }
    while i < n
        invariant
            n == cs.len(),
            cs@ == text@,
            i <= n,
            spec_normalize_newlines(cs@) == out@ + spec_normalize_newlines(cs@.skip(i as int)),
        decreases n - i,
    {
        let ghost t = cs@.skip(i as int);
        let c = cs[i];
        if c == '\r' {
            let crlf = i + 1 < n && cs[i + 1] == '\n';
            proof {
                if crlf {
                    assert(t.skip(2) =~= cs@.skip(i as int + 2));
                    assert(out@ + spec_normalize_newlines(t) =~= out@.push('\n')
                        + spec_normalize_newlines(cs@.skip(i as int + 2)));
                } else {
                    assert(t.skip(1) =~= cs@.skip(i as int + 1));
                    assert(out@ + spec_normalize_newlines(t) =~= out@.push('\n')
                        + spec_normalize_newlines(cs@.skip(i as int + 1)));
                }
            }
            out.push('\n');
            if crlf {
                i = i + 2;
            } else {
                i = i + 1;
            }
        } else {
            proof {
                assert(t.skip(1) =~= cs@.skip(i as int + 1));
                assert(out@ + spec_normalize_newlines(t) =~= out@.push(c)
                    + spec_normalize_newlines(cs@.skip(i as int + 1)));
            }
            out.push(c);
            i = i + 1;
        }
    }
    proof {
        assert(cs@.skip(n as int) =~= Seq::<char>::empty());
        assert(out@ + spec_normalize_newlines(Seq::<char>::empty()) =~= out@);
    }
    string_from_chars(&out)
}

/// Like [`normalize_newlines`], but writes into an existing `String`.
pub fn normalize_newlines_into(text: &str, out: &mut String)
    ensures
        final(out)@ == spec_normalize_newlines(text@),
{
    *out = normalize_newlines(text);
}

/// Law: the output of `normalize_newlines` contains no CR character.
pub proof fn lemma_normalize_newlines_no_cr(s: Seq<char>)
    ensures
        forall|i: int|
            0 <= i < spec_normalize_newlines(s).len() ==> #[trigger] spec_normalize_newlines(s)[i]
                != '\r',
    decreases s.len(),
{
    let r = spec_normalize_newlines(s);
    if s.len() == 0 {
    } else if s[0] == '\r' {
        if s.len() >= 2 && s[1] == '\n' {
            lemma_normalize_newlines_no_cr(s.skip(2));
            assert forall|i: int| 0 <= i < r.len() implies #[trigger] r[i] != '\r' by {
                if i > 0 {
                    assert(r[i] == spec_normalize_newlines(s.skip(2))[i - 1]);
                }
            }
        } else {
            lemma_normalize_newlines_no_cr(s.skip(1));
            assert forall|i: int| 0 <= i < r.len() implies #[trigger] r[i] != '\r' by {
                if i > 0 {
                    assert(r[i] == spec_normalize_newlines(s.skip(1))[i - 1]);
                }
            }
        }
    } else {
        lemma_normalize_newlines_no_cr(s.skip(1));
        assert forall|i: int| 0 <= i < r.len() implies #[trigger] r[i] != '\r' by {
            if i > 0 {
                assert(r[i] == spec_normalize_newlines(s.skip(1))[i - 1]);
            }
        }
    }
}

/// `normalize_newlines` leaves CR-free text unchanged.
pub proof fn lemma_normalize_newlines_id(s: Seq<char>)
    requires
        forall|i: int| 0 <= i < s.len() ==> s[i] != '\r',
    ensures
        spec_normalize_newlines(s) == s,
    decreases s.len(),
{
    if s.len() > 0 {
        lemma_normalize_newlines_id(s.skip(1));
        assert(seq![s[0]] + s.skip(1) =~= s);
    }
}

/// Law: `normalize_newlines` is idempotent.
pub proof fn lemma_normalize_newlines_idempotent(s: Seq<char>)
    ensures
        spec_normalize_newlines(spec_normalize_newlines(s)) == spec_normalize_newlines(s),
{
    lemma_normalize_newlines_no_cr(s);
    lemma_normalize_newlines_id(spec_normalize_newlines(s));
}

/// One pass of whitespace collapsing: `in_ws` records whether a whitespace
/// run is open, `empty` whether nothing has been emitted yet. A single ASCII
/// space is emitted before a non-whitespace character exactly when it closes
/// a run and output has already started.
pub open spec fn collapse_scan(s: Seq<char>, in_ws: bool, empty: bool) -> Seq<char>
    decreases s.len(),
{
    if s.len() == 0 {
        Seq::empty()
    } else if is_ws_char(s[0]) {
        collapse_scan(s.skip(1), true, empty)
    } else {
        let sep: Seq<char> = if in_ws && !empty {
            seq![' ']
        } else {
            Seq::empty()
        };
        sep + seq![s[0]] + collapse_scan(s.skip(1), false, false)
    }
}

/// Whitespace collapsing: every run of Unicode whitespace becomes a single
/// ASCII space, and leading/trailing whitespace is dropped.
pub open spec fn spec_collapse_whitespace(s: Seq<char>) -> Seq<char> {
    collapse_scan(s, true, true)
}

/// Collapse all Unicode whitespace into single ASCII spaces.
///
/// - Converts any whitespace run into a single `' '`.
/// - Trims leading/trailing whitespace (by construction).
///
/// This intentionally loses newlines. If you want to preserve newlines,
/// normalize newlines first and apply a line-wise collapse yourself.
pub fn collapse_whitespace(text: &str) -> (r: String)
    ensures
        r@ == spec_collapse_whitespace(text@),
{
    let cs = chars_of(text);
    let n = cs.len();
    let mut out: Vec<char> = Vec::new();
    let mut in_ws = true;
    proof {
        assert(cs@.skip(0) =~= cs@);
        assert(out@ + collapse_scan(cs@, true, true) =~= collapse_scan(cs@, true, true));
    }
    for i in 0..n
        invariant
            n == cs.len(),
            cs@ == text@,
            spec_collapse_whitespace(cs@) == out@ + collapse_scan(
                cs@.skip(i as int),
                in_ws,
                out@.len() == 0,
            ),
    {
        let ghost t = cs@.skip(i as int);
        let c = cs[i];
        proof {
            assert(t.skip(1) =~= cs@.skip(i as int + 1));
        }
        if is_unicode_whitespace(c) {
            in_ws = true;
        } else {
            let ghost out0 = out@;
            let ghost sep: Seq<char> = if in_ws && out@.len() != 0 {
                seq![' ']
            } else {
                Seq::empty()
            };
            proof {
                assert(collapse_scan(t, in_ws, out0.len() == 0) == sep + seq![c] + collapse_scan(
                    cs@.skip(i as int + 1),
                    false,
                    false,
                ));
            }
            if in_ws && out.len() != 0 {
                out.push(' ');
            }
            out.push(c);
            in_ws = false;
            proof {
                assert(out@ =~= out0 + sep + seq![c]);
                assert(out0 + (sep + seq![c] + collapse_scan(cs@.skip(i as int + 1), false, false))
                    =~= out@ + collapse_scan(cs@.skip(i as int + 1), false, false));
                assert(out@.len() > 0);
            }
        }
    }
    proof {
        assert(cs@.skip(n as int) =~= Seq::<char>::empty());
        assert(out@ + collapse_scan(Seq::<char>::empty(), in_ws, out@.len() == 0) =~= out@);
    }
    string_from_chars(&out)
}

/// Shape of a collapsing scan: whitespace appears only as single ASCII
/// spaces, never doubled, never at the end, and — before anything has been
/// emitted — never at the start.
proof fn lemma_collapse_scan_shape(s: Seq<char>, iw: bool, e: bool)
    ensures
        forall|i: int|
            0 <= i < collapse_scan(s, iw, e).len() ==> (is_ws_char(
                #[trigger] collapse_scan(s, iw, e)[i],
            ) ==> collapse_scan(s, iw, e)[i] == ' '),
        forall|i: int|
            0 < i < collapse_scan(s, iw, e).len() ==> !(collapse_scan(s, iw, e)[i - 1] == ' '
                && #[trigger] collapse_scan(s, iw, e)[i] == ' '),
        collapse_scan(s, iw, e).len() > 0 ==> !is_ws_char(collapse_scan(s, iw, e).last()),
        e && collapse_scan(s, iw, e).len() > 0 ==> !is_ws_char(collapse_scan(s, iw, e)[0]),
    decreases s.len(),
{
    let r = collapse_scan(s, iw, e);
    if s.len() == 0 {
    } else if is_ws_char(s[0]) {
        lemma_collapse_scan_shape(s.skip(1), true, e);
    } else {
        lemma_collapse_scan_shape(s.skip(1), false, false);
        let rec = collapse_scan(s.skip(1), false, false);
        let sep: Seq<char> = if iw && !e {
            seq![' ']
        } else {
            Seq::empty()
        };
        let k = sep.len() as int;
        assert(r == sep + seq![s[0]] + rec);
        assert(r[k] == s[0]);
        assert(!is_ws_char(s[0]));
        assert forall|i: int| 0 <= i < r.len() && is_ws_char(#[trigger] r[i]) implies r[i]
            == ' ' by {
            if i < k {
                assert(r[i] == ' ');
            } else if i > k {
                assert(r[i] == rec[i - k - 1]);
            }
        }
        assert forall|i: int| 0 < i < r.len() implies !(r[i - 1] == ' ' && #[trigger] r[i]
            == ' ') by {
            if i == k {
                assert(r[i] == s[0]);
            } else if i == k + 1 {
                assert(r[i - 1] == s[0]);
            } else if i > k + 1 {
                assert(r[i - 1] == rec[i - k - 2]);
                assert(r[i] == rec[i - k - 1]);
            }
        }
        if rec.len() == 0 {
            assert(r.last() == s[0]);
        } else {
            assert(r.last() == rec.last());
        }
    }
}

/// A collapsing scan started mid-word leaves already-collapsed text
/// unchanged.
proof fn lemma_collapse_scan_fixed(t: Seq<char>)
    requires
        forall|i: int| 0 <= i < t.len() ==> (is_ws_char(#[trigger] t[i]) ==> t[i] == ' '),
        forall|i: int| 0 < i < t.len() ==> !(t[i - 1] == ' ' && #[trigger] t[i] == ' '),
        t.len() > 0 ==> !is_ws_char(t.last()),
    ensures
        collapse_scan(t, false, false) == t,
    decreases t.len(),
{
    if t.len() == 0 {
    } else if t[0] == ' ' {
        assert(is_ws_char(t[0]));
        assert(t.len() >= 2) by {
            if t.len() == 1 {
                assert(t.last() == t[0]);
            }
        }
        assert(t[1] != ' ');
        assert(!is_ws_char(t[1]));
        assert(t.skip(1).skip(1) =~= t.skip(2));
        assert forall|i: int|
            0 <= i < t.skip(2).len() && is_ws_char(#[trigger] t.skip(2)[i]) implies t.skip(2)[i]
            == ' ' by {
            assert(t.skip(2)[i] == t[i + 2]);
        }
        assert forall|i: int| 0 < i < t.skip(2).len() implies !(t.skip(2)[i - 1] == ' '
            && #[trigger] t.skip(2)[i] == ' ') by {
            assert(t.skip(2)[i] == t[i + 2]);
            assert(t.skip(2)[i - 1] == t[i + 1]);
        }
        if t.skip(2).len() > 0 {
            assert(t.skip(2).last() == t.last());
        }
        lemma_collapse_scan_fixed(t.skip(2));
        assert(t.skip(1)[0] == t[1]);
        assert(collapse_scan(t.skip(1), true, false) == seq![' '] + seq![t[1]] + collapse_scan(
            t.skip(2),
            false,
            false,
        ));
        assert(seq![' '] + seq![t[1]] + t.skip(2) =~= t);
    } else {
        assert(!is_ws_char(t[0]));
        assert forall|i: int|
            0 <= i < t.skip(1).len() && is_ws_char(#[trigger] t.skip(1)[i]) implies t.skip(1)[i]
            == ' ' by {
            assert(t.skip(1)[i] == t[i + 1]);
        }
        assert forall|i: int| 0 < i < t.skip(1).len() implies !(t.skip(1)[i - 1] == ' '
            && #[trigger] t.skip(1)[i] == ' ') by {
            assert(t.skip(1)[i] == t[i + 1]);
            assert(t.skip(1)[i - 1] == t[i]);
        }
        if t.skip(1).len() > 0 {
            assert(t.skip(1).last() == t.last());
        }
        lemma_collapse_scan_fixed(t.skip(1));
        assert(collapse_scan(t, false, false) == Seq::<char>::empty() + seq![t[0]]
            + collapse_scan(t.skip(1), false, false));
        assert(Seq::<char>::empty() + seq![t[0]] + t.skip(1) =~= t);
    }
}

/// Law: the output of `collapse_whitespace` has no leading or trailing
/// whitespace, no two adjacent spaces, and no whitespace character other
/// than the ASCII space.
pub proof fn lemma_collapse_whitespace_shape(s: Seq<char>)
    ensures
        forall|i: int|
            0 <= i < spec_collapse_whitespace(s).len() ==> (is_ws_char(
                #[trigger] spec_collapse_whitespace(s)[i],
            ) ==> spec_collapse_whitespace(s)[i] == ' '),
        forall|i: int|
            0 < i < spec_collapse_whitespace(s).len() ==> !(spec_collapse_whitespace(s)[i - 1]
                == ' ' && #[trigger] spec_collapse_whitespace(s)[i] == ' '),
        spec_collapse_whitespace(s).len() > 0 ==> !is_ws_char(spec_collapse_whitespace(s)[0])
            && !is_ws_char(spec_collapse_whitespace(s).last()),
{
    lemma_collapse_scan_shape(s, true, true);
}

/// Law: `collapse_whitespace` is idempotent.
pub proof fn lemma_collapse_whitespace_idempotent(s: Seq<char>)
    ensures
        spec_collapse_whitespace(spec_collapse_whitespace(s)) == spec_collapse_whitespace(s),
{
    lemma_collapse_scan_shape(s, true, true);
    let r = spec_collapse_whitespace(s);
    if r.len() > 0 {
        assert(!is_ws_char(r[0]));
        assert forall|i: int|
            0 <= i < r.skip(1).len() && is_ws_char(#[trigger] r.skip(1)[i]) implies r.skip(1)[i]
            == ' ' by {
            assert(r.skip(1)[i] == r[i + 1]);
        }
        assert forall|i: int| 0 < i < r.skip(1).len() implies !(r.skip(1)[i - 1] == ' '
            && #[trigger] r.skip(1)[i] == ' ') by {
            assert(r.skip(1)[i] == r[i + 1]);
            assert(r.skip(1)[i - 1] == r[i]);
        }
        if r.skip(1).len() > 0 {
            assert(r.skip(1).last() == r.last());
        }
        lemma_collapse_scan_fixed(r.skip(1));
        assert(collapse_scan(r, true, true) == Seq::<char>::empty() + seq![r[0]] + collapse_scan(
            r.skip(1),
            false,
            false,
        ));
        assert(Seq::<char>::empty() + seq![r[0]] + r.skip(1) =~= r);
    }
}

/// Like [`collapse_whitespace`], but writes into an existing `String`.
pub fn collapse_whitespace_into(text: &str, out: &mut String)
    ensures
        final(out)@ == spec_collapse_whitespace(text@),
{
    *out = collapse_whitespace(text);
}

/// Law: `remove_bidi_controls` leaves no bidi control behind, and is
/// idempotent.
pub proof fn lemma_remove_bidi_controls_clean(s: Seq<char>)
    ensures
        forall|i: int|
            0 <= i < spec_remove_bidi_controls(s).len() ==> !is_bidi_control(
                #[trigger] spec_remove_bidi_controls(s)[i],
            ),
        spec_remove_bidi_controls(spec_remove_bidi_controls(s)) == spec_remove_bidi_controls(s),
{
    broadcast use Seq::lemma_filter_pred;

    assert forall|i: int| 0 <= i < spec_remove_bidi_controls(s).len() implies !is_bidi_control(
        #[trigger] spec_remove_bidi_controls(s)[i],
    ) by {
        assert(bidi_keep()(s.filter(bidi_keep())[i]));
    }
    lemma_filter_noop(spec_remove_bidi_controls(s), bidi_keep());
}

} // verus!
