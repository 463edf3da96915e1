//! Shared character-level helpers: the Unicode whitespace predicate and
//! conversions between `&str`/`String` and `Vec<char>`.

use vstd::prelude::*;

verus! {

broadcast use vstd::string::group_string_axioms;

/// Collects the characters of a string slice into a vector.
pub fn chars_of(text: &str) -> (r: Vec<char>)
    ensures
        r@ == text@,
{
    let mut r: Vec<char> = Vec::new();
    for c in it: text.chars()
        invariant
            it.seq() == text@,
            r@ == it.seq().take(it.index() as int),
    {
        r.push(c);
        proof {
            assert(r@ =~= it.seq().take(it.index() as int + 1));
        }
    }
    proof {
        assert(r@ =~= text@);
    }
    r
}

/// Relies on `String`'s `FromIterator<char>` impl: collecting a sequence of
/// characters yields the string made of exactly those characters in order.
#[verifier::external_body]
pub fn string_from_chars(v: &Vec<char>) -> (r: String)
    ensures
        r@ == v@,
{
    v.iter().collect()
}

/// The UTF-8 byte length of a single character.
pub open spec fn char_len(c: char) -> int {
    vstd::utf8::encode_scalar(c as u32).len() as int
}

/// The UTF-8 byte length of a character sequence.
pub open spec fn utf8_len(s: Seq<char>) -> int {
    vstd::utf8::encode_utf8(s).len() as int
}

/// A character encodes to between one and four bytes.
pub proof fn lemma_char_len_bounds(c: char)
    ensures
        1 <= char_len(c) <= 4,
{
}

/// UTF-8 byte length distributes over concatenation.
pub proof fn lemma_utf8_len_additive(a: Seq<char>, b: Seq<char>)
    ensures
        utf8_len(a + b) == utf8_len(a) + utf8_len(b),
    decreases a.len(),
{
    if a.len() == 0 {
        assert(a + b =~= b);
    } else {
        lemma_utf8_len_additive(a.drop_first(), b);
        assert((a + b).drop_first() =~= a.drop_first() + b);
        assert((a + b)[0] == a[0]);
    }
}

/// Taking one more character adds exactly that character's byte length.
pub proof fn lemma_utf8_len_take_succ(s: Seq<char>, i: int)
    requires
        0 <= i < s.len(),
    ensures
        utf8_len(s.take(i + 1)) == utf8_len(s.take(i)) + char_len(s[i]),
{
    assert(s.take(i + 1) =~= s.take(i) + seq![s[i]]);
    lemma_utf8_len_additive(s.take(i), seq![s[i]]);
    assert(seq![s[i]].drop_first() =~= Seq::<char>::empty());
    assert(utf8_len(Seq::<char>::empty()) == 0);
    assert(utf8_len(seq![s[i]]) == char_len(s[i]));
}

/// A sequence's UTF-8 byte length is at least its character count.
pub proof fn lemma_utf8_len_ge_len(s: Seq<char>)
    ensures
        utf8_len(s) >= s.len(),
    decreases s.len(),
{
    if s.len() > 0 {
        lemma_utf8_len_ge_len(s.drop_first());
        lemma_char_len_bounds(s[0]);
    }
}

/// Byte lengths of prefixes grow strictly with the number of characters
/// taken.
pub proof fn lemma_utf8_len_take_mono(s: Seq<char>, i: int, j: int)
    requires
        0 <= i <= j <= s.len(),
    ensures
        utf8_len(s.take(i)) + (j - i) <= utf8_len(s.take(j)),
{
    assert(s.take(j) =~= s.take(i) + s.subrange(i, j));
    lemma_utf8_len_additive(s.take(i), s.subrange(i, j));
    lemma_utf8_len_ge_len(s.subrange(i, j));
}

/// Computes the UTF-8 byte length of a character.
pub fn char_byte_len(c: char) -> (n: usize)
    ensures
        n == char_len(c),
{
    proof {
        broadcast use vstd::utf8::char_is_scalar;

        assert(vstd::utf8::is_scalar(c as u32));
    }
    let u = c as u32;
    if u < 0x80 {
        1
    } else if u < 0x800 {
        2
    } else if u < 0x10000 {
        3
    } else {
        4
    }
}

/// Advances the incremental byte-to-character cursor forward to a byte
/// offset that is known to be a character boundary (`cw` characters in) at
/// or after the current position. This is the single linear pass that makes
/// offset translation amortized linear instead of quadratic.
pub(crate) fn advance_to_byte(
    cs: &Vec<char>,
    target: usize,
    byte_pos: &mut usize,
    char_pos: &mut usize,
    Ghost(cw): Ghost<int>,
)
    requires
        0 <= cw <= cs@.len(),
        *old(byte_pos) == utf8_len(cs@.take(*old(char_pos) as int)),
        *old(char_pos) <= cw,
        target == utf8_len(cs@.take(cw)),
        *old(byte_pos) <= target,
    ensures
        *final(char_pos) == cw,
        *final(byte_pos) == target,
{
    let n = cs.len();
    while *byte_pos < target
        invariant
            n == cs.len(),
            0 <= cw <= cs@.len(),
            *char_pos <= cw,
            *byte_pos == utf8_len(cs@.take(*char_pos as int)),
            target == utf8_len(cs@.take(cw)),
            *byte_pos <= target,
        decreases cw - *char_pos,
    {
        proof {
            assert(*char_pos < cw);
            lemma_utf8_len_take_succ(cs@, *char_pos as int);
            lemma_utf8_len_take_mono(cs@, *char_pos as int + 1, cw);
            lemma_char_len_bounds(cs@[*char_pos as int]);
        }
        let c = cs[*char_pos];
        let step = char_byte_len(c);
        *byte_pos = *byte_pos + step;
        *char_pos = *char_pos + 1;
    }
    proof {
        if *char_pos < cw {
            lemma_utf8_len_take_mono(cs@, *char_pos as int, cw);
            assert(false);
        }
    }
}

pub(crate) fn append_chars(out: &mut Vec<char>, src: &Vec<char>)
    ensures
        final(out)@ == old(out)@ + src@,
{
    let n = src.len();
    for i in 0..n
        invariant
            n == src.len(),
            out@ == old(out)@ + src@.take(i as int),
    {
        out.push(src[i]);
        proof {
            assert(old(out)@ + src@.take(i as int + 1) =~= (old(out)@ + src@.take(i as int)).push(
                src@[i as int],
            ));
        }
    }
    proof {
        assert(old(out)@ + src@.take(n as int) =~= old(out)@ + src@);
    }
}

/// Advances the cursor forward to a target character index, keeping the
/// byte position consistent.
pub(crate) fn advance_chars(cs: &Vec<char>, target: usize, byte_pos: &mut usize, char_pos: &mut usize)
    requires
        target <= cs@.len(),
        *old(char_pos) <= target,
        *old(byte_pos) == utf8_len(cs@.take(*old(char_pos) as int)),
        utf8_len(cs@.take(target as int)) <= usize::MAX,
    ensures
        *final(char_pos) == target,
        *final(byte_pos) == utf8_len(cs@.take(target as int)),
{
    let n = cs.len();
    while *char_pos < target
        invariant
            n == cs.len(),
            target <= cs@.len(),
            *char_pos <= target,
            *byte_pos == utf8_len(cs@.take(*char_pos as int)),
            utf8_len(cs@.take(target as int)) <= usize::MAX,
        decreases target - *char_pos,
    {
        proof {
            lemma_utf8_len_take_succ(cs@, *char_pos as int);
            lemma_utf8_len_take_mono(cs@, *char_pos as int + 1, target as int);
            lemma_char_len_bounds(cs@[*char_pos as int]);
        }
        let c = cs[*char_pos];
        let step = char_byte_len(c);
        *byte_pos = *byte_pos + step;
        *char_pos = *char_pos + 1;
    }
}

} // verus!
