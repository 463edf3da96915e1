//! Subword tokenization traits (minimal).
//!
//! This is intentionally small: it exists to support simple
//! embedding/projection adapters without pulling in heavy tokenizer stacks.

use std::collections::HashMap;
use vstd::prelude::*;

use crate::chars::{chars_of, string_from_chars};
use crate::strings_view;
use crate::unicode::{is_unicode_whitespace, is_ws_char, nonempty_line};

verus! {

broadcast use vstd::std_specs::hash::group_hash_axioms;

/// The segments of a sequence split at every whitespace character; always at
/// least one segment, and the separators are not part of any segment.
pub open spec fn spec_split_ws(s: Seq<char>) -> Seq<Seq<char>>
    decreases s.len(),
{
    if s.len() == 0 {
        seq![Seq::<char>::empty()]
    } else if is_ws_char(s[0]) {
        seq![Seq::<char>::empty()] + spec_split_ws(s.skip(1))
    } else {
        let rest = spec_split_ws(s.skip(1));
        seq![seq![s[0]] + rest[0]] + rest.skip(1)
    }
}

/// The whitespace-separated words of a sequence: the non-empty segments of
/// the whitespace split, in order.
pub open spec fn spec_ws_words(s: Seq<char>) -> Seq<Seq<char>> {
    spec_split_ws(s).filter(nonempty_line())
}

proof fn lemma_split_ws_nonempty(s: Seq<char>)
    ensures
        spec_split_ws(s).len() >= 1,
    decreases s.len(),
{
    if s.len() > 0 {
        lemma_split_ws_nonempty(s.skip(1));
    }
}

/// Splits into whitespace-separated words, as owned strings.
fn split_ws_strings(cs: &Vec<char>) -> (r: Vec<String>)
    ensures
        strings_view(r@) == spec_ws_words(cs@),
{
    broadcast use Seq::lemma_filter_push;

    let n = cs.len();
    let mut segs: Vec<Vec<char>> = Vec::new();
    let mut cur: Vec<char> = Vec::new();
    proof {
        assert(cs@.skip(0) =~= cs@);
        lemma_split_ws_nonempty(cs@);
        assert(crate::unicode::lines_view(segs@) + (seq![cur@ + spec_split_ws(cs@)[0]]
            + spec_split_ws(cs@).skip(1)) =~= spec_split_ws(cs@)) by {
            assert(cur@ + spec_split_ws(cs@)[0] =~= spec_split_ws(cs@)[0]);
            assert(crate::unicode::lines_view(segs@) =~= Seq::<Seq<char>>::empty());
            assert(seq![spec_split_ws(cs@)[0]] + spec_split_ws(cs@).skip(1) =~= spec_split_ws(
                cs@,
            ));
        }
    }
    for i in 0..n
        invariant
            n == cs.len(),
            spec_split_ws(cs@) == crate::unicode::lines_view(segs@) + (seq![cur@ + spec_split_ws(
                cs@.skip(i as int),
            )[0]] + spec_split_ws(cs@.skip(i as int)).skip(1)),
    {
        let ghost t = cs@.skip(i as int);
        let ghost rest = spec_split_ws(cs@.skip(i as int + 1));
        proof {
            assert(t.skip(1) =~= cs@.skip(i as int + 1));
            lemma_split_ws_nonempty(cs@.skip(i as int + 1));
        }
        let c = cs[i];
        if is_unicode_whitespace(c) {
            let ghost segs0 = segs@;
            let ghost cur0 = cur@;
            let finished = cur;
            cur = Vec::new();
            segs.push(finished);
            proof {
                assert(spec_split_ws(t) == seq![Seq::<char>::empty()] + rest);
                assert(crate::unicode::lines_view(segs@) =~= crate::unicode::lines_view(
                    segs0,
                ).push(cur0));
                assert(cur0 + spec_split_ws(t)[0] =~= cur0);
                assert(cur@ + rest[0] =~= rest[0]);
                assert(spec_split_ws(t).skip(1) =~= rest);
                assert(crate::unicode::lines_view(segs0) + (seq![cur0 + spec_split_ws(t)[0]]
                    + spec_split_ws(t).skip(1)) =~= crate::unicode::lines_view(segs@) + (seq![cur@
                    + rest[0]] + rest.skip(1)));
            }
        } else {
            let ghost cur0 = cur@;
            cur.push(c);
            proof {
                assert(spec_split_ws(t) == seq![seq![c] + rest[0]] + rest.skip(1));
                assert(cur0 + spec_split_ws(t)[0] =~= cur@ + rest[0]);
                assert(spec_split_ws(t).skip(1) =~= rest.skip(1));
                assert(crate::unicode::lines_view(segs@) + (seq![cur0 + spec_split_ws(t)[0]]
                    + spec_split_ws(t).skip(1)) =~= crate::unicode::lines_view(segs@) + (seq![cur@
                    + rest[0]] + rest.skip(1)));
            }
        }
    }
    proof {
        assert(cs@.skip(n as int) =~= Seq::<char>::empty());
        assert(spec_split_ws(Seq::<char>::empty()) == seq![Seq::<char>::empty()]);
        assert(cur@ + Seq::<char>::empty() =~= cur@);
        assert(seq![Seq::<char>::empty()].skip(1) =~= Seq::<Seq<char>>::empty());
    }
    let last = cur;
    segs.push(last);
    let ghost all = crate::unicode::lines_view(segs@);
    proof {
        assert(all =~= spec_split_ws(cs@));
        reveal(Seq::filter);
    }
    let m = segs.len();
    let mut r: Vec<String> = Vec::new();
    proof {
        assert(all.take(0) =~= Seq::<Seq<char>>::empty());
        assert(strings_view(r@) =~= Seq::<Seq<char>>::empty().filter(nonempty_line()));
    }
    for i in 0..m
        invariant
            m == segs.len(),
            all == crate::unicode::lines_view(segs@),
            strings_view(r@) == all.take(i as int).filter(nonempty_line()),
    {
        let ghost r0 = r@;
        let keep = segs[i].len() > 0;
        if keep {
            let w = string_from_chars(&segs[i]);
            r.push(w);
        }
        proof {
            assert(all.take(i as int + 1) =~= all.take(i as int).push(segs@[i as int]@));
            Seq::lemma_filter_push(all.take(i as int), segs@[i as int]@, nonempty_line());
            if keep {
                assert(strings_view(r@) =~= strings_view(r0).push(segs@[i as int]@));
            }
        }
    }
    proof {
        assert(all.take(m as int) =~= all);
    }
    r
}

/// Whether the vocabulary associates the word content `w` with `id`.
pub open spec fn vocab_maps(m: Map<String, u32>, w: Seq<char>, id: u32) -> bool {
    exists|k: String| #[trigger] m.contains_key(k) && k@ == w && m[k] == id
}

/// `out` is an in-order selection of vocabulary ids for the words `ws`:
/// scanning the words from the left, each word either contributes the id the
/// vocabulary associates with its content or is skipped.
pub open spec fn selected_ids(m: Map<String, u32>, ws: Seq<Seq<char>>, out: Seq<u32>) -> bool
    decreases ws.len(),
{
    if ws.len() == 0 {
        out.len() == 0
    } else {
        ||| (out.len() > 0 && vocab_maps(m, ws.last(), out.last()) && selected_ids(
            m,
            ws.drop_last(),
            out.drop_last(),
        ))
        ||| selected_ids(m, ws.drop_last(), out)
    }
}

/// Trait for subword tokenizers: a sequence of token IDs for input text.
pub trait SubwordTokenizer: Send + Sync {
    fn tokenize(&self, text: &str) -> Vec<u32>;
}

/// A simple vocabulary lookup tokenizer.
///
/// Note: this is not true byte-pair encoding. It is a thin adapter for toy
/// projections and tests.
pub struct BpeTokenizer {
    vocab: HashMap<String, u32>,
}

impl BpeTokenizer {
    /// The vocabulary map.
    pub closed spec fn spec_vocab(self) -> Map<String, u32> {
        self.vocab@
    }

    /// Create a tokenizer from a token-to-id vocabulary map.
    pub fn from_vocab(vocab: HashMap<String, u32>) -> (r: Self)
        ensures
            r.spec_vocab() == vocab@,
    {
        BpeTokenizer { vocab }
    }

    /// Looks up each whitespace-separated word of `text` in the vocabulary
    /// and collects the ids of the words that are found, in word order; at
    /// most one id per word, and under vstd's hashing model every collected
    /// id is the id the vocabulary associates with that word's content.
    /// Which words are found is decided by the hash lookup: the map model
    /// offers no way to conclude, from a miss on one `String`, that no key
    /// with the same content exists, so the contract does not force a hit.
    pub fn lookup_ids(&self, text: &str) -> (r: Vec<u32>)
        ensures
            r@.len() <= spec_ws_words(text@).len(),
            vstd::std_specs::hash::obeys_key_model::<String>()
                && vstd::std_specs::hash::builds_valid_hashers::<
                std::collections::hash_map::RandomState,
            >() ==> selected_ids(self.spec_vocab(), spec_ws_words(text@), r@),
    {
        let cs = chars_of(text);
        let words = split_ws_strings(&cs);
        let n = words.len();
        let ghost wsv = strings_view(words@);
        proof {
            assert(wsv.len() == spec_ws_words(text@).len());
            assert(wsv.take(0) =~= Seq::<Seq<char>>::empty());
        }
        let mut r: Vec<u32> = Vec::new();
        for i in 0..n
            invariant
                n == words.len(),
                wsv == strings_view(words@),
                wsv == spec_ws_words(text@),
                r@.len() <= i,
                vstd::std_specs::hash::obeys_key_model::<String>()
                    && vstd::std_specs::hash::builds_valid_hashers::<
                    std::collections::hash_map::RandomState,
                >() ==> selected_ids(self.spec_vocab(), wsv.take(i as int), r@),
        {
            let ghost r0 = r@;
            proof {
                assert(wsv.take(i as int + 1).drop_last() =~= wsv.take(i as int));
                assert(wsv.take(i as int + 1).last() == words@[i as int]@);
            }
            match self.vocab.get(&words[i]) {
                Some(v) => {
                    let id = *v;
                    r.push(id);
                    proof {
                        if vstd::std_specs::hash::obeys_key_model::<String>()
                            && vstd::std_specs::hash::builds_valid_hashers::<
                            std::collections::hash_map::RandomState,
                        >() {
                            let k = words@[i as int];
                            assert(self.spec_vocab().contains_key(k) && self.spec_vocab()[k]
                                == id);
                            assert(vocab_maps(self.spec_vocab(), k@, id));
                            assert(r@.drop_last() =~= r0);
                        }
                    }
                },
                None => {},
            }
        }
        proof {
            assert(wsv.take(n as int) =~= wsv);
        }
        r
    }
}

impl SubwordTokenizer for BpeTokenizer {
    /// Tokenize by whitespace-splitting and vocabulary lookup; see
    /// [`BpeTokenizer::lookup_ids`].
    fn tokenize(&self, text: &str) -> Vec<u32> {
        self.lookup_ids(text)
    }
}

} // verus!
