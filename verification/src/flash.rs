//! Fast keyword matching using Aho-Corasick, reported in character offsets.

use aho_corasick::{AhoCorasick, MatchKind};
use vstd::prelude::*;

use crate::chars::{advance_to_byte, chars_of, lemma_utf8_len_take_mono, utf8_len};
use crate::strings_view;

verus! {

/// One located keyword occurrence: the registered pattern, its payload
/// value, and the half-open **character-offset** range `[start, end)` into
/// the original input string.
#[derive(Debug, Clone, PartialEq, Eq)]
pub struct KeywordMatch {
    pub keyword: String,
    pub value: String,
    pub start: usize,
    pub end: usize,
}

#[verifier::external_type_specification]
#[verifier::external_body]
pub struct ExAhoCorasick(AhoCorasick);

/// The patterns a search automaton was built from, in order.
pub uninterp spec fn ac_patterns(ac: AhoCorasick) -> Seq<Seq<char>>;

/// What the automaton's non-overlapping leftmost-longest search returns
/// for a haystack: `(pattern index, byte start, byte end)` triples, in
/// increasing byte order.
pub uninterp spec fn ac_matches(patterns: Seq<Seq<char>>, text: Seq<char>) -> Seq<
    (usize, usize, usize),
>;

/// Two characters that are equal up to ASCII case.
pub open spec fn ascii_eq_char(a: char, b: char) -> bool {
    let x = a as u32;
    let y = b as u32;
    x == y || (0x41 <= x && x <= 0x5A && y == x + 0x20) || (0x61 <= x && x <= 0x7A && y == x
        - 0x20)
}

/// Two character sequences that are equal up to ASCII case (non-ASCII
/// characters must match exactly).
pub open spec fn ascii_eq(a: Seq<char>, b: Seq<char>) -> bool {
    a.len() == b.len() && forall|i: int| 0 <= i < a.len() ==> ascii_eq_char(a[i], b[i])
}

/// Whether building an automaton from these patterns succeeds. With the
/// options fixed by this module, success is a deterministic function of the
/// patterns alone (building fails only on size limits computed from them).
pub uninterp spec fn ac_build_ok(patterns: Seq<Seq<char>>) -> bool;

/// Relies on aho-corasick's builder: `build` compiles the given patterns
/// into an automaton with leftmost-longest match semantics and ASCII
/// case-insensitive matching, and errors only when the automaton would
/// exceed internal size limits computed from the patterns — deterministically
/// so, and never for an empty pattern set.
#[verifier::external_body]
fn build_matcher(patterns: &Vec<String>) -> (r: Option<AhoCorasick>)
    ensures
        r is Some <==> ac_build_ok(strings_view(patterns@)),
        patterns@.len() == 0 ==> r is Some,
        r matches Some(ac) ==> ac_patterns(ac) == strings_view(patterns@),
{
    AhoCorasick::builder().match_kind(MatchKind::LeftmostLongest).ascii_case_insensitive(
        true,
    ).build(patterns).ok()
}

/// Relies on aho-corasick's `find_iter`: an iterator of non-overlapping
/// leftmost-longest matches, yielded in increasing byte order (none at all
/// when no pattern is registered); each match
/// identifies a registered pattern and the byte span of an occurrence of it
/// in the haystack, equal to the pattern up to ASCII case. Patterns and
/// haystack are valid UTF-8 and the patterns are non-empty, so a match's
/// byte span is the encoding of a character span of the haystack (UTF-8 is
/// self-synchronizing: a valid encoding cannot begin inside a character).
#[verifier::external_body]
fn run_matcher(ac: &AhoCorasick, text: &str) -> (r: Vec<(usize, usize, usize)>)
    requires
        forall|k: int| 0 <= k < ac_patterns(*ac).len() ==> ac_patterns(*ac)[k].len() > 0,
    ensures
        r@ == ac_matches(ac_patterns(*ac), text@),
        ac_patterns(*ac).len() == 0 ==> r@.len() == 0,
        forall|m: int|
            0 <= m < r@.len() ==> {
                let t = #[trigger] r@[m];
                &&& (t.0 as int) < ac_patterns(*ac).len()
                &&& exists|cs: int, ce: int|
                    #![trigger utf8_len(text@.take(cs)), utf8_len(text@.take(ce))]
                    {
                        &&& 0 <= cs < ce <= text@.len()
                        &&& t.1 == utf8_len(text@.take(cs))
                        &&& t.2 == utf8_len(text@.take(ce))
                        &&& ascii_eq(text@.subrange(cs, ce), ac_patterns(*ac)[t.0 as int])
                    }
            },
        forall|m: int| 0 < m < r@.len() ==> (#[trigger] r@[m]).1 >= r@[m - 1].2,
{
    ac.find_iter(text).map(|m| (m.pattern().as_usize(), m.start(), m.end())).collect()
}

/// One translated entry is correct: it carries the pattern the automaton
/// identified and that pattern's payload, its character span encodes to
/// exactly the raw byte span, and the spanned text equals the pattern up to
/// ASCII case.
pub open spec fn match_entry_ok(
    pats: Seq<Seq<char>>,
    vals: Seq<Seq<char>>,
    text: Seq<char>,
    t: (usize, usize, usize),
    km: KeywordMatch,
) -> bool {
    &&& (t.0 as int) < pats.len()
    &&& km.keyword@ == pats[t.0 as int]
    &&& km.value@ == vals[t.0 as int]
    &&& km.start <= km.end <= text.len()
    &&& t.1 == utf8_len(text.take(km.start as int))
    &&& t.2 == utf8_len(text.take(km.end as int))
    &&& ascii_eq(text.subrange(km.start as int, km.end as int), km.keyword@)
}

/// The contract of a search: `out` lists, in order, the automaton's raw
/// matches translated into character coordinates — each entry carries the
/// identified pattern and its payload, spans a character range of `text`
/// whose UTF-8 encoding is exactly the raw byte span, matches that range up
/// to ASCII case, and entries never overlap.
pub open spec fn find_results_ok(
    pats: Seq<Seq<char>>,
    vals: Seq<Seq<char>>,
    text: Seq<char>,
    out: Seq<KeywordMatch>,
) -> bool {
    let raw = ac_matches(pats, text);
    &&& out.len() == raw.len()
    &&& forall|m: int|
        0 <= m < raw.len() ==> match_entry_ok(pats, vals, text, raw[m], #[trigger] out[m])
    &&& forall|m: int| 0 < m < raw.len() ==> (#[trigger] out[m]).start >= out[m - 1].end
}

/// Law: the search contract determines the reported matches. Any two match
/// lists that satisfy it for the same matcher state and text — such as one
/// produced by `find` and one by `find_into` — agree on the span, keyword
/// and value of every match.
pub proof fn lemma_find_results_unique(
    pats: Seq<Seq<char>>,
    vals: Seq<Seq<char>>,
    text: Seq<char>,
    a: Seq<KeywordMatch>,
    b: Seq<KeywordMatch>,
)
    requires
        find_results_ok(pats, vals, text, a),
        find_results_ok(pats, vals, text, b),
    ensures
        a.len() == b.len(),
        forall|m: int|
            0 <= m < a.len() ==> {
                &&& (#[trigger] a[m]).start == b[m].start
                &&& a[m].end == b[m].end
                &&& a[m].keyword@ == b[m].keyword@
                &&& a[m].value@ == b[m].value@
            },
{
    let raw = ac_matches(pats, text);
    assert forall|m: int| 0 <= m < a.len() implies {
        &&& (#[trigger] a[m]).start == b[m].start
        &&& a[m].end == b[m].end
        &&& a[m].keyword@ == b[m].keyword@
        &&& a[m].value@ == b[m].value@
    } by {
        assert(match_entry_ok(pats, vals, text, raw[m], a[m]));
        assert(match_entry_ok(pats, vals, text, raw[m], b[m]));
        lemma_take_len_unique(text, a[m].start as int, b[m].start as int);
        lemma_take_len_unique(text, a[m].end as int, b[m].end as int);
    }
}

/// Prefixes of distinct lengths have distinct byte lengths.
proof fn lemma_take_len_unique(text: Seq<char>, i: int, j: int)
    requires
        0 <= i <= text.len(),
        0 <= j <= text.len(),
        utf8_len(text.take(i)) == utf8_len(text.take(j)),
    ensures
        i == j,
{
    if i < j {
        lemma_utf8_len_take_mono(text, i, j);
    }
    if j < i {
        lemma_utf8_len_take_mono(text, j, i);
    }
}

/// Cached derived state: either no automaton is built (any mutation
/// invalidates it), or one built from exactly the registered patterns.
enum Automaton {
    Stale,
    Built(AhoCorasick),
}

/// A multi-pattern keyword matcher.
///
/// Patterns are matched ASCII-case-insensitively with leftmost-longest
/// semantics, and matches are reported in **character offsets** into the
/// input. The search automaton is built lazily on the first search after a
/// mutation.
pub struct FlashText {
    entries: Vec<(String, String)>,
    machine: Automaton,
}

impl FlashText {
    /// The registered patterns, in insertion order.
    pub closed spec fn patterns(self) -> Seq<Seq<char>> {
        Seq::new(self.entries@.len(), |i: int| self.entries@[i].0@)
    }

    /// The payload values, aligned with `patterns`.
    pub closed spec fn values(self) -> Seq<Seq<char>> {
        Seq::new(self.entries@.len(), |i: int| self.entries@[i].1@)
    }

    /// Well-formedness: registered patterns are unique and non-empty, and a
    /// built automaton corresponds to exactly the registered patterns.
    pub closed spec fn wf(self) -> bool {
        &&& forall|i: int, j: int|
            0 <= i < j < self.patterns().len() ==> self.patterns()[i] != self.patterns()[j]
        &&& forall|i: int| 0 <= i < self.patterns().len() ==> self.patterns()[i].len() > 0
        &&& (self.machine matches Automaton::Built(ac) ==> ac_patterns(ac) == self.patterns())
        &&& (self.machine is Built ==> ac_build_ok(self.patterns()))
    }

    /// Whether the cached automaton is currently built. A search builds it
    /// when needed; it is absent only before the first search or right
    /// after a mutation.
    pub closed spec fn search_ready(self) -> bool {
        self.machine is Built
    }

    /// Creates an empty matcher.
    pub fn new() -> (r: Self)
        ensures
            r.wf(),
            r.patterns().len() == 0,
            r.values().len() == 0,
            !r.search_ready(),
    {
        let r = FlashText { entries: Vec::new(), machine: Automaton::Stale };
        proof {
            assert(r.patterns() =~= Seq::<Seq<char>>::empty());
            assert(r.values() =~= Seq::<Seq<char>>::empty());
        }
        r
    }

    /// Registers `keyword` with payload `value`, overwriting the payload of
    /// an identical pattern, and invalidates the built automaton.
    ///
    /// As a rule of this library, keywords must be non-empty: this matcher
    /// reports matches as character spans of the input, and an empty pattern
    /// would match between any two bytes — including inside a multi-byte
    /// character, where no character span exists.
    pub fn add_keyword(&mut self, keyword: &str, value: &str)
        requires
            old(self).wf(),
            keyword@.len() > 0,
        ensures
            final(self).wf(),
            !final(self).search_ready(),
            old(self).patterns().contains(keyword@) ==> {
                &&& final(self).patterns() == old(self).patterns()
                &&& final(self).values() == old(self).values().update(
                    old(self).patterns().index_of(keyword@),
                    value@,
                )
            },
            !old(self).patterns().contains(keyword@) ==> {
                &&& final(self).patterns() == old(self).patterns().push(keyword@)
                &&& final(self).values() == old(self).values().push(value@)
            },
    {
        let kw: String = keyword.to_owned();
        let val: String = value.to_owned();
        let n = self.entries.len();
        let mut i: usize = 0;
        while i < n
            invariant
                old(self).wf(),
                keyword@.len() > 0,
                n == self.entries.len(),
                i <= n,
                *self == *old(self),
                kw@ == keyword@,
                val@ == value@,
                forall|j: int| 0 <= j < i ==> old(self).patterns()[j] != keyword@,
            decreases n - i,
        {
            if self.entries[i].0 == kw {
                proof {
                    assert(old(self).patterns()[i as int] == keyword@);
                    assert(old(self).patterns().contains(keyword@));
                    let k = old(self).patterns().index_of(keyword@);
                    assert(old(self).patterns()[k] == keyword@);
                    if k != i {
                        assert(false);
                    }
                }
                self.entries[i] = (kw, val);
                self.machine = Automaton::Stale;
                proof {
                    assert(final(self).patterns() =~= old(self).patterns());
                    assert(final(self).values() =~= old(self).values().update(
                        i as int,
                        value@,
                    ));
                }
                return ;
            }
            i = i + 1;
        }
        self.entries.push((kw, val));
        self.machine = Automaton::Stale;
        proof {
            assert(final(self).patterns() =~= old(self).patterns().push(keyword@));
            assert(final(self).values() =~= old(self).values().push(value@));
            if old(self).patterns().contains(keyword@) {
                let k = choose|k: int|
                    0 <= k < old(self).patterns().len() && old(self).patterns()[k] == keyword@;
                assert(false);
            }
        }
    }

    /// Builds the automaton from the registered patterns if it is stale.
    fn ensure_built(&mut self)
        requires
            old(self).wf(),
        ensures
            final(self).wf(),
            final(self).patterns() == old(self).patterns(),
            final(self).values() == old(self).values(),
            final(self).search_ready() <==> ac_build_ok(old(self).patterns()),
            old(self).patterns().len() == 0 ==> final(self).search_ready(),
    {
        let stale = match &self.machine {
            Automaton::Stale => true,
            Automaton::Built(_) => false,
        };
        if stale {
            let n = self.entries.len();
            let mut pats: Vec<String> = Vec::new();
            proof {
                assert(strings_view(pats@) =~= self.patterns().take(0));
            }
            for i in 0..n
                invariant
                    n == self.entries.len(),
                    *self == *old(self),
                    strings_view(pats@) == old(self).patterns().take(i as int),
            {
                let ghost pats0 = pats@;
                pats.push(self.entries[i].0.clone());
                proof {
                    assert(strings_view(pats0) == old(self).patterns().take(i as int));
                    assert(strings_view(pats0).len() == pats0.len());
                    assert(pats0.len() == i as int);
                    assert forall|j: int| 0 <= j < pats@.len() implies strings_view(pats@)[j]
                        == old(self).patterns().take(i as int + 1)[j] by {
                        if j < i as int {
                            assert(pats@[j] == pats0[j]);
                            assert(strings_view(pats0)[j] == pats0[j]@);
                        } else {
                            assert(pats@[j] == self.entries@[i as int].0);
                        }
                    }
                    assert(strings_view(pats@) =~= old(self).patterns().take(i as int + 1));
                }
            }
            proof {
                assert(old(self).patterns().take(n as int) =~= old(self).patterns());
            }
            match build_matcher(&pats) {
                Some(ac) => {
                    self.machine = Automaton::Built(ac);
                },
                None => {
                    self.machine = Automaton::Stale;
                },
            }
        }
    }

    /// Find all keyword matches, writing results into `out`.
    ///
    /// `out` is cleared first; this is useful to reuse allocations in hot
    /// loops. Matches are reported in left-to-right order of occurrence in
    /// **character offsets** into `text`, non-overlapping, with
    /// leftmost-longest semantics and ASCII-case-insensitive matching. The
    /// byte offsets the automaton reports are translated to character
    /// offsets in a single incremental forward pass.
    ///
    /// Building the automaton succeeds or fails deterministically in the
    /// registered patterns (and always succeeds for an empty set); the
    /// contract states exactly when a search runs against a built automaton,
    /// so two searches from the same matcher state return the same matches.
    #[verifier::loop_isolation(false)]
    #[verifier::rlimit(100)]
    #[verifier::spinoff_prover]
    pub fn find_into(&mut self, text: &str, out: &mut Vec<KeywordMatch>)
        requires
            old(self).wf(),
        ensures
            final(self).wf(),
            final(self).patterns() == old(self).patterns(),
            final(self).values() == old(self).values(),
            final(self).search_ready() <==> ac_build_ok(old(self).patterns()),
            old(self).patterns().len() == 0 ==> final(self).search_ready() && final(out)@
                == Seq::<KeywordMatch>::empty(),
            final(self).search_ready() ==> find_results_ok(
                old(self).patterns(),
                old(self).values(),
                text@,
                final(out)@,
            ),
            !final(self).search_ready() ==> final(out)@ == Seq::<KeywordMatch>::empty(),
    {
        out.clear();
        proof {
            assert(out@ =~= Seq::<KeywordMatch>::empty());
        }
        self.ensure_built();
        match &self.machine {
            Automaton::Stale => {},
            Automaton::Built(ac) => {
                let raw = run_matcher(ac, text);
                let cs = chars_of(text);
                let n = cs.len();
                let rlen = raw.len();
                let ghost pats = old(self).patterns();
                let mut last_byte: usize = 0;
                let mut last_char: usize = 0;
                proof {
                    assert(cs@.take(0) =~= Seq::<char>::empty());
                    assert(utf8_len(Seq::<char>::empty()) == 0);
                }
                for m in 0..rlen
                    invariant
                        out@.len() == m,
                        last_char <= n,
                        last_byte == utf8_len(cs@.take(last_char as int)),
                        m == 0 ==> last_byte == 0 && last_char == 0,
                        m > 0 ==> last_byte == raw@[m - 1].2 && last_char == out@[m
                            - 1].end as int,
                        forall|q: int|
                            0 <= q < m ==> match_entry_ok(
                                pats,
                                old(self).values(),
                                cs@,
                                raw@[q],
                                #[trigger] out@[q],
                            ),
                        forall|q: int|
                            0 < q < m ==> (#[trigger] out@[q]).start >= out@[q - 1].end,
                {
                    let trip = raw[m];
                    let ghost (cw, ew) = choose|cw: int, ew: int|
                        {
                            &&& 0 <= cw < ew <= text@.len()
                            &&& trip.1 == utf8_len(text@.take(cw))
                            &&& trip.2 == utf8_len(text@.take(ew))
                            &&& ascii_eq(text@.subrange(cw, ew), pats[trip.0 as int])
                        };
                    proof {
                        if last_char as int > cw {
                            lemma_utf8_len_take_mono(cs@, cw, last_char as int);
                            assert(false);
                        }
                    }
                    advance_to_byte(&cs, trip.1, &mut last_byte, &mut last_char, Ghost(cw));
                    let start = last_char;
                    proof {
                        lemma_utf8_len_take_mono(cs@, cw, ew);
                    }
                    advance_to_byte(&cs, trip.2, &mut last_byte, &mut last_char, Ghost(ew));
                    let end = last_char;
                    let pid = trip.0;
                    let kw = self.entries[pid].0.clone();
                    let val = self.entries[pid].1.clone();
                    out.push(KeywordMatch { keyword: kw, value: val, start, end });
                    proof {
                        assert(match_entry_ok(
                            pats,
                            old(self).values(),
                            cs@,
                            raw@[m as int],
                            out@[m as int],
                        ));
                    }
                }
                proof {
                    assert(find_results_ok(pats, old(self).values(), text@, out@));
                }
            },
        }
    }

    /// Find all keyword matches, as a fresh vector; returns exactly what
    /// [`FlashText::find_into`] writes into an output buffer.
    pub fn find(&mut self, text: &str) -> (r: Vec<KeywordMatch>)
        requires
            old(self).wf(),
        ensures
            final(self).wf(),
            final(self).patterns() == old(self).patterns(),
            final(self).values() == old(self).values(),
            final(self).search_ready() <==> ac_build_ok(old(self).patterns()),
            old(self).patterns().len() == 0 ==> final(self).search_ready() && r@ == Seq::<
                KeywordMatch,
            >::empty(),
            final(self).search_ready() ==> find_results_ok(
                old(self).patterns(),
                old(self).values(),
                text@,
                r@,
            ),
            !final(self).search_ready() ==> r@ == Seq::<KeywordMatch>::empty(),
    {
        let mut matches: Vec<KeywordMatch> = Vec::new();
        self.find_into(text, &mut matches);
        matches
    }
}

impl Default for FlashText {
    /// Equivalent to [`FlashText::new`].
    fn default() -> (r: Self)
        ensures
            r.wf(),
            r.patterns().len() == 0,
            r.values().len() == 0,
            !r.search_ready(),
    {
        FlashText::new()
    }
}

} // verus!
