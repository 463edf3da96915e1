//! Text preparation primitives: invisible-character classification and
//! removal, whitespace and newline normalization, a configurable scrub
//! pipeline for building normalized comparison keys, and offset-correct
//! multi-pattern keyword matching.

use vstd::prelude::*;

mod chars;
pub mod flash;
pub mod fold;
pub mod ngram;
pub mod subword;
pub mod tokenize;
pub mod unicode;

pub use flash::{FlashText, KeywordMatch};
pub use fold::{fold, strip_diacritics};
pub use subword::{BpeTokenizer, SubwordTokenizer};
pub use tokenize::Token;
pub use unicode::{nfc, nfkc};

use crate::fold::{lower_of, spec_fold_nfkc_casefold, spec_strip_diacritics};
use crate::unicode::{
    bidi_keep, collapse_whitespace, is_bidi_control, is_ws_char, is_zero_width,
    lemma_collapse_scan_element_of, lemma_collapse_whitespace_idempotent, lemma_filter_element_of,
    lemma_filter_noop, lemma_normalize_newlines_id, lemma_normalize_newlines_no_cr,
    lemma_remove_bidi_controls_clean, lemma_remove_zero_width_clean, nfc_of, nfkc_of,
    normalize_newlines, remove_bidi_controls, remove_zero_width, spec_collapse_whitespace,
    spec_normalize_newlines, spec_remove_bidi_controls, spec_remove_zero_width, zw_keep,
};

verus! {

/// The character-sequence views of a sequence of owned strings.
pub open spec fn strings_view(v: Seq<String>) -> Seq<Seq<char>> {
    Seq::new(v.len(), |i: int| v[i]@)
}

/// The character-sequence views of a sequence of string slices.
pub open spec fn strs_view(v: Seq<&str>) -> Seq<Seq<char>> {
    Seq::new(v.len(), |i: int| v[i]@)
}

/// Policy/config for constructing normalized keys / comparison forms.
///
/// The intent is to make the pipeline explicit: most real bugs here come
/// from *implicitly* normalizing and accidentally destroying semantics
/// (ZWJ/ZWNJ, bidi marks, punctuation, newlines).
#[derive(Debug, Clone)]
pub struct ScrubConfig {
    /// Normalize newlines (`\r\n`/`\r` to `\n`) before any other whitespace
    /// policy.
    pub normalize_newlines: bool,
    /// Remove common zero-width characters (ZWSP/ZWNJ/ZWJ/WORD JOINER/BOM).
    pub remove_zero_width: bool,
    /// Remove Unicode bidirectional control characters.
    pub remove_bidi_controls: bool,
    /// Collapse all Unicode whitespace to single ASCII spaces (and trim).
    pub collapse_whitespace: bool,
    /// Which normalization form to apply before case/diacritics.
    pub normalization: ScrubNormalization,
    /// Case handling strategy.
    pub case: ScrubCase,
    /// Strip combining marks (diacritics) after normalization and case
    /// mapping.
    pub strip_diacritics: bool,
}

/// The normalization form applied by the scrub pipeline.
#[derive(Debug, Clone, Copy, PartialEq, Eq, Structural)]
pub enum ScrubNormalization {
    /// Leave the text in whatever normalization form it arrived in.
    Off,
    Nfc,
    Nfkc,
}

/// The case policy applied by the scrub pipeline.
#[derive(Debug, Clone, Copy, PartialEq, Eq, Structural)]
pub enum ScrubCase {
    /// Leave case untouched.
    Off,
    Lower,
    /// Full Unicode case folding (NFKC then full case fold).
    NfkcCasefold,
}

/// The scrub pipeline over a character sequence: exactly the steps the
/// configuration enables, applied in this fixed order — newline
/// normalization, zero-width removal, bidi-control removal, normalization
/// form, case policy, diacritic stripping, and whitespace collapsing
/// **always last** (normalization and diacritic stripping can themselves
/// introduce new whitespace byproducts).
pub open spec fn spec_scrub(s: Seq<char>, cfg: ScrubConfig) -> Seq<char> {
    let s1 = if cfg.normalize_newlines {
        spec_normalize_newlines(s)
    } else {
        s
    };
    let s2 = if cfg.remove_zero_width {
        spec_remove_zero_width(s1)
    } else {
        s1
    };
    let s3 = if cfg.remove_bidi_controls {
        spec_remove_bidi_controls(s2)
    } else {
        s2
    };
    let s4 = match cfg.normalization {
        ScrubNormalization::Off => s3,
        ScrubNormalization::Nfc => nfc_of(s3),
        ScrubNormalization::Nfkc => nfkc_of(s3),
    };
    let s5 = match cfg.case {
        ScrubCase::Off => s4,
        ScrubCase::Lower => lower_of(s4),
        ScrubCase::NfkcCasefold => spec_fold_nfkc_casefold(s4),
    };
    let s6 = if cfg.strip_diacritics {
        spec_strip_diacritics(s5)
    } else {
        s5
    };
    if cfg.collapse_whitespace {
        spec_collapse_whitespace(s6)
    } else {
        s6
    }
}

impl ScrubConfig {
    /// The `search_key` preset as a value.
    pub open spec fn spec_search_key() -> ScrubConfig {
        ScrubConfig {
            normalize_newlines: true,
            remove_zero_width: false,
            remove_bidi_controls: true,
            collapse_whitespace: true,
            normalization: ScrubNormalization::Nfkc,
            case: ScrubCase::NfkcCasefold,
            strip_diacritics: true,
        }
    }

    /// The `search_key_strict_invisibles` preset as a value.
    pub open spec fn spec_search_key_strict_invisibles() -> ScrubConfig {
        ScrubConfig { remove_zero_width: true, ..Self::spec_search_key() }
    }

    /// The default configuration as a value.
    pub open spec fn spec_default() -> ScrubConfig {
        ScrubConfig {
            normalize_newlines: false,
            remove_zero_width: false,
            remove_bidi_controls: false,
            collapse_whitespace: false,
            normalization: ScrubNormalization::Nfc,
            case: ScrubCase::Lower,
            strip_diacritics: true,
        }
    }

    /// Policy for building a *search key* from user text.
    ///
    /// This is intentionally lossy and should generally be used for
    /// *matching/indexing*, not for permanent storage.
    ///
    /// Defaults:
    /// - normalize newlines
    /// - collapse whitespace
    /// - remove bidi controls
    /// - NFKC normalization (compatibility folding)
    /// - full case folding
    /// - strip diacritics
    ///
    /// Zero-width characters are *not* removed by default because they can
    /// be semantically load-bearing (e.g. joiner sequences in some scripts
    /// or emoji).
    pub fn search_key() -> (r: Self)
        ensures
            r == Self::spec_search_key(),
    {
        ScrubConfig {
            normalize_newlines: true,
            remove_zero_width: false,
            remove_bidi_controls: true,
            collapse_whitespace: true,
            normalization: ScrubNormalization::Nfkc,
            case: ScrubCase::NfkcCasefold,
            strip_diacritics: true,
        }
    }

    /// Like `search_key()`, but also removes common zero-width characters.
    ///
    /// This is a deliberate trade-off:
    /// - **Pro**: avoids "ghost mismatches" in mostly-Latin corpora where
    ///   ZWJ/ZWNJ are usually artifacts (copy/paste, rich text) rather than
    ///   orthographic intent.
    /// - **Con**: ZWJ/ZWNJ are semantically meaningful in multiple scripts
    ///   (and for emoji ZWJ sequences). Stripping can create false
    ///   positives/negatives depending on the task.
    pub fn search_key_strict_invisibles() -> (r: Self)
        ensures
            r == Self::spec_search_key_strict_invisibles(),
    {
        let mut cfg = Self::search_key();
        cfg.remove_zero_width = true;
        cfg
    }
}

impl Default for ScrubConfig {
    /// The default scrub policy: NFC normalization, lowercasing, and
    /// diacritic stripping, with no whitespace treatment.
    fn default() -> (r: Self)
        ensures
            r == Self::spec_default(),
    {
        ScrubConfig {
            normalize_newlines: false,
            remove_zero_width: false,
            remove_bidi_controls: false,
            collapse_whitespace: false,
            normalization: ScrubNormalization::Nfc,
            case: ScrubCase::Lower,
            strip_diacritics: true,
        }
    }
}

/// A convenience function to perform a default "scrub" of text.
///
/// Normalizes to NFC, folds case, and strips diacritics.
pub fn scrub(text: &str) -> (r: String)
    ensures
        r@ == spec_scrub(text@, ScrubConfig::spec_default()),
{
    let cfg = ScrubConfig::default();
    scrub_with(text, &cfg)
}

/// Scrub text using an explicit policy: applies, in the fixed documented
/// order, exactly the steps enabled by `cfg`.
pub fn scrub_with(text: &str, cfg: &ScrubConfig) -> (r: String)
    ensures
        r@ == spec_scrub(text@, *cfg),
{
    let mut s: String = text.to_owned();
    if cfg.normalize_newlines {
        s = normalize_newlines(s.as_str());
    }
    if cfg.remove_zero_width {
        s = remove_zero_width(s.as_str());
    }
    if cfg.remove_bidi_controls {
        s = remove_bidi_controls(s.as_str());
    }
    match cfg.normalization {
        ScrubNormalization::Off => {},
        ScrubNormalization::Nfc => {
            s = nfc(s.as_str());
        },
        ScrubNormalization::Nfkc => {
            s = nfkc(s.as_str());
        },
    }
    match cfg.case {
        ScrubCase::Off => {},
        ScrubCase::Lower => {
            s = fold(s.as_str());
        },
        ScrubCase::NfkcCasefold => {
            s = fold::fold_nfkc_casefold(s.as_str());
        },
    }
    if cfg.strip_diacritics {
        s = strip_diacritics(s.as_str());
    }
    if cfg.collapse_whitespace {
        s = collapse_whitespace(s.as_str());
    }
    s
}

/// Law: whenever a configuration enables whitespace collapsing — as both
/// named presets do — the scrub output is fully collapsed: no whitespace
/// other than single ASCII spaces, never doubled, and none at either end.
pub proof fn lemma_scrub_collapsed(s: Seq<char>, cfg: ScrubConfig)
    requires
        cfg.collapse_whitespace,
    ensures
        forall|i: int|
            0 <= i < spec_scrub(s, cfg).len() ==> (is_ws_char(#[trigger] spec_scrub(s, cfg)[i])
                ==> spec_scrub(s, cfg)[i] == ' '),
        forall|i: int|
            0 < i < spec_scrub(s, cfg).len() ==> !(spec_scrub(s, cfg)[i - 1] == ' '
                && #[trigger] spec_scrub(s, cfg)[i] == ' '),
        spec_scrub(s, cfg).len() > 0 ==> !is_ws_char(spec_scrub(s, cfg)[0]) && !is_ws_char(
            spec_scrub(s, cfg).last(),
        ),
{
    let s1 = if cfg.normalize_newlines {
        spec_normalize_newlines(s)
    } else {
        s
    };
    let s2 = if cfg.remove_zero_width {
        spec_remove_zero_width(s1)
    } else {
        s1
    };
    let s3 = if cfg.remove_bidi_controls {
        spec_remove_bidi_controls(s2)
    } else {
        s2
    };
    let s4 = match cfg.normalization {
        ScrubNormalization::Off => s3,
        ScrubNormalization::Nfc => nfc_of(s3),
        ScrubNormalization::Nfkc => nfkc_of(s3),
    };
    let s5 = match cfg.case {
        ScrubCase::Off => s4,
        ScrubCase::Lower => lower_of(s4),
        ScrubCase::NfkcCasefold => spec_fold_nfkc_casefold(s4),
    };
    let s6 = if cfg.strip_diacritics {
        spec_strip_diacritics(s5)
    } else {
        s5
    };
    unicode::lemma_collapse_whitespace_shape(s6);
}

/// Law: for every configuration that enables only the character-level steps,
/// the scrub output is free of the classes it removes — no zero-width
/// character survives when zero-width removal is on, and no bidi control
/// survives when bidi-control removal is on.
pub proof fn lemma_scrub_internal_removals_clean(s: Seq<char>, cfg: ScrubConfig)
    requires
        cfg.normalization == ScrubNormalization::Off,
        cfg.case == ScrubCase::Off,
        !cfg.strip_diacritics,
    ensures
        cfg.remove_zero_width ==> forall|i: int|
            0 <= i < spec_scrub(s, cfg).len() ==> !is_zero_width(#[trigger] spec_scrub(s, cfg)[i]),
        cfg.remove_bidi_controls ==> forall|i: int|
            0 <= i < spec_scrub(s, cfg).len() ==> !is_bidi_control(
                #[trigger] spec_scrub(s, cfg)[i],
            ),
{
    let s1 = if cfg.normalize_newlines {
        spec_normalize_newlines(s)
    } else {
        s
    };
    let s2 = if cfg.remove_zero_width {
        spec_remove_zero_width(s1)
    } else {
        s1
    };
    let s3 = if cfg.remove_bidi_controls {
        spec_remove_bidi_controls(s2)
    } else {
        s2
    };
    let r = spec_scrub(s, cfg);
    assert forall|i: int| 0 <= i < r.len() implies (r[i] == ' ' || exists|j: int|
        0 <= j < s3.len() && s3[j] == r[i]) by {
        if cfg.collapse_whitespace {
            lemma_collapse_scan_element_of(s3, true, true, i);
        } else {
            assert(0 <= i < s3.len() && s3[i] == r[i]);
        }
    }
    if cfg.remove_zero_width {
        lemma_remove_zero_width_clean(s1);
        assert forall|i: int| 0 <= i < s3.len() implies !is_zero_width(#[trigger] s3[i]) by {
            if cfg.remove_bidi_controls {
                lemma_filter_element_of(s2, bidi_keep(), i);
                let j = choose|j: int| 0 <= j < s2.len() && s2[j] == s3[i];
                assert(!is_zero_width(s2[j]));
            }
        }
        assert forall|i: int| 0 <= i < r.len() implies !is_zero_width(#[trigger] r[i]) by {
            if r[i] != ' ' {
                let j = choose|j: int| 0 <= j < s3.len() && s3[j] == r[i];
                assert(!is_zero_width(s3[j]));
            }
        }
    }
    if cfg.remove_bidi_controls {
        lemma_remove_bidi_controls_clean(s2);
        assert forall|i: int| 0 <= i < r.len() implies !is_bidi_control(#[trigger] r[i]) by {
            if r[i] != ' ' {
                let j = choose|j: int| 0 <= j < s3.len() && s3[j] == r[i];
                assert(!is_bidi_control(s3[j]));
            }
        }
    }
}

/// Law: for every configuration that enables only the character-level steps
/// — any combination of newline normalization, zero-width removal,
/// bidi-control removal and whitespace collapsing, with no normalization
/// form, no case mapping and no diacritic stripping — the scrub pipeline is
/// idempotent: scrubbing a second time with the same configuration changes
/// nothing.
pub proof fn lemma_scrub_internal_idempotent(s: Seq<char>, cfg: ScrubConfig)
    requires
        cfg.normalization == ScrubNormalization::Off,
        cfg.case == ScrubCase::Off,
        !cfg.strip_diacritics,
    ensures
        spec_scrub(spec_scrub(s, cfg), cfg) == spec_scrub(s, cfg),
{
    let s1 = if cfg.normalize_newlines {
        spec_normalize_newlines(s)
    } else {
        s
    };
    let s2 = if cfg.remove_zero_width {
        spec_remove_zero_width(s1)
    } else {
        s1
    };
    let s3 = if cfg.remove_bidi_controls {
        spec_remove_bidi_controls(s2)
    } else {
        s2
    };
    let r = spec_scrub(s, cfg);
    assert(r == if cfg.collapse_whitespace {
        spec_collapse_whitespace(s3)
    } else {
        s3
    });
    // Every character of the output is a separator space or comes from `s3`.
    assert forall|i: int| 0 <= i < r.len() implies (r[i] == ' ' || exists|j: int|
        0 <= j < s3.len() && s3[j] == r[i]) by {
        if cfg.collapse_whitespace {
            lemma_collapse_scan_element_of(s3, true, true, i);
        } else {
            assert(0 <= i < s3.len() && s3[i] == r[i]);
        }
    }
    // With newline normalization enabled, no CR survives the pipeline.
    if cfg.normalize_newlines {
        lemma_normalize_newlines_no_cr(s);
        assert forall|i: int| 0 <= i < s2.len() implies #[trigger] s2[i] != '\r' by {
            if cfg.remove_zero_width {
                lemma_filter_element_of(s1, zw_keep(), i);
                let j = choose|j: int| 0 <= j < s1.len() && s1[j] == s2[i];
                assert(s1[j] != '\r');
            }
        }
        assert forall|i: int| 0 <= i < s3.len() implies #[trigger] s3[i] != '\r' by {
            if cfg.remove_bidi_controls {
                lemma_filter_element_of(s2, bidi_keep(), i);
                let j = choose|j: int| 0 <= j < s2.len() && s2[j] == s3[i];
                assert(s2[j] != '\r');
            }
        }
        assert forall|i: int| 0 <= i < r.len() implies #[trigger] r[i] != '\r' by {
            if r[i] != ' ' {
                let j = choose|j: int| 0 <= j < s3.len() && s3[j] == r[i];
                assert(s3[j] != '\r');
            }
        }
        lemma_normalize_newlines_id(r);
    }
    // With zero-width removal enabled, no zero-width character survives.
    if cfg.remove_zero_width {
        lemma_remove_zero_width_clean(s1);
        assert forall|i: int| 0 <= i < s3.len() implies !is_zero_width(#[trigger] s3[i]) by {
            if cfg.remove_bidi_controls {
                lemma_filter_element_of(s2, bidi_keep(), i);
                let j = choose|j: int| 0 <= j < s2.len() && s2[j] == s3[i];
                assert(!is_zero_width(s2[j]));
            }
        }
        assert forall|i: int| 0 <= i < r.len() implies !is_zero_width(#[trigger] r[i]) by {
            if r[i] != ' ' {
                let j = choose|j: int| 0 <= j < s3.len() && s3[j] == r[i];
                assert(!is_zero_width(s3[j]));
            }
        }
        assert forall|i: int| 0 <= i < r.len() implies zw_keep()(#[trigger] r[i]) by {
            assert(!is_zero_width(r[i]));
        }
        lemma_filter_noop(r, zw_keep());
    }
    // With bidi-control removal enabled, no bidi control survives.
    if cfg.remove_bidi_controls {
        lemma_remove_bidi_controls_clean(s2);
        assert forall|i: int| 0 <= i < r.len() implies !is_bidi_control(#[trigger] r[i]) by {
            if r[i] != ' ' {
                let j = choose|j: int| 0 <= j < s3.len() && s3[j] == r[i];
                assert(!is_bidi_control(s3[j]));
            }
        }
        assert forall|i: int| 0 <= i < r.len() implies bidi_keep()(#[trigger] r[i]) by {
            assert(!is_bidi_control(r[i]));
        }
        lemma_filter_noop(r, bidi_keep());
    }
    // A second collapse is a no-op because the first one already ran last.
    if cfg.collapse_whitespace {
        lemma_collapse_whitespace_idempotent(s3);
    }
}

} // verus!
