use textprep::fold::{fold, fold_nfkc_casefold, fold_nfkc_casefold_into, strip_diacritics};

#[test]
fn test_strip_diacritics() {
    assert_eq!(strip_diacritics("Müller"), "Muller");
}

#[test]
fn strip_diacritics_handles_mixed_input() {
    assert_eq!(strip_diacritics("Français élan"), "Francais elan");
    assert_eq!(strip_diacritics("no marks"), "no marks");
    assert_eq!(strip_diacritics(""), "");
}

#[test]
fn fold_lowercases_unicode() {
    assert_eq!(fold("ÄBC Straße"), "äbc straße");
}

#[test]
fn fold_nfkc_casefold_expands_sharp_s() {
    assert_eq!(fold_nfkc_casefold("Straße"), "strasse");
}

#[test]
fn fold_nfkc_casefold_folds_compatibility_forms() {
    assert_eq!(fold_nfkc_casefold("ＦＵＬＬﬁ"), "fullfi");
}

#[test]
fn fold_nfkc_casefold_into_matches() {
    let text = "Straße ＦＵＬＬ";
    let expected = fold_nfkc_casefold(text);
    let mut out = String::new();
    fold_nfkc_casefold_into(text, &mut out);
    assert_eq!(out, expected);
}
