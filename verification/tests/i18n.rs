use mediaexplorer_gui::i18n::{active_language, Lang};

#[test]
fn codes_and_names_are_unique_and_match_all() {
    for l in Lang::ALL {
        assert!(!l.code().is_empty());
        assert!(!l.native_name().is_empty());
        assert_eq!(Lang::from_locale_tag(l.code()), Some(l));
    }
    assert_eq!(Lang::ALL.len(), 2);
}

#[test]
fn from_locale_tag_matches_primary_subtag() {
    assert_eq!(Lang::from_locale_tag("nl-NL"), Some(Lang::Dutch));
    assert_eq!(Lang::from_locale_tag("nl_BE"), Some(Lang::Dutch));
    assert_eq!(Lang::from_locale_tag("NL"), Some(Lang::Dutch));
    assert_eq!(Lang::from_locale_tag("en-US"), Some(Lang::English));
    assert_eq!(Lang::from_locale_tag("fr-FR"), None);
    assert_eq!(Lang::from_locale_tag(""), None);
}

#[test]
fn codes_and_native_names_are_exact() {
    assert_eq!(Lang::English.code(), "en");
    assert_eq!(Lang::Dutch.code(), "nl");
    assert_eq!(Lang::English.native_name(), "English");
    assert_eq!(Lang::Dutch.native_name(), "Nederlands");
}

#[test]
fn only_the_primary_subtag_counts() {
    assert_eq!(Lang::from_locale_tag("En_gb-x"), Some(Lang::English));
    assert_eq!(Lang::from_locale_tag("eng"), None);
    assert_eq!(Lang::from_locale_tag("-nl"), None);
}

#[test]
fn active_language_prefers_the_choice_then_the_locale() {
    assert_eq!(active_language(Some(Lang::Dutch), Some("en-US")), Lang::Dutch);
    assert_eq!(active_language(None, Some("nl-BE")), Lang::Dutch);
    assert_eq!(active_language(None, Some("fr_FR")), Lang::English);
    assert_eq!(active_language(None, None), Lang::English);
}
