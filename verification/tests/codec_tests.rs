use translation_relay::codec::{convert_placeholder, dec_string, prepare_translation,
    revert_placeholder};
use translation_relay::error::RelayError;
use translation_relay::lang::is_recognized_tag;
use translation_relay::text::chars_of;

#[test]
fn protect_masks_a_url_and_restore_brings_it_back() {
    let mut text = String::from("Check https://x.test now");
    let urls = convert_placeholder(&mut text);
    assert_eq!(text, "Check <p i=\"0\"></p> now");
    assert_eq!(urls, vec![String::from("https://x.test")]);
    revert_placeholder(&mut text, urls);
    assert_eq!(text, "Check https://x.test now");
}

#[test]
fn round_trip_with_no_urls_is_identity() {
    let mut text = String::from("nothing to protect here");
    let urls = convert_placeholder(&mut text);
    assert_eq!(text, "nothing to protect here");
    assert!(urls.is_empty());
    revert_placeholder(&mut text, urls);
    assert_eq!(text, "nothing to protect here");
}

#[test]
fn round_trip_with_several_urls_keeps_order() {
    let original = "a http://one.example b https://two.example/path?q=1 c";
    let mut text = String::from(original);
    let urls = convert_placeholder(&mut text);
    assert_eq!(
        urls,
        vec![
            String::from("http://one.example"),
            String::from("https://two.example/path?q=1"),
        ]
    );
    assert_eq!(text, "a <p i=\"0\"></p> b <p i=\"1\"></p> c");
    revert_placeholder(&mut text, urls);
    assert_eq!(text, original);
}

#[test]
fn restore_survives_reordering_by_the_provider() {
    let mut text = String::from("x http://a.example y https://b.example z");
    let urls = convert_placeholder(&mut text);
    // A provider may move the markers around; restoration goes by index.
    let mut translated = String::from("Z <p i=\"1\"></p> Y <p i=\"0\"></p> X");
    revert_placeholder(&mut translated, urls);
    assert_eq!(translated, "Z https://b.example Y http://a.example X");
}

#[test]
fn url_spans_end_at_whitespace_and_scheme_must_complete() {
    let mut text = String::from("https:// is not a url, https://yes.example\tis");
    let urls = convert_placeholder(&mut text);
    assert_eq!(urls, vec![String::from("https://yes.example")]);
    assert_eq!(text, "https:// is not a url, <p i=\"0\"></p>\tis");
}

#[test]
fn a_url_directly_inside_a_word_is_still_protected() {
    let mut text = String::from("seehttp://deep.example!");
    let urls = convert_placeholder(&mut text);
    assert_eq!(urls, vec![String::from("http://deep.example!")]);
    assert_eq!(text, "see<p i=\"0\"></p>");
}

#[test]
fn many_spans_use_multi_digit_indexes() {
    let mut parts: Vec<String> = Vec::new();
    for i in 0..12 {
        parts.push(format!("http://u{}.example", i));
    }
    let original = parts.join(" ");
    let mut text = original.clone();
    let urls = convert_placeholder(&mut text);
    assert_eq!(urls.len(), 12);
    assert!(text.contains("<p i=\"11\"></p>"));
    revert_placeholder(&mut text, urls);
    assert_eq!(text, original);
}

#[test]
fn decimal_rendering_of_identifiers() {
    assert_eq!(dec_string(0), "0");
    assert_eq!(dec_string(7), "7");
    assert_eq!(dec_string(12345), "12345");
    assert_eq!(dec_string(u64::MAX), u64::MAX.to_string());
}

#[test]
fn chars_of_lists_every_character() {
    let v = chars_of("héllo");
    assert_eq!(v, vec!['h', 'é', 'l', 'l', 'o']);
}

#[test]
fn recognized_tags_are_the_two_letter_provider_codes() {
    for tag in [
        "BG", "CS", "DA", "DE", "EL", "EN", "ES", "ET", "FI", "FR", "HU", "ID", "IT", "JA", "KO",
        "LT", "LV", "NB", "NL", "PL", "PT", "RO", "RU", "SK", "SL", "SV", "TR", "UK", "ZH",
    ] {
        assert!(is_recognized_tag(tag), "{tag} should be recognized");
    }
    assert!(!is_recognized_tag("en"));
    assert!(!is_recognized_tag("XX"));
    assert!(!is_recognized_tag("EN-GB"));
    assert!(!is_recognized_tag(""));
}

#[test]
fn the_adapter_validates_both_tags_before_masking() {
    let mut text = String::from("see https://a.example");
    let urls = prepare_translation(&mut text, "EN", "FR").unwrap();
    assert_eq!(text, "see <p i=\"0\"></p>");
    assert_eq!(urls, vec![String::from("https://a.example")]);

    let mut untouched = String::from("see https://a.example");
    assert!(matches!(
        prepare_translation(&mut untouched, "EN", "XX"),
        Err(RelayError::UnsupportedLanguage)
    ));
    assert_eq!(untouched, "see https://a.example");
    assert!(matches!(
        prepare_translation(&mut untouched, "xx", "FR"),
        Err(RelayError::UnsupportedLanguage)
    ));
    assert_eq!(untouched, "see https://a.example");
}
