use ocr_tts::voices::{
    get_supported_tts_languages, get_voices_for_language, matches_language, normalize_code,
    parse_voice_line,
};

const LISTING: &str = "Alex                en_US    # Most people recognize me by my voice.\n\
Daniel              en_GB    # Hello, my name is Daniel.\n\
Kyoko               ja_JP    # こんにちは、私の名前はKyokoです。\n\
Ting-Ting           zh_CN    # 您好，我叫Ting-Ting。\n\
Thomas              fr_FR    # Bonjour, je m'appelle Thomas.";

#[test]
fn parse_line_extracts_name_and_normalized_code() {
    let (name, code) = parse_voice_line("Alex                en_US    # hi there").unwrap();
    assert_eq!(name, "Alex");
    assert_eq!(code, "en-US");
}

#[test]
fn parse_line_without_hash_yields_nothing() {
    assert!(parse_voice_line("no hash on this line").is_none());
    assert!(parse_voice_line("").is_none());
}

#[test]
fn parse_line_without_field_separator_yields_nothing() {
    assert!(parse_voice_line("single # sample").is_none());
    assert!(parse_voice_line("# sample only").is_none());
}

#[test]
fn underscores_become_hyphens() {
    assert_eq!(normalize_code("en_US"), "en-US");
    assert_eq!(normalize_code("zh-CN"), "zh-CN");
    assert_eq!(normalize_code("a_b_c"), "a-b-c");
}

#[test]
fn primary_subtag_matches_every_regional_code() {
    assert!(matches_language("en-US", "en"));
    assert!(matches_language("en-GB", "en"));
    assert!(matches_language("en", "en"));
    assert!(!matches_language("enx", "en"));
    assert!(!matches_language("fr-FR", "en"));
    assert!(matches_language("en-GB", "en-US"));
}

#[test]
fn voices_for_primary_query_cover_regional_queries() {
    let en = get_voices_for_language(LISTING, "en");
    assert!(en.success);
    let en_names: Vec<String> = en.voices.iter().map(|v| v.name.clone()).collect();
    assert_eq!(en_names, vec!["Alex".to_string(), "Daniel".to_string()]);

    let us = get_voices_for_language(LISTING, "en-US");
    let gb = get_voices_for_language(LISTING, "en-GB");
    let mut union: Vec<String> = us.voices.iter().map(|v| v.name.clone()).collect();
    union.extend(gb.voices.iter().map(|v| v.name.clone()));
    for name in en_names.iter() {
        assert!(union.contains(name));
    }
}

#[test]
fn voices_use_name_as_identifier() {
    let ja = get_voices_for_language(LISTING, "ja");
    assert!(ja.success);
    assert_eq!(ja.voices.len(), 1);
    assert_eq!(ja.voices[0].name, "Kyoko");
    assert_eq!(ja.voices[0].identifier, "Kyoko");
}

#[test]
fn voices_for_unknown_language_is_empty_success() {
    let r = get_voices_for_language(LISTING, "xx");
    assert!(r.success);
    assert!(r.voices.is_empty());
    assert!(r.error_message.is_none());
}

#[test]
fn supported_languages_are_deduplicated_and_sorted() {
    let listing = "B zh_CN # a\nA en_US # b\nC zh_CN # c\nD en_GB # d";
    let r = get_supported_tts_languages(listing);
    assert!(r.success);
    assert_eq!(
        r.languages,
        vec!["en-GB".to_string(), "en-US".to_string(), "zh-CN".to_string()]
    );
}

#[test]
fn supported_languages_of_full_listing() {
    let r = get_supported_tts_languages(LISTING);
    assert!(r.success);
    assert_eq!(
        r.languages,
        vec![
            "en-GB".to_string(),
            "en-US".to_string(),
            "fr-FR".to_string(),
            "ja-JP".to_string(),
            "zh-CN".to_string(),
        ]
    );
}

#[test]
fn lines_without_code_fields_are_skipped() {
    let listing = "garbage line\nAlex en_US # ok";
    let r = get_supported_tts_languages(listing);
    assert!(r.success);
    assert_eq!(r.languages, vec!["en-US".to_string()]);
}
