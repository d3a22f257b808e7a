use ocr_tts::text::{is_cjk_char, remove_chinese_spaces};
use ocr_tts::strutil::trim_str;

#[test]
fn cjk_space_between_ideographs_removed_latin_kept() {
    let out = remove_chinese_spaces("你 好 world test");
    assert_eq!(out, "你好 world test");
}

#[test]
fn normalization_is_idempotent_on_samples() {
    let samples = [
        "你 好 world test",
        "hello world",
        "你 好  吗",
        " 你 好 ",
        "。 。",
        "",
        "   ",
        "中 文 与 English 混 排",
    ];
    for s in samples.iter() {
        let once = remove_chinese_spaces(s);
        let twice = remove_chinese_spaces(&once);
        assert_eq!(once, twice);
    }
}

#[test]
fn latin_text_is_unchanged() {
    assert_eq!(remove_chinese_spaces("hello world"), "hello world");
    assert_eq!(remove_chinese_spaces("a b c"), "a b c");
}

#[test]
fn edge_spaces_are_kept() {
    assert_eq!(remove_chinese_spaces(" 你 好 "), " 你好 ");
}

#[test]
fn double_space_between_ideographs_is_kept() {
    // Neither space has CJK characters on both of its immediate sides.
    assert_eq!(remove_chinese_spaces("你  好"), "你  好");
}

#[test]
fn fullwidth_punctuation_counts_as_cjk() {
    assert_eq!(remove_chinese_spaces("。 。"), "。。");
}

#[test]
fn cjk_char_classes() {
    assert!(is_cjk_char('你'));
    assert!(is_cjk_char('。'));
    assert!(is_cjk_char('ｱ'));
    assert!(!is_cjk_char('a'));
    assert!(!is_cjk_char(' '));
    assert!(!is_cjk_char('1'));
}

#[test]
fn trim_removes_surrounding_whitespace() {
    assert_eq!(trim_str("  abc\t"), "abc");
    assert_eq!(trim_str("\r\n x y \n"), "x y");
    assert_eq!(trim_str("   "), "");
    assert_eq!(trim_str("abc"), "abc");
    assert_eq!(trim_str("\u{3000}你好\u{a0}"), "你好");
}
