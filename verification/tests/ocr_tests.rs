use ocr_tts::ocr::{
    assemble_native_text, build_helper_args, default_supported_languages, finish_helper_ocr,
    ocr_result_from_helper, parse_supported_languages,
};
use ocr_tts::results::FailureKind;
use ocr_tts::results::describe_failure;
use ocr_tts::staging::{temp_file_name, Stager};
use base64::Engine;

#[test]
fn parse_languages_between_markers() {
    let out = "noise\nSUPPORTED_LANGUAGES_START\nen-US\nzh-CN\nSUPPORTED_LANGUAGES_END\ntail";
    let r = parse_supported_languages(out);
    assert!(r.success);
    assert!(r.error_message.is_none());
    assert_eq!(r.languages, vec!["en-US".to_string(), "zh-CN".to_string()]);
}

#[test]
fn parsed_languages_are_deduplicated_and_sorted() {
    let out = "SUPPORTED_LANGUAGES_START\nzh-CN\nen-US\nzh-CN\nSUPPORTED_LANGUAGES_END";
    let r = parse_supported_languages(out);
    assert!(r.success);
    assert_eq!(r.languages, vec!["en-US".to_string(), "zh-CN".to_string()]);
}

#[test]
fn parse_languages_empty_list() {
    let out = "SUPPORTED_LANGUAGES_START\nSUPPORTED_LANGUAGES_END";
    let r = parse_supported_languages(out);
    assert!(r.success);
    assert!(r.languages.is_empty());
}

#[test]
fn missing_end_marker_is_protocol_error() {
    let out = "SUPPORTED_LANGUAGES_START\nen-US\nzh-CN";
    let r = parse_supported_languages(out);
    assert!(!r.success);
    assert!(r.languages.is_empty());
    let msg = r.error_message.expect("protocol failure carries a message");
    assert!(!msg.is_empty());
}

#[test]
fn end_before_start_is_protocol_error() {
    let out = "SUPPORTED_LANGUAGES_END\nen-US\nSUPPORTED_LANGUAGES_START";
    let r = parse_supported_languages(out);
    assert!(!r.success);
    assert!(r.languages.is_empty());
}

#[test]
fn empty_output_is_protocol_error() {
    let r = parse_supported_languages("");
    assert!(!r.success);
    assert!(r.languages.is_empty());
    assert!(r.error_message.is_some());
}

#[test]
fn helper_success_is_trimmed_and_normalized() {
    let r = ocr_result_from_helper(true, "  你 好 hi \n", "");
    assert!(r.success);
    assert_eq!(r.text, "你好 hi");
    assert!(r.error_message.is_none());
}

#[test]
fn helper_failure_carries_stderr() {
    let r = ocr_result_from_helper(false, "ignored", "boom");
    assert!(!r.success);
    assert_eq!(r.text, "");
    assert_eq!(r.error_message.as_deref(), Some("Operation failed: boom"));
}

#[test]
fn native_text_is_joined_and_normalized() {
    let lines = vec!["你 好".to_string(), "好 world".to_string()];
    assert_eq!(assemble_native_text(&lines), "你好\n好 world");
}

#[test]
fn helper_args_without_languages() {
    let args = build_helper_args("/tmp/x.png", &None);
    assert_eq!(args, vec!["/tmp/x.png".to_string()]);
    let args2 = build_helper_args("/tmp/x.png", &Some(vec![]));
    assert_eq!(args2, vec!["/tmp/x.png".to_string()]);
}

#[test]
fn helper_args_join_languages_with_comma() {
    let langs = Some(vec!["en-US".to_string(), "zh-CN".to_string()]);
    let args = build_helper_args("/tmp/x.png", &langs);
    assert_eq!(args, vec!["/tmp/x.png".to_string(), "en-US,zh-CN".to_string()]);
}

#[test]
fn default_languages_are_fixed() {
    let r = default_supported_languages();
    assert!(r.success);
    assert_eq!(r.languages, vec!["en-US".to_string(), "zh-CN".to_string()]);
}

#[test]
fn stage_decodes_base64_payload() {
    let mut stager = Stager::new();
    let staged = stager.stage_image("aGVsbG8=", "t1").expect("valid base64 stages");
    assert_eq!(staged.bytes, b"hello".to_vec());
    assert_eq!(staged.path, "ocr_temp_t1.png");
    assert!(stager.is_staged("ocr_temp_t1.png"));
}

#[test]
fn stage_round_trips_encoded_bytes() {
    let data: Vec<u8> = vec![0, 1, 2, 250, 255, 128, 7];
    let payload = base64::engine::general_purpose::STANDARD.encode(&data);
    let mut stager = Stager::new();
    let staged = stager.stage_image(&payload, "tok").expect("encoded bytes stage");
    assert_eq!(staged.bytes, data);
}

#[test]
fn corrupted_payload_fails_and_stages_nothing() {
    let mut stager = Stager::new();
    let err = stager.stage_image("!!!not-base64!!!", "t2").err().expect("must fail");
    assert!(!err.success);
    assert_eq!(err.text, "");
    let msg = err.error_message.expect("failure carries a message");
    assert!(msg.starts_with("Failed to decode base64 image data: "));
    assert!(!stager.is_staged("ocr_temp_t2.png"));
}

#[test]
fn corrupted_payload_fails_the_same_way_twice() {
    let mut stager = Stager::new();
    let e1 = stager.stage_image("%%%", "a").err().expect("must fail");
    let e2 = stager.stage_image("%%%", "a").err().expect("must fail");
    assert_eq!(e1.success, e2.success);
    assert_eq!(e1.text, e2.text);
    assert_eq!(e1.error_message.is_some(), e2.error_message.is_some());
    assert!(!e1.error_message.unwrap().is_empty());
    assert!(!e2.error_message.unwrap().is_empty());
}

#[test]
fn release_leaves_no_staged_file() {
    let mut stager = Stager::new();
    let staged = stager.stage_image("aGVsbG8=", "p1").expect("stages");
    assert!(stager.is_staged(&staged.path));
    stager.release(&staged.path);
    assert!(!stager.is_staged(&staged.path));
}

#[test]
fn finish_releases_on_success_and_failure() {
    let mut stager = Stager::new();
    let staged = stager.stage_image("aGVsbG8=", "q1").expect("stages");
    let r = finish_helper_ocr(&mut stager, &staged.path, true, "text out", "");
    assert!(r.success);
    assert_eq!(r.text, "text out");
    assert!(!stager.is_staged(&staged.path));

    let staged2 = stager.stage_image("aGVsbG8=", "q2").expect("stages");
    let r2 = finish_helper_ocr(&mut stager, &staged2.path, false, "", "died");
    assert!(!r2.success);
    assert_eq!(r2.text, "");
    assert!(r2.error_message.is_some());
    assert!(!stager.is_staged(&staged2.path));
}

#[test]
fn fresh_staging_uses_unique_temp_names() {
    let mut stager = Stager::new();
    let a = stager.stage_image_fresh("aGVsbG8=").expect("stages");
    let b = stager.stage_image_fresh("aGVsbG8=").expect("stages");
    assert!(a.path.starts_with("ocr_temp_"));
    assert!(a.path.ends_with(".png"));
    assert_ne!(a.path, b.path);
    assert!(stager.is_staged(&a.path));
    assert!(stager.is_staged(&b.path));
}

#[test]
fn temp_names_have_prefix_and_extension() {
    assert_eq!(temp_file_name("abc"), "ocr_temp_abc.png");
}

#[test]
fn failure_messages_have_their_prefixes() {
    assert_eq!(
        describe_failure(FailureKind::DecodeError, "d"),
        "Failed to decode base64 image data: d"
    );
    assert_eq!(describe_failure(FailureKind::StagingError, "d"), "Failed to stage image data: d");
    assert_eq!(
        describe_failure(FailureKind::HelperNotFound, "/x/ocr"),
        "OCR executable not found at: /x/ocr"
    );
    assert_eq!(describe_failure(FailureKind::SpawnError, "d"), "Failed to start process: d");
    assert_eq!(describe_failure(FailureKind::InvocationFailure, "d"), "Operation failed: d");
    assert_eq!(
        describe_failure(FailureKind::ProtocolError, "d"),
        "Failed to parse expected markers from output: d"
    );
}
