use ocr_tts::registry::{ProcessRegistry, StopAction};
use ocr_tts::results::{FailureKind, TtsResult};
use ocr_tts::tts::build_say_args;

#[test]
fn register_is_fresh_once() {
    let mut reg = ProcessRegistry::new();
    assert!(reg.register("h1".to_string(), 7));
    assert!(reg.contains_handle("h1"));
    assert!(!reg.register("h1".to_string(), 9));
    assert!(reg.contains_handle("h1"));
}

#[test]
fn register_speech_mints_a_handle() {
    let mut reg = ProcessRegistry::new();
    let r = reg.register_speech(3);
    assert!(r.success);
    assert!(r.error_message.is_none());
    let handle = r.process_id.expect("success carries the handle");
    assert_eq!(handle.len(), 36);
    assert!(reg.contains_handle(&handle));
}

#[test]
fn concurrent_speaks_get_distinct_handles() {
    let mut reg = ProcessRegistry::new();
    let r1 = reg.register_speech(1);
    let r2 = reg.register_speech(2);
    assert!(r1.success && r2.success);
    let h1 = r1.process_id.unwrap();
    let h2 = r2.process_id.unwrap();
    assert_ne!(h1, h2);
    assert!(reg.contains_handle(&h1));
    assert!(reg.contains_handle(&h2));
}

#[test]
fn stopping_one_speak_leaves_the_other() {
    let mut reg = ProcessRegistry::new();
    let h1 = reg.register_speech(1).process_id.unwrap();
    let h2 = reg.register_speech(2).process_id.unwrap();
    let (res, action) = reg.stop_speaking(&h1);
    assert!(res.success);
    assert!(matches!(action, StopAction::KillOne(1)));
    assert!(!reg.contains_handle(&h1));
    assert!(reg.contains_handle(&h2));
}

#[test]
fn stop_of_unknown_handle_succeeds_with_fallback() {
    let mut reg = ProcessRegistry::new();
    let (res, action) = reg.stop_speaking("never-issued");
    assert!(res.success);
    assert!(res.error_message.is_none());
    assert!(matches!(action, StopAction::KillAll));
}

#[test]
fn stop_twice_succeeds_both_times() {
    let mut reg = ProcessRegistry::new();
    let h = reg.register_speech(5).process_id.unwrap();
    let (first, first_action) = reg.stop_speaking(&h);
    assert!(first.success);
    assert!(matches!(first_action, StopAction::KillOne(5)));
    let (second, second_action) = reg.stop_speaking(&h);
    assert!(second.success);
    assert!(matches!(second_action, StopAction::KillAll));
}

#[test]
fn say_args_with_and_without_voice() {
    let with = build_say_args("hello", &Some("Alex".to_string()));
    assert_eq!(with, vec!["-v".to_string(), "Alex".to_string(), "hello".to_string()]);
    let without = build_say_args("hello", &None);
    assert_eq!(without, vec!["hello".to_string()]);
}

#[test]
fn tts_result_shapes() {
    let started = TtsResult::started("h".to_string());
    assert!(started.success);
    assert_eq!(started.process_id.as_deref(), Some("h"));
    assert!(started.error_message.is_none());

    let done = TtsResult::done();
    assert!(done.success);
    assert!(done.process_id.is_none());
    assert!(done.error_message.is_none());

    let failed = TtsResult::failure(FailureKind::SpawnError, "no such command");
    assert!(!failed.success);
    assert!(failed.process_id.is_none());
    assert_eq!(
        failed.error_message.as_deref(),
        Some("Failed to start process: no such command")
    );
}
