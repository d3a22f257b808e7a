//! Orchestration logic for OS-native optical character recognition and
//! text-to-speech: normalizing recognized text, staging image payloads,
//! parsing helper-process and voice-listing output, and tracking live
//! speech processes so they can be cancelled.

pub mod ocr;
pub mod registry;
pub mod results;
pub mod shims;
pub mod staging;
pub mod strutil;
pub mod text;
pub mod tts;
pub mod voices;
