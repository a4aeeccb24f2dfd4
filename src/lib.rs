//! Language detection over mixed-language text, with results addressed in
//! characters rather than bytes.
pub mod classifier;
pub mod detection;
pub mod offsets;
pub mod registry;
pub mod segment;

pub use detection::{detect_all_languages_fast, detect_with, is_russian_or_english, load_language_models};
pub use offsets::translate_detections;
pub use registry::{
    false_positive_languages, russian_english_languages, DetectorConfig, DetectorRegistry,
};
pub use segment::{DetectedLanguage, DetectionError, RawDetection};
