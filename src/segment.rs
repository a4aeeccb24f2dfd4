use vstd::prelude::*;

verus! {

/// One contiguous single-language section of a text, as the classifier
/// reports it: byte offsets into the UTF-8 encoding of the text.
#[derive(Debug, Clone, PartialEq, Eq)]
pub struct RawDetection {
    pub start_byte: usize,
    pub end_byte: usize,
    pub word_count: usize,
    /// ISO 639-1 code of the detected language.
    pub language: String,
}

/// Language detection result
#[derive(Debug, Clone, PartialEq, Eq)]
pub struct DetectedLanguage {
    /// Start index in characters
    pub start_index: u32,
    /// End index in characters
    pub end_index: u32,
    /// Count of words in this language
    pub word_count: u32,
    /// ISO 639-1 language code, e.g. "en", "ru"
    pub language: String,
}

/// Why a classifier's output could not be turned into character-addressed
/// sections.
#[derive(Debug, Clone, Copy, PartialEq, Eq, Structural)]
pub enum DetectionError {
    /// A byte offset falls inside a character, or past the end of the text.
    MisalignedOffset { byte_offset: usize },
    /// The section at this index is empty, has no words, or starts before
    /// the previous one ends.
    MalformedSection { index: usize },
    /// A character offset or a word count of this section does not fit in `u32`.
    CountOverflow { index: usize },
}

/// The sections of one detection call are ordered, do not overlap, lie
/// within a text of `n_chars` characters, are not empty and hold a word each.
pub open spec fn sections_well_formed(n_chars: int, v: Seq<DetectedLanguage>) -> bool {
    &&& forall|i: int|
        0 <= i < v.len() ==> #[trigger] v[i].start_index < v[i].end_index && v[i].end_index
            <= n_chars && v[i].word_count >= 1
    &&& forall|i: int| 0 < i < v.len() ==> v[i - 1].end_index <= #[trigger] v[i].start_index
}

} // verus!
