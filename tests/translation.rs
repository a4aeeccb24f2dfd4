use language_detection::{translate_detections, DetectedLanguage, DetectionError, RawDetection};

fn raw(start_byte: usize, end_byte: usize, word_count: usize, language: &str) -> RawDetection {
    RawDetection { start_byte, end_byte, word_count, language: language.to_string() }
}

fn section(start_index: u32, end_index: u32, word_count: u32, language: &str) -> DetectedLanguage {
    DetectedLanguage { start_index, end_index, word_count, language: language.to_string() }
}

#[test]
fn multibyte_boundary_is_reported_in_characters() {
    let russian = "Привет как дела ";
    let english = "and this is in English";
    assert_eq!(russian.chars().count(), 16);
    assert_eq!(english.chars().count(), 22);
    let input = format!("{russian}{english}");
    let split = russian.len();
    assert_eq!(split, 29);
    let sections = vec![raw(0, split, 3, "ru"), raw(split, input.len(), 5, "en")];
    let result = translate_detections(&input, &sections).unwrap();
    assert_eq!(result, vec![section(0, 16, 3, "ru"), section(16, 38, 5, "en")]);
}

#[test]
fn ascii_offsets_are_unchanged() {
    let input = "hello world";
    let result = translate_detections(input, &vec![raw(0, 5, 1, "en"), raw(6, 11, 1, "de")]).unwrap();
    assert_eq!(result, vec![section(0, 5, 1, "en"), section(6, 11, 1, "de")]);
}

#[test]
fn four_byte_characters_count_once() {
    let input = "a😀b";
    assert_eq!(input.len(), 6);
    let result = translate_detections(input, &vec![raw(0, 5, 1, "en"), raw(5, 6, 1, "fr")]).unwrap();
    assert_eq!(result, vec![section(0, 2, 1, "en"), section(2, 3, 1, "fr")]);
}

#[test]
fn empty_text_and_no_sections_give_nothing() {
    assert_eq!(translate_detections("", &vec![]), Ok(vec![]));
    assert_eq!(translate_detections("текст", &vec![]), Ok(vec![]));
}

#[test]
fn offset_inside_a_character_is_refused() {
    let input = "Привет";
    assert_eq!(
        translate_detections(input, &vec![raw(0, 3, 1, "ru")]),
        Err(DetectionError::MisalignedOffset { byte_offset: 3 })
    );
    assert_eq!(
        translate_detections(input, &vec![raw(1, 4, 1, "ru")]),
        Err(DetectionError::MisalignedOffset { byte_offset: 1 })
    );
}

#[test]
fn offset_past_the_end_is_refused() {
    assert_eq!(
        translate_detections("abc", &vec![raw(0, 4, 1, "en")]),
        Err(DetectionError::MisalignedOffset { byte_offset: 4 })
    );
}

#[test]
fn malformed_sections_are_refused() {
    let input = "one two three";
    assert_eq!(
        translate_detections(input, &vec![raw(3, 3, 1, "en")]),
        Err(DetectionError::MalformedSection { index: 0 })
    );
    assert_eq!(
        translate_detections(input, &vec![raw(0, 3, 0, "en")]),
        Err(DetectionError::MalformedSection { index: 0 })
    );
    assert_eq!(
        translate_detections(input, &vec![raw(0, 7, 2, "en"), raw(4, 13, 2, "de")]),
        Err(DetectionError::MalformedSection { index: 1 })
    );
}

#[test]
fn first_defect_decides_the_error() {
    let input = "Привет мир";
    assert_eq!(
        translate_detections(input, &vec![raw(0, 13, 1, "ru"), raw(13, 14, 0, "ru"), raw(16, 19, 1, "ru")]),
        Err(DetectionError::MalformedSection { index: 1 })
    );
    assert_eq!(
        translate_detections(input, &vec![raw(0, 12, 1, "ru"), raw(12, 14, 1, "ru"), raw(14, 16, 0, "ru")]),
        Err(DetectionError::MisalignedOffset { byte_offset: 14 })
    );
}

#[test]
fn oversized_word_count_is_refused() {
    let big = u32::MAX as usize + 1;
    assert_eq!(
        translate_detections("abc", &vec![raw(0, 3, big, "en")]),
        Err(DetectionError::CountOverflow { index: 0 })
    );
}

#[test]
fn adjacent_sections_may_touch() {
    let input = "ab";
    let result = translate_detections(input, &vec![raw(0, 1, 1, "en"), raw(1, 2, 1, "en")]).unwrap();
    assert_eq!(result[0].end_index, result[1].start_index);
}

#[test]
fn translation_repeats_exactly() {
    let input = "Привет как дела and this is in English";
    let sections = vec![raw(0, 29, 3, "ru"), raw(29, input.len(), 5, "en")];
    assert_eq!(translate_detections(input, &sections), translate_detections(input, &sections));
}
