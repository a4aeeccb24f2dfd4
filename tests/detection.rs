use language_detection::{
    detect_all_languages_fast, detect_with, false_positive_languages, is_russian_or_english,
    load_language_models, russian_english_languages, DetectorConfig, DetectorRegistry,
};
use lingua::Language;

#[test]
fn calculates_correct_char_indices() {
    let mut registry = DetectorRegistry::new();
    let russian_text = "Половина текста тут на русском ";
    let english_text = "and half's in English";
    let input = format!("{russian_text}{english_text}");
    let result = is_russian_or_english(&mut registry, input.clone()).unwrap();
    let rus_index = russian_text.chars().count() as u32;

    assert_eq!(result[0].start_index, 0);
    assert_eq!(result[0].end_index, rus_index);
    assert_eq!(result[0].language, "ru");

    assert_eq!(result[1].start_index, rus_index);
    assert_eq!(result[1].end_index, input.chars().count() as u32);
    assert_eq!(result[1].language, "en");
}

#[test]
fn empty_input_gives_no_sections() {
    let mut registry = DetectorRegistry::new();
    assert_eq!(is_russian_or_english(&mut registry, String::new()), Ok(vec![]));
    assert_eq!(detect_all_languages_fast(&mut registry, String::new()), Ok(vec![]));
}

#[test]
fn sections_are_ordered_and_within_the_text() {
    let mut registry = DetectorRegistry::new();
    let input = "Половина текста тут на русском and half's in English".to_string();
    let n = input.chars().count() as u32;
    let result = is_russian_or_english(&mut registry, input).unwrap();
    assert!(!result.is_empty());
    for (i, s) in result.iter().enumerate() {
        assert!(s.start_index < s.end_index);
        assert!(s.end_index <= n);
        assert!(s.word_count >= 1);
        assert!(s.language == "ru" || s.language == "en");
        if i > 0 {
            assert!(result[i - 1].end_index <= s.start_index);
        }
    }
}

#[test]
fn detection_twice_gives_the_same_sections() {
    let mut registry = DetectorRegistry::new();
    let input = "Половина текста тут на русском and half's in English".to_string();
    let first = is_russian_or_english(&mut registry, input.clone());
    let second = is_russian_or_english(&mut registry, input);
    assert_eq!(first, second);
}

#[test]
fn preloading_does_not_change_results() {
    let input = "Половина текста тут на русском and half's in English".to_string();
    let mut lazy = DetectorRegistry::new();
    let mut eager = DetectorRegistry::new();
    load_language_models(&mut eager);
    assert!(eager.detector(DetectorConfig::RussianEnglish).is_some());
    assert!(eager.detector(DetectorConfig::AllLanguages).is_some());
    assert_eq!(
        is_russian_or_english(&mut lazy, input.clone()),
        is_russian_or_english(&mut eager, input.clone())
    );
    assert_eq!(
        detect_all_languages_fast(&mut lazy, input.clone()),
        detect_all_languages_fast(&mut eager, input)
    );
}

#[test]
fn detectors_are_built_on_demand() {
    let mut registry = DetectorRegistry::new();
    assert!(registry.detector(DetectorConfig::RussianEnglish).is_none());
    assert!(registry.detector(DetectorConfig::AllLanguages).is_none());
    registry.get_or_build(DetectorConfig::RussianEnglish);
    assert!(registry.detector(DetectorConfig::RussianEnglish).is_some());
    assert!(registry.detector(DetectorConfig::AllLanguages).is_none());
    load_language_models(&mut registry);
    load_language_models(&mut registry);
    assert!(registry.detector(DetectorConfig::AllLanguages).is_some());
}

#[test]
fn shared_detector_matches_registry_detection() {
    let mut registry = DetectorRegistry::new();
    let input = "Половина текста тут на русском and half's in English";
    let through_registry = is_russian_or_english(&mut registry, input.to_string());
    let detector = registry.detector(DetectorConfig::RussianEnglish).unwrap();
    assert_eq!(detect_with(detector, input), through_registry);
}

#[test]
fn all_languages_sections_are_well_formed() {
    let mut registry = DetectorRegistry::new();
    let input = "Половина текста тут на русском, but this part of the sentence is written in English, \
                 und dieser Teil ist auf Deutsch geschrieben worden."
        .to_string();
    let n = input.chars().count() as u32;
    let result = detect_all_languages_fast(&mut registry, input).unwrap();
    for (i, s) in result.iter().enumerate() {
        assert!(s.start_index < s.end_index);
        assert!(s.end_index <= n);
        assert!(s.word_count >= 1);
        assert!(s.language != "tl" && s.language != "st" && s.language != "la");
        if i > 0 {
            assert!(result[i - 1].end_index <= s.start_index);
        }
    }
}

#[test]
fn false_positive_languages_are_excluded() {
    assert_eq!(false_positive_languages(), vec![Language::Tagalog, Language::Sotho, Language::Latin]);
}

#[test]
fn russian_english_set_up_has_exactly_two_languages() {
    assert_eq!(russian_english_languages(), vec![Language::English, Language::Russian]);
}

#[test]
fn strict_pair_reports_only_its_two_codes() {
    let mut registry = DetectorRegistry::new();
    let input = "Bonjour tout le monde, ceci est écrit en français et pas autrement.".to_string();
    let result = is_russian_or_english(&mut registry, input).unwrap();
    for s in &result {
        assert!(s.language == "ru" || s.language == "en");
    }
}
