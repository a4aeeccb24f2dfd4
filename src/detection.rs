use lingua::{Language, LanguageDetector};
use vstd::prelude::*;

use crate::classifier::{detect_sections, detector_languages, iso_code, is_code_of};
use crate::offsets::{translate_detections, translated, translation_outcome};
use crate::registry::{config_languages, DetectorConfig, DetectorRegistry};
use crate::segment::{sections_well_formed, DetectedLanguage, DetectionError, RawDetection};

verus! {

/// `code` is the code of one of `languages`.
pub open spec fn reported_in(languages: Set<Language>, code: Seq<char>) -> bool {
    exists|l: Language| languages.contains(l) && is_code_of(l, code)
}

/// Detects the languages of `text` with a detector that is already built,
/// and reports each section in characters, with the code of a language the
/// detector was built from. Needs only shared access, so any number of calls
/// can run at once on one detector.
pub fn detect_with(detector: &LanguageDetector, text: &str) -> (r: Result<
    Vec<DetectedLanguage>,
    DetectionError,
>)
    ensures
        exists|raw: Seq<RawDetection>| translation_outcome(text@, raw, r),
        r matches Ok(v) ==> sections_well_formed(text@.len() as int, v@),
        r matches Ok(v) ==> forall|i: int|
            0 <= i < v@.len() ==> reported_in(detector_languages(*detector), #[trigger] v@[i].language@),
        text@.len() == 0 ==> (r matches Ok(v) && v@.len() == 0),
{
    let sections = detect_sections(detector, text);
    let mut raw: Vec<RawDetection> = Vec::new();
    let mut i: usize = 0;
    while i < sections.len()
        invariant
            i <= sections@.len(),
            raw@.len() == i,
            forall|j: int|
                0 <= j < i ==> reported_in(detector_languages(*detector), #[trigger] raw@[j].language@),
            forall|j: int|
                0 <= j < sections@.len() ==> detector_languages(*detector).contains(
                    #[trigger] sections@[j].3,
                ),
        decreases sections@.len() - i,
    {
        let (start_byte, end_byte, word_count, language) = sections[i];
        let code = iso_code(language);
        raw.push(RawDetection { start_byte, end_byte, word_count, language: code });
        i = i + 1;
    }
    let r = translate_detections(text, &raw);
    assert(translation_outcome(text@, raw@, r));
    proof {
        if r is Ok {
            let v = r->Ok_0;
            assert forall|i: int| 0 <= i < v@.len() implies reported_in(
                detector_languages(*detector),
                #[trigger] v@[i].language@,
            ) by {
                assert(translated(text@, raw@[i], v@[i]));
                assert(reported_in(detector_languages(*detector), raw@[i].language@));
            }
        }
    }
    r
}

/// High accuracy detections, but only detects Russian or English.
/// This is intended to find direct language policy violation (using English on
/// a Russian day or vice versa), but won't detect usage of any other language
/// outside of those two: text in neither is still put in one of them.
/// Confidence isn't calculated here, because it's meaningless.
pub fn is_russian_or_english(registry: &mut DetectorRegistry, input: String) -> (r: Result<
    Vec<DetectedLanguage>,
    DetectionError,
>)
    requires
        old(registry).wf(),
    ensures
        DetectorRegistry::settled(*old(registry), *final(registry), DetectorConfig::RussianEnglish),
        exists|raw: Seq<RawDetection>| translation_outcome(input@, raw, r),
        r matches Ok(v) ==> sections_well_formed(input@.len() as int, v@),
        r matches Ok(v) ==> forall|i: int|
            0 <= i < v@.len() ==> #[trigger] v@[i].language@ == "en"@ || v@[i].language@ == "ru"@,
        input@.len() == 0 ==> (r matches Ok(v) && v@.len() == 0),
{
    let r = registry.detect(DetectorConfig::RussianEnglish, input.as_str());
    proof {
        if r is Ok {
            let v = r->Ok_0;
            assert forall|i: int| 0 <= i < v@.len() implies #[trigger] v@[i].language@ == "en"@
                || v@[i].language@ == "ru"@ by {
                let l = choose|l: Language|
                    config_languages(DetectorConfig::RussianEnglish).contains(l) && is_code_of(
                        l,
                        v@[i].language@,
                    );
            }
        }
    }
    r
}

/// Low accuracy detection of all available languages. This will detect any
/// supported language, besides explicitly filtered out because of higher amount
/// of false positives.
pub fn detect_all_languages_fast(registry: &mut DetectorRegistry, input: String) -> (r: Result<
    Vec<DetectedLanguage>,
    DetectionError,
>)
    requires
        old(registry).wf(),
    ensures
        DetectorRegistry::settled(*old(registry), *final(registry), DetectorConfig::AllLanguages),
        exists|raw: Seq<RawDetection>| translation_outcome(input@, raw, r),
        r matches Ok(v) ==> sections_well_formed(input@.len() as int, v@),
        r matches Ok(v) ==> forall|i: int|
            0 <= i < v@.len() ==> {
                let code = #[trigger] v@[i].language@;
                &&& code.len() == 2
                &&& code != "tl"@
                &&& code != "st"@
                &&& code != "la"@
            },
        input@.len() == 0 ==> (r matches Ok(v) && v@.len() == 0),
{
    let r = registry.detect(DetectorConfig::AllLanguages, input.as_str());
    proof {
        if r is Ok {
            let v = r->Ok_0;
            assert forall|i: int| 0 <= i < v@.len() implies {
                let code = #[trigger] v@[i].language@;
                &&& code.len() == 2
                &&& code != "tl"@
                &&& code != "st"@
                &&& code != "la"@
            } by {
                let l = choose|l: Language|
                    config_languages(DetectorConfig::AllLanguages).contains(l) && is_code_of(
                        l,
                        v@[i].language@,
                    );
            }
        }
    }
    r
}

/// Preload language models.
///
/// Without a call to this method language models will be lazily initialized,
/// dramatically increasing first detection call latency.
pub fn load_language_models(registry: &mut DetectorRegistry)
    requires
        old(registry).wf(),
    ensures
        DetectorRegistry::preloaded(*old(registry), *final(registry)),
{
    registry.preload();
}

} // verus!
