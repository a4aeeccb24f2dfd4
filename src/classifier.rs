use lingua::{Language, LanguageDetector, LanguageDetectorBuilder};
use vstd::prelude::*;

verus! {

#[verifier::external_type_specification]
#[verifier::external_body]
pub struct ExLanguageDetector(LanguageDetector);

#[verifier::external_type_specification]
#[verifier::external_body]
pub struct ExLanguageDetectorBuilder(LanguageDetectorBuilder);

#[verifier::external_type_specification]
pub struct ExLanguage(Language);

/// The set of languages a builder is configured with.
pub uninterp spec fn builder_languages(b: LanguageDetectorBuilder) -> Set<Language>;

/// Whether a builder is configured to preload every language model.
pub uninterp spec fn builder_preloads(b: LanguageDetectorBuilder) -> bool;

/// Whether a builder is configured for low accuracy mode.
pub uninterp spec fn builder_low_accuracy(b: LanguageDetectorBuilder) -> bool;

/// The set of languages a detector chooses from.
pub uninterp spec fn detector_languages(d: LanguageDetector) -> Set<Language>;

/// Whether every language model of a detector was loaded when it was built.
pub uninterp spec fn detector_preloaded(d: LanguageDetector) -> bool;

/// Whether a detector runs in low accuracy mode.
pub uninterp spec fn detector_low_accuracy(d: LanguageDetector) -> bool;

/// The ISO 639-1 code that lingua gives a language, as text.
pub uninterp spec fn iso_639_1_of(l: Language) -> Seq<char>;

/// `code` is the code of `l`: two letters, and each of the codes named here
/// belongs to its one language alone.
pub open spec fn is_code_of(l: Language, code: Seq<char>) -> bool {
    &&& code == iso_639_1_of(l)
    &&& code.len() == 2
    &&& (code == "en"@ <==> l == Language::English)
    &&& (code == "ru"@ <==> l == Language::Russian)
    &&& (code == "tl"@ <==> l == Language::Tagalog)
    &&& (code == "st"@ <==> l == Language::Sotho)
    &&& (code == "la"@ <==> l == Language::Latin)
}

/// Relies on `LanguageDetectorBuilder::from_languages`, which panics on an
/// empty list and otherwise configures exactly the listed languages, without
/// preloading and in high accuracy mode.
pub assume_specification[ LanguageDetectorBuilder::from_languages ](
    languages: &[Language],
) -> (r: LanguageDetectorBuilder)
    requires
        languages@.len() >= 1,
    ensures
        builder_languages(r) == languages@.to_set(),
        !builder_preloads(r),
        !builder_low_accuracy(r),
;

/// Relies on `LanguageDetectorBuilder::from_all_languages_without`, which
/// configures every built-in language (every variant of `Language`) but the
/// listed ones, without preloading and in high accuracy mode, and panics when
/// none is left. English is always built in here, so a list without it leaves
/// at least one.
pub assume_specification[ LanguageDetectorBuilder::from_all_languages_without ](
    languages: &[Language],
) -> (r: LanguageDetectorBuilder)
    requires
        !languages@.contains(Language::English),
    ensures
        forall|l: Language| #[trigger] builder_languages(r).contains(l) <==> !languages@.contains(l),
        !builder_preloads(r),
        !builder_low_accuracy(r),
;

/// Relies on `LanguageDetectorBuilder::build`, which hands the configured
/// languages and modes to the new detector (preloading its models if asked)
/// and leaves the builder as it was.
pub assume_specification[ LanguageDetectorBuilder::build ](
    builder: &mut LanguageDetectorBuilder,
) -> (r: LanguageDetector)
    ensures
        *final(builder) == *old(builder),
        detector_languages(r) == builder_languages(*old(builder)),
        detector_preloaded(r) == builder_preloads(*old(builder)),
        detector_low_accuracy(r) == builder_low_accuracy(*old(builder)),
;

/// Relies on `LanguageDetectorBuilder::with_preloaded_language_models`: the
/// detector built afterwards loads every model up front.
#[verifier::external_body]
pub(crate) fn preload_models(builder: &mut LanguageDetectorBuilder)
    ensures
        builder_languages(*final(builder)) == builder_languages(*old(builder)),
        builder_preloads(*final(builder)),
        builder_low_accuracy(*final(builder)) == builder_low_accuracy(*old(builder)),
{
    builder.with_preloaded_language_models();
}

/// Relies on `LanguageDetectorBuilder::with_low_accuracy_mode`: the detector
/// built afterwards uses the smaller, faster models.
#[verifier::external_body]
pub(crate) fn low_accuracy_mode(builder: &mut LanguageDetectorBuilder)
    ensures
        builder_languages(*final(builder)) == builder_languages(*old(builder)),
        builder_preloads(*final(builder)) == builder_preloads(*old(builder)),
        builder_low_accuracy(*final(builder)),
{
    builder.with_low_accuracy_mode();
}

/// Relies on `Language::iso_code_639_1` and the `Display` of `IsoCode639_1`,
/// which writes the code's two letters in lower case.
#[verifier::external_body]
pub(crate) fn iso_code(l: Language) -> (r: String)
    ensures
        r@ == iso_639_1_of(l),
        is_code_of(l, r@),
{
    l.iso_code_639_1().to_string()
}

/// Relies on `LanguageDetector::detect_multiple_languages_of`, which returns
/// no section for an empty text and reports only languages the detector was
/// built from. Each section is handed on as its start and end byte offsets,
/// word count and language.
#[verifier::external_body]
pub(crate) fn detect_sections(detector: &LanguageDetector, text: &str) -> (r: Vec<
    (usize, usize, usize, Language),
>)
    ensures
        text@.len() == 0 ==> r@.len() == 0,
        forall|i: int|
            0 <= i < r@.len() ==> detector_languages(*detector).contains(#[trigger] r@[i].3),
{
    detector.detect_multiple_languages_of(text).into_iter().map(
        |d| (d.start_index(), d.end_index(), d.word_count(), d.language()),
    ).collect()
}

} // verus!
