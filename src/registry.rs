use lingua::{Language, LanguageDetector, LanguageDetectorBuilder};
use vstd::prelude::*;

use crate::classifier::{
    detector_languages, detector_low_accuracy, detector_preloaded, low_accuracy_mode, preload_models,
};
use crate::detection::{detect_with, reported_in};
use crate::offsets::translation_outcome;
use crate::segment::{sections_well_formed, DetectedLanguage, DetectionError};

verus! {

/// The two detector set-ups.
#[derive(Debug, Clone, Copy, PartialEq, Eq, Structural)]
pub enum DetectorConfig {
    /// English and Russian only, most accurate mode, every model preloaded.
    RussianEnglish,
    /// Every built-in language but those prone to false positives, low
    /// accuracy mode, every model preloaded.
    AllLanguages,
}

/// Languages left out of the all-languages set-up, because they are detected
/// where they are not used far more often than the others.
pub fn false_positive_languages() -> (r: Vec<Language>)
    ensures
        r@ == seq![Language::Tagalog, Language::Sotho, Language::Latin],
{
    let mut r: Vec<Language> = Vec::new();
    r.push(Language::Tagalog);
    r.push(Language::Sotho);
    r.push(Language::Latin);
    assert(r@ =~= seq![Language::Tagalog, Language::Sotho, Language::Latin]);
    r
}

/// The two languages of the Russian/English set-up.
pub fn russian_english_languages() -> (r: Vec<Language>)
    ensures
        r@ == seq![Language::English, Language::Russian],
{
    let mut r: Vec<Language> = Vec::new();
    r.push(Language::English);
    r.push(Language::Russian);
    assert(r@ =~= seq![Language::English, Language::Russian]);
    r
}

/// The languages a set-up chooses from: English and Russian, or every
/// built-in language but the false positive ones.
pub open spec fn config_languages(config: DetectorConfig) -> Set<Language> {
    match config {
        DetectorConfig::RussianEnglish => set![Language::English, Language::Russian],
        DetectorConfig::AllLanguages => Set::full().difference(
            set![Language::Tagalog, Language::Sotho, Language::Latin],
        ),
    }
}

/// `d` is built as `config` asks: from its languages, with every model
/// preloaded, in low accuracy mode exactly for the all-languages set-up.
pub open spec fn configured(d: LanguageDetector, config: DetectorConfig) -> bool {
    &&& detector_languages(d) == config_languages(config)
    &&& detector_preloaded(d)
    &&& detector_low_accuracy(d) == (config == DetectorConfig::AllLanguages)
}

/// Configures and builds a fresh detector for `config`.
fn build_detector(config: DetectorConfig) -> (r: LanguageDetector)
    ensures
        configured(r, config),
{
    match config {
        DetectorConfig::RussianEnglish => {
            let languages = russian_english_languages();
            let mut builder = LanguageDetectorBuilder::from_languages(languages.as_slice());
            assert(languages@.to_set() =~= set![Language::English, Language::Russian]) by {
                assert(languages@[0] == Language::English);
                assert(languages@[1] == Language::Russian);
            }
            preload_models(&mut builder);
            builder.build()
        },
        DetectorConfig::AllLanguages => {
            let excluded = false_positive_languages();
            assert forall|l: Language| excluded@.contains(l) <==> (l == Language::Tagalog || l
                == Language::Sotho || l == Language::Latin) by {
                if l == Language::Tagalog {
                    assert(excluded@[0] == l);
                }
                if l == Language::Sotho {
                    assert(excluded@[1] == l);
                }
                if l == Language::Latin {
                    assert(excluded@[2] == l);
                }
            }
            let mut builder = LanguageDetectorBuilder::from_all_languages_without(excluded.as_slice());
            preload_models(&mut builder);
            low_accuracy_mode(&mut builder);
            let r = builder.build();
            assert(detector_languages(r) =~= config_languages(config));
            r
        },
    }
}

/// Owns one detector per set-up, each built on first use and kept for the
/// registry's lifetime. Building is costly, so it happens at most once per
/// set-up; `builds` counts the constructions.
pub struct DetectorRegistry {
    russian_english: Option<LanguageDetector>,
    all_languages: Option<LanguageDetector>,
    russian_english_builds: Ghost<nat>,
    all_languages_builds: Ghost<nat>,
}

impl DetectorRegistry {
    /// The detector held for `config`, if it has been built.
    pub closed spec fn slot(&self, config: DetectorConfig) -> Option<LanguageDetector> {
        match config {
            DetectorConfig::RussianEnglish => self.russian_english,
            DetectorConfig::AllLanguages => self.all_languages,
        }
    }

    /// How many detectors have been built for `config`.
    pub closed spec fn builds(&self, config: DetectorConfig) -> nat {
        match config {
            DetectorConfig::RussianEnglish => self.russian_english_builds@,
            DetectorConfig::AllLanguages => self.all_languages_builds@,
        }
    }

    /// A set-up has been built once if its detector is held, and never
    /// otherwise; a held detector is built as its set-up asks.
    pub open spec fn wf(&self) -> bool {
        &&& forall|c: DetectorConfig| #[trigger]
            self.builds(c) == if self.slot(c) is Some {
                1nat
            } else {
                0nat
            }
        &&& forall|c: DetectorConfig| #[trigger]
            self.slot(c) matches Some(d) ==> configured(d, c)
    }

    /// `new` is `old` after `config` was asked for: held from now on, left as
    /// it was if it was already held, built once otherwise; the other set-up
    /// untouched.
    pub open spec fn settled(old: Self, new: Self, config: DetectorConfig) -> bool {
        &&& new.wf()
        &&& new.slot(config) is Some
        &&& old.slot(config) is Some ==> new == old
        &&& old.slot(config) is None ==> new.builds(config) == old.builds(config) + 1
        &&& forall|c: DetectorConfig|
            c != config ==> #[trigger] new.slot(c) == old.slot(c) && new.builds(c) == old.builds(c)
    }

    /// `new` is `old` after both set-ups were asked for: both held, each one
    /// that was held before kept as it was.
    pub open spec fn preloaded(old: Self, new: Self) -> bool {
        &&& new.wf()
        &&& forall|c: DetectorConfig| #[trigger] new.slot(c) is Some
        &&& forall|c: DetectorConfig|
            #[trigger] old.slot(c) is Some ==> new.slot(c) == old.slot(c) && new.builds(c)
                == old.builds(c)
    }

    /// Builds both detectors now, so that no detection call pays for it.
    pub fn preload(&mut self)
        requires
            old(self).wf(),
        ensures
            Self::preloaded(*old(self), *final(self)),
    {
        self.get_or_build(DetectorConfig::RussianEnglish);
        self.get_or_build(DetectorConfig::AllLanguages);
    }

    /// A registry that has built nothing yet.
    pub fn new() -> (r: Self)
        ensures
            r.wf(),
            forall|c: DetectorConfig| #[trigger] r.slot(c) is None && r.builds(c) == 0,
    {
        DetectorRegistry {
            russian_english: None,
            all_languages: None,
            russian_english_builds: Ghost(0),
            all_languages_builds: Ghost(0),
        }
    }

    /// The detector for `config`, if it has been built; it can be shared by
    /// any number of readers.
    pub fn detector(&self, config: DetectorConfig) -> (r: Option<&LanguageDetector>)
        ensures
            r matches Some(d) ==> self.slot(config) == Some(*d),
            r is None <==> self.slot(config) is None,
    {
        match config {
            DetectorConfig::RussianEnglish => self.russian_english.as_ref(),
            DetectorConfig::AllLanguages => self.all_languages.as_ref(),
        }
    }

    /// Makes sure the detector for `config` is built, building it only if it
    /// is not held yet.
    pub fn get_or_build(&mut self, config: DetectorConfig)
        requires
            old(self).wf(),
        ensures
            Self::settled(*old(self), *final(self), config),
    {
        match config {
            DetectorConfig::RussianEnglish => {
                if self.russian_english.is_none() {
                    self.russian_english = Some(build_detector(config));
                    self.russian_english_builds = Ghost(self.russian_english_builds@ + 1);
                }
            },
            DetectorConfig::AllLanguages => {
                if self.all_languages.is_none() {
                    self.all_languages = Some(build_detector(config));
                    self.all_languages_builds = Ghost(self.all_languages_builds@ + 1);
                }
            },
        }
        assert forall|c: DetectorConfig| #[trigger]
            self.builds(c) == if self.slot(c) is Some {
                1nat
            } else {
                0nat
            } by {
            assert(old(self).builds(c) == if old(self).slot(c) is Some {
                1nat
            } else {
                0nat
            });
        }
        assert forall|c: DetectorConfig| #[trigger]
            self.slot(c) matches Some(d) ==> configured(d, c) by {
            if old(self).slot(c) is Some {
                assert(old(self).slot(c) matches Some(d) ==> configured(d, c));
            }
        }
    }

    /// Detects the languages of `text` with the detector for `config`,
    /// building it first if needed, and reports each section in characters,
    /// with the code of one of the set-up's languages.
    pub fn detect(&mut self, config: DetectorConfig, text: &str) -> (r: Result<
        Vec<DetectedLanguage>,
        DetectionError,
    >)
        requires
            old(self).wf(),
        ensures
            Self::settled(*old(self), *final(self), config),
            exists|raw: Seq<crate::segment::RawDetection>| translation_outcome(text@, raw, r),
            r matches Ok(v) ==> sections_well_formed(text@.len() as int, v@),
            r matches Ok(v) ==> forall|i: int|
                0 <= i < v@.len() ==> reported_in(config_languages(config), #[trigger] v@[i].language@),
            text@.len() == 0 ==> (r matches Ok(v) && v@.len() == 0),
    {
        self.get_or_build(config);
        assert(self.slot(config) matches Some(d) ==> configured(d, config));
        detect_with(self.detector(config).unwrap(), text)
    }
}

/// In every well-formed state, no set-up has been built more than once.
pub proof fn lemma_built_at_most_once(registry: DetectorRegistry, config: DetectorConfig)
    requires
        registry.wf(),
    ensures
        registry.builds(config) <= 1,
{
}

/// Asking again for a set-up that is held changes nothing: no second
/// construction, the same detector.
pub proof fn lemma_second_request_builds_nothing(
    r0: DetectorRegistry,
    r1: DetectorRegistry,
    r2: DetectorRegistry,
    config: DetectorConfig,
)
    requires
        DetectorRegistry::settled(r0, r1, config),
        DetectorRegistry::settled(r1, r2, config),
    ensures
        r2 == r1,
        r2.builds(config) <= 1,
{
}

/// After preloading, a detection call builds nothing and uses the detector
/// that preloading built: preloading only moves the cost of construction.
pub proof fn lemma_detection_after_preload(
    r0: DetectorRegistry,
    r1: DetectorRegistry,
    r2: DetectorRegistry,
    config: DetectorConfig,
)
    requires
        DetectorRegistry::preloaded(r0, r1),
        DetectorRegistry::settled(r1, r2, config),
    ensures
        r2 == r1,
{
}

} // verus!
