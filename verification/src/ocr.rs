//! Text recognition on frames, and the rules that read a race number out of
//! the recognised lines.
use crate::pattern::{regex_compiles, regex_group1, TextPattern, RACE_BANNER_PATTERN};
use crate::text::{
    contains_text, has_substring, join_lines, joined_lines, lemma_split_joined_lines, lowercase_of,
    lines_case_variants, ascii_case_variants, no_line_feeds, parse_u32, parsed_u32, split_on, string_views, to_lowercase,
};
use ocrs::{ImageSource, ImageSourceError, OcrEngine, OcrEngineParams, OcrInput, TextLine};
use rten::{Model, ModelLoadError};
use rten_imageproc::RotatedRect;
use vstd::prelude::*;

verus! {

#[verifier::external_type_specification]
#[verifier::external_body]
pub struct ExOcrEngine(OcrEngine);

#[verifier::external_type_specification]
#[verifier::external_body]
pub struct ExOcrInput(OcrInput);

#[verifier::external_type_specification]
#[verifier::external_body]
pub struct ExImageSource<'a>(ImageSource<'a>);

#[verifier::external_type_specification]
#[verifier::external_body]
pub struct ExImageSourceError(ImageSourceError);

#[verifier::external_type_specification]
#[verifier::external_body]
pub struct ExTextLine(TextLine);

#[verifier::external_type_specification]
#[verifier::external_body]
pub struct ExRotatedRect(RotatedRect);

#[verifier::external_type_specification]
#[verifier::external_body]
pub struct ExModel(Model);

#[verifier::external_type_specification]
#[verifier::external_body]
pub struct ExModelLoadError(ModelLoadError);

#[verifier::external_type_specification]
#[verifier::external_body]
pub struct ExAnyhowError(anyhow::Error);

/// What `rten::Model::load` does with `data`: `Some(true)` where it loads a
/// model, `Some(false)` where it reports an error, `None` where it panics
/// instead of returning (an inline constant whose data length differs from
/// its shape).
pub uninterp spec fn model_load_outcome(data: Seq<u8>) -> Option<bool>;

/// `rten::Model::load` loads a model from `data`.
pub open spec fn model_loads(data: Seq<u8>) -> bool {
    model_load_outcome(data) == Some(true)
}

/// `rten::Model::load` returns on `data`, with a model or with an error.
pub open spec fn model_load_returns(data: Seq<u8>) -> bool {
    model_load_outcome(data) is Some
}

/// Calls `rten::Model::load`. Claims that on bytes on which it returns, it
/// succeeds exactly when the named outcome says so; what model the bytes
/// hold is not stated.
#[verifier::external_body]
fn load_model(data: Vec<u8>) -> (model: Result<Model, ModelLoadError>)
    requires
        model_load_returns(data@),
    ensures
        model is Ok <==> model_load_outcome(data@) == Some(true),
{
    Model::load(data)
}

/// A model loaded by `rten::Model::load`, together with the bytes it was
/// loaded from.
pub struct LoadedModel {
    model: Model,
    source: Vec<u8>,
}

impl View for LoadedModel {
    type V = Seq<u8>;

    closed spec fn view(&self) -> Seq<u8> {
        self.source@
    }
}

impl LoadedModel {
    /// Loads a model from its serialised bytes; the loaded model's view is
    /// those bytes.
    pub fn load(data: Vec<u8>) -> (m: Result<LoadedModel, ModelLoadError>)
        requires
            model_load_returns(data@),
        ensures
            m is Ok <==> model_loads(data@),
            m matches Ok(m) ==> m@ == data@,
    {
        let source = data.clone();
        assert(source@ =~= data@);
        match load_model(data) {
            Ok(model) => Ok(LoadedModel { model, source }),
            Err(e) => Err(e),
        }
    }
}

/// What `ocrs::OcrEngine::new`, with default settings otherwise, makes of the
/// detection and recognition models loaded from these bytes: `Some(false)`
/// where it reports an error; `Some(true)` where it builds an engine whose
/// word detection, line layout (of the words that engine detects) and text
/// recognition return, with a result or an error, on every image; `None`
/// where it builds an engine that panics on some image instead (a model
/// whose outputs do not have the shapes ocrs expects).
pub uninterp spec fn engine_outcome(detection: Seq<u8>, recognition: Seq<u8>) -> Option<bool>;

/// `ocrs::OcrEngine::new` builds an engine from the models of these bytes.
pub open spec fn engine_builds(detection: Seq<u8>, recognition: Seq<u8>) -> bool {
    engine_outcome(detection, recognition) != Some(false)
}

/// The engine built from the models of these bytes runs on every image.
pub open spec fn engine_runs(detection: Seq<u8>, recognition: Seq<u8>) -> bool {
    engine_outcome(detection, recognition) == Some(true)
}

/// Calls `ocrs::OcrEngine::new` with both models and default settings
/// otherwise. Claims that it succeeds exactly when the named outcome says an
/// engine builds from the bytes the two models were loaded from; the fields
/// of a `LoadedModel` are only ever set by `LoadedModel::load`, from those bytes.
#[verifier::external_body]
fn new_engine(detection: LoadedModel, recognition: LoadedModel) -> (engine: Result<OcrEngine, anyhow::Error>)
    ensures
        engine is Ok <==> engine_outcome(detection@, recognition@) != Some(false),
{
    OcrEngine::new(
        OcrEngineParams {
            detection_model: Some(detection.model),
            recognition_model: Some(recognition.model),
            ..Default::default()
        },
    )
}

/// Whether `ocrs::ImageSource::from_bytes` accepts `len` bytes as a
/// `width` by `height` image: a non-empty image with 1, 3 or 4 bytes per pixel.
pub open spec fn image_source_accepts(len: nat, width: u32, height: u32) -> bool {
    let area: int = width * height;
    let bytes: int = len as int;
    &&& area > 0
    &&& bytes % area == 0
    &&& (bytes / area == 1 || bytes / area == 3 || bytes / area == 4)
}

/// Calls `ocrs::ImageSource::from_bytes`. Claims what its source shows:
/// the bytes are accepted exactly when they make whole pixels of 1, 3 or
/// 4 channels of a non-empty image. Its area is computed in `u32`, so the
/// area must fit there.
#[verifier::external_body]
fn image_source<'a>(bytes: &'a [u8], width: u32, height: u32) -> (src: Result<ImageSource<'a>, ImageSourceError>)
    requires
        width * height <= u32::MAX,
    ensures
        src is Ok <==> image_source_accepts(bytes@.len(), width, height),
{
    ImageSource::from_bytes(bytes, (width, height))
}

/// Calls `ocrs::OcrEngine::prepare_input`, which its source shows never fails.
#[verifier::external_body]
fn prepare_input(engine: &OcrEngine, src: ImageSource) -> (input: Result<OcrInput, anyhow::Error>)
    ensures
        input is Ok,
{
    engine.prepare_input(src)
}

/// Calls `ocrs::OcrEngine::detect_words` on the detector's engine, which
/// was built from the models of the detector's model bytes (only
/// `OcrDetector::new` sets them). What the detection model finds is not
/// stated; it runs without panicking only for models that the named
/// `engine_outcome` says run.
#[verifier::external_body]
fn detect_words(detector: &OcrDetector, input: &OcrInput) -> (words: Result<Vec<RotatedRect>, anyhow::Error>)
    requires
        engine_runs(detector.detection_bytes(), detector.recognition_bytes()),
{
    detector.engine.detect_words(input)
}

/// Calls `ocrs::OcrEngine::find_text_lines` on the detector's engine, with
/// the words that `detect_words` found with it. The layout it finds is not
/// stated; it runs without panicking on such words only for models that the
/// named `engine_outcome` says run.
#[verifier::external_body]
fn find_text_lines(detector: &OcrDetector, input: &OcrInput, words: &[RotatedRect]) -> (lines: Vec<Vec<RotatedRect>>)
    requires
        engine_runs(detector.detection_bytes(), detector.recognition_bytes()),
{
    detector.engine.find_text_lines(input, words)
}

/// Calls `ocrs::OcrEngine::recognize_text` on the detector's engine. What
/// the recognition model reads is not stated; it runs without panicking
/// only for models that the named `engine_outcome` says run.
#[verifier::external_body]
fn recognize_text(detector: &OcrDetector, input: &OcrInput, lines: &[Vec<RotatedRect>]) -> (text: Result<Vec<Option<TextLine>>, anyhow::Error>)
    requires
        engine_runs(detector.detection_bytes(), detector.recognition_bytes()),
{
    detector.engine.recognize_text(input, lines)
}

/// Why a detector could not be set up, with the outside crate's message.
#[derive(Debug)]
pub enum DetectorError {
    DetectionModel(String),
    RecognitionModel(String),
    Engine(String),
    Pattern(String),
}

/// A text recogniser together with the pattern of race banners.
pub struct OcrDetector {
    engine: OcrEngine,
    detection: Ghost<Seq<u8>>,
    recognition: Ghost<Seq<u8>>,
    race_banner: TextPattern,
}

impl OcrDetector {
    #[verifier::type_invariant]
    spec fn inv(self) -> bool {
        &&& self.race_banner@ == RACE_BANNER_PATTERN@
        &&& engine_runs(self.detection@, self.recognition@)
    }

    /// The bytes the detection model was loaded from.
    pub closed spec fn detection_bytes(self) -> Seq<u8> {
        self.detection@
    }

    /// The bytes the recognition model was loaded from.
    pub closed spec fn recognition_bytes(self) -> Seq<u8> {
        self.recognition@
    }

    /// The pattern that race banners are matched with.
    pub closed spec fn banner_pattern(self) -> Seq<char> {
        self.race_banner@
    }

    /// Sets up the recogniser from the bytes of the detection and the
    /// recognition model: loads the detection model, then the recognition
    /// model, builds the engine, and compiles the race-banner pattern,
    /// failing with the first step that fails.
    pub fn new(detection_model: Vec<u8>, recognition_model: Vec<u8>) -> (d: Result<Self, DetectorError>)
        requires
            model_load_outcome(detection_model@) is Some,
            model_load_outcome(recognition_model@) is Some,
            model_loads(detection_model@) && model_loads(recognition_model@)
                ==> engine_outcome(detection_model@, recognition_model@) is Some,
        ensures
            d is Ok <==> model_loads(detection_model@) && model_loads(recognition_model@)
                && engine_runs(detection_model@, recognition_model@)
                && regex_compiles(RACE_BANNER_PATTERN@),
            !model_loads(detection_model@) ==> d matches Err(DetectorError::DetectionModel(_)),
            model_loads(detection_model@) && !model_loads(recognition_model@)
                ==> d matches Err(DetectorError::RecognitionModel(_)),
            model_loads(detection_model@) && model_loads(recognition_model@)
                && !engine_builds(detection_model@, recognition_model@)
                ==> d matches Err(DetectorError::Engine(_)),
            model_loads(detection_model@) && model_loads(recognition_model@)
                && engine_builds(detection_model@, recognition_model@)
                && !regex_compiles(RACE_BANNER_PATTERN@)
                ==> d matches Err(DetectorError::Pattern(_)),
            d matches Ok(d) ==> d.banner_pattern() == RACE_BANNER_PATTERN@
                && d.detection_bytes() == detection_model@
                && d.recognition_bytes() == recognition_model@,
    {
        let ghost det_bytes = detection_model@;
        let ghost rec_bytes = recognition_model@;
        let detection = match LoadedModel::load(detection_model) {
            Ok(m) => m,
            Err(e) => { return Err(DetectorError::DetectionModel(e.to_string())); },
        };
        let recognition = match LoadedModel::load(recognition_model) {
            Ok(m) => m,
            Err(e) => { return Err(DetectorError::RecognitionModel(e.to_string())); },
        };
        assert(detection@ == det_bytes && recognition@ == rec_bytes);
        let engine = match new_engine(detection, recognition) {
            Ok(e) => e,
            Err(e) => { return Err(DetectorError::Engine(e.to_string())); },
        };
        assert(model_loads(det_bytes) && model_loads(rec_bytes));
        assert(engine_runs(det_bytes, rec_bytes)) by {
            let o = engine_outcome(det_bytes, rec_bytes);
            match o {
                Some(b) => { assert(b); },
                None => {},
            }
        }
        let race_banner = match TextPattern::new(RACE_BANNER_PATTERN) {
            Ok(p) => p,
            Err(e) => { return Err(DetectorError::Pattern(e.message)); },
        };
        Ok(
            OcrDetector {
                engine,
                detection: Ghost(det_bytes),
                recognition: Ghost(rec_bytes),
                race_banner,
            },
        )
    }

    /// The recognised lines of a `width` by `height` image, in reading
    /// order, leaving out the line regions where nothing was read.
    pub fn recognize_lines(&self, width: u32, height: u32, pixels: &[u8]) -> (lines: Option<Vec<String>>)
        requires
            width * height <= u32::MAX,
        ensures
            !image_source_accepts(pixels@.len(), width, height) ==> lines is None,
            lines matches Some(ls) ==> exists|rec: Seq<Option<TextLine>>, texts: Seq<Option<String>>|
                #[trigger] texts_of_lines(rec, texts) && string_views(ls@) == present_lines(texts),
    {
        proof { use_type_invariant(self); }
        let src = match image_source(pixels, width, height) {
            Ok(s) => s,
            Err(_) => { return None; },
        };
        let input = match prepare_input(&self.engine, src) {
            Ok(i) => i,
            Err(_) => { return None; },
        };
        let recognized = match detect_words(self, &input) {
            Ok(words) => {
                let line_rects = find_text_lines(self, &input, words.as_slice());
                recognize_text(self, &input, line_rects.as_slice())
            },
            Err(e) => Err(e),
        };
        lines_from_recognition(recognized)
    }

    /// Reads the race number (1 to 12) shown in a `width` by `height` image,
    /// as the first recognised line that names one.
    pub fn parse_race_number(&self, width: u32, height: u32, pixels: &[u8]) -> (race: Option<u32>)
        requires
            width * height <= u32::MAX,
        ensures
            race matches Some(n) ==> 1 <= n <= 12,
            !image_source_accepts(pixels@.len(), width, height) ==> race is None,
            exists|rec: Seq<Option<TextLine>>, texts: Seq<Option<String>>|
                #[trigger] texts_of_lines(rec, texts)
                && race == first_race(present_lines(texts), RACE_BANNER_PATTERN@),
    {
        proof { use_type_invariant(self); }
        match self.recognize_lines(width, height, pixels) {
            Some(lines) => {
                let race = race_number_from_lines(&lines, &self.race_banner);
                proof { lemma_first_race_range(string_views(lines@), RACE_BANNER_PATTERN@); }
                race
            },
            None => {
                proof { lemma_no_lines_no_race(); }
                None
            },
        }
    }

    /// All recognised text of a `width` by `height` image: each recognised
    /// line followed by a line feed.
    pub fn extract_raw_text(&self, width: u32, height: u32, pixels: &[u8]) -> (text: Option<String>)
        requires
            width * height <= u32::MAX,
        ensures
            !image_source_accepts(pixels@.len(), width, height) ==> text is None,
            text matches Some(t) ==> exists|rec: Seq<Option<TextLine>>, texts: Seq<Option<String>>|
                #[trigger] texts_of_lines(rec, texts) && t@ == joined_lines(present_lines(texts)),
    {
        match self.recognize_lines(width, height, pixels) {
            Some(lines) => Some(join_lines(&lines)),
            None => None,
        }
    }
}

/// A recognised line region and the text it gives: none where nothing was
/// read, else the `to_string` of the recognised line.
pub open spec fn line_text_matches(rec: Option<TextLine>, text: Option<String>) -> bool {
    match (rec, text) {
        (Some(t), Some(s)) => vstd::string::to_string_from_display_ensures::<TextLine>(&t, s),
        (None, None) => true,
        _ => false,
    }
}

/// `texts` are the texts of the recognised line regions `rec`, one for one.
pub open spec fn texts_of_lines(rec: Seq<Option<TextLine>>, texts: Seq<Option<String>>) -> bool {
    &&& texts.len() == rec.len()
    &&& forall|j: int| 0 <= j < rec.len() ==> line_text_matches(#[trigger] rec[j], texts[j])
}

/// The texts that are present, in order.
pub open spec fn present_lines(texts: Seq<Option<String>>) -> Seq<Seq<char>>
    decreases texts.len(),
{
    if texts.len() == 0 {
        Seq::<Seq<char>>::empty()
    } else {
        let rest = present_lines(texts.drop_last());
        match texts.last() {
            Some(t) => rest.push(t@),
            None => rest,
        }
    }
}

/// The recognised lines of a recognition outcome: none where recognition
/// failed, else the text of each line region where something was read, in
/// reading order.
pub fn lines_from_recognition(recognized: Result<Vec<Option<TextLine>>, anyhow::Error>) -> (lines: Option<Vec<String>>)
    ensures
        match recognized {
            Err(_) => lines is None,
            Ok(rec) => lines matches Some(ls) && exists|texts: Seq<Option<String>>|
                #[trigger] texts_of_lines(rec@, texts) && string_views(ls@) == present_lines(texts),
        },
{
    let recognized = match recognized {
        Ok(r) => r,
        Err(_) => { return None; },
    };
    let mut texts: Vec<Option<String>> = Vec::new();
    let n = recognized.len();
    let mut i: usize = 0;
    while i < n
        invariant
            n == recognized.len(),
            i <= n,
            texts_of_lines(recognized@.take(i as int), texts@),
        decreases n - i,
    {
        match &recognized[i] {
            Some(line) => { texts.push(Some(line.to_string())); },
            None => { texts.push(None); },
        }
        i = i + 1;
        assert(texts_of_lines(recognized@.take(i as int), texts@)) by {
            assert forall|j: int| 0 <= j < i implies line_text_matches(
                #[trigger] recognized@.take(i as int)[j],
                texts@[j],
            ) by {
                if j < i - 1 {
                    assert(recognized@.take(i as int)[j] == recognized@.take(i - 1)[j]);
                }
            }
        }
    }
    assert(recognized@.take(n as int) =~= recognized@);
    let ghost t = texts@;
    let lines = recognized_lines(texts);
    assert(texts_of_lines(recognized@, t));
    Some(lines)
}

/// Keeps the texts of the line regions where something was read, in order.
pub fn recognized_lines(texts: Vec<Option<String>>) -> (lines: Vec<String>)
    ensures
        string_views(lines@) == present_lines(texts@),
{
    let mut lines: Vec<String> = Vec::new();
    let n = texts.len();
    let mut i: usize = 0;
    assert(texts@.take(0) =~= Seq::<Option<String>>::empty());
    assert(string_views(lines@) =~= Seq::<Seq<char>>::empty());
    while i < n
        invariant
            n == texts.len(),
            i <= n,
            string_views(lines@) == present_lines(texts@.take(i as int)),
        decreases n - i,
    {
        let ghost before = string_views(lines@);
        assert(texts@.take(i + 1).drop_last() =~= texts@.take(i as int));
        assert(texts@.take(i + 1).last() == texts@[i as int]);
        match &texts[i] {
            Some(t) => {
                lines.push(t.clone());
                assert(string_views(lines@) =~= before.push(t@));
            },
            None => {},
        }
        i = i + 1;
    }
    assert(texts@.take(n as int) =~= texts@);
    lines
}

/// No recognised line region names no race.
proof fn lemma_no_lines_no_race()
    ensures
        texts_of_lines(Seq::<Option<TextLine>>::empty(), Seq::<Option<String>>::empty()),
        present_lines(Seq::<Option<String>>::empty()) == Seq::<Seq<char>>::empty(),
        first_race(Seq::<Seq<char>>::empty(), RACE_BANNER_PATTERN@) is None,
{
}

/// The character views of an optional string.
pub open spec fn opt_view(o: Option<String>) -> Option<Seq<char>> {
    match o {
        Some(s) => Some(s@),
        None => None,
    }
}

/// A lowercased line that announces the final race: it says "final" and "race"
/// (or, read partly, "rac").
pub open spec fn is_final_banner(lower: Seq<char>) -> bool {
    has_substring(lower, "final"@) && (has_substring(lower, "race"@) || has_substring(lower, "rac"@))
}

/// The race that a lowercased line names, given group 1 of the race-banner
/// pattern in it: 12 for the final race, else the banner's number if it is
/// from 1 to 12; `None` where the line names no race.
pub open spec fn line_race(lower: Seq<char>, group: Option<Seq<char>>) -> Option<u32> {
    if is_final_banner(lower) {
        Some(12)
    } else {
        match group {
            Some(g) => match parsed_u32(g) {
                Some(n) => if 1 <= n && n <= 12 { Some(n) } else { None },
                None => None,
            },
            None => None,
        }
    }
}

/// The race named by the first of `lines` that names one, each line
/// lowercased and matched against `pattern`.
pub open spec fn first_race(lines: Seq<Seq<char>>, pattern: Seq<char>) -> Option<u32>
    decreases lines.len(),
{
    if lines.len() == 0 {
        None
    } else {
        let lower = lowercase_of(lines[0]);
        match line_race(lower, regex_group1(pattern, lower)) {
            Some(n) => Some(n),
            None => first_race(lines.drop_first(), pattern),
        }
    }
}

/// Every race that `first_race` names is from 1 to 12.
pub proof fn lemma_first_race_range(lines: Seq<Seq<char>>, pattern: Seq<char>)
    ensures
        first_race(lines, pattern) matches Some(n) ==> 1 <= n <= 12,
    decreases lines.len(),
{
    if lines.len() > 0 {
        lemma_first_race_range(lines.drop_first(), pattern);
    }
}

/// Whether a lowercased line announces the final race.
pub fn is_final_race_banner(lower: &str) -> (fin: bool)
    ensures
        fin == is_final_banner(lower@),
{
    contains_text(lower, "final") && (contains_text(lower, "race") || contains_text(lower, "rac"))
}

/// The race that a lowercased line names, given group 1 of the race-banner
/// pattern in it.
pub fn race_from_line(lower: &str, group: Option<String>) -> (race: Option<u32>)
    ensures
        race == line_race(lower@, opt_view(group)),
{
    if is_final_race_banner(lower) {
        return Some(12);
    }
    match group {
        Some(g) => match parse_u32(g.as_str()) {
            Some(n) => if 1 <= n && n <= 12 { Some(n) } else { None },
            None => None,
        },
        None => None,
    }
}

/// The race named by the first of `lines` that names one.
pub fn race_number_from_lines(lines: &Vec<String>, pattern: &TextPattern) -> (race: Option<u32>)
    ensures
        race == first_race(string_views(lines@), pattern@),
        forall|other: Seq<Seq<char>>| #[trigger] lines_case_variants(other, string_views(lines@))
            ==> race == first_race(other, pattern@),
{
    let ghost all = string_views(lines@);
    let n = lines.len();
    let mut lowers: Vec<String> = Vec::new();
    let mut k: usize = 0;
    while k < n
        invariant
            n == lines.len(),
            all == string_views(lines@),
            k <= n,
            lowers@.len() == k,
            forall|j: int| 0 <= j < k ==> #[trigger] lowers@[j]@ == lowercase_of(all[j]),
            forall|j: int, t: Seq<char>| 0 <= j < k && #[trigger] ascii_case_variants(t, all[j])
                ==> lowercase_of(t) == lowercase_of(all[j]),
        decreases n - k,
    {
        let lower = to_lowercase(lines[k].as_str());
        assert(all[k as int] == lines@[k as int]@);
        lowers.push(lower);
        k = k + 1;
    }
    assert forall|other: Seq<Seq<char>>| #[trigger] lines_case_variants(other, all) implies first_race(
        all,
        pattern@,
    ) == first_race(other, pattern@) by {
        assert forall|j: int| 0 <= j < all.len() implies lowercase_of(#[trigger] all[j]) == lowercase_of(
            other[j],
        ) by {
            assert(ascii_case_variants(other[j], all[j]));
        }
        lemma_first_race_case_insensitive(all, other, pattern@);
    }
    let mut i: usize = 0;
    assert(all.skip(0) =~= all);
    while i < n
        invariant
            n == lines.len(),
            all == string_views(lines@),
            lowers@.len() == n,
            forall|j: int| 0 <= j < n ==> #[trigger] lowers@[j]@ == lowercase_of(all[j]),
            i <= n,
            first_race(all, pattern@) == first_race(all.skip(i as int), pattern@),
            forall|other: Seq<Seq<char>>| #[trigger] lines_case_variants(other, all)
                ==> first_race(all, pattern@) == first_race(other, pattern@),
        decreases n - i,
    {
        let ghost rest = all.skip(i as int);
        assert(rest[0] == all[i as int]);
        assert(rest.drop_first() =~= all.skip(i + 1));
        let lower = &lowers[i];
        assert(lower@ == lowercase_of(all[i as int]));
        let group = pattern.group1(lower.as_str());
        match race_from_line(lower.as_str(), group) {
            Some(r) => { return Some(r); },
            None => {},
        }
        i = i + 1;
    }
    assert(all.skip(n as int) =~= Seq::<Seq<char>>::empty());
    None
}

/// A line that says "final" and "race" names the final race, 12, whatever
/// the race-banner pattern finds in it.
pub proof fn lemma_final_banner_is_race_12(lower: Seq<char>, group: Option<Seq<char>>)
    requires
        has_substring(lower, "final"@),
        has_substring(lower, "race"@),
    ensures
        line_race(lower, group) == Some(12u32),
{
}

/// A banner number outside 1 to 12 names no race: reading goes on to the next line.
pub proof fn lemma_out_of_range_banner_ignored(lower: Seq<char>, g: Seq<char>)
    requires
        !is_final_banner(lower),
        parsed_u32(g) matches Some(n) && (n < 1 || n > 12),
    ensures
        line_race(lower, Some(g)) is None,
{
}

/// The first line that names a race decides: lines before it that name none
/// are skipped, and lines after it are not read.
pub proof fn lemma_first_race_first_hit(lines: Seq<Seq<char>>, pattern: Seq<char>, i: int)
    requires
        0 <= i < lines.len(),
        forall|j: int| 0 <= j < i ==> (#[trigger] line_race(
            lowercase_of(lines[j]),
            regex_group1(pattern, lowercase_of(lines[j])),
        )) is None,
        line_race(lowercase_of(lines[i]), regex_group1(pattern, lowercase_of(lines[i]))) is Some,
    ensures
        first_race(lines, pattern) == line_race(
            lowercase_of(lines[i]),
            regex_group1(pattern, lowercase_of(lines[i])),
        ),
    decreases i,
{
    if i > 0 {
        let rest = lines.drop_first();
        assert forall|j: int| 0 <= j < i - 1 implies (#[trigger] line_race(
            lowercase_of(rest[j]),
            regex_group1(pattern, lowercase_of(rest[j])),
        )) is None by {
            assert(rest[j] == lines[j + 1]);
        }
        assert(rest[i - 1] == lines[i]);
        assert(line_race(lowercase_of(lines[0]), regex_group1(pattern, lowercase_of(lines[0]))) is None);
        lemma_first_race_first_hit(rest, pattern, i - 1);
    }
}

/// Reading races is case-insensitive: lines that lowercase alike name the
/// same race.
pub proof fn lemma_first_race_case_insensitive(a: Seq<Seq<char>>, b: Seq<Seq<char>>, pattern: Seq<char>)
    requires
        a.len() == b.len(),
        forall|i: int| 0 <= i < a.len() ==> lowercase_of(#[trigger] a[i]) == lowercase_of(b[i]),
    ensures
        first_race(a, pattern) == first_race(b, pattern),
    decreases a.len(),
{
    if a.len() > 0 {
        assert(lowercase_of(a[0]) == lowercase_of(b[0]));
        let a1 = a.drop_first();
        let b1 = b.drop_first();
        assert forall|i: int| 0 <= i < a1.len() implies lowercase_of(#[trigger] a1[i]) == lowercase_of(b1[i]) by {
            assert(a1[i] == a[i + 1] && b1[i] == b[i + 1]);
        }
        lemma_first_race_case_insensitive(a1, b1, pattern);
    }
}

/// One more line changes the race read only where no earlier line names one.
pub proof fn lemma_first_race_push(lines: Seq<Seq<char>>, x: Seq<char>, pattern: Seq<char>)
    ensures
        first_race(lines.push(x), pattern) == match first_race(lines, pattern) {
            Some(n) => Some(n),
            None => first_race(seq![x], pattern),
        },
    decreases lines.len(),
{
    if lines.len() > 0 {
        assert(lines.push(x).drop_first() =~= lines.drop_first().push(x));
        assert(lines.push(x)[0] == lines[0]);
        lemma_first_race_push(lines.drop_first(), x, pattern);
    } else {
        assert(lines.push(x) =~= seq![x]);
    }
}

/// Reading the race from the joined text of some lines, split again at line
/// feeds, gives the race of the lines themselves; only where none names a
/// race is the empty piece after the last line feed read as well.
pub proof fn lemma_first_race_of_joined_text(lines: Seq<Seq<char>>, pattern: Seq<char>)
    requires
        no_line_feeds(lines),
    ensures
        first_race(split_on(joined_lines(lines), '\n'), pattern) == match first_race(lines, pattern) {
            Some(n) => Some(n),
            None => first_race(seq![Seq::<char>::empty()], pattern),
        },
{
    lemma_split_joined_lines(lines);
    lemma_first_race_push(lines, Seq::<char>::empty(), pattern);
}

/// A line that is no final-race banner and whose banner number reads as a
/// number from 1 to 12 names that race; a banner number outside 1 to 12, or
/// none at all, names no race.
pub proof fn lemma_banner_number_names_race(lower: Seq<char>, g: Seq<char>, n: u32)
    requires
        !is_final_banner(lower),
        parsed_u32(g) == Some(n),
    ensures
        1 <= n <= 12 ==> line_race(lower, Some(g)) == Some(n),
        (n < 1 || n > 12) ==> line_race(lower, Some(g)) is None,
        line_race(lower, None) is None,
{
}

} // verus!
