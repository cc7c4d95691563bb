//! The models that transcribe a meeting and tell its speakers apart: where they
//! are kept, where they come from, and whether they are there.
use vstd::prelude::*;
use crate::copilot;
use crate::error::AppError;
use crate::error;
use crate::paths;
use crate::text;

verus! {

broadcast use vstd::string::group_string_axioms;

/// The model that transcribes while the meeting runs.
pub const ASR_MODEL_NAME: &'static str = "sherpa-onnx-streaming-zipformer-en-2023-06-26";

/// Its files: encoder, decoder, joiner and tokens.
pub const ASR_FILES: [&'static str; 4] = [
    "encoder-epoch-99-avg-1-chunk-16-left-128.onnx",
    "decoder-epoch-99-avg-1-chunk-16-left-128.onnx",
    "joiner-epoch-99-avg-1-chunk-16-left-128.onnx",
    "tokens.txt",
];

/// Where its files come from.
pub const ASR_BASE_URL: &'static str = "https://huggingface.co/csukuangfj/sherpa-onnx-streaming-zipformer-en-2023-06-26/resolve/main";

/// The file of the model that tells voices apart.
pub const SPEAKER_FILE: &'static str = "wespeaker_en_voxceleb_CAM++.onnx";

/// Where it comes from.
pub const SPEAKER_URL: &'static str = "https://huggingface.co/csukuangfj/speaker-embedding-models/resolve/main/wespeaker_en_voxceleb_CAM%2B%2B.onnx";

/// The model that finds out who spoke when.
pub const SEGMENTATION_MODEL_NAME: &'static str = "sherpa-onnx-pyannote-segmentation-3-0";

/// Its file.
pub const SEGMENTATION_FILE: &'static str = "model.onnx";

/// Where it comes from.
pub const SEGMENTATION_URL: &'static str = "https://huggingface.co/csukuangfj/sherpa-onnx-pyannote-segmentation-3-0/resolve/main/model.onnx";

/// The model that transcribes once more, when the meeting is over.
pub const OFFLINE_MODEL_NAME: &'static str = "sherpa-onnx-nemo-parakeet-tdt-0.6b-v2-int8";

/// Its files: encoder, decoder, joiner and tokens.
pub const OFFLINE_FILES: [&'static str; 4] = [
    "encoder.int8.onnx",
    "decoder.int8.onnx",
    "joiner.int8.onnx",
    "tokens.txt",
];

/// Where its files come from.
pub const OFFLINE_BASE_URL: &'static str = "https://huggingface.co/csukuangfj/sherpa-onnx-nemo-parakeet-tdt-0.6b-v2-int8/resolve/main";

// ---------------------------------------------------------------------------
// Where the models are kept
// ---------------------------------------------------------------------------

/// The user's home, by the two variables that may name it.
pub open spec fn home_of(home: Option<Seq<char>>, user_profile: Option<Seq<char>>) -> Seq<char> {
    match home {
        Some(h) => h,
        None => match user_profile {
            Some(p) => p,
            None => "."@,
        },
    }
}

/// The user's home: `HOME`, else `USERPROFILE`, else the working directory.
pub fn home_dir(home: Option<&str>, user_profile: Option<&str>) -> (r: String)
    ensures
        r@ == home_of(text::opt_str(home), text::opt_str(user_profile)),
{
    match home {
        Some(h) => h.to_owned(),
        None => match user_profile {
            Some(p) => p.to_owned(),
            None => ".".to_owned(),
        },
    }
}

/// A folder among the models.
pub open spec fn model_folder(home: Seq<char>, name: Seq<char>) -> Seq<char> {
    paths::joined_path(paths::joined_path(paths::joined_path(home, ".sediment"@), "models"@), name)
}

/// A folder among the models.
pub(crate) fn folder(home: &str, name: &str) -> (r: String)
    ensures
        r@ == model_folder(home@, name@),
{
    let app = paths::join(home, ".sediment");
    let models = paths::join(app.as_str(), "models");
    paths::join(models.as_str(), name)
}

/// Where the model that transcribes is kept.
pub fn asr_dir(home: &str) -> (r: String)
    ensures
        r@ == model_folder(home@, ASR_MODEL_NAME@),
{
    folder(home, ASR_MODEL_NAME)
}

/// Where the model that tells voices apart is kept.
pub fn speaker_dir(home: &str) -> (r: String)
    ensures
        r@ == model_folder(home@, "speaker-embedding"@),
{
    folder(home, "speaker-embedding")
}

/// Where the model that finds out who spoke when is kept.
pub fn segmentation_dir(home: &str) -> (r: String)
    ensures
        r@ == model_folder(home@, SEGMENTATION_MODEL_NAME@),
{
    folder(home, SEGMENTATION_MODEL_NAME)
}

/// Where the model that transcribes once more is kept.
pub fn offline_dir(home: &str) -> (r: String)
    ensures
        r@ == model_folder(home@, OFFLINE_MODEL_NAME@),
{
    folder(home, OFFLINE_MODEL_NAME)
}

/// Where the model that transcribes is put together.
pub fn asr_staging_dir(home: &str) -> (r: String)
    ensures
        r@ == model_folder(home@, ".staging-asr"@),
{
    folder(home, ".staging-asr")
}

/// Where the model that tells voices apart is put together.
pub fn speaker_staging_dir(home: &str) -> (r: String)
    ensures
        r@ == model_folder(home@, ".staging-speaker"@),
{
    folder(home, ".staging-speaker")
}

/// Where the model that transcribes once more is put together.
pub fn offline_staging_dir(home: &str) -> (r: String)
    ensures
        r@ == model_folder(home@, ".staging-offline"@),
{
    folder(home, ".staging-offline")
}

/// Where the model that finds out who spoke when is put together.
pub fn segmentation_staging_dir(home: &str) -> (r: String)
    ensures
        r@ == model_folder(home@, ".staging-segmentation"@),
{
    folder(home, ".staging-segmentation")
}

// ---------------------------------------------------------------------------
// Where the models come from
// ---------------------------------------------------------------------------

/// The address that was set, without white space around it and slashes behind
/// it, unless nothing is left; else the default.
pub open spec fn base_or(set: Option<Seq<char>>, default_url: Seq<char>) -> Seq<char> {
    match set {
        Some(u) => {
            let t = text::trimmed_end_of(text::trimmed(u), '/');
            if t.len() == 0 {
                default_url
            } else {
                t
            }
        },
        None => default_url,
    }
}

/// The address that was set, unless it is blank; else the default.
pub open spec fn url_or(set: Option<Seq<char>>, default_url: Seq<char>) -> Seq<char> {
    match set {
        Some(u) => if text::trimmed(u).len() == 0 {
            default_url
        } else {
            text::trimmed(u)
        },
        None => default_url,
    }
}

/// The address that files are fetched below.
pub(crate) fn pick_base(set: Option<&str>, default_url: &str) -> (r: String)
    ensures
        r@ == base_or(text::opt_str(set), default_url@),
{
    match set {
        Some(u) => {
            let t = text::trim_end_char(text::trim(u), '/');
            if t.is_empty() {
                default_url.to_owned()
            } else {
                t.to_owned()
            }
        },
        None => default_url.to_owned(),
    }
}

fn pick_url(set: Option<&str>, default_url: &str) -> (r: String)
    ensures
        r@ == url_or(text::opt_str(set), default_url@),
{
    match set {
        Some(u) => {
            let t = text::trim(u);
            if t.is_empty() {
                default_url.to_owned()
            } else {
                t.to_owned()
            }
        },
        None => default_url.to_owned(),
    }
}

/// Where the files of the model that transcribes come from, given what
/// `SEDIMENT_ASR_MODEL_BASE_URL` says.
pub fn asr_base_url(set: Option<&str>) -> (r: String)
    ensures
        r@ == base_or(text::opt_str(set), ASR_BASE_URL@),
{
    pick_base(set, ASR_BASE_URL)
}

/// Where the files of the model that transcribes once more come from, given what
/// `SEDIMENT_OFFLINE_MODEL_BASE_URL` says.
pub fn offline_base_url(set: Option<&str>) -> (r: String)
    ensures
        r@ == base_or(text::opt_str(set), OFFLINE_BASE_URL@),
{
    pick_base(set, OFFLINE_BASE_URL)
}

/// Where the model that tells voices apart comes from, given what
/// `SEDIMENT_SPEAKER_MODEL_URL` says.
pub fn speaker_url(set: Option<&str>) -> (r: String)
    ensures
        r@ == url_or(text::opt_str(set), SPEAKER_URL@),
{
    pick_url(set, SPEAKER_URL)
}

/// Where the model that finds out who spoke when comes from, given what
/// `SEDIMENT_SEGMENTATION_MODEL_URL` says.
pub fn segmentation_url(set: Option<&str>) -> (r: String)
    ensures
        r@ == url_or(text::opt_str(set), SEGMENTATION_URL@),
{
    pick_url(set, SEGMENTATION_URL)
}

/// The address of a file below a base.
pub fn file_url(base: &str, file: &str) -> (r: String)
    ensures
        r@ == base@ + "/"@ + file@,
{
    let mut s = base.to_owned();
    s.append("/");
    s.append(file);
    s
}

// ---------------------------------------------------------------------------
// Whether the models are there
// ---------------------------------------------------------------------------

/// The four files of a model, as paths in its folder.
pub open spec fn four_paths(dir: Seq<char>, files: [&'static str; 4]) -> Seq<Seq<char>> {
    seq![
        paths::joined_path(dir, files[0]@),
        paths::joined_path(dir, files[1]@),
        paths::joined_path(dir, files[2]@),
        paths::joined_path(dir, files[3]@),
    ]
}

fn paths_in(dir: &str, files: [&'static str; 4]) -> (r: Vec<String>)
    ensures
        text::texts(r@) == four_paths(dir@, files),
{
    let v: Vec<String> = vec![
        paths::join(dir, files[0]),
        paths::join(dir, files[1]),
        paths::join(dir, files[2]),
        paths::join(dir, files[3]),
    ];
    assert(text::texts(v@) =~= four_paths(dir@, files));
    v
}

/// The files that must be there for a meeting to be transcribed.
pub fn asr_file_paths(home: &str) -> (r: Vec<String>)
    ensures
        text::texts(r@) == four_paths(model_folder(home@, ASR_MODEL_NAME@), ASR_FILES),
{
    paths_in(asr_dir(home).as_str(), ASR_FILES)
}

/// The files that must be there for a meeting to be transcribed once more.
pub fn offline_file_paths(home: &str) -> (r: Vec<String>)
    ensures
        text::texts(r@) == four_paths(model_folder(home@, OFFLINE_MODEL_NAME@), OFFLINE_FILES),
{
    paths_in(offline_dir(home).as_str(), OFFLINE_FILES)
}

/// The file that must be there for voices to be told apart.
pub fn speaker_file_path(home: &str) -> (r: String)
    ensures
        r@ == paths::joined_path(model_folder(home@, "speaker-embedding"@), SPEAKER_FILE@),
{
    paths::join(speaker_dir(home).as_str(), SPEAKER_FILE)
}

/// The file that must be there to find out who spoke when.
pub fn segmentation_file_path(home: &str) -> (r: String)
    ensures
        r@ == paths::joined_path(
            model_folder(home@, SEGMENTATION_MODEL_NAME@),
            SEGMENTATION_FILE@,
        ),
{
    paths::join(segmentation_dir(home).as_str(), SEGMENTATION_FILE)
}

/// Whether each of some files is there.
pub fn all_there(there: &Vec<bool>) -> (r: bool)
    ensures
        r == forall|i: int| 0 <= i < there@.len() ==> #[trigger] there@[i],
{
    let mut i: usize = 0;
    while i < there.len()
        invariant
            i <= there.len(),
            forall|k: int| 0 <= k < i ==> #[trigger] there@[k],
        decreases there.len() - i,
    {
        if !there[i] {
            assert(!there@[i as int]);
            return false;
        }
        i += 1;
    }
    true
}

/// Whether the model that transcribes is there: all of [`asr_file_paths`] are.
pub fn asr_present(there: &Vec<bool>) -> (r: bool)
    requires
        there@.len() == 4,
    ensures
        r == (there@[0] && there@[1] && there@[2] && there@[3]),
{
    all_there(there)
}

/// Whether the model that transcribes once more is there: all of
/// [`offline_file_paths`] are.
pub fn offline_present(there: &Vec<bool>) -> (r: bool)
    requires
        there@.len() == 4,
    ensures
        r == (there@[0] && there@[1] && there@[2] && there@[3]),
{
    all_there(there)
}

/// The files of a model that transcribes.
#[derive(Debug, PartialEq, Eq)]
pub struct AsrModelPaths {
    pub encoder: String,
    pub decoder: String,
    pub joiner: String,
    pub tokens: String,
    /// What the model runs on.
    pub provider: String,
}

/// The first file that is missing.
pub open spec fn first_missing(there: Seq<bool>, i: int) -> Option<int>
    decreases there.len() - i,
{
    if i < 0 || i >= there.len() {
        None
    } else if !there[i] {
        Some(i)
    } else {
        first_missing(there, i + 1)
    }
}

fn find_missing(there: &Vec<bool>) -> (r: Option<usize>)
    ensures
        match r {
            Some(i) => first_missing(there@, 0) == Some(i as int) && i < there@.len(),
            None => first_missing(there@, 0) is None,
        },
{
    let mut i: usize = 0;
    while i < there.len()
        invariant
            i <= there.len(),
            first_missing(there@, 0) == first_missing(there@, i as int),
        decreases there.len() - i,
    {
        if !there[i] {
            return Some(i);
        }
        i += 1;
    }
    None
}

/// The model's files in its folder, run on the processor.
pub open spec fn holds_files(p: AsrModelPaths, at: Seq<Seq<char>>) -> bool {
    p.encoder@ == at[0] && p.decoder@ == at[1] && p.joiner@ == at[2] && p.tokens@ == at[3]
        && p.provider@ == "cpu"@
}

fn model_paths(at: &Vec<String>) -> (r: AsrModelPaths)
    requires
        at@.len() == 4,
    ensures
        holds_files(r, text::texts(at@)),
{
    AsrModelPaths {
        encoder: at[0].clone(),
        decoder: at[1].clone(),
        joiner: at[2].clone(),
        tokens: at[3].clone(),
        provider: "cpu".to_owned(),
    }
}

fn missing_file(before: &str, file: &str, after: &str) -> (r: AppError)
    ensures
        r.text() == before@ + file@ + after@,
{
    let mut m = before.to_owned();
    m.append(file);
    m.append(after);
    AppError::Other(m)
}

/// The files of the model that transcribes, or an error that names the first
/// that is missing.
pub fn asr_paths(home: &str, there: &Vec<bool>) -> (r: Result<AsrModelPaths, AppError>)
    requires
        there@.len() == 4,
    ensures
        match first_missing(there@, 0) {
            None => r matches Ok(p) && holds_files(
                p,
                four_paths(model_folder(home@, ASR_MODEL_NAME@), ASR_FILES),
            ),
            Some(i) => r matches Err(e) && e.text() == "On-device ASR model file missing: "@
                + ASR_FILES[i]@
                + ". Run ASR model setup to download or import the transcription model."@,
        },
{
    match find_missing(there) {
        None => {
            let at = asr_file_paths(home);
            assert(text::texts(at@).len() == at@.len());
            Ok(model_paths(&at))
        },
        Some(i) => Err(
            missing_file(
                "On-device ASR model file missing: ",
                ASR_FILES[i],
                ". Run ASR model setup to download or import the transcription model.",
            ),
        ),
    }
}

/// The files of the model that transcribes once more, or an error that names the
/// first that is missing.
pub fn offline_paths(home: &str, there: &Vec<bool>) -> (r: Result<AsrModelPaths, AppError>)
    requires
        there@.len() == 4,
    ensures
        match first_missing(there@, 0) {
            None => r matches Ok(p) && holds_files(
                p,
                four_paths(model_folder(home@, OFFLINE_MODEL_NAME@), OFFLINE_FILES),
            ),
            Some(i) => r matches Err(e) && e.text() == "Offline ASR model file missing: "@
                + OFFLINE_FILES[i]@
                + ". Run ASR model setup to download or import the high-accuracy transcription model."@,
        },
{
    match find_missing(there) {
        None => {
            let at = offline_file_paths(home);
            assert(text::texts(at@).len() == at@.len());
            Ok(model_paths(&at))
        },
        Some(i) => Err(
            missing_file(
                "Offline ASR model file missing: ",
                OFFLINE_FILES[i],
                ". Run ASR model setup to download or import the high-accuracy transcription model.",
            ),
        ),
    }
}

/// The file of the model that tells voices apart, or an error.
pub fn speaker_model_path(home: &str, there: bool) -> (r: Result<String, AppError>)
    ensures
        if there {
            r matches Ok(p) && p@ == paths::joined_path(
                model_folder(home@, "speaker-embedding"@),
                SPEAKER_FILE@,
            )
        } else {
            r matches Err(e) && e.text()
                == "On-device speaker model missing. Run ASR model setup to download or import the speaker-embedding model."@
        },
{
    if there {
        Ok(speaker_file_path(home))
    } else {
        Err(
            AppError::other(
                "On-device speaker model missing. Run ASR model setup to download or import the speaker-embedding model.",
            ),
        )
    }
}

/// The file of the model that finds out who spoke when, or an error.
pub fn segmentation_model_path(home: &str, there: bool) -> (r: Result<String, AppError>)
    ensures
        if there {
            r matches Ok(p) && p@ == paths::joined_path(
                model_folder(home@, SEGMENTATION_MODEL_NAME@),
                SEGMENTATION_FILE@,
            )
        } else {
            r matches Err(e) && e.text()
                == "On-device speaker-segmentation model missing. Run ASR model setup to download or import the diarization model."@
        },
{
    if there {
        Ok(segmentation_file_path(home))
    } else {
        Err(
            AppError::other(
                "On-device speaker-segmentation model missing. Run ASR model setup to download or import the diarization model.",
            ),
        )
    }
}

/// Whether the models for a meeting are there.
#[derive(Debug, PartialEq, Eq)]
pub struct AsrReadiness {
    pub asr_present: bool,
    pub speaker_present: bool,
    pub all_present: bool,
    pub size_hint: String,
}

/// Whether the models for a meeting are there: the one that transcribes and the
/// one that tells voices apart.
pub fn check_asr_readiness(asr: bool, speaker: bool) -> (r: AsrReadiness)
    ensures
        r.asr_present == asr,
        r.speaker_present == speaker,
        r.all_present == (asr && speaker),
        r.size_hint@ == "~0.3 GB"@,
{
    AsrReadiness {
        asr_present: asr,
        speaker_present: speaker,
        all_present: asr && speaker,
        size_hint: "~0.3 GB".to_owned(),
    }
}

// ---------------------------------------------------------------------------
// Taking a model from a folder
// ---------------------------------------------------------------------------

/// Where a file may be in a folder: in the folder itself, or in one of the
/// folders in it.
pub open spec fn source_candidates(
    src: Seq<char>,
    entries: Seq<Seq<char>>,
    name: Seq<char>,
) -> Seq<Seq<char>> {
    seq![paths::joined_path(src, name)] + entries.map_values(
        |e: Seq<char>| paths::joined_path(e, name),
    )
}

/// Where a file may be in a folder, given what is in the folder.
pub fn import_candidates(src: &str, entries: &Vec<String>, name: &str) -> (r: Vec<String>)
    ensures
        text::texts(r@) == source_candidates(src@, text::texts(entries@), name@),
{
    let ghost nested = text::texts(entries@).map_values(
        |e: Seq<char>| paths::joined_path(e, name@),
    );
    let mut out: Vec<String> = vec![paths::join(src, name)];
    let mut i: usize = 0;
    assert(text::texts(out@) =~= seq![paths::joined_path(src@, name@)] + nested.take(0));
    while i < entries.len()
        invariant
            i <= entries.len(),
            nested == text::texts(entries@).map_values(
                |e: Seq<char>| paths::joined_path(e, name@),
            ),
            text::texts(out@) == seq![paths::joined_path(src@, name@)] + nested.take(i as int),
        decreases entries.len() - i,
    {
        let p = paths::join(entries[i].as_str(), name);
        proof {
            text::lemma_texts_push(out@, p);
            assert(nested[i as int] == p@);
            assert(nested.take(i + 1) =~= nested.take(i as int).push(p@));
            assert((seq![paths::joined_path(src@, name@)] + nested.take(i as int)).push(p@)
                =~= seq![paths::joined_path(src@, name@)] + nested.take(i + 1));
        }
        out.push(p);
        i += 1;
    }
    assert(nested.take(i as int) =~= nested);
    out
}

/// What is wrong with a folder that lacks a file.
pub open spec fn folder_lacks(file: Seq<char>, files: Seq<Seq<char>>) -> Seq<char> {
    "Model folder is missing "@ + file + ". It must contain "@ + text::joined(files, ", "@) + "."@
}

/// The file to take: the first of its candidates that is there, or an error that
/// lists what the folder must hold.
pub fn import_source(
    candidates: &Vec<String>,
    there: &Vec<bool>,
    file: &str,
    files: &Vec<String>,
) -> (r: Result<String, AppError>)
    requires
        candidates@.len() == there@.len(),
    ensures
        match copilot::first_there(text::texts(candidates@), there@, 0) {
            Some(p) => r matches Ok(s) && s@ == p,
            None => r matches Err(e) && e.text() == folder_lacks(file@, text::texts(files@)),
        },
{
    match copilot::first_existing(candidates, there) {
        Some(p) => Ok(p),
        None => {
            let mut m = String::from_str("Model folder is missing ");
            m.append(file);
            m.append(". It must contain ");
            m.append(text::join(files, ", ").as_str());
            m.append(".");
            Err(AppError::Other(m))
        },
    }
}

/// The folder to take a model from, or an error if it is none.
pub fn import_folder(source_dir: &str, is_dir: bool) -> (r: Result<String, AppError>)
    ensures
        if is_dir {
            r matches Ok(p) && p@ == text::trimmed(source_dir@)
        } else {
            r matches Err(e) && e.text() == "Not a folder: "@ + text::trimmed(source_dir@)
        },
{
    let src = text::trim(source_dir);
    if is_dir {
        Ok(src.to_owned())
    } else {
        Err(error::message2("Not a folder: ", src))
    }
}

/// A model in the making never stands where a finished one is looked for.
pub proof fn law_staging_is_apart(home: Seq<char>)
    ensures
        model_folder(home, ".staging-asr"@) != model_folder(home, ASR_MODEL_NAME@),
        model_folder(home, ".staging-speaker"@) != model_folder(home, "speaker-embedding"@),
        model_folder(home, ".staging-offline"@) != model_folder(home, OFFLINE_MODEL_NAME@),
        model_folder(home, ".staging-segmentation"@) != model_folder(
            home,
            SEGMENTATION_MODEL_NAME@,
        ),
{
    reveal_strlit(".sediment");
    reveal_strlit("models");
    reveal_strlit(".staging-asr");
    reveal_strlit(".staging-speaker");
    reveal_strlit(".staging-offline");
    reveal_strlit(".staging-segmentation");
    reveal_strlit("speaker-embedding");
    reveal_strlit("sherpa-onnx-streaming-zipformer-en-2023-06-26");
    reveal_strlit("sherpa-onnx-nemo-parakeet-tdt-0.6b-v2-int8");
    reveal_strlit("sherpa-onnx-pyannote-segmentation-3-0");
    let base = paths::joined_path(paths::joined_path(home, ".sediment"@), "models"@);
    assert(base.last() == "models"@.last());
    lemma_join_first(base, ".staging-asr"@);
    lemma_join_first(base, ".staging-speaker"@);
    lemma_join_first(base, ".staging-offline"@);
    lemma_join_first(base, ".staging-segmentation"@);
    lemma_join_first(base, "speaker-embedding"@);
    lemma_join_first(base, ASR_MODEL_NAME@);
    lemma_join_first(base, OFFLINE_MODEL_NAME@);
    lemma_join_first(base, SEGMENTATION_MODEL_NAME@);
}

proof fn lemma_join_first(base: Seq<char>, name: Seq<char>)
    requires
        base.len() > 0,
        base.last() != '/',
        name.len() > 0,
        name[0] != '/',
    ensures
        paths::joined_path(base, name)[base.len() as int + 1] == name[0],
{
}

/// A model is kept in a folder of its name, below the user's home.
pub proof fn law_models_are_kept_below_the_home(home: Seq<char>, name: Seq<char>)
    requires
        home.len() > 0,
        home.last() != '/',
        name.len() > 0,
        name[0] != '/',
    ensures
        model_folder(home, name) == home + "/.sediment/models/"@ + name,
{
    reveal_strlit(".sediment");
    reveal_strlit("models");
    reveal_strlit("/.sediment/models/");
    let a = home + seq!['/'] + ".sediment"@;
    paths::law_joining_puts_one_slash(home, ".sediment"@);
    assert(a.last() == 't');
    paths::law_joining_puts_one_slash(a, "models"@);
    let b = a + seq!['/'] + "models"@;
    assert(b.last() == 's');
    paths::law_joining_puts_one_slash(b, name);
    assert(model_folder(home, name) =~= home + "/.sediment/models/"@ + name);
}

/// The home that `HOME` names goes before the one that `USERPROFILE` names.
pub proof fn law_home_is_the_first_named(a: Seq<char>, b: Option<Seq<char>>)
    ensures
        home_of(Some(a), b) == a,
        home_of(None, Some(a)) == a,
        home_of(None, None) == "."@,
{
}

/// An address that was set is used, without white space around it and slashes behind it;
/// one that was not set, or is blank, leaves the default.
pub proof fn law_set_addresses_are_used(u: Seq<char>, default_url: Seq<char>)
    ensures
        base_or(None, default_url) == default_url && url_or(None, default_url) == default_url,
        text::blank(u) ==> base_or(Some(u), default_url) == default_url && url_or(
            Some(u),
            default_url,
        ) == default_url,
        !text::blank(u) ==> url_or(Some(u), default_url) == text::trimmed(u),
        u.len() > 0 && !text::is_space(u[0]) && !text::is_space(u.last()) && u.last() != '/' ==> {
            &&& base_or(Some(u), default_url) == u
            &&& base_or(Some(u.push('/')), default_url) == u
            &&& url_or(Some(u), default_url) == u
        },
{
    text::law_blank_texts_are_trimmed_away(u);
    if text::blank(u) {
        assert(text::trimmed(u).len() == 0);
    }
    if u.len() > 0 && !text::is_space(u[0]) && !text::is_space(u.last()) && u.last() != '/' {
        text::law_trimming_takes_the_space_around(Seq::empty(), u, Seq::empty());
        assert(Seq::<char>::empty() + u + Seq::<char>::empty() =~= u);
        let v = u.push('/');
        assert(v[0] == u[0]);
        text::law_trimming_takes_the_space_around(Seq::empty(), v, Seq::empty());
        assert(Seq::<char>::empty() + v + Seq::<char>::empty() =~= v);
        text::law_marks_behind_are_taken_off(u, '/');
    }
}

/// The file that is named as missing is missing, and none before it is; none is named
/// just where all are there.
pub proof fn law_first_missing_file_is_named(there: Seq<bool>)
    ensures
        match first_missing(there, 0) {
            Some(i) => 0 <= i < there.len() && !there[i] && forall|k: int|
                0 <= k < i ==> #[trigger] there[k],
            None => forall|k: int| 0 <= k < there.len() ==> #[trigger] there[k],
        },
{
    lemma_first_missing(there, 0);
}

proof fn lemma_first_missing(there: Seq<bool>, i: int)
    requires
        0 <= i <= there.len(),
    ensures
        match first_missing(there, i) {
            Some(n) => i <= n < there.len() && !there[n] && forall|k: int|
                i <= k < n ==> #[trigger] there[k],
            None => forall|k: int| i <= k < there.len() ==> #[trigger] there[k],
        },
    decreases there.len() - i,
{
    if i < there.len() && there[i] {
        lemma_first_missing(there, i + 1);
    }
}

/// A file is looked for in the folder itself first, and then in the folders in it, in
/// their order.
pub proof fn law_the_folder_itself_is_looked_at_first(
    src: Seq<char>,
    entries: Seq<Seq<char>>,
    name: Seq<char>,
)
    ensures
        ({
            let c = source_candidates(src, entries, name);
            &&& c.len() == entries.len() + 1
            &&& c[0] == paths::joined_path(src, name)
            &&& forall|i: int|
                0 <= i < entries.len() ==> c[i + 1] == paths::joined_path(
                    #[trigger] entries[i],
                    name,
                )
        }),
{
}

/// Each part of a model is read from the file of its own: the encoder, the decoder, the
/// joiner and the tokens, in the order in which the files are listed.
pub proof fn law_each_part_has_its_file(p: AsrModelPaths, at: Seq<Seq<char>>)
    requires
        holds_files(p, at),
        at.len() == 4,
    ensures
        at == seq![p.encoder@, p.decoder@, p.joiner@, p.tokens@],
{
    assert(at =~= seq![p.encoder@, p.decoder@, p.joiner@, p.tokens@]);
}

} // verus!
