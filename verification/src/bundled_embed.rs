//! The model that notes are searched with, kept on the machine.
use vstd::prelude::*;
use crate::asr_model;
use crate::error::AppError;
use crate::paths;
use crate::text;

verus! {

broadcast use vstd::string::group_string_axioms;

/// The model.
pub const MODEL_NAME: &'static str = "nomic-embed-text-v1.5";

/// Its files.
pub const MODEL_FILES: [&'static str; 5] = [
    "onnx/model.onnx",
    "tokenizer.json",
    "config.json",
    "special_tokens_map.json",
    "tokenizer_config.json",
];

/// Where the model is kept.
pub fn model_dir(home: &str) -> (r: String)
    ensures
        r@ == asr_model::model_folder(home@, MODEL_NAME@),
{
    asr_model::folder(home, MODEL_NAME)
}

/// Where the model is put together, so that half a model is never loaded.
pub fn staging_dir(home: &str) -> (r: String)
    ensures
        r@ == asr_model::model_folder(home@, ".staging-nomic-embed-text-v1.5"@),
{
    asr_model::folder(home, ".staging-nomic-embed-text-v1.5")
}

/// The model's files in a folder.
pub open spec fn five_paths(dir: Seq<char>) -> Seq<Seq<char>> {
    seq![
        paths::joined_path(dir, MODEL_FILES[0]@),
        paths::joined_path(dir, MODEL_FILES[1]@),
        paths::joined_path(dir, MODEL_FILES[2]@),
        paths::joined_path(dir, MODEL_FILES[3]@),
        paths::joined_path(dir, MODEL_FILES[4]@),
    ]
}

/// The files that must be there for notes to be searched by meaning.
pub fn model_file_paths(dir: &str) -> (r: Vec<String>)
    ensures
        text::texts(r@) == five_paths(dir@),
{
    let v: Vec<String> = vec![
        paths::join(dir, MODEL_FILES[0]),
        paths::join(dir, MODEL_FILES[1]),
        paths::join(dir, MODEL_FILES[2]),
        paths::join(dir, MODEL_FILES[3]),
        paths::join(dir, MODEL_FILES[4]),
    ];
    assert(text::texts(v@) =~= five_paths(dir@));
    v
}

/// Whether the model is there: all of [`model_file_paths`] are.
pub fn present(there: &Vec<bool>) -> (r: bool)
    requires
        there@.len() == 5,
    ensures
        r == (there@[0] && there@[1] && there@[2] && there@[3] && there@[4]),
{
    asr_model::all_there(there)
}

/// What the user is told of a file that cannot be read.
pub fn unreadable(file: &str, why: &str) -> (r: AppError)
    ensures
        r.text() == "On-device model file missing or unreadable: "@ + file@ + " ("@ + why@
            + "). Run model setup to download or import the model, or switch to keyword search in Settings."@,
{
    let mut m = String::from_str("On-device model file missing or unreadable: ");
    m.append(file);
    m.append(" (");
    m.append(why);
    m.append(
        "). Run model setup to download or import the model, or switch to keyword search in Settings.",
    );
    AppError::Other(m)
}

/// Where a file may be in a folder that the model is taken from: where the model
/// has it, or in the folder itself.
pub fn import_candidates(src: &str, file: &str) -> (r: Vec<String>)
    ensures
        text::texts(r@) == match paths::name_of(file@) {
            Some(base) => seq![
                paths::joined_path(src@, file@),
                paths::joined_path(src@, base),
            ],
            None => seq![paths::joined_path(src@, file@)],
        },
{
    let direct = paths::join(src, file);
    match paths::file_name(file) {
        Some(base) => {
            let v: Vec<String> = vec![direct, paths::join(src, base.as_str())];
            assert(text::texts(v@) =~= seq![v@[0]@, v@[1]@]);
            v
        },
        None => {
            let v: Vec<String> = vec![direct];
            assert(text::texts(v@) =~= seq![v@[0]@]);
            v
        },
    }
}

/// The files of the model stand in its folder, each under its own name.
pub proof fn law_model_files_are_in_the_folder(dir: Seq<char>, i: int)
    requires
        0 <= i < 5,
    ensures
        five_paths(dir).len() == 5,
        five_paths(dir)[i] == paths::joined_path(dir, MODEL_FILES[i]@),
{
}

} // verus!
