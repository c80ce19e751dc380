//! The fixed artifact manifest: which files make a complete model.

use vstd::prelude::*;

verus! {

/// How many files the model manifest lists.
pub const MODEL_FILE_COUNT: usize = 6;

/// The model directory's required files, in download order: preprocessor
/// weights, the encoder graph and its external weights blob, decoder-joint
/// weights, the vocabulary table, and the metadata file.
pub fn manifest_files() -> (r: Vec<&'static str>)
    ensures
        r@.len() == MODEL_FILE_COUNT,
        r@[0]@ == "nemo128.onnx"@,
        r@[1]@ == "encoder-model.onnx"@,
        r@[2]@ == "encoder-model.onnx.data"@,
        r@[3]@ == "decoder_joint-model.onnx"@,
        r@[4]@ == "vocab.txt"@,
        r@[5]@ == "config.json"@,
{
    let mut r: Vec<&'static str> = Vec::new();
    r.push("nemo128.onnx");
    r.push("encoder-model.onnx");
    r.push("encoder-model.onnx.data");
    r.push("decoder_joint-model.onnx");
    r.push("vocab.txt");
    r.push("config.json");
    r
}

/// Whether every manifest file is present: presence of all files is the sole
/// "downloaded" signal, with no checksum verification.
pub fn are_models_downloaded(present: &Vec<bool>) -> (r: bool)
    ensures
        r == forall|i: int| 0 <= i < present@.len() ==> #[trigger] present@[i],
{
    let mut i: usize = 0;
    while i < present.len()
        invariant
            i <= present@.len(),
            forall|j: int| 0 <= j < i ==> #[trigger] present@[j],
        decreases present@.len() - i,
    {
        if !present[i] {
            return false;
        }
        i = i + 1;
    }
    true
}

} // verus!
