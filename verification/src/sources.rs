//! Where the model files of each runtime can be downloaded, and where the
//! desktop app keeps them.
use vstd::prelude::*;
use crate::text_util::{append_chars, chars_of, string_of};

verus! {

/// The release tag of the Blue model bundle.
pub const BLUE_MODELS_TAG: &'static str = "blue-onnx-v2";

/// Where the Blue model files are downloaded from.
pub const BLUE_MODEL_BASE_URL: &'static str = "https://huggingface.co/notmax123/blue-onnx-v2/resolve/main";

/// Where the plain-Hebrew G2P model is downloaded from.
pub const RENIKUD_URL: &'static str = "https://huggingface.co/thewh1teagle/renikud/resolve/main/model.onnx";

/// One downloadable file of a bundle.
#[derive(Clone, Debug, PartialEq, Eq)]
pub struct ModelSourceFile {
    pub name: &'static str,
    pub url: String,
}

/// One runtime's model bundle.
#[derive(Clone, Debug, PartialEq, Eq)]
pub struct ModelSource {
    pub id: &'static str,
    pub name: &'static str,
    pub version: &'static str,
    pub size: &'static str,
    pub description: &'static str,
    pub files: Vec<ModelSourceFile>,
    pub archive_url: Option<&'static str>,
    pub directory: &'static str,
}

/// Every runtime's bundle, the voices archive and the desktop app's default
/// model directories.
#[derive(Clone, Debug, PartialEq, Eq)]
pub struct ModelSourcesResponse {
    pub runtimes: Vec<ModelSource>,
    pub voices_url: &'static str,
    pub default_paths: Vec<&'static str>,
}

/// The files of the Blue bundle, in order.
pub open spec fn blue_bundle_files() -> Seq<Seq<char>> {
    seq![
        "duration_predictor.onnx"@,
        "text_encoder.onnx"@,
        "vector_estimator.onnx"@,
        "vocoder.onnx"@,
        "vocab.json"@,
        "tts.json"@,
        "voices/female1.json"@,
        "voices/male1.json"@,
        "renikud.onnx"@,
    ]
}

fn bundle_file(name: &'static str) -> (f: ModelSourceFile)
    ensures
        f.name@ == name@,
        f.url@ == BLUE_MODEL_BASE_URL@ + "/"@ + name@,
{
    let mut url = chars_of(BLUE_MODEL_BASE_URL);
    url.push('/');
    let n = chars_of(name);
    append_chars(&mut url, n.as_slice());
    proof {
        reveal_strlit("/");
    }
    assert(url@ == BLUE_MODEL_BASE_URL@ + "/"@ + name@);
    ModelSourceFile { name, url: string_of(url.as_slice()) }
}

/// The model sources that the service advertises: one complete Blue bundle
/// (the ONNX models, vocabulary, configuration, both voices and the
/// plain-Hebrew G2P model) and the desktop app's default model directories.
pub fn model_sources() -> (r: ModelSourcesResponse)
    ensures
        r.runtimes@.len() == 1,
        r.runtimes@[0].id@ == "blue"@,
        r.runtimes@[0].name@ == "BlueTTS"@,
        r.runtimes@[0].version@ == BLUE_MODELS_TAG@,
        r.runtimes@[0].size@ == "~275 MB"@,
        r.runtimes@[0].description@ == "Fast local multilingual speech with Hebrew, English, Spanish, German, and Italian."@,
        r.runtimes@[0].archive_url is None,
        r.runtimes@[0].directory@ == "blue-onnx-v2"@,
        r.runtimes@[0].files@.len() == 9,
        forall|i: int| 0 <= i < 9 ==> #[trigger] r.runtimes@[0].files@[i].name@ == blue_bundle_files()[i],
        forall|i: int| 0 <= i < 8 ==> #[trigger] r.runtimes@[0].files@[i].url@ == BLUE_MODEL_BASE_URL@ + "/"@ + blue_bundle_files()[i],
        r.runtimes@[0].files@[8].url@ == RENIKUD_URL@,
        r.voices_url@ == ""@,
        r.default_paths@.len() == 3,
        r.default_paths@[0]@ == "macOS: ~/Library/Application Support/com.maxmelichov.mamborambo/models"@,
        r.default_paths@[1]@ == "Windows: %LOCALAPPDATA%\\com.maxmelichov.mamborambo\\models"@,
        r.default_paths@[2]@ == "Linux: ~/.local/share/com.maxmelichov.mamborambo/models"@,
{
    let mut files: Vec<ModelSourceFile> = Vec::new();
    files.push(bundle_file("duration_predictor.onnx"));
    files.push(bundle_file("text_encoder.onnx"));
    files.push(bundle_file("vector_estimator.onnx"));
    files.push(bundle_file("vocoder.onnx"));
    files.push(bundle_file("vocab.json"));
    files.push(bundle_file("tts.json"));
    files.push(bundle_file("voices/female1.json"));
    files.push(bundle_file("voices/male1.json"));
    files.push(ModelSourceFile { name: "renikud.onnx", url: RENIKUD_URL.to_owned() });
    let blue = ModelSource {
        id: "blue",
        name: "BlueTTS",
        version: BLUE_MODELS_TAG,
        size: "~275 MB",
        description: "Fast local multilingual speech with Hebrew, English, Spanish, German, and Italian.",
        files,
        archive_url: None,
        directory: "blue-onnx-v2",
    };
    let mut runtimes: Vec<ModelSource> = Vec::new();
    runtimes.push(blue);
    let mut default_paths: Vec<&'static str> = Vec::new();
    default_paths.push("macOS: ~/Library/Application Support/com.maxmelichov.mamborambo/models");
    default_paths.push("Windows: %LOCALAPPDATA%\\com.maxmelichov.mamborambo\\models");
    default_paths.push("Linux: ~/.local/share/com.maxmelichov.mamborambo/models");
    ModelSourcesResponse { runtimes, voices_url: "", default_paths }
}

} // verus!
