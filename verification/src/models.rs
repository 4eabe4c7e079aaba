//! The data model: chat messages and requests, inference-server
//! configuration, model-library manifests, and the configuration error type.

use vstd::prelude::*;
use crate::json::{JsonVal, JsonValue};
use crate::strutil;

verus! {

// ---------------------------------------------------------------------------
// Chat messages and requests
// ---------------------------------------------------------------------------

/// One message of a conversation.
#[derive(Debug)]
pub struct ChatMessage {
    pub role: String,
    pub content: String,
    pub name: Option<String>,
    pub tool_call_id: Option<String>,
    pub tool_calls: Option<Vec<JsonValue>>,
}

/// The mathematical shape of a message.
pub struct ChatMessageV {
    pub role: Seq<char>,
    pub content: Seq<char>,
    pub name: Option<Seq<char>>,
    pub tool_call_id: Option<Seq<char>>,
    pub tool_calls: Option<Seq<JsonVal>>,
}

impl View for ChatMessage {
    type V = ChatMessageV;

    open spec fn view(&self) -> ChatMessageV {
        ChatMessageV {
            role: self.role@,
            content: self.content@,
            name: self.name.deep_view(),
            tool_call_id: self.tool_call_id.deep_view(),
            tool_calls: self.tool_calls.deep_view(),
        }
    }
}

/// The view of a message with the given role and content and nothing else.
pub open spec fn plain_message(role: Seq<char>, content: Seq<char>) -> ChatMessageV {
    ChatMessageV { role, content, name: None, tool_call_id: None, tool_calls: None }
}

impl ChatMessage {
    /// A message with only a role and content.
    pub fn plain(role: &str, content: String) -> (r: ChatMessage)
        ensures
            r@ == plain_message(role@, content@),
    {
        let r = ChatMessage {
            role: role.to_owned(),
            content,
            name: None,
            tool_call_id: None,
            tool_calls: None,
        };
        proof {
            assert(r.name.deep_view() == None::<Seq<char>>);
            assert(r.tool_call_id.deep_view() == None::<Seq<char>>);
            assert(r.tool_calls.deep_view() == None::<Seq<JsonVal>>);
        }
        r
    }

    /// A copy with the same view.
    pub fn dup(&self) -> (r: ChatMessage)
        ensures
            r@ == self@,
    {
        let name = match &self.name {
            Some(s) => Some(s.clone()),
            None => None,
        };
        let tool_call_id = match &self.tool_call_id {
            Some(s) => Some(s.clone()),
            None => None,
        };
        let tool_calls = match &self.tool_calls {
            Some(items) => {
                let mut out: Vec<JsonValue> = Vec::new();
                let mut i: usize = 0;
                while i < items.len()
                    invariant
                        i <= items@.len(),
                        out@.len() == i,
                        forall|j: int| 0 <= j < i ==> (#[trigger] out@[j])@ == items@[j]@,
                    decreases items@.len() - i,
                {
                    out.push(items[i].deep_clone());
                    i += 1;
                }
                proof {
                    assert(out.deep_view() =~= items.deep_view());
                }
                Some(out)
            },
            None => None,
        };
        let r = ChatMessage {
            role: self.role.clone(),
            content: self.content.clone(),
            name,
            tool_call_id,
            tool_calls,
        };
        proof {
            assert(r.name.deep_view() =~~= self.name.deep_view());
            assert(r.tool_call_id.deep_view() =~~= self.tool_call_id.deep_view());
            assert(r.tool_calls.deep_view() =~~= self.tool_calls.deep_view());
        }
        r
    }
}

/// Copy a whole history, keeping every message's view.
pub fn dup_messages(ms: &Vec<ChatMessage>) -> (r: Vec<ChatMessage>)
    ensures
        r@.map_values(|m: ChatMessage| m@) == ms@.map_values(|m: ChatMessage| m@),
{
    let mut out: Vec<ChatMessage> = Vec::new();
    let mut i: usize = 0;
    while i < ms.len()
        invariant
            i <= ms@.len(),
            out@.len() == i,
            forall|j: int| 0 <= j < i ==> (#[trigger] out@[j])@ == ms@[j]@,
        decreases ms@.len() - i,
    {
        out.push(ms[i].dup());
        i += 1;
    }
    proof {
        assert(out@.map_values(|m: ChatMessage| m@) =~= ms@.map_values(|m: ChatMessage| m@));
    }
    out
}

/// One request to the inference server. Sampling temperatures are carried
/// in thousandths, so that the core stays free of floating point; the
/// application layer converts at the HTTP edge.
pub struct ChatRequest {
    pub model: String,
    pub session_id: Option<String>,
    pub messages: Vec<ChatMessage>,
    pub temperature_milli: u32,
    pub top_p_milli: u32,
    pub top_k: i32,
    pub max_tokens: i32,
    pub tools: Option<Vec<JsonValue>>,
    pub tool_choice: Option<JsonValue>,
    pub stream: bool,
}

impl ChatRequest {
    /// The request the facade builds: model name fixed, tools absent.
    pub fn build(
        session_id: Option<String>,
        messages: Vec<ChatMessage>,
        temperature_milli: u32,
        top_p_milli: u32,
        top_k: i32,
        max_tokens: i32,
        stream: bool,
    ) -> (r: ChatRequest)
        ensures
            r.model@ == "unknown"@,
            r.session_id.deep_view() == session_id.deep_view(),
            r.messages@.map_values(|m: ChatMessage| m@) == messages@.map_values(
                |m: ChatMessage| m@,
            ),
            r.temperature_milli == temperature_milli,
            r.top_p_milli == top_p_milli,
            r.top_k == top_k,
            r.max_tokens == max_tokens,
            r.tools is None,
            r.tool_choice is None,
            r.stream == stream,
    {
        ChatRequest {
            model: "unknown".to_owned(),
            session_id,
            messages,
            temperature_milli,
            top_p_milli,
            top_k,
            max_tokens,
            tools: None,
            tool_choice: None,
            stream,
        }
    }
}

/// One choice of a non-streaming completion.
pub struct ChatChoice {
    pub message: ChatMessage,
    pub finish_reason: String,
}

/// A non-streaming completion response.
pub struct ChatResponse {
    pub choices: Vec<ChatChoice>,
    pub usage: JsonValue,
}

// ---------------------------------------------------------------------------
// Inference-server identity and configuration
// ---------------------------------------------------------------------------

/// Opaque key naming one inference-server instance.
pub struct ModelId(pub String);

impl View for ModelId {
    type V = Seq<char>;

    open spec fn view(&self) -> Seq<char> {
        self.0@
    }
}

impl ModelId {
    /// A copy with the same view.
    pub fn dup(&self) -> (r: ModelId)
        ensures
            r@ == self@,
    {
        ModelId(self.0.clone())
    }

    /// The identifier as text, as it is shown to users.
    pub fn display_string(&self) -> (r: String)
        ensures
            r@ == self@,
    {
        self.0.clone()
    }
}

/// Launch settings for the inference server.
pub struct LlamaCppConfig {
    pub llama_cpp_path: String,
    pub model_path: String,
    pub port: u16,
    pub ctx_size: u32,
    pub parallel: u32,
    pub n_gpu_layers: i32,
}

/// The mathematical shape of a launch configuration.
pub struct LlamaCppConfigV {
    pub llama_cpp_path: Seq<char>,
    pub model_path: Seq<char>,
    pub port: u16,
    pub ctx_size: u32,
    pub parallel: u32,
    pub n_gpu_layers: i32,
}

impl View for LlamaCppConfig {
    type V = LlamaCppConfigV;

    open spec fn view(&self) -> LlamaCppConfigV {
        LlamaCppConfigV {
            llama_cpp_path: self.llama_cpp_path@,
            model_path: self.model_path@,
            port: self.port,
            ctx_size: self.ctx_size,
            parallel: self.parallel,
            n_gpu_layers: self.n_gpu_layers,
        }
    }
}

impl LlamaCppConfig {
    /// A copy with the same view.
    pub fn dup(&self) -> (r: LlamaCppConfig)
        ensures
            r@ == self@,
    {
        LlamaCppConfig {
            llama_cpp_path: self.llama_cpp_path.clone(),
            model_path: self.model_path.clone(),
            port: self.port,
            ctx_size: self.ctx_size,
            parallel: self.parallel,
            n_gpu_layers: self.n_gpu_layers,
        }
    }
}

// ---------------------------------------------------------------------------
// Model-library manifests
// ---------------------------------------------------------------------------

/// One layer of a model manifest.
#[derive(Debug)]
pub struct ManifestLayer {
    pub media_type: String,
    pub digest: String,
    pub size: u64,
}

/// The mathematical shape of a layer.
pub struct ManifestLayerV {
    pub media_type: Seq<char>,
    pub digest: Seq<char>,
    pub size: u64,
}

impl View for ManifestLayer {
    type V = ManifestLayerV;

    open spec fn view(&self) -> ManifestLayerV {
        ManifestLayerV { media_type: self.media_type@, digest: self.digest@, size: self.size }
    }
}

/// The config entry of a model manifest.
pub struct ManifestConfig {
    pub media_type: String,
    pub digest: String,
    pub size: u64,
}

/// A model manifest, as the library directory stores it.
pub struct ModelManifest {
    pub schema_version: u32,
    pub media_type: String,
    pub config: ManifestConfig,
    pub layers: Vec<ManifestLayer>,
}

/// One entry of the model library.
pub struct ModelInfo {
    pub provider: String,
    pub library: String,
    pub name: String,
    pub version: String,
    pub manifest: ModelManifest,
    pub model_file_path: Option<String>,
    pub full_identifier: String,
}

/// The model library: every model the application knows of.
pub struct ModelLibrary {
    pub models: Vec<ModelInfo>,
}

// ---------------------------------------------------------------------------
// Configuration errors
// ---------------------------------------------------------------------------

/// What can go wrong reading or writing the configuration file.
#[derive(Debug)]
pub enum ConfigError {
    Io(String),
    NotFound,
    Parse(String),
}

impl ConfigError {
    /// The error as text, one distinguishable prefix per variant.
    pub fn message(&self) -> (r: String)
        ensures
            match self {
                ConfigError::Io(e) => r@ == "IO error: "@ + e@,
                ConfigError::NotFound => r@ == "Config not found"@,
                ConfigError::Parse(e) => r@ == "Parse error: "@ + e@,
            },
    {
        match self {
            ConfigError::Io(e) => {
                let mut s = "IO error: ".to_owned();
                s.append(e.as_str());
                s
            },
            ConfigError::NotFound => "Config not found".to_owned(),
            ConfigError::Parse(e) => {
                let mut s = "Parse error: ".to_owned();
                s.append(e.as_str());
                s
            },
        }
    }
}

// ---------------------------------------------------------------------------
// Model-path parsing
// ---------------------------------------------------------------------------

/// Replace every `:` in a digest with `-`, giving the blob file name.
pub fn digest_to_blob_filename(digest: &str) -> (r: String)
    ensures
        r@ == digest@.map_values(|c: char| if c == ':' { '-' } else { c }),
{
    strutil::replace_char(digest, ':', '-')
}

/// Where the blob for `digest` would lie under the models root.
pub fn model_blob_path(models_root: &str, digest: &str) -> (r: String)
    ensures
        r@ == models_root@ + "/blobs/"@ + digest@.map_values(
            |c: char| if c == ':' { '-' } else { c },
        ),
{
    let mut s = models_root.to_owned();
    s.append("/blobs/");
    let blob = digest_to_blob_filename(digest);
    s.append(blob.as_str());
    s
}

/// The normalised components of a path: the pieces between `/` separators,
/// empty pieces and `.` dropped.
pub open spec fn path_components_spec(s: Seq<char>) -> Seq<Seq<char>> {
    strutil::sep_tokens(s, '/').filter(|t: Seq<char>| t != "."@)
}

/// Split a path into its components.
pub fn path_components(s: &str) -> (r: Vec<String>)
    ensures
        r@.map_values(|t: String| t@) == path_components_spec(s@),
{
    let raw = strutil::split_sep(s, '/');
    let ghost rawv = raw@.map_values(|t: String| t@);
    let mut out: Vec<String> = Vec::new();
    let mut i: usize = 0;
    proof {
        assert(rawv.subrange(0, 0).filter(|t: Seq<char>| t != "."@) =~= out@.map_values(
            |t: String| t@,
        ));
    }
    while i < raw.len()
        invariant
            i <= raw@.len(),
            rawv == raw@.map_values(|t: String| t@),
            out@.map_values(|t: String| t@) == rawv.subrange(0, i as int).filter(
                |t: Seq<char>| t != "."@,
            ),
        decreases raw@.len() - i,
    {
        let ghost pre = out@.map_values(|t: String| t@);
        let keep = !strutil::eq_str(raw[i].as_str(), ".");
        if keep {
            let piece = raw[i].clone();
            out.push(piece);
        }
        i += 1;
        proof {
            let prefix = rawv.subrange(0, i as int);
            assert(prefix.drop_last() =~= rawv.subrange(0, i - 1));
            reveal_with_fuel(Seq::filter, 2);
            assert(prefix.last() == rawv[i - 1]);
            if keep {
                assert(out@.map_values(|t: String| t@) =~= pre.push(rawv[i - 1]));
                assert(out@.map_values(|t: String| t@) =~= prefix.filter(
                    |t: Seq<char>| t != "."@,
                ));
            } else {
                assert(out@.map_values(|t: String| t@) =~= prefix.filter(
                    |t: Seq<char>| t != "."@,
                ));
            }
        }
    }
    proof {
        assert(rawv.subrange(0, i as int) =~= rawv);
    }
    out
}

/// Extract provider, library, name and version from a manifest path of the
/// form `.../manifests/{provider}/{library}/{name}/{version}`.
pub fn parse_model_path(model_path: &str) -> (r: Result<
    (String, String, String, String),
    String,
>)
    ensures
        ({
            let cs = path_components_spec(model_path@);
            match r {
                Ok((p, l, n, v)) => exists|k: int|
                    0 <= k && k + 4 < cs.len() && #[trigger] cs[k] == "manifests"@ && (forall|
                        j: int,
                    |
                        0 <= j < k ==> cs[j] != "manifests"@) && p@ == cs[k + 1] && l@ == cs[k
                        + 2] && n@ == cs[k + 3] && v@ == cs[k + 4],
                Err(e) => {
                    ||| (forall|k: int| 0 <= k < cs.len() ==> cs[k] != "manifests"@) && e@
                        == "Path must contain 'manifests' folder"@
                    ||| (exists|k: int|
                        0 <= k && k + 4 >= cs.len() && #[trigger] cs[k] == "manifests"@ && (
                        forall|j: int|
                            0 <= j < k ==> cs[j] != "manifests"@)) && e@
                        == "Invalid path structure. Expected: .../manifests/{provider}/{library}/{name}/{version}"@
                },
            }
        }),
{
    let components = path_components(model_path);
    let ghost cs = components@.map_values(|t: String| t@);
    let mut idx: usize = 0;
    let mut found = false;
    while idx < components.len() && !found
        invariant
            idx <= cs.len(),
            cs == components@.map_values(|t: String| t@),
            !found ==> forall|j: int| 0 <= j < idx ==> cs[j] != "manifests"@,
            found ==> idx < cs.len() && cs[idx as int] == "manifests"@ && forall|j: int|
                0 <= j < idx ==> cs[j] != "manifests"@,
        decreases cs.len() - idx + (if found { 0int } else { 1int }),
    {
        if strutil::eq_str(components[idx].as_str(), "manifests") {
            found = true;
        } else {
            idx += 1;
        }
    }
    if !found {
        return Err("Path must contain 'manifests' folder".to_owned());
    }
    if components.len() - idx < 5 {
        return Err(
            "Invalid path structure. Expected: .../manifests/{provider}/{library}/{name}/{version}".to_owned(),
        );
    }
    let provider = components[idx + 1].clone();
    let library = components[idx + 2].clone();
    let name = components[idx + 3].clone();
    let version = components[idx + 4].clone();
    Ok((provider, library, name, version))
}

/// The full identifier `{provider}:{name}:{version}`.
pub fn full_identifier(provider: &str, name: &str, version: &str) -> (r: String)
    ensures
        r@ == provider@ + ":"@ + name@ + ":"@ + version@,
{
    let mut s = provider.to_owned();
    s.append(":");
    s.append(name);
    s.append(":");
    s.append(version);
    s
}

/// Whether a layer's media type marks the model weights themselves.
pub open spec fn is_model_layer(l: ManifestLayerV) -> bool {
    strutil::contains_seq(l.media_type, "ollama.image.model"@)
}

/// The first layer carrying the model weights; the error every caller
/// surfaces when there is none.
pub fn find_model_layer<'a>(layers: &'a Vec<ManifestLayer>) -> (r: Result<
    &'a ManifestLayer,
    String,
>)
    ensures
        match r {
            Ok(l) => exists|k: int|
                0 <= k < layers@.len() && is_model_layer(#[trigger] layers@[k]@) && l@
                    == layers@[k]@ && forall|j: int|
                    0 <= j < k ==> !is_model_layer(#[trigger] layers@[j]@),
            Err(e) => (forall|k: int|
                0 <= k < layers@.len() ==> !is_model_layer(#[trigger] layers@[k]@)) && e@
                == "No model layer found in manifest"@,
        },
{
    let mut i: usize = 0;
    while i < layers.len()
        invariant
            i <= layers@.len(),
            forall|j: int| 0 <= j < i ==> !is_model_layer(#[trigger] layers@[j]@),
        decreases layers@.len() - i,
    {
        if strutil::contains_sub(layers[i].media_type.as_str(), "ollama.image.model") {
            proof {
                assert(is_model_layer(layers@[i as int]@));
            }
            return Ok(&layers[i]);
        }
        i += 1;
    }
    Err("No model layer found in manifest".to_owned())
}

} // verus!
