//! Which model is served. Configurations of other models than Qwen3 are refused early.
use crate::text;
use vstd::prelude::*;

verus! {

#[derive(Debug, Clone, Copy, PartialEq, Eq, Structural)]
pub enum ModelType {
    Auto,
    Qwen3,
}

#[derive(Debug, Clone, Copy, PartialEq, Eq, Structural)]
pub enum ModelFormat {
    Auto,
    Safetensors,
    Gguf,
}

/// The part of a model's configuration that names its architecture.
#[derive(Debug, Clone)]
pub struct HfConfig {
    pub model_type: Option<String>,
    pub architectures: Option<Vec<String>>,
}

/// The model is none that can be served.
#[derive(Debug, Clone, Copy, PartialEq, Eq, Structural)]
pub struct UnsupportedModel;

impl UnsupportedModel {
    /// What the user is told.
    pub fn message(&self) -> (result: &'static str)
        ensures
            result@
                == "only Qwen3 inference is supported; pass --model-type qwen3 or use a Qwen3 model path"@,
    {
        "only Qwen3 inference is supported; pass --model-type qwen3 or use a Qwen3 model path"
    }
}

impl ModelType {
    /// The type with this lower-case name.
    pub open spec fn with_name(name: Seq<char>) -> ModelType {
        if name == "qwen3"@ {
            ModelType::Qwen3
        } else {
            ModelType::Auto
        }
    }

    /// The type with this lower-case name.
    pub fn named(name: &str) -> (result: Self)
        ensures
            result == ModelType::with_name(name@),
    {
        if text::same_text(name, "qwen3") {
            ModelType::Qwen3
        } else {
            ModelType::Auto
        }
    }

    /// The type with this name, in any case.
    pub fn from_str(s: &str) -> (result: Self)
        ensures
            result == ModelType::with_name(text::lowercased(s@)),
    {
        let name = text::to_lowercase(s);
        ModelType::named(name.as_str())
    }

    pub fn display_name(&self) -> (result: &'static str)
        ensures
            result@ == match self {
                ModelType::Auto => "auto"@,
                ModelType::Qwen3 => "qwen3"@,
            },
    {
        match self {
            ModelType::Auto => "auto",
            ModelType::Qwen3 => "qwen3",
        }
    }
}

impl ModelFormat {
    /// The format with this lower-case name.
    pub open spec fn with_name(name: Seq<char>) -> ModelFormat {
        if name == "safetensors"@ {
            ModelFormat::Safetensors
        } else if name == "gguf"@ {
            ModelFormat::Gguf
        } else {
            ModelFormat::Auto
        }
    }

    /// The format with this lower-case name.
    pub fn named(name: &str) -> (result: Self)
        ensures
            result == ModelFormat::with_name(name@),
    {
        if text::same_text(name, "safetensors") {
            ModelFormat::Safetensors
        } else if text::same_text(name, "gguf") {
            ModelFormat::Gguf
        } else {
            ModelFormat::Auto
        }
    }

    /// The format with this name, in any case.
    pub fn from_str(s: &str) -> (result: Self)
        ensures
            result == ModelFormat::with_name(text::lowercased(s@)),
    {
        let name = text::to_lowercase(s);
        ModelFormat::named(name.as_str())
    }
}

/// The lower-case name speaks of Qwen3.
pub open spec fn names_qwen3(lowered: Seq<char>) -> bool {
    text::occurs(lowered, "qwen3"@)
}

/// Whether a lower-case name speaks of Qwen3.
pub fn is_qwen3_name(lowered: &str) -> (result: bool)
    ensures
        result == names_qwen3(lowered@),
{
    text::contains(lowered, "qwen3")
}

/// Some name speaks of Qwen3.
pub open spec fn some_names_qwen3(names: Seq<String>) -> bool {
    exists|i: int| 0 <= i < names.len() && names_qwen3(text::lowercased((#[trigger] names[i])@))
}

/// The configuration is one of Qwen3.
pub open spec fn config_names_qwen3(config: HfConfig) -> bool {
    ||| config.model_type matches Some(name) && text::same_but_case(name@, "qwen3"@)
    ||| config.architectures matches Some(names) && some_names_qwen3(names@)
}

fn is_qwen3_config(config: &HfConfig) -> (result: bool)
    ensures
        result == config_names_qwen3(*config),
{
    if let Some(name) = &config.model_type {
        if text::eq_ignore_case(name.as_str(), "qwen3") {
            return true;
        }
    }
    if let Some(names) = &config.architectures {
        let mut i: usize = 0;
        while i < names.len()
            invariant
                i <= names@.len(),
                config.architectures == Some(*names),
                forall|j: int|
                    0 <= j < i ==> !names_qwen3(text::lowercased((#[trigger] names@[j])@)),
            decreases names@.len() - i,
        {
            let lowered = text::to_lowercase(names[i].as_str());
            if is_qwen3_name(lowered.as_str()) {
                assert(some_names_qwen3(names@));
                return true;
            }
            i = i + 1;
        }
    }
    false
}

/// The type of the model at a path, with its configuration if there is one: Qwen3 if either
/// says so.
pub fn detect_model_type(model_path: &str, config: Option<&HfConfig>) -> (result: Result<
    ModelType,
    UnsupportedModel,
>)
    ensures
        result == if (config matches Some(config) && config_names_qwen3(*config)) || names_qwen3(
            text::lowercased(model_path@),
        ) {
            Ok::<ModelType, UnsupportedModel>(ModelType::Qwen3)
        } else {
            Err(UnsupportedModel)
        },
{
    if let Some(config) = config {
        if is_qwen3_config(config) {
            return Ok(ModelType::Qwen3);
        }
    }
    let lowered = text::to_lowercase(model_path);
    if is_qwen3_name(lowered.as_str()) {
        Ok(ModelType::Qwen3)
    } else {
        Err(UnsupportedModel)
    }
}

/// The type that was asked for, or the one that is detected.
pub fn resolve(model_type: ModelType, model_path: &str, config: Option<&HfConfig>) -> (result:
    Result<ModelType, UnsupportedModel>)
    ensures
        result == if model_type == ModelType::Qwen3 || (config matches Some(config)
            && config_names_qwen3(*config)) || names_qwen3(text::lowercased(model_path@)) {
            Ok::<ModelType, UnsupportedModel>(ModelType::Qwen3)
        } else {
            Err(UnsupportedModel)
        },
{
    match model_type {
        ModelType::Auto => detect_model_type(model_path, config),
        ModelType::Qwen3 => Ok(ModelType::Qwen3),
    }
}

/// A path names the model wherever the name stands in it, and only where it does.
pub proof fn law_name_counts_anywhere(before: Seq<char>, after: Seq<char>, lowered: Seq<char>)
    ensures
        names_qwen3(before + "qwen3"@ + after),
        names_qwen3(lowered) ==> exists|head: Seq<char>, tail: Seq<char>|
            lowered == #[trigger] (head + "qwen3"@ + tail),
{
    text::law_occurrence_is_a_part(before + "qwen3"@ + after, "qwen3"@);
    text::law_occurrence_is_a_part(lowered, "qwen3"@);
}

/// A configuration names the model by its type, or by any one of its architectures.
pub proof fn law_any_architecture_counts(config: HfConfig, names: Vec<String>, i: int)
    requires
        config.architectures == Some(names),
        0 <= i < names@.len(),
    ensures
        names_qwen3(text::lowercased(names@[i]@)) ==> config_names_qwen3(config),
        config_names_qwen3(config) && (config.model_type is None) ==> exists|k: int|
            0 <= k < names@.len() && names_qwen3(text::lowercased((#[trigger] names@[k])@)),
{
}

} // verus!
