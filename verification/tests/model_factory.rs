//! Model resolution.
use crane_oai::engine::model_factory::{
    detect_model_type, resolve, HfConfig, ModelFormat, ModelType, UnsupportedModel,
};


#[test]
fn model_type_from_str_accepts_qwen3() {
    assert_eq!(ModelType::from_str("qwen3"), ModelType::Qwen3);
    assert_eq!(ModelType::from_str("QWEN3"), ModelType::Qwen3);
}

#[test]
fn model_type_from_str_non_qwen3_is_auto() {
    assert_eq!(ModelType::from_str("other"), ModelType::Auto);
    assert_eq!(ModelType::from_str("unsupported"), ModelType::Auto);
}

#[test]
fn model_format_from_str() {
    assert_eq!(
        ModelFormat::from_str("safetensors"),
        ModelFormat::Safetensors
    );
    assert_eq!(ModelFormat::from_str("gguf"), ModelFormat::Gguf);
    assert_eq!(ModelFormat::from_str("other"), ModelFormat::Auto);
}

#[test]
fn detect_path_heuristic_qwen3() {
    let result = detect_model_type("/models/Qwen3-1.7B", None).unwrap();
    assert_eq!(result, ModelType::Qwen3);
}

#[test]
fn detect_path_heuristic_rejects_non_qwen3() {
    let result = detect_model_type("/models/unsupported-model", None);
    assert!(result.is_err());
}

#[test]
fn resolve_explicit_qwen3() {
    let result = resolve(ModelType::Qwen3, "/models/whatever", None).unwrap();
    assert_eq!(result, ModelType::Qwen3);
}

#[test]
fn configuration_decides_before_the_path() {
    let by_type = HfConfig { model_type: Some("QWEN3".into()), architectures: None };
    assert_eq!(detect_model_type("/models/x", Some(&by_type)), Ok(ModelType::Qwen3));
    let by_architecture = HfConfig {
        model_type: Some("qwen3_moe".into()),
        architectures: Some(vec!["Other".into(), "Qwen3ForCausalLM".into()]),
    };
    assert_eq!(detect_model_type("/models/x", Some(&by_architecture)), Ok(ModelType::Qwen3));
    let other = HfConfig {
        model_type: Some("llama".into()),
        architectures: Some(vec!["LlamaForCausalLM".into()]),
    };
    assert_eq!(detect_model_type("/models/x", Some(&other)), Err(UnsupportedModel));
    assert_eq!(detect_model_type("/models/my-QWEN3", Some(&other)), Ok(ModelType::Qwen3));
    assert_eq!(resolve(ModelType::Auto, "/models/x", Some(&other)), Err(UnsupportedModel));
}

#[test]
fn names_and_messages() {
    assert_eq!(ModelType::Auto.display_name(), "auto");
    assert_eq!(ModelType::Qwen3.display_name(), "qwen3");
    assert_eq!(ModelType::named("qwen3"), ModelType::Qwen3);
    assert_eq!(ModelType::named("QWEN3"), ModelType::Auto);
    assert_eq!(ModelFormat::from_str("GGUF"), ModelFormat::Gguf);
    assert_eq!(
        UnsupportedModel.message(),
        "only Qwen3 inference is supported; pass --model-type qwen3 or use a Qwen3 model path"
    );
}
