use ips_gui::comfyui::{extract_details_from_workflow, extract_from_workflow};
use ips_gui::json::JsonValue;

fn model(v: serde_json::Value) -> JsonValue {
    match v {
        serde_json::Value::Null => JsonValue::Null,
        serde_json::Value::Bool(b) => JsonValue::Bool(b),
        serde_json::Value::Number(n) => JsonValue::Number(n.to_string()),
        serde_json::Value::String(s) => JsonValue::String(s),
        serde_json::Value::Array(a) => JsonValue::Array(a.into_iter().map(model).collect()),
        serde_json::Value::Object(o) => {
            JsonValue::Object(o.into_iter().map(|(k, x)| (k, model(x))).collect())
        }
    }
}

fn workflow(text: &str) -> JsonValue {
    model(serde_json::from_str(text).unwrap())
}

#[test]
fn extracts_clip_text_encode() {
    let workflow = workflow(
        r#"{
            "1": { "class_type": "CLIPTextEncode", "inputs": { "text": "a beautiful sunset over the ocean" } },
            "2": { "class_type": "CLIPTextEncode", "inputs": { "text": "ugly, blurry, low quality" } }
        }"#,
    );
    let prompts = extract_from_workflow(&workflow);
    assert_eq!(prompts.len(), 2);
    assert!(prompts.contains(&"a beautiful sunset over the ocean".to_string()));
    assert!(prompts.contains(&"ugly, blurry, low quality".to_string()));
}

#[test]
fn extracts_sdxl_text_g_and_l() {
    let workflow = workflow(
        r#"{
            "3": {
                "class_type": "CLIPTextEncodeSDXL",
                "inputs": { "text_g": "a detailed landscape", "text_l": "soft lighting, 4k" }
            }
        }"#,
    );
    let prompts = extract_from_workflow(&workflow);
    assert_eq!(prompts.len(), 2);
}

#[test]
fn deduplicates_identical_prompts() {
    let workflow = workflow(
        r#"{
            "1": { "class_type": "CLIPTextEncode", "inputs": { "text": "same prompt" } },
            "2": { "class_type": "CLIPTextEncode", "inputs": { "text": "same prompt" } }
        }"#,
    );
    let prompts = extract_from_workflow(&workflow);
    assert_eq!(prompts.len(), 1);
}

#[test]
fn ignores_non_text_nodes() {
    let workflow = workflow(
        r#"{ "1": { "class_type": "KSampler", "inputs": { "steps": 20, "cfg": 7.0 } } }"#,
    );
    let prompts = extract_from_workflow(&workflow);
    assert!(prompts.is_empty());
}

#[test]
fn extracts_qwen_prompt_field() {
    let workflow = workflow(
        r#"{ "1": { "class_type": "TextEncodeQwenImageEditPlus", "inputs": { "prompt": "edit prompt text" } } }"#,
    );
    let prompts = extract_from_workflow(&workflow);
    assert_eq!(prompts, vec!["edit prompt text".to_string()]);
}

#[test]
fn extracts_structured_details_from_ksampler() {
    let workflow = workflow(
        r#"{
            "1": { "class_type": "CheckpointLoaderSimple", "inputs": { "ckpt_name": "model.safetensors" } },
            "2": {
                "class_type": "LoraLoader",
                "inputs": { "lora_name": "style.safetensors", "strength_model": 0.7, "strength_clip": 0.7 }
            },
            "3": { "class_type": "CLIPTextEncode", "inputs": { "text": "positive text" } },
            "4": { "class_type": "CLIPTextEncode", "inputs": { "text": "negative text" } },
            "5": { "class_type": "KSampler", "inputs": { "positive": ["3", 0], "negative": ["4", 0] } }
        }"#,
    );

    let details = extract_details_from_workflow(&workflow);
    assert_eq!(details.model.as_deref(), Some("model.safetensors"));
    assert_eq!(details.loras[0].name, "style.safetensors");
    assert_eq!(details.loras[0].weight, "0.7");
    assert_eq!(details.positive_prompt.as_deref(), Some("positive text"));
    assert_eq!(details.negative_prompt.as_deref(), Some("negative text"));
}

#[test]
fn extracts_enabled_rgthree_loras() {
    let workflow = workflow(
        r#"{
            "1": {
                "class_type": "Power Lora Loader (rgthree)",
                "inputs": {
                    "lora_1": { "on": false, "lora": "off.safetensors", "strength": 0.3 },
                    "lora_2": { "on": true, "lora": "on.safetensors", "strength": 0.5 }
                }
            }
        }"#,
    );

    let details = extract_details_from_workflow(&workflow);
    assert_eq!(details.loras.len(), 1);
    assert_eq!(details.loras[0].name, "on.safetensors");
    assert_eq!(details.loras[0].weight, "0.5");
}

#[test]
fn traces_conditioning_through_other_nodes() {
    let workflow = workflow(
        r#"{
            "1": { "class_type": "CLIPTextEncode", "inputs": { "text": "the prompt" } },
            "2": { "class_type": "ConditioningCombine", "inputs": { "conditioning": ["1", 0] } },
            "3": { "class_type": "ConditioningZeroOut", "inputs": { "conditioning": ["1", 0] } },
            "4": { "class_type": "KSamplerAdvanced", "inputs": { "positive": ["2", 0], "negative": ["3", 0] } }
        }"#,
    );
    let details = extract_details_from_workflow(&workflow);
    assert_eq!(details.positive_prompt.as_deref(), Some("the prompt"));
    assert!(details.negative_prompt.is_none());
}

#[test]
fn conditioning_cycle_ends() {
    let workflow = workflow(
        r#"{
            "1": { "class_type": "Loop", "inputs": { "conditioning": ["2", 0] } },
            "2": { "class_type": "Loop", "inputs": { "conditioning": ["1", 0] } },
            "3": { "class_type": "KSampler", "inputs": { "positive": ["1", 0] } }
        }"#,
    );
    let details = extract_details_from_workflow(&workflow);
    assert!(details.positive_prompt.is_none());
}

#[test]
fn differing_strengths_show_both() {
    let workflow = workflow(
        r#"{ "1": { "class_type": "LoraLoader", "inputs": { "lora_name": "x", "strength_model": 1, "strength_clip": 0.5 } } }"#,
    );
    let details = extract_details_from_workflow(&workflow);
    assert_eq!(details.loras[0].weight, "1 / 0.5");
}

#[test]
fn unet_model_when_no_checkpoint() {
    let workflow = workflow(
        r#"{ "1": { "class_type": "UNETLoader", "inputs": { "unet_name": " flux.gguf " } } }"#,
    );
    let details = extract_details_from_workflow(&workflow);
    assert_eq!(details.model.as_deref(), Some("flux.gguf"));
}

#[test]
fn non_object_workflow_gives_nothing() {
    let workflow = workflow("[1, 2]");
    assert!(extract_from_workflow(&workflow).is_empty());
    assert!(extract_details_from_workflow(&workflow).model.is_none());
}

#[test]
fn loras_only_from_lora_nodes() {
    let workflow = workflow(
        r#"{
            "1": { "class_type": "CheckpointLoaderSimple", "inputs": { "lora_name": "not_a_lora", "ckpt_name": "base" } },
            "2": { "class_type": "LoraLoader", "inputs": { "lora_name": " style ", "strength_model": 0.8 } },
            "3": { "class_type": "Power Lora Loader (rgthree)", "inputs": {
                "lora_1": { "on": false, "lora": "off_one", "strength": 1 },
                "lora_2": { "lora": "on_one", "strength": 0.5 },
                "lora_3": { "on": true, "lora": "style", "strength": 0.2 }
            } }
        }"#,
    );
    let details = extract_details_from_workflow(&workflow);
    let names: Vec<&str> = details.loras.iter().map(|l| l.name.as_str()).collect();
    assert_eq!(names, vec!["style", "on_one"]);
    assert_eq!(details.loras[0].weight, "0.8");
    assert_eq!(details.model.as_deref(), Some("base"));
}
