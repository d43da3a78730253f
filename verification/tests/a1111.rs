use ips_gui::a1111::extract_details;

#[test]
fn extracts_positive_negative_model_and_loras() {
    let text = "masterpiece, <lora:detail:0.7>\nNegative prompt: blurry\nSteps: 30, Model: base.safetensors, Seed: 1";
    let details = extract_details(text);

    assert_eq!(details.positive_prompt.as_deref(), Some("masterpiece, <lora:detail:0.7>"));
    assert_eq!(details.negative_prompt.as_deref(), Some("blurry"));
    assert_eq!(details.model.as_deref(), Some("base.safetensors"));
    assert_eq!(details.loras[0].name, "detail");
    assert_eq!(details.loras[0].weight, "0.7");
}

#[test]
fn leaves_missing_fields_empty() {
    let details = extract_details("Steps: 4, Sampler: Euler");
    assert!(details.positive_prompt.is_none());
    assert!(details.negative_prompt.is_none());
    assert!(details.model.is_none());
    assert!(details.loras.is_empty());
}

#[test]
fn empty_text_gives_no_details() {
    let details = extract_details("  \n ");
    assert!(details.positive_prompt.is_none());
    assert!(details.model.is_none());
    assert!(details.loras.is_empty());
}

#[test]
fn keeps_first_lora_of_each_name() {
    let details = extract_details("<lora:a:0.5> <lora:b:1> <lora:a:0.9> <lora::2> <lora:c:>");
    assert_eq!(details.loras.len(), 2);
    assert_eq!(details.loras[0].name, "a");
    assert_eq!(details.loras[0].weight, "0.5");
    assert_eq!(details.loras[1].name, "b");
}

#[test]
fn lora_name_may_hold_colons() {
    let details = extract_details("<lora:style:v2: 0.8 >");
    assert_eq!(details.loras[0].name, "style:v2");
    assert_eq!(details.loras[0].weight, "0.8");
}

#[test]
fn model_without_settings_line() {
    let details = extract_details("a cat, Model: sdxl\nmore");
    assert_eq!(details.model.as_deref(), Some("sdxl"));
    assert_eq!(details.positive_prompt.as_deref(), Some("a cat, Model: sdxl\nmore"));
}

#[test]
fn steps_only_at_line_start() {
    let details = extract_details("a Steps: b\nNegative prompt: bad");
    assert_eq!(details.positive_prompt.as_deref(), Some("a Steps: b"));
    assert_eq!(details.negative_prompt.as_deref(), Some("bad"));
}
