use aibom::model_analyzer::ModelAnalyzer;
use aibom::models::CardData;
use aibom::models::CardValue;
use aibom::models::ModelInfo;

fn record(id: &str, tags: Vec<&str>, card: Option<CardData>) -> ModelInfo {
    ModelInfo {
        model_id: id.to_string(),
        tags: tags.into_iter().map(|t| t.to_string()).collect(),
        library_name: Some("transformers".to_string()),
        created_at: None,
        last_modified: None,
        license: None,
        card_data: card,
        sha: None,
    }
}

fn empty_card() -> CardData {
    CardData {
        base_model: None,
        base_model_relation: None,
        parent_model: None,
        datasets: None,
        train_dataset: None,
        library_name: None,
        quantized_by: None,
        license_name: None,
        architecture: None,
        architectures: None,
    }
}

#[test]
fn it_works() {
    let result = aibom::add(2, 2);
    assert_eq!(result, 4);
}

#[test]
fn test_extract_license_from_tags() {
    let analyzer = ModelAnalyzer::new();
    let tags = vec![
        "transformers".to_string(),
        "pytorch".to_string(),
        "license:mit".to_string(),
        "text-generation".to_string(),
    ];
    let license = analyzer.extract_license_from_tags(&tags);
    assert_eq!(license, Some("mit".to_string()));
}

#[test]
fn test_get_model_architecture_from_card_data() {
    let analyzer = ModelAnalyzer::new();
    let mut card = empty_card();
    card.architectures = Some(vec![Some("GPT2LMHeadModel".to_string())]);
    let model_info = record("microsoft/DialoGPT-medium", vec!["transformers"], Some(card));
    let architecture = analyzer.get_model_architecture(&model_info);
    assert_eq!(architecture, "GPT2LMHeadModel");
}

#[test]
fn test_architecture_defaults_to_transformer() {
    let analyzer = ModelAnalyzer::new();
    let model_info = record("org/model", vec!["text-generation"], None);
    assert_eq!(analyzer.get_model_architecture(&model_info), "TransformerModel");
}

#[test]
fn test_determine_task_first_match_wins() {
    let analyzer = ModelAnalyzer::new();
    let tags = vec![
        "pytorch".to_string(),
        "translation".to_string(),
        "conversational".to_string(),
    ];
    assert_eq!(analyzer.determine_task(&tags), "translation");
}

#[test]
fn test_determine_task_default() {
    let analyzer = ModelAnalyzer::new();
    let tags = vec!["pytorch".to_string()];
    assert_eq!(analyzer.determine_task(&tags), "text-generation");
}

#[test]
fn test_is_machine_learning_model() {
    let analyzer = ModelAnalyzer::new();
    let ml = vec!["fill-mask".to_string()];
    let not_ml = vec!["pytorch".to_string(), "rust".to_string()];
    assert!(analyzer.is_machine_learning_model(&ml));
    assert!(!analyzer.is_machine_learning_model(&not_ml));
}

#[test]
fn test_extract_organization_with_and_without_slash() {
    let analyzer = ModelAnalyzer::new();
    assert_eq!(
        analyzer.extract_organization_from_model_id("microsoft/DialoGPT-medium"),
        ("microsoft".to_string(), "DialoGPT-medium".to_string())
    );
    assert_eq!(
        analyzer.extract_organization_from_model_id("gpt2"),
        ("huggingface".to_string(), "gpt2".to_string())
    );
    assert_eq!(
        analyzer.extract_organization_from_dataset_id("org/ds/extra"),
        ("org".to_string(), "ds".to_string())
    );
}

#[test]
fn test_relation_library_hint_first() {
    let analyzer = ModelAnalyzer::new();
    let mut card = empty_card();
    card.library_name = Some("peft".to_string());
    card.quantized_by = Some("someone".to_string());
    let m = record("org/model-merge", vec!["lora"], Some(card.clone()));
    // the library hint precedes the quantizer field, the tag and the name
    assert_eq!(analyzer.infer_relation_from_metadata(&m, &card), Some("lora".to_string()));
}

#[test]
fn test_relation_quantized_by_precedes_tags() {
    let analyzer = ModelAnalyzer::new();
    let mut card = empty_card();
    card.quantized_by = Some("someone".to_string());
    let m = record("org/model", vec!["lora"], Some(card.clone()));
    assert_eq!(analyzer.infer_relation_from_metadata(&m, &card), Some("quantized".to_string()));
}

#[test]
fn test_relation_tag_scan_precedes_name_pattern() {
    let analyzer = ModelAnalyzer::new();
    let card = empty_card();
    // a `lora` tag beats an identifier that mentions merging
    let m = record("org/model-merge", vec!["lora"], Some(card.clone()));
    assert_eq!(analyzer.infer_relation_from_metadata(&m, &card), Some("lora".to_string()));
}

#[test]
fn test_relation_is_deterministic() {
    let analyzer = ModelAnalyzer::new();
    let card = empty_card();
    let m = record("org/model-merge", vec!["lora"], Some(card.clone()));
    let first = analyzer.infer_relation_from_metadata(&m, &card);
    let second = analyzer.infer_relation_from_metadata(&m, &card);
    assert_eq!(first, second);
}

#[test]
fn test_relation_base_model_convention_tag() {
    let analyzer = ModelAnalyzer::new();
    let card = empty_card();
    let m = record("org/model", vec!["base_model:finetune:org/base"], Some(card.clone()));
    assert_eq!(analyzer.infer_relation_from_metadata(&m, &card), Some("finetuned".to_string()));
    let m2 = record("org/model", vec!["base_model:qlora:org/base"], Some(card.clone()));
    assert_eq!(analyzer.infer_relation_from_metadata(&m2, &card), Some("lora".to_string()));
}

#[test]
fn test_relation_merge_detection_on_many_bases() {
    let analyzer = ModelAnalyzer::new();
    let mut card = empty_card();
    card.base_model = Some(CardValue::List(vec![
        Some("org/a".to_string()),
        Some("org/b".to_string()),
    ]));
    let m = record("org/plain", vec!["pytorch"], Some(card.clone()));
    assert_eq!(analyzer.infer_relation_from_metadata(&m, &card), Some("merged".to_string()));
}

#[test]
fn test_relation_name_pattern_order() {
    let analyzer = ModelAnalyzer::new();
    let card = empty_card();
    // quantization markers precede the lora marker in the name fallback
    let m = record("org/model-gguf-lora", vec!["pytorch"], Some(card.clone()));
    assert_eq!(analyzer.infer_relation_from_metadata(&m, &card), Some("quantized".to_string()));
    let m2 = record("org/model-onnx", vec!["pytorch"], Some(card.clone()));
    assert_eq!(analyzer.infer_relation_from_metadata(&m2, &card), Some("converted".to_string()));
    let m3 = record("org/plain", vec!["pytorch"], Some(card.clone()));
    assert_eq!(analyzer.infer_relation_from_metadata(&m3, &card), None);
}

#[test]
fn test_extract_dependencies_sorted_and_deduplicated() {
    let analyzer = ModelAnalyzer::new();
    let mut card = empty_card();
    card.base_model = Some(CardValue::List(vec![
        Some("org/zeta".to_string()),
        Some("org/alpha".to_string()),
        Some("org/zeta".to_string()),
    ]));
    let m = record("org/self", vec!["pytorch"], Some(card));
    let deps = analyzer.extract_dependencies(&m);
    let names: Vec<String> = deps.iter().map(|d| d.0.clone()).collect();
    assert_eq!(names, vec!["org/alpha".to_string(), "org/zeta".to_string()]);
}

#[test]
fn test_extract_dependencies_removes_self_reference() {
    let analyzer = ModelAnalyzer::new();
    let mut card = empty_card();
    card.base_model = Some(CardValue::Text("org/self".to_string()));
    card.parent_model = Some("org/parent".to_string());
    let m = record("org/self", vec!["pytorch"], Some(card));
    let deps = analyzer.extract_dependencies(&m);
    assert_eq!(deps.len(), 1);
    assert_eq!(deps[0].0, "org/parent");
    assert_eq!(deps[0].1, Some("parent".to_string()));
}

#[test]
fn test_extract_dependencies_first_relation_wins() {
    let analyzer = ModelAnalyzer::new();
    let mut card = empty_card();
    // the same target declared as base model and as parent model: the
    // earlier declaration keeps its relation
    card.base_model = Some(CardValue::Text("org/base".to_string()));
    card.base_model_relation = Some("finetuned".to_string());
    card.parent_model = Some("org/base".to_string());
    let m = record("org/child", vec!["pytorch"], Some(card));
    let deps = analyzer.extract_dependencies(&m);
    assert_eq!(deps.len(), 1);
    assert_eq!(deps[0], ("org/base".to_string(), Some("finetuned".to_string())));
}

#[test]
fn test_extract_dependencies_no_card_data_is_empty() {
    let analyzer = ModelAnalyzer::new();
    let m = record("org/bare", vec!["pytorch"], None);
    assert!(analyzer.extract_dependencies(&m).is_empty());
}

#[test]
fn test_string_utilities() {
    assert!(aibom::text::str_contains("hello-world", "lo-wo"));
    assert!(!aibom::text::str_contains("hello", "world"));
    assert!(aibom::text::str_starts_with("license:mit", "license:"));
    assert!(aibom::text::str_lt("abc", "abd"));
    assert!(!aibom::text::str_lt("abd", "abc"));
    assert_eq!(aibom::text::str_replace_char("a b c", ' ', '-'), "a-b-c");
}
