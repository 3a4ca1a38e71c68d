use aibom::component_generator::ComponentGenerator;
use aibom::models::CardData;
use aibom::models::ModelInfo;

fn record(id: &str, tags: Vec<&str>, license: Option<&str>, card: Option<CardData>) -> ModelInfo {
    ModelInfo {
        model_id: id.to_string(),
        tags: tags.into_iter().map(|t| t.to_string()).collect(),
        library_name: None,
        created_at: None,
        last_modified: None,
        license: license.map(|l| l.to_string()),
        card_data: card,
        sha: None,
    }
}

#[test]
fn test_model_component_fields() {
    let cg = ComponentGenerator::new();
    let m = record("microsoft/DialoGPT-medium", vec!["text-generation"], Some("mit"), None);
    let c = cg.model_info_to_component(&m, Some("finetuned".to_string()), None);
    assert_eq!(c.component_type, "machine-learning-model");
    assert_eq!(c.bom_ref, "pkg:huggingface/microsoft/DialoGPT-medium@1.0");
    assert_eq!(c.purl, Some("pkg:huggingface/microsoft/DialoGPT-medium@1.0".to_string()));
    assert_eq!(c.name, "DialoGPT-medium");
    assert_eq!(c.group, Some("microsoft".to_string()));
    assert_eq!(c.publisher, Some("microsoft".to_string()));
    assert_eq!(c.supplier.as_ref().unwrap().name, "microsoft");
    assert_eq!(
        c.supplier.unwrap().url,
        Some(vec!["https://huggingface.co/microsoft".to_string()])
    );
    let licenses = c.licenses.unwrap();
    assert_eq!(licenses[0].license.id, Some("MIT".to_string()));
    let card = c.model_card.unwrap();
    let props = card.properties.unwrap();
    assert_eq!(props.len(), 10);
    assert_eq!(props[2].name, "serialNumber");
    assert_eq!(props[2].value, "urn:uuid:microsoft-DialoGPT-medium");
    assert_eq!(props[4].name, "primaryPurpose");
    assert_eq!(props[4].value, "text-generation");
    assert_eq!(props[7].value, "https://huggingface.co/microsoft/DialoGPT-medium/tree/main");
    assert_eq!(props[9].name, "ai.model.relation");
    assert_eq!(props[9].value, "finetuned");
    let params = card.model_parameters.unwrap();
    assert_eq!(params.model_architecture, Some("TransformerModel".to_string()));
    assert_eq!(params.task, Some("text-generation".to_string()));
}

#[test]
fn test_model_component_without_ml_tags_has_no_card() {
    let cg = ComponentGenerator::new();
    let m = record("org/tool", vec!["rust"], None, None);
    let c = cg.model_info_to_component(&m, None, None);
    assert_eq!(c.model_card, None);
    assert_eq!(c.licenses, None);
}

#[test]
fn test_dataset_component_fields() {
    let cg = ComponentGenerator::new();
    let c = cg.create_dataset_component("org/corpus");
    assert_eq!(c.component_type, "data");
    assert_eq!(c.bom_ref, "pkg:huggingface-dataset/org/corpus@1.0");
    assert_eq!(c.name, "corpus");
    assert_eq!(c.group, Some("org".to_string()));
    let er = c.external_references.unwrap();
    assert_eq!(er[0].url, "https://huggingface.co/datasets/org/corpus");
    assert_eq!(er[0].comment, Some("Dataset repository".to_string()));
}

#[test]
fn test_main_application_component_escapes_slash() {
    let cg = ComponentGenerator::new();
    let c = cg.create_main_application_component("org/model");
    assert_eq!(c.component_type, "application");
    assert_eq!(c.bom_ref, "pkg:generic/org%2Fmodel@1.0");
    assert_eq!(c.name, "model");
    assert_eq!(c.copyright, Some("NOASSERTION".to_string()));
}
