use aibom::generator::AIBOMGenerator;
use aibom::generator::FetchOutcome;
use aibom::generator::GenerateOutcome;
use aibom::generator::Resolution;
use aibom::models::CardData;
use aibom::models::CardValue;
use aibom::models::Component;
use aibom::models::ModelInfo;

fn empty_card() -> CardData {
    CardData {
        base_model: None,
        base_model_relation: None,
        parent_model: None,
        datasets: None,
        train_dataset: None,
        library_name: None,
        quantized_by: None,
        license_name: None,
        architecture: None,
        architectures: None,
    }
}

fn record(id: &str, tags: Vec<&str>, card: Option<CardData>) -> ModelInfo {
    ModelInfo {
        model_id: id.to_string(),
        tags: tags.into_iter().map(|t| t.to_string()).collect(),
        library_name: None,
        created_at: None,
        last_modified: None,
        license: None,
        card_data: card,
        sha: None,
    }
}

fn with_base(id: &str, tags: Vec<&str>, bases: Vec<&str>) -> ModelInfo {
    let mut card = empty_card();
    card.base_model = if bases.len() == 1 {
        Some(CardValue::Text(bases[0].to_string()))
    } else {
        Some(CardValue::List(bases.into_iter().map(|b| Some(b.to_string())).collect()))
    };
    record(id, tags, Some(card))
}

fn model_refs(components: &[Component]) -> Vec<String> {
    components.iter().map(|c| c.bom_ref.clone()).collect()
}

#[test]
fn test_finetuned_base_scenario() {
    // root with an explicit base model and a finetune convention tag:
    // two components, one dependency entry labeled "finetuned"
    let mut gen = AIBOMGenerator::new();
    gen.cache.record_model(
        "org/model-finetuned".to_string(),
        FetchOutcome::Fetched(with_base(
            "org/model-finetuned",
            vec!["base_model:finetune:org/base"],
            vec!["org/base"],
        )),
    );
    gen.cache.record_model(
        "org/base".to_string(),
        FetchOutcome::Fetched(record("org/base", vec![], None)),
    );
    let analyzer = &gen.component_generator.model_analyzer;
    let root = with_base(
        "org/model-finetuned",
        vec!["base_model:finetune:org/base"],
        vec!["org/base"],
    );
    let edges = analyzer.extract_dependencies(&root);
    assert_eq!(edges, vec![("org/base".to_string(), Some("finetuned".to_string()))]);
    match gen.resolve("org/model-finetuned") {
        Resolution::Complete(graph) => {
            let refs = model_refs(&graph.components);
            assert_eq!(refs.len(), 2);
            assert!(refs.contains(&"pkg:huggingface/org/base@1.0".to_string()));
            assert!(refs.contains(&"pkg:huggingface/org/model-finetuned@1.0".to_string()));
            assert_eq!(graph.dependencies.len(), 1);
            assert_eq!(graph.dependencies[0].reference, "pkg:huggingface/org/model-finetuned@1.0");
            assert_eq!(graph.dependencies[0].depends_on, vec![
                "pkg:huggingface/org/base@1.0".to_string()
            ]);
        }
        _ => panic!("expected a complete resolution"),
    }
}

#[test]
fn test_dataset_scenario_no_recursive_fetch() {
    // root with two datasets and no base model: two dataset components,
    // no fetch is ever requested for a dataset, one dependency entry
    let mut gen = AIBOMGenerator::new();
    let mut card = empty_card();
    card.datasets = Some(CardValue::List(vec![
        Some("org/ds1".to_string()),
        Some("org/ds2".to_string()),
    ]));
    gen.cache.record_model(
        "org/root".to_string(),
        FetchOutcome::Fetched(record("org/root", vec![], Some(card))),
    );
    match gen.resolve("org/root") {
        Resolution::Complete(graph) => {
            // no dataset ever enters the visited set
            assert_eq!(graph.visited, vec!["org/root".to_string()]);
            let refs = model_refs(&graph.components);
            assert_eq!(refs.len(), 3);
            assert!(refs.contains(&"pkg:huggingface-dataset/org/ds1@1.0".to_string()));
            assert!(refs.contains(&"pkg:huggingface-dataset/org/ds2@1.0".to_string()));
            assert_eq!(graph.dependencies.len(), 1);
            assert_eq!(graph.dependencies[0].depends_on, vec![
                "pkg:huggingface-dataset/org/ds1@1.0".to_string(),
                "pkg:huggingface-dataset/org/ds2@1.0".to_string(),
            ]);
            let ds = graph
                .components
                .iter()
                .find(|c| c.bom_ref == "pkg:huggingface-dataset/org/ds1@1.0")
                .unwrap();
            assert_eq!(ds.component_type, "data");
            assert_eq!(ds.description, Some("Training dataset".to_string()));
        }
        _ => panic!("expected a complete resolution"),
    }
}

#[test]
fn test_cycle_terminates_with_single_components() {
    let mut gen = AIBOMGenerator::new();
    gen.cache.record_model(
        "org/a".to_string(),
        FetchOutcome::Fetched(with_base("org/a", vec![], vec!["org/b"])),
    );
    gen.cache.record_model(
        "org/b".to_string(),
        FetchOutcome::Fetched(with_base("org/b", vec![], vec!["org/a"])),
    );
    match gen.resolve("org/a") {
        Resolution::Complete(graph) => {
            let mut refs = model_refs(&graph.components);
            refs.sort();
            assert_eq!(refs, vec![
                "pkg:huggingface/org/a@1.0".to_string(),
                "pkg:huggingface/org/b@1.0".to_string(),
            ]);
            assert_eq!(graph.visited.len(), 2);
        }
        _ => panic!("expected a complete resolution"),
    }
}

#[test]
fn test_diamond_emits_each_node_once() {
    // a -> b, a -> c, b -> d, c -> d: d appears exactly once
    let mut gen = AIBOMGenerator::new();
    gen.cache.record_model(
        "org/a".to_string(),
        FetchOutcome::Fetched(with_base("org/a", vec![], vec!["org/b", "org/c"])),
    );
    gen.cache.record_model(
        "org/b".to_string(),
        FetchOutcome::Fetched(with_base("org/b", vec![], vec!["org/d"])),
    );
    gen.cache.record_model(
        "org/c".to_string(),
        FetchOutcome::Fetched(with_base("org/c", vec![], vec!["org/d"])),
    );
    gen.cache.record_model(
        "org/d".to_string(),
        FetchOutcome::Fetched(record("org/d", vec![], None)),
    );
    match gen.resolve("org/a") {
        Resolution::Complete(graph) => {
            let d_count = graph
                .components
                .iter()
                .filter(|c| c.bom_ref == "pkg:huggingface/org/d@1.0")
                .count();
            assert_eq!(d_count, 1);
            assert_eq!(graph.components.len(), 4);
            assert_eq!(graph.visited.len(), 4);
        }
        _ => panic!("expected a complete resolution"),
    }
}

#[test]
fn test_chain_visits_each_node() {
    let mut gen = AIBOMGenerator::new();
    gen.cache.record_model(
        "org/a".to_string(),
        FetchOutcome::Fetched(with_base("org/a", vec![], vec!["org/b"])),
    );
    gen.cache.record_model(
        "org/b".to_string(),
        FetchOutcome::Fetched(with_base("org/b", vec![], vec!["org/c"])),
    );
    gen.cache.record_model(
        "org/c".to_string(),
        FetchOutcome::Fetched(record("org/c", vec![], None)),
    );
    match gen.resolve("org/a") {
        Resolution::Complete(graph) => {
            assert_eq!(graph.visited.len(), 3);
            assert!(graph.visited.contains(&"org/a".to_string()));
            assert!(graph.visited.contains(&"org/b".to_string()));
            assert!(graph.visited.contains(&"org/c".to_string()));
        }
        _ => panic!("expected a complete resolution"),
    }
}

#[test]
fn test_unavailable_dependency_edge_still_recorded() {
    let mut gen = AIBOMGenerator::new();
    gen.cache.record_model(
        "org/root".to_string(),
        FetchOutcome::Fetched(with_base("org/root", vec![], vec!["org/gone"])),
    );
    gen.cache.record_model("org/gone".to_string(), FetchOutcome::Unavailable);
    match gen.resolve("org/root") {
        Resolution::Complete(graph) => {
            // the failed node has no component, but the edge survives
            assert_eq!(graph.components.len(), 1);
            assert_eq!(graph.dependencies.len(), 1);
            assert_eq!(graph.dependencies[0].depends_on, vec![
                "pkg:huggingface/org/gone@1.0".to_string()
            ]);
        }
        _ => panic!("expected a complete resolution"),
    }
}

#[test]
fn test_root_unavailable_is_fatal() {
    let mut gen = AIBOMGenerator::new();
    gen.cache.record_model("org/root".to_string(), FetchOutcome::Unavailable);
    assert!(matches!(gen.resolve("org/root"), Resolution::RootUnavailable));
}

#[test]
fn test_missing_outcomes_are_requested() {
    let mut gen = AIBOMGenerator::new();
    assert!(matches!(gen.resolve("org/root"), Resolution::NeedModel(x) if x == "org/root"));
    gen.cache.record_model(
        "org/root".to_string(),
        FetchOutcome::Fetched(with_base("org/root", vec![], vec!["org/base"])),
    );
    assert!(matches!(gen.resolve("org/root"), Resolution::NeedModel(x) if x == "org/base"));
}

#[test]
fn test_probe_requested_for_unknown_license() {
    let mut gen = AIBOMGenerator::new();
    let mut root = record("org/root", vec![], None);
    root.license = Some("bespoke terms".to_string());
    gen.cache.record_model("org/root".to_string(), FetchOutcome::Fetched(root));
    assert!(matches!(gen.resolve("org/root"), Resolution::NeedProbe(x) if x == "org/root"));
    gen.cache.record_probe("org/root".to_string(), None);
    match gen.resolve("org/root") {
        Resolution::Complete(graph) => {
            // probe found nothing: the license stays absent
            assert_eq!(graph.components[0].licenses, None);
        }
        _ => panic!("expected a complete resolution"),
    }
}

#[test]
fn test_canonical_license_needs_no_probe() {
    let mut gen = AIBOMGenerator::new();
    let mut root = record("org/root", vec!["text-generation"], None);
    root.license = Some("mit".to_string());
    gen.cache.record_model("org/root".to_string(), FetchOutcome::Fetched(root));
    match gen.resolve("org/root") {
        Resolution::Complete(graph) => {
            let licenses = graph.components[0].licenses.as_ref().unwrap();
            assert_eq!(licenses[0].license.id, Some("MIT".to_string()));
        }
        _ => panic!("expected a complete resolution"),
    }
}

#[test]
fn test_generate_aibom_frame() {
    let mut gen = AIBOMGenerator::new();
    gen.cache.record_model(
        "org/root".to_string(),
        FetchOutcome::Fetched(record("org/root", vec!["text-generation"], None)),
    );
    match gen.generate_aibom(
        "org/root",
        "2024-01-01T00:00:00+00:00".to_string(),
        "0000-1111".to_string(),
    ) {
        GenerateOutcome::Complete(bom) => {
            assert_eq!(bom.bom_format, "CycloneDX");
            assert_eq!(bom.spec_version, "1.6");
            assert_eq!(bom.serial_number, "urn:uuid:0000-1111");
            assert_eq!(bom.version, 1);
            assert_eq!(bom.metadata.timestamp, "2024-01-01T00:00:00+00:00");
            assert_eq!(bom.metadata.component.component_type, "application");
            assert_eq!(bom.metadata.component.bom_ref, "pkg:generic/org%2Froot@1.0");
            assert_eq!(bom.components.len(), 1);
            assert_eq!(bom.components[0].bom_ref, "pkg:huggingface/org/root@1.0");
            let card = bom.components[0].model_card.as_ref().unwrap();
            let params = card.model_parameters.as_ref().unwrap();
            assert_eq!(params.task, Some("text-generation".to_string()));
        }
        _ => panic!("expected a complete document"),
    }
}

#[test]
fn test_shared_dataset_component_emitted_once() {
    let mut gen = AIBOMGenerator::new();
    let mut card_a = empty_card();
    card_a.base_model = Some(CardValue::Text("org/b".to_string()));
    card_a.datasets = Some(CardValue::Text("org/shared-ds".to_string()));
    let mut card_b = empty_card();
    card_b.datasets = Some(CardValue::Text("org/shared-ds".to_string()));
    gen.cache.record_model(
        "org/a".to_string(),
        FetchOutcome::Fetched(record("org/a", vec![], Some(card_a))),
    );
    gen.cache.record_model(
        "org/b".to_string(),
        FetchOutcome::Fetched(record("org/b", vec![], Some(card_b))),
    );
    match gen.resolve("org/a") {
        Resolution::Complete(graph) => {
            let ds_count = graph
                .components
                .iter()
                .filter(|c| c.bom_ref == "pkg:huggingface-dataset/org/shared-ds@1.0")
                .count();
            assert_eq!(ds_count, 1);
            // both nodes still list the dataset among their dependencies
            for dep in &graph.dependencies {
                assert!(dep.depends_on.contains(
                    &"pkg:huggingface-dataset/org/shared-ds@1.0".to_string()
                ));
            }
        }
        _ => panic!("expected a complete resolution"),
    }
}
