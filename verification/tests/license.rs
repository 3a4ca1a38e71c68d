use aibom::license_handler::LicenseHandler;
use aibom::license_handler::license_file_candidates;
use aibom::license_handler::license_probe_url;
use aibom::models::CardData;
use aibom::models::ModelInfo;

fn record_with_license(license: Option<&str>, license_name: Option<&str>) -> ModelInfo {
    let card = license_name.map(|n| CardData {
        base_model: None,
        base_model_relation: None,
        parent_model: None,
        datasets: None,
        train_dataset: None,
        library_name: None,
        quantized_by: None,
        license_name: Some(n.to_string()),
        architecture: None,
        architectures: None,
    });
    ModelInfo {
        model_id: "org/model".to_string(),
        tags: vec![],
        library_name: None,
        created_at: None,
        last_modified: None,
        license: license.map(|l| l.to_string()),
        card_data: card,
        sha: None,
    }
}

#[test]
fn test_normalize_mit_and_lowercase_agree() {
    let handler = LicenseHandler::new();
    let m = record_with_license(None, None);
    let upper = handler.normalize_license("MIT", &m, None);
    let lower = handler.normalize_license("mit", &m, None);
    assert_eq!(upper, lower);
    let info = upper.unwrap();
    assert_eq!(info.id, Some("MIT".to_string()));
    assert_eq!(info.name, None);
    assert_eq!(info.url, Some("https://spdx.org/licenses/MIT".to_string()));
}

#[test]
fn test_normalize_apache_space_variant() {
    let handler = LicenseHandler::new();
    let m = record_with_license(None, None);
    let info = handler.normalize_license("Apache 2.0", &m, None).unwrap();
    assert_eq!(info.id, Some("Apache-2.0".to_string()));
    assert_eq!(info.name, None);
    assert_eq!(info.url, Some("https://spdx.org/licenses/Apache-2.0".to_string()));
}

#[test]
fn test_normalize_unresolvable_without_probe_is_absent() {
    let handler = LicenseHandler::new();
    let m = record_with_license(None, None);
    let info = handler.normalize_license("my own homemade terms", &m, None);
    assert_eq!(info, None);
}

#[test]
fn test_normalize_probe_fallback_prefers_card_name() {
    let handler = LicenseHandler::new();
    let m = record_with_license(Some("weird terms"), Some("Fancy License"));
    let url = "https://huggingface.co/org/model/resolve/main/LICENSE".to_string();
    let info = handler.normalize_license("weird terms", &m, Some(url.clone())).unwrap();
    assert_eq!(info.id, None);
    assert_eq!(info.name, Some("Fancy License".to_string()));
    assert_eq!(info.url, Some(url));
}

#[test]
fn test_normalize_probe_fallback_uses_raw_field_then_input() {
    let handler = LicenseHandler::new();
    let url = "https://huggingface.co/org/model/resolve/main/LICENSE".to_string();
    let with_field = record_with_license(Some("the raw field"), None);
    let info = handler.normalize_license("odd input", &with_field, Some(url.clone())).unwrap();
    assert_eq!(info.name, Some("the raw field".to_string()));
    let bare = record_with_license(None, None);
    let info2 = handler.normalize_license("odd input", &bare, Some(url)).unwrap();
    assert_eq!(info2.name, Some("odd input".to_string()));
}

#[test]
fn test_matches_spdx() {
    let handler = LicenseHandler::new();
    assert!(handler.matches_spdx("MIT"));
    assert!(handler.matches_spdx("Apache 2.0"));
    assert!(!handler.matches_spdx("definitely not a license"));
}

#[test]
fn test_license_file_candidates_in_order() {
    let names = license_file_candidates();
    assert_eq!(
        names,
        vec![
            "LICENSE".to_string(),
            "LICENSE.txt".to_string(),
            "LICENSE.md".to_string(),
            "license".to_string(),
            "license.txt".to_string(),
        ]
    );
}

#[test]
fn test_license_probe_url_shape() {
    assert_eq!(
        license_probe_url("org/model", "LICENSE.md"),
        "https://huggingface.co/org/model/resolve/main/LICENSE.md"
    );
}
