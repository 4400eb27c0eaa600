use entropia_nlp_ocr::layout_labels::{map_class_id, map_label};
use entropia_nlp_ocr::ocr_pipeline::{
    format_region_text, managed_runtime_root_for_ocr_with, managed_runtime_root_for_pdfium_with,
};
use entropia_nlp_ocr::ocr_types::LayoutCategory;
use entropia_nlp_ocr::paddle_vl::{
    classify_paddlevl_failure, extract_sentinel_json, is_pir_executor_error,
    managed_runtime_root_for_paddle_vl_with, PaddleVlConfig,
};
use entropia_nlp_ocr::runtime_status::{RuntimeCapability, RuntimeState, RuntimeStatus};
use std::cell::RefCell;
use std::path::PathBuf;

#[test]
fn test_map_label_known_labels() {
    assert_eq!(map_label("doc_title"), LayoutCategory::Title);
    assert_eq!(map_label("paragraph_title"), LayoutCategory::Title);
    assert_eq!(map_label("text"), LayoutCategory::PlainText);
    assert_eq!(map_label("abstract"), LayoutCategory::PlainText);
    assert_eq!(map_label("table"), LayoutCategory::Table);
    assert_eq!(map_label("image"), LayoutCategory::Figure);
    assert_eq!(map_label("chart"), LayoutCategory::Figure);
    assert_eq!(map_label("figure_title"), LayoutCategory::Caption);
    assert_eq!(map_label("table_caption"), LayoutCategory::Caption);
    assert_eq!(map_label("vision_footnote"), LayoutCategory::Footnote);
    assert_eq!(map_label("figure_note"), LayoutCategory::Footnote);
    assert_eq!(map_label("table_note"), LayoutCategory::Footnote);
    assert_eq!(map_label("page_header"), LayoutCategory::Header);
    assert_eq!(map_label("page_footer"), LayoutCategory::Footer);
    assert_eq!(map_label("page_number"), LayoutCategory::Footer);
    assert_eq!(map_label("code"), LayoutCategory::Code);
    assert_eq!(map_label("reference"), LayoutCategory::Reference);
    assert_eq!(map_label("abandoned"), LayoutCategory::Abandoned);
    assert_eq!(map_label("seal"), LayoutCategory::Abandoned);
    assert_eq!(map_label("formula"), LayoutCategory::Abandoned);
}

#[test]
fn test_map_label_unknown_defaults_to_plain_text() {
    assert_eq!(map_label("unknown_label"), LayoutCategory::PlainText);
    assert_eq!(map_label("random_stuff"), LayoutCategory::PlainText);
    assert_eq!(map_label(""), LayoutCategory::PlainText);
}

#[test]
fn test_map_class_id_known_ids() {
    assert_eq!(map_class_id(0), LayoutCategory::Title);
    assert_eq!(map_class_id(1), LayoutCategory::Title);
    assert_eq!(map_class_id(2), LayoutCategory::PlainText);
    assert_eq!(map_class_id(9), LayoutCategory::Table);
    assert_eq!(map_class_id(12), LayoutCategory::Figure);
    assert_eq!(map_class_id(14), LayoutCategory::Footnote);
    assert_eq!(map_class_id(7), LayoutCategory::Header);
    assert_eq!(map_class_id(8), LayoutCategory::Footer);
    assert_eq!(map_class_id(18), LayoutCategory::Code);
    assert_eq!(map_class_id(19), LayoutCategory::Reference);
    assert_eq!(map_class_id(3), LayoutCategory::Abandoned);
}

#[test]
fn test_map_class_id_unknown_defaults_to_plain_text() {
    assert_eq!(map_class_id(999), LayoutCategory::PlainText);
    assert_eq!(map_class_id(50), LayoutCategory::PlainText);
    assert_eq!(map_class_id(100), LayoutCategory::PlainText);
}

#[test]
fn test_format_region_text_title() {
    let result = format_region_text(&LayoutCategory::Title, "Introduction");
    assert_eq!(result, Some("## Introduction".to_string()));
}

#[test]
fn test_format_region_text_plain_text() {
    let result = format_region_text(&LayoutCategory::PlainText, "Some body text");
    assert_eq!(result, Some("Some body text".to_string()));
}

#[test]
fn test_format_region_text_table() {
    let result = format_region_text(&LayoutCategory::Table, "col1 | col2\na | b");
    assert_eq!(result, Some("---\ncol1 | col2\na | b\n---".to_string()));
}

#[test]
fn test_format_region_text_figure_skipped() {
    let result = format_region_text(&LayoutCategory::Figure, "image description");
    assert_eq!(result, None);
}

#[test]
fn test_format_region_text_caption() {
    let result = format_region_text(&LayoutCategory::Caption, "Figure 1: Diagram");
    assert_eq!(result, Some("Figure 1: Diagram".to_string()));
}

#[test]
fn test_format_region_text_footnote() {
    let result = format_region_text(&LayoutCategory::Footnote, "See reference 1");
    assert_eq!(result, Some("Note: See reference 1".to_string()));
}

#[test]
fn test_format_region_text_header_skipped() {
    let result = format_region_text(&LayoutCategory::Header, "Page 1");
    assert_eq!(result, None);
}

#[test]
fn test_format_region_text_footer_skipped() {
    let result = format_region_text(&LayoutCategory::Footer, "Page 1");
    assert_eq!(result, None);
}

#[test]
fn test_format_region_text_code() {
    let result = format_region_text(&LayoutCategory::Code, "fn main() {}");
    assert_eq!(result, Some("```\nfn main() {}\n```".to_string()));
}

#[test]
fn test_format_region_text_reference() {
    let result = format_region_text(&LayoutCategory::Reference, "[1] Smith 2024");
    assert_eq!(result, Some("[1] Smith 2024".to_string()));
}

#[test]
fn test_format_region_text_abandoned_skipped() {
    let result = format_region_text(&LayoutCategory::Abandoned, "seal content");
    assert_eq!(result, None);
}

#[test]
fn test_format_region_text_empty_skipped() {
    let result = format_region_text(&LayoutCategory::PlainText, "   ");
    assert_eq!(result, None);
}

fn healthy_status() -> RuntimeStatus {
    RuntimeStatus {
        state: RuntimeState::Healthy,
        pack_version: Some("2026.05.0".to_string()),
        repair_needed: false,
        repair_available: true,
        summary: "Runtime listo".to_string(),
        blocked_capabilities: vec![],
        details: vec![],
        guidance: vec![],
        bootstrap_eligible: false,
        bootstrap_required: false,
        active_operation: None,
    }
}

#[test]
fn managed_runtime_root_for_ocr_bootstraps_before_resolving_assets() {
    let calls = RefCell::new(Vec::new());
    let expected = PathBuf::from("/tmp/runtime-ready");

    let resolved = managed_runtime_root_for_ocr_with(
        || {
            calls.borrow_mut().push("ensure_ready");
            Ok(healthy_status())
        },
        || {
            calls.borrow_mut().push("hydrated_root");
            Ok(Some(expected.clone()))
        },
    )
    .expect("runtime resolution should succeed");

    assert_eq!(resolved, Some(expected));
    assert_eq!(calls.into_inner(), vec!["ensure_ready", "hydrated_root"]);
}

#[test]
fn managed_runtime_root_for_ocr_stays_blocked_when_bootstrap_cannot_prepare_runtime() {
    let calls = RefCell::new(Vec::new());

    let resolved = managed_runtime_root_for_ocr_with(
        || {
            calls.borrow_mut().push("ensure_ready");
            Ok(RuntimeStatus {
                state: RuntimeState::BlockedSourceUnavailable,
                pack_version: Some("2026.05.0".to_string()),
                repair_needed: false,
                repair_available: false,
                summary: "No hay una fuente confiable disponible para bootstrap".to_string(),
                blocked_capabilities: vec![RuntimeCapability::Ocr],
                details: vec!["manifest remoto no publicado".to_string()],
                guidance: vec!["Reintentá cuando exista una fuente firmada".to_string()],
                bootstrap_eligible: false,
                bootstrap_required: true,
                active_operation: None,
            })
        },
        || {
            calls.borrow_mut().push("hydrated_root");
            Ok(Some(PathBuf::from("/tmp/stale-runtime")))
        },
    )
    .expect("blocked runtime should not raise transport errors");

    assert_eq!(resolved, None);
    assert_eq!(calls.into_inner(), vec!["ensure_ready"]);
}

#[test]
fn test_extract_sentinel_json() {
    let output =
        "some noise\n===VL_JSON_BEGIN==={\"text\":\"hello\"}\n===VL_JSON_END===\nmore noise";
    let extracted = extract_sentinel_json(output);
    assert_eq!(extracted, r#"{"text":"hello"}"#);
}

#[test]
fn test_extract_sentinel_json_fallback() {
    let output = r#"{"text":"hello"}"#;
    let extracted = extract_sentinel_json(output);
    assert_eq!(extracted, r#"{"text":"hello"}"#);
}

#[test]
fn test_detects_pir_executor_error_from_stderr() {
    let stderr = "Exception from the 'cv' worker: (Unimplemented) ConvertPirAttribute2RuntimeAttribute not support [pir::ArrayAttribute<pir::DoubleAttribute>]";
    assert!(is_pir_executor_error(stderr));
    let classification = classify_paddlevl_failure(stderr, "");
    assert!(classification.is_some());
    let msg = classification.unwrap();
    assert!(msg.contains("PIR/oneDNN executor bug"));
    assert!(msg.contains("<3.3.0"), "diagnostic should mention the version cap");
}

#[test]
fn test_detects_pir_executor_error_from_stdout() {
    let stdout = "some prefix\nConvertPirAttribute2RuntimeAttribute\nsuffix";
    assert!(is_pir_executor_error(stdout));
    let classification = classify_paddlevl_failure("", stdout);
    assert!(classification.is_some());
}

#[test]
fn test_no_false_positive_on_unrelated_error() {
    let stderr = "CUDA out of memory";
    assert!(!is_pir_executor_error(stderr));
    assert!(classify_paddlevl_failure(stderr, "").is_none());
}

#[test]
fn test_detects_paddlex_cache_permission_error() {
    let stderr =
        "PermissionError: [Errno 13] Permission denied: 'C:\\Users\\test\\.paddlex\\official_models\\PP-DocLayoutV3\\inference.yml'";
    let classification = classify_paddlevl_failure(stderr, "");
    assert!(classification.is_some());
    assert!(classification.unwrap().contains("PaddleX model cache"));
}

#[test]
fn paddle_vl_runtime_resolution_bootstraps_before_using_managed_assets() {
    let calls = RefCell::new(Vec::new());
    let expected = PathBuf::from("/tmp/runtime-ready");

    let resolved = managed_runtime_root_for_paddle_vl_with(
        || {
            calls.borrow_mut().push("ensure_ready");
            Ok(healthy_status())
        },
        || {
            calls.borrow_mut().push("hydrated_root");
            Ok(Some(expected.clone()))
        },
    )
    .expect("managed runtime should resolve");

    assert_eq!(resolved, Some(expected));
    assert_eq!(calls.into_inner(), vec!["ensure_ready", "hydrated_root"]);
}

#[test]
fn paddle_vl_runtime_resolution_honors_blocked_bootstrap_status() {
    let calls = RefCell::new(Vec::new());

    let resolved = managed_runtime_root_for_paddle_vl_with(
        || {
            calls.borrow_mut().push("ensure_ready");
            Ok(RuntimeStatus {
                state: RuntimeState::BlockedOffline,
                pack_version: Some("2026.05.0".to_string()),
                repair_needed: false,
                repair_available: false,
                summary: "Bootstrap offline".to_string(),
                blocked_capabilities: vec![RuntimeCapability::Ocr],
                details: vec!["offline".to_string()],
                guidance: vec!["Reintentá".to_string()],
                bootstrap_eligible: true,
                bootstrap_required: true,
                active_operation: None,
            })
        },
        || {
            calls.borrow_mut().push("hydrated_root");
            Ok(Some(PathBuf::from("/tmp/stale-runtime")))
        },
    )
    .expect("blocked bootstrap should degrade gracefully");

    assert_eq!(resolved, None);
    assert_eq!(calls.into_inner(), vec!["ensure_ready"]);
}

#[test]
fn paddle_vl_config_includes_device() {
    let config = PaddleVlConfig {
        python_path: PathBuf::from("/usr/bin/python"),
        script_path: PathBuf::from("/tmp/paddle_vl.py"),
        hf_cache_dir: None,
        paddlex_cache_dir: None,
        offline_mode: false,
        device: "gpu".to_string(),
    };
    assert_eq!(config.device, "gpu");
}

#[test]
fn pdfium_runtime_resolution_bootstraps_before_managed_lib_lookup() {
    let calls = RefCell::new(Vec::new());
    let expected = PathBuf::from("/tmp/runtime-ready");

    let resolved = managed_runtime_root_for_pdfium_with(
        || {
            calls.borrow_mut().push("ensure_ready");
            Ok(RuntimeStatus {
                state: RuntimeState::Healthy,
                pack_version: Some("2026.05.0".to_string()),
                repair_needed: false,
                repair_available: true,
                summary: "Runtime listo".to_string(),
                blocked_capabilities: vec![],
                details: vec![],
                guidance: vec![],
                bootstrap_eligible: false,
                bootstrap_required: false,
                active_operation: None,
            })
        },
        || {
            calls.borrow_mut().push("hydrated_root");
            Ok(Some(expected.clone()))
        },
    )
    .expect("runtime resolution should succeed");

    assert_eq!(resolved, Some(expected));
    assert_eq!(calls.into_inner(), vec!["ensure_ready", "hydrated_root"]);
}

#[test]
fn pdfium_runtime_resolution_respects_blocked_bootstrap_status() {
    let calls = RefCell::new(Vec::new());

    let resolved = managed_runtime_root_for_pdfium_with(
        || {
            calls.borrow_mut().push("ensure_ready");
            Ok(RuntimeStatus {
                state: RuntimeState::BlockedOffline,
                pack_version: Some("2026.05.0".to_string()),
                repair_needed: false,
                repair_available: false,
                summary: "Bootstrap offline".to_string(),
                blocked_capabilities: vec![RuntimeCapability::Ocr],
                details: vec!["offline".to_string()],
                guidance: vec!["Reintentá".to_string()],
                bootstrap_eligible: true,
                bootstrap_required: true,
                active_operation: None,
            })
        },
        || {
            calls.borrow_mut().push("hydrated_root");
            Ok(Some(PathBuf::from("/tmp/stale-runtime")))
        },
    )
    .expect("blocked bootstrap should degrade gracefully");

    assert_eq!(resolved, None);
    assert_eq!(calls.into_inner(), vec!["ensure_ready"]);
}
