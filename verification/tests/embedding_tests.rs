use entropia_nlp_ocr::embeddings::{
    asset_embedding_precheck, embedding_settings, EmbeddingProvider, DEFAULT_OPENROUTER_EMBEDDING_MODEL,
    API_KEY_MISSING,
};
use entropia_nlp_ocr::embeddings::{
    empty_download_error, local_embedding_model_incomplete_error,
    local_embedding_model_info_from_files, resolve_local_embedding_model_dir, DownloadProgress,
    LocalEmbeddingModelFileInfo, LocalModelDir,
};
use entropia_nlp_ocr::ocr_pipeline::ensure_selected_cloud_key;

fn file(name: &str, exists: bool, size: Option<u64>) -> LocalEmbeddingModelFileInfo {
    LocalEmbeddingModelFileInfo {
        filename: name.to_string(),
        source_path: format!("onnx/{name}"),
        destination: format!("/models/bge-m3/{name}"),
        size_bytes: size,
        exists,
    }
}

#[test]
fn model_info_requires_every_file() {
    let info = local_embedding_model_info_from_files(
        "/models/bge-m3".to_string(),
        "/models/bge-m3/model.onnx".to_string(),
        vec![
            file("model.onnx", true, Some(724_923)),
            file("model.onnx_data", false, Some(2_266_820_608)),
            file("tokenizer.json", true, Some(17_082_821)),
        ],
    );
    assert!(!info.available);
    assert!(!info.exists);
    assert!(info.can_auto_download);
    assert_eq!(info.missing_files.len(), 1);
    assert_eq!(info.missing_files[0].filename, "model.onnx_data");
    assert_eq!(info.size_bytes, Some(724_923 + 2_266_820_608 + 17_082_821));
    assert_eq!(info.source_repo, "BAAI/bge-m3");

    let message = local_embedding_model_incomplete_error(&info).expect("incomplete");
    assert_eq!(
        message,
        "Local BGE-M3 model incomplete at /models/bge-m3. Missing required files: model.onnx_data (expected at /models/bge-m3/model.onnx_data). Install BGE-M3 from Settings or place all required files (model.onnx, model.onnx_data, tokenizer.json) in that folder. The EMBED action only uses the configured BGE-M3 provider."
    );
}

#[test]
fn model_info_available_when_all_files_exist() {
    let info = local_embedding_model_info_from_files(
        "/m".to_string(),
        "/m/model.onnx".to_string(),
        vec![
            file("model.onnx", true, Some(u64::MAX)),
            file("model.onnx_data", true, Some(5)),
            file("tokenizer.json", true, None),
        ],
    );
    assert!(info.available && info.exists);
    assert!(info.missing_files.is_empty());
    assert_eq!(info.size_bytes, Some(u64::MAX), "sizes add up saturating");
    assert_eq!(local_embedding_model_incomplete_error(&info), None);
}

#[test]
fn model_info_lists_several_missing_files_in_order() {
    let info = local_embedding_model_info_from_files(
        "/m".to_string(),
        "/m/model.onnx".to_string(),
        vec![file("a", false, None), file("b", true, None), file("c", false, None)],
    );
    assert_eq!(info.size_bytes, None);
    let message = local_embedding_model_incomplete_error(&info).expect("incomplete");
    assert!(message.contains(
        "Missing required files: a (expected at /models/bge-m3/a), c (expected at /models/bge-m3/c)."
    ));
}

#[test]
fn cloud_key_is_required_only_for_the_remote_mode() {
    assert!(ensure_selected_cloud_key(Some("GLM_OCR"), "").is_err());
    assert_eq!(
        ensure_selected_cloud_key(Some("glm_ocr"), ""),
        Err("GLM-OCR no está configurado. Andá a Configuración > OCRH y cargá una API key antes de usar OCRH.".to_string())
    );
    assert_eq!(ensure_selected_cloud_key(Some("glm_ocr"), "key"), Ok(()));
    assert_eq!(ensure_selected_cloud_key(Some("auto"), ""), Ok(()));
    assert_eq!(ensure_selected_cloud_key(None, ""), Ok(()));
}

#[test]
fn download_progress_reports_every_five_points_and_completion() {
    let mut p = DownloadProgress::new();
    let mut reports = Vec::new();
    for _ in 0..100 {
        if let Some(pct) = p.record_chunk(10, Some(1000)) {
            reports.push(pct);
        }
    }
    assert_eq!(p.downloaded_bytes, 1000);
    assert_eq!(reports, (1..=20).map(|k| k * 5).collect::<Vec<u8>>());

    let mut unknown = DownloadProgress::new();
    assert_eq!(unknown.record_chunk(500, None), None);
    assert_eq!(unknown.record_chunk(500, Some(0)), None);
    assert_eq!(unknown.downloaded_bytes, 1000);

    let mut big = DownloadProgress::new();
    assert_eq!(big.record_chunk(u64::MAX / 2, Some(1)), Some(100));
}

#[test]
fn empty_download_is_an_error() {
    assert_eq!(
        empty_download_error("tokenizer.json", 0),
        Some("Downloaded BGE-M3 asset tokenizer.json is empty".to_string())
    );
    assert_eq!(empty_download_error("tokenizer.json", 12), None);
}

#[test]
fn local_model_dir_follows_the_configured_value() {
    assert_eq!(resolve_local_embedding_model_dir(None, true), LocalModelDir::Default);
    assert_eq!(resolve_local_embedding_model_dir(Some("   "), true), LocalModelDir::Default);
    assert_eq!(
        resolve_local_embedding_model_dir(Some(" ./resources/models/embeddings/bge-m3 "), true),
        LocalModelDir::Default
    );
    assert_eq!(
        resolve_local_embedding_model_dir(Some(" custom/bge "), true),
        LocalModelDir::UnderAppData("custom/bge".to_string())
    );
    assert_eq!(
        resolve_local_embedding_model_dir(Some("custom/bge"), false),
        LocalModelDir::Configured("custom/bge".to_string())
    );
    assert_eq!(
        resolve_local_embedding_model_dir(Some("/opt/models/bge-m3"), true),
        LocalModelDir::Configured("/opt/models/bge-m3".to_string())
    );
}

#[test]
fn relative_model_dirs_never_count_as_absolute() {
    assert_eq!(
        resolve_local_embedding_model_dir(Some("resources/models/embeddings/bge-m3"), false),
        LocalModelDir::Default
    );
    assert_eq!(
        resolve_local_embedding_model_dir(Some("models\\bge"), true),
        LocalModelDir::UnderAppData("models\\bge".to_string())
    );
}

#[test]
fn config_from_settings_defaults_to_local_bge_m3() {
    let config = embedding_settings(None, Some("sk-test"), None, None, None, false)
        .expect("config should resolve");

    assert_eq!(config.provider, EmbeddingProvider::Local);
    assert_eq!(config.model_name, DEFAULT_OPENROUTER_EMBEDDING_MODEL);
}

#[test]
fn config_from_settings_allows_embedding_model_override() {
    let config = embedding_settings(None, Some("sk-test"), Some("custom/model"), None, None, false)
        .expect("config should resolve");

    assert_eq!(config.model_name, "custom/model");
}

#[test]
fn config_from_settings_allows_local_provider_without_openrouter_key() {
    let config = embedding_settings(Some("local"), None, None, Some("C:/models/bge-m3"), None, false)
        .expect("local config should not require API key");

    assert_eq!(config.provider, EmbeddingProvider::Local);
    assert_eq!(config.model_name, DEFAULT_OPENROUTER_EMBEDDING_MODEL);
    assert_eq!(
        config.local_model_dir,
        Some(LocalModelDir::Configured("C:/models/bge-m3".to_string()))
    );
}

#[test]
fn config_from_settings_uses_app_data_default_for_local_provider_when_dir_is_empty() {
    let config = embedding_settings(Some("local"), None, None, None, None, true)
        .expect("local config should resolve");

    assert_eq!(config.local_model_dir, Some(LocalModelDir::Default));
}

#[test]
fn config_from_settings_ignores_legacy_resource_relative_dir_for_local_provider() {
    let config = embedding_settings(
        Some("local"),
        None,
        None,
        Some("resources/models/embeddings/bge-m3"),
        None,
        true,
    )
    .expect("local config should resolve");

    assert_eq!(config.local_model_dir, Some(LocalModelDir::Default));
}

#[test]
fn config_from_settings_rejects_unknown_embedding_provider() {
    let error = match embedding_settings(Some("mystery"), None, None, None, None, false) {
        Ok(_) => panic!("unknown provider should fail"),
        Err(error) => error,
    };

    assert!(error.contains("Proveedor de embeddings no soportado"));
    assert!(error.contains("api"));
    assert!(error.contains("local"));
}

#[test]
fn config_from_settings_requires_openrouter_key_when_api_provider_is_selected() {
    let error = match embedding_settings(Some("api"), None, None, None, None, false) {
        Ok(_) => panic!("missing key should fail"),
        Err(error) => error,
    };

    assert!(error.contains("OpenRouter API key"));
    assert!(error.contains("Local ONNX"));
}

#[test]
fn blank_api_key_counts_as_missing() {
    let error = embedding_settings(Some("api"), Some("   "), None, None, None, false).unwrap_err();
    assert_eq!(error, API_KEY_MISSING);
}

#[test]
fn api_provider_keeps_the_trimmed_key_and_directory() {
    let config = embedding_settings(
        Some("api"),
        Some("  sk-live  "),
        Some("  other/model "),
        Some("  relative/dir  "),
        None,
        true,
    )
    .unwrap();
    assert_eq!(config.provider, EmbeddingProvider::Api);
    assert_eq!(config.api_key, "sk-live");
    assert_eq!(config.model_name, "other/model");
    assert_eq!(
        config.local_model_dir,
        Some(LocalModelDir::Configured("relative/dir".to_string()))
    );
    let without_dir = embedding_settings(Some("api"), Some("k"), None, Some("  "), None, true).unwrap();
    assert_eq!(without_dir.local_model_dir, None);
}

#[test]
fn max_length_is_read_and_clamped() {
    let cap = |v: Option<&str>| {
        embedding_settings(Some("local"), None, None, None, v, false)
            .unwrap()
            .local_max_length
    };
    assert_eq!(cap(None), 8192);
    assert_eq!(cap(Some("512")), 512);
    assert_eq!(cap(Some(" 1024 ")), 1024);
    assert_eq!(cap(Some("+256")), 256);
    assert_eq!(cap(Some("4")), 8);
    assert_eq!(cap(Some("99999")), 8192);
    assert_eq!(cap(Some("abc")), 8192);
    assert_eq!(cap(Some("-5")), 8192);
    assert_eq!(cap(Some("+")), 8192);
    assert_eq!(cap(Some("")), 8192);
    assert_eq!(cap(Some("99999999999999999999999999")), 8192);
}

#[test]
fn precheck_refuses_blank_text_before_looking_at_the_engine() {
    assert_eq!(
        asset_embedding_precheck("item-1", "asset-9", "  \n ", false, None),
        Err("No source text available for asset 'asset-9' (run OCR/transcription first)".to_string())
    );
}

#[test]
fn precheck_skips_when_no_engine_is_available() {
    assert_eq!(
        asset_embedding_precheck("item-1", "asset-9", "texto", false, Some("  boom  ")),
        Err("[nlp/embeddings] Skipping embedding for item-1: No BGE-M3 embedding engine configured. Last initialization error: boom".to_string())
    );
    assert_eq!(asset_embedding_precheck("item-1", "asset-9", "texto", true, None), Ok(()));
}
