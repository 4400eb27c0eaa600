use entropia_nlp_ocr::glm::{
    glm_response_has_useful_content, glm_response_to_processed_output, GlmDocument,
    GlmLayoutItem, LayoutPersistencePayload,
};
use entropia_nlp_ocr::glm_upload::encode_bytes_for_glm_ocr;
use entropia_nlp_ocr::layout_labels::category_color;
use entropia_nlp_ocr::nlp_queue::{
    admit_job, begin_entity_refresh, finish_entity_refresh, finish_submit, NlpJob, PendingJobs,
    WorkerState,
};
use entropia_nlp_ocr::ocr_pipeline::{
    crop_bounds, is_quality_text, pdf_page_progress, strip_windows_prefix,
};
use entropia_nlp_ocr::ocr_types::{BoundingBox, LayoutCategory};
use entropia_nlp_ocr::paddle_vl::{PaddleVlBbox, PaddleVlBlock, PaddleVlOutput, PaddleVlRegion};

fn bbox(x: i32, y: i32, width: i32, height: i32) -> Option<PaddleVlBbox> {
    Some(PaddleVlBbox { x, y, width, height })
}

/// A layout item whose box is already in pixels (the application converts the
/// service's normalised coordinates before calling the library).
fn item(
    index: i32,
    label: &str,
    content: &str,
    width: u32,
    height: u32,
    pixels: Option<PaddleVlBbox>,
) -> GlmLayoutItem {
    GlmLayoutItem {
        index: Some(index),
        label: Some(label.to_string()),
        content: Some(content.to_string()),
        width: Some(width),
        height: Some(height),
        bbox: pixels,
    }
}

#[test]
fn empty_text_is_not_quality() {
    assert!(!is_quality_text(""));
}

#[test]
fn short_garbled_text_is_not_quality() {
    let garbled = "!@#$%^&*()_+-=[]{}|;':\",./<>? abc 123";
    assert!(!is_quality_text(garbled));
}

#[test]
fn normal_text_is_quality() {
    let text = "This is a perfectly normal paragraph of text that contains well over fifty alphanumeric characters and should pass the quality heuristic with ease.";
    assert!(is_quality_text(text));
}

#[test]
fn test_strip_windows_prefix() {
    // No prefix — should return unchanged
    let path = r"C:\Users\test\file.dll".to_string();
    assert_eq!(strip_windows_prefix(path.clone()), path);

    // With prefix — should strip it
    let prefixed = r"\\?\C:\Users\test\file.dll".to_string();
    let stripped = strip_windows_prefix(prefixed);
    assert_eq!(stripped, r"C:\Users\test\file.dll");

    // Empty path — should be fine
    let empty = String::new();
    assert_eq!(strip_windows_prefix(empty.clone()), empty);
}

#[test]
fn category_color_is_stable() {
    // Regression guard — colors must not change silently between versions
    let c = category_color(&LayoutCategory::Title);
    assert_eq!(c, [220, 30, 30, 255]);
    let c = category_color(&LayoutCategory::PlainText);
    assert_eq!(c, [30, 160, 60, 255]);
}

#[test]
fn test_layout_payload_tracks_page_metadata_and_blocks() {
    let output = PaddleVlOutput {
        text: "hola".to_string(),
        method: "paddle_vl".to_string(),
        blocks: vec![PaddleVlBlock {
            label: "title".to_string(),
            content: "Portada".to_string(),
            bbox: PaddleVlBbox {
                x: 10,
                y: 20,
                width: 30,
                height: 40,
            },
            order: 0,
            group_id: 1,
        }],
        regions: vec![PaddleVlRegion {
            category: "title".to_string(),
            bbox: PaddleVlBbox {
                x: 10,
                y: 20,
                width: 30,
                height: 40,
            },
            confidence: 9800,
        }],
        image_width: 1200,
        image_height: 1800,
        actual_device: None,
    };

    let payload = LayoutPersistencePayload::from_page(2, &output);

    assert_eq!(payload.model, "paddle_vl");
    assert_eq!(payload.blocks.len(), 1);
    assert_eq!(payload.regions.len(), 1);
    assert_eq!(payload.blocks[0].page, 2);
    assert_eq!(payload.blocks[0].image_width, 1200);
    assert_eq!(payload.regions[0].page, 2);
    assert_eq!(payload.regions[0].image_height, 1800);
}

#[test]
fn test_glm_response_to_processed_output_uses_markdown_and_maps_layout() {
    // Boxes 0.1,0.2,0.5,0.4 and 0.2,0.5,0.8,0.9 on an 800x1000 page.
    let response = GlmDocument {
        md_results: "# Título\n\nTexto".to_string(),
        layout_details: vec![vec![
            item(1, "text", "Título", 800, 1000, bbox(80, 200, 320, 200)),
            item(
                2,
                "table",
                "<table><tr><td>a</td></tr></table>",
                800,
                1000,
                bbox(160, 500, 480, 400),
            ),
        ]],
        data_info: None,
    };

    let output = glm_response_to_processed_output(&response, "glm_ocr").expect("glm output");

    assert_eq!(output.ocr.text, "# Título\n\nTexto");
    assert_eq!(output.ocr.method, "glm_ocr");
    assert_eq!(output.layout.as_ref().expect("layout").blocks.len(), 2);
    assert_eq!(
        output.layout.as_ref().expect("layout").blocks[0].label,
        "title"
    );
    assert_eq!(
        output.layout.as_ref().expect("layout").blocks[1].label,
        "table"
    );
    assert_eq!(output.layout.as_ref().expect("layout").image_width, 800);
    assert_eq!(output.layout.as_ref().expect("layout").image_height, 1000);
}

#[test]
fn test_glm_response_promotes_markdown_heading_inside_wrapped_html() {
    let response = GlmDocument {
        md_results: "<div align=\"center\">\n\n# MAR DEL PLATA: Lucha en la industria del pescado\n\n</div>".to_string(),
        layout_details: vec![vec![item(
            1,
            "text",
            "MAR DEL PLATA: Lucha en la industria del pescado",
            800,
            1000,
            bbox(80, 100, 320, 100),
        )]],
        data_info: None,
    };

    let output = glm_response_to_processed_output(&response, "glm_ocr").expect("glm output");
    assert_eq!(
        output.layout.as_ref().expect("layout").blocks[0].label,
        "title"
    );
    assert_eq!(
        output.layout.as_ref().expect("layout").regions[0].category,
        "title"
    );
}

#[test]
fn test_glm_response_promotes_multiline_centered_heading_lines_to_title() {
    let response = GlmDocument {
        md_results: "<div align=\"center\">\n\n# Trabajadores del Pescado\n\nRechazan una Impugnación\n\n</div>".to_string(),
        layout_details: vec![vec![
            item(1, "text", "Trabajadores del Pescado", 800, 1000, bbox(80, 100, 320, 100)),
            item(2, "text", "Rechazan una Impugnación", 800, 1000, bbox(80, 220, 360, 100)),
        ]],
        data_info: None,
    };

    let output = glm_response_to_processed_output(&response, "glm_ocr").expect("glm output");
    let layout = output.layout.as_ref().expect("layout");
    assert_eq!(layout.blocks[0].label, "title");
    assert_eq!(layout.blocks[1].label, "title");
    assert_eq!(layout.regions[0].category, "title");
    assert_eq!(layout.regions[1].category, "title");
}

#[test]
fn test_glm_response_promotes_heading_when_html_precedes_markdown_on_same_line() {
    let response = GlmDocument {
        md_results: "<div align=\"center\"> ## Trabajadores del Pescado </div>".to_string(),
        layout_details: vec![vec![item(
            1,
            "text",
            "## Trabajadores del Pescado",
            3825,
            4950,
            bbox(663, 521, 660, 71),
        )]],
        data_info: None,
    };

    let output = glm_response_to_processed_output(&response, "glm_ocr").expect("glm output");
    let layout = output.layout.as_ref().expect("layout");
    assert_eq!(layout.blocks[0].label, "title");
    assert_eq!(layout.regions[0].category, "title");
}

#[test]
fn test_glm_response_has_useful_content_detects_empty_responses() {
    let empty = GlmDocument {
        md_results: "   ".to_string(),
        layout_details: vec![vec![item(
            1,
            "image",
            "https://example.com/image.png",
            10,
            10,
            bbox(0, 0, 10, 10),
        )]],
        data_info: None,
    };

    let useful = GlmDocument {
        md_results: " ".to_string(),
        layout_details: vec![vec![item(1, "text", "hola", 10, 10, bbox(0, 0, 10, 10))]],
        data_info: None,
    };

    assert!(!glm_response_has_useful_content(&empty));
    assert!(glm_response_has_useful_content(&useful));
}

#[test]
fn submit_coalesces_duplicate_fts_jobs_while_pending() {
    let mut pending = PendingJobs::new();
    let job = NlpJob::IndexFts {
        item_id: "item-dup".to_string(),
    };

    assert!(admit_job(&mut pending, &job), "first enqueue should be sent");
    assert!(
        !admit_job(&mut pending, &job),
        "duplicate should not queue a second FTS job"
    );
    assert_eq!(
        pending.fts_entry("item-dup"),
        Some(true),
        "duplicate enqueue should mark the item for one rerun"
    );
}

#[test]
fn glm_upload_encodes_pdf_as_data_url() {
    let url = encode_bytes_for_glm_ocr(b"%PDF-1.4").expect("pdf upload");
    assert_eq!(url, "data:application/pdf;base64,JVBERi0xLjQ=");
}

#[test]
fn glm_upload_encodes_png_and_jpeg_images() {
    let png = [0x89u8, 0x50, 0x4e, 0x47, 0x0d, 0x0a, 0x1a, 0x0a, 0x00];
    let url = encode_bytes_for_glm_ocr(&png).expect("png upload");
    assert_eq!(url, "data:image/png;base64,iVBORw0KGgoA");

    let jpeg = [0xffu8, 0xd8, 0xff, 0xe0];
    let url = encode_bytes_for_glm_ocr(&jpeg).expect("jpeg upload");
    assert_eq!(url, "data:image/jpeg;base64,/9j/4A==");
}

#[test]
fn glm_upload_rejects_other_and_unknown_formats() {
    let gif = encode_bytes_for_glm_ocr(b"GIF89a....").expect_err("gif is refused");
    assert_eq!(
        gif,
        "GLM-OCR sólo acepta PDF, PNG o JPG/JPEG. Formato detectado no soportado: Gif"
    );

    let unknown = encode_bytes_for_glm_ocr(b"hello").expect_err("unknown bytes are refused");
    assert!(unknown.starts_with("No pude detectar el formato de la imagen para GLM-OCR: "));
}

/// A bounded channel of the queue's capacity, as the worker's receiving end sees it.
struct BoundedChannel {
    jobs: Vec<NlpJob>,
    capacity: usize,
}

impl BoundedChannel {
    fn try_send(&mut self, job: NlpJob) -> Result<(), String> {
        if self.jobs.len() >= self.capacity {
            Err("no available capacity".to_string())
        } else {
            self.jobs.push(job);
            Ok(())
        }
    }
}

fn submit(pending: &mut PendingJobs, channel: &mut BoundedChannel, job: NlpJob) -> Result<(), String> {
    if !admit_job(pending, &job) {
        return Ok(());
    }
    let copy = match &job {
        NlpJob::IndexFts { item_id } => NlpJob::IndexFts { item_id: item_id.clone() },
        NlpJob::ExtractEntities { item_id } => NlpJob::ExtractEntities { item_id: item_id.clone() },
        NlpJob::EnrichItem { item_id } => NlpJob::EnrichItem { item_id: item_id.clone() },
        NlpJob::ComputeAssetEmbedding { item_id, asset_id } => NlpJob::ComputeAssetEmbedding {
            item_id: item_id.clone(),
            asset_id: asset_id.clone(),
        },
        NlpJob::ExtractEntitiesForAsset { item_id, asset_id } => NlpJob::ExtractEntitiesForAsset {
            item_id: item_id.clone(),
            asset_id: asset_id.clone(),
        },
    };
    let sent = channel.try_send(job);
    finish_submit(pending, &copy, sent)
}

#[test]
fn enqueue_propagates_queue_error_when_channel_is_full() {
    let mut pending = PendingJobs::new();
    let mut channel = BoundedChannel { jobs: Vec::new(), capacity: 64 };

    for i in 0..64 {
        let ok = submit(
            &mut pending,
            &mut channel,
            NlpJob::IndexFts {
                item_id: format!("item-{i}"),
            },
        );
        assert!(ok.is_ok());
    }

    let result = submit(
        &mut pending,
        &mut channel,
        NlpJob::IndexFts {
            item_id: "overflow".to_string(),
        },
    );

    assert!(result.is_err());
    assert!(
        result.err().unwrap().contains("Failed to enqueue NLP job"),
        "Expected queue error to be propagated"
    );
    assert_eq!(pending.fts_entry("overflow"), None);
    assert_eq!(channel.jobs.len(), 64);
    assert_eq!(pending.fts_entry("item-0"), Some(false));
}

#[test]
fn failed_entity_refresh_releases_the_item() {
    let mut pending = PendingJobs::new();
    assert!(begin_entity_refresh(&mut pending, "item-9"));
    assert!(!begin_entity_refresh(&mut pending, "item-9"));
    assert!(pending.ner_is_pending("item-9"));
    let r = finish_entity_refresh(&mut pending, "item-9", Err("Failed to enqueue NLP job: full".to_string()));
    assert_eq!(r, Err("Failed to enqueue NLP job: full".to_string()));
    assert!(!pending.ner_is_pending("item-9"));
    assert!(begin_entity_refresh(&mut pending, "item-9"));
    assert_eq!(finish_entity_refresh(&mut pending, "item-9", Ok(())), Ok(()));
    assert!(pending.ner_is_pending("item-9"));
}

#[test]
fn pdf_page_progress_spans_sixty_to_ninety_five() {

    assert_eq!(pdf_page_progress(0, 10), 60);
    assert_eq!(pdf_page_progress(5, 10), 77);
    assert_eq!(pdf_page_progress(9, 10), 91);
    assert_eq!(pdf_page_progress(8, 9), 91);
    assert_eq!(pdf_page_progress(20, 10), 95);
    assert_eq!(pdf_page_progress(3, 0), 95);
    assert_eq!(pdf_page_progress(300, 400), 86);
}

#[test]
fn worker_builds_the_registry_and_tries_the_embedder_once() {
    let mut state = WorkerState::new();
    let item = |id: &str| id.to_string();

    let first = state.start_job(&NlpJob::IndexFts { item_id: item("a") });
    assert_eq!(first.label, "fts");
    assert!(!first.build_ner && !first.start_embedder);

    let ner = state.start_job(&NlpJob::ExtractEntities { item_id: item("a") });
    assert_eq!(ner.label, "ner");
    assert!(ner.build_ner);

    let ner_again = state.start_job(&NlpJob::ExtractEntitiesForAsset {
        item_id: item("a"),
        asset_id: item("p1"),
    });
    assert_eq!(ner_again.label, "ner");
    assert!(!ner_again.build_ner);

    let embed = state.start_job(&NlpJob::ComputeAssetEmbedding {
        item_id: item("a"),
        asset_id: item("p1"),
    });
    assert_eq!(embed.label, "embed");
    assert!(embed.start_embedder);
    let embed_again = state.start_job(&NlpJob::ComputeAssetEmbedding {
        item_id: item("b"),
        asset_id: item("p2"),
    });
    assert!(!embed_again.start_embedder);
    assert!(state.ner_ready && state.embed_init_attempted);
}

#[test]
fn enrichment_skips_extraction_already_pending() {
    let mut state = WorkerState::new();
    let mut pending = PendingJobs::new();
    assert!(pending.ner_register("busy"));

    assert_eq!(state.begin_enrich_extraction(&mut pending, "busy"), None);
    assert!(!state.ner_ready);

    assert_eq!(state.begin_enrich_extraction(&mut pending, "free"), Some(true));
    assert!(pending.ner_is_pending("free"));
    assert!(state.ner_ready);
    pending.ner_release("free");
    assert_eq!(state.begin_enrich_extraction(&mut pending, "free"), Some(false));
}

#[test]
fn test_crop_region_basic() {
    let bbox = BoundingBox { x: 50, y: 50, width: 100, height: 100 };
    let cropped = crop_bounds(200, 200, bbox);

    assert!(cropped.is_some(), "Crop should succeed for valid bbox");
    let (_, _, width, height) = cropped.unwrap();
    assert!(width >= 100, "Cropped width should be at least 100, got {}", width);
    assert!(height >= 100, "Cropped height should be at least 100, got {}", height);
}

#[test]
fn test_crop_region_at_edge() {
    let bbox = BoundingBox { x: 0, y: 0, width: 50, height: 50 };
    let cropped = crop_bounds(200, 200, bbox);

    assert!(cropped.is_some(), "Crop at edge should succeed");
}

#[test]
fn test_crop_region_too_small() {
    let bbox = BoundingBox { x: 3, y: 3, width: 2, height: 2 };
    let cropped = crop_bounds(8, 8, bbox);

    assert!(
        cropped.is_none(),
        "Region that crops to <10px after margin should be skipped"
    );
}

#[test]
fn test_crop_region_margin_is_5px() {
    let bbox = BoundingBox { x: 200, y: 200, width: 50, height: 50 };
    let (_, _, width, height) = crop_bounds(500, 500, bbox).expect("crop should succeed");

    assert_eq!(width, 60, "50px + 5px + 5px = 60px width");
    assert_eq!(height, 60, "50px + 5px + 5px = 60px height");
}
