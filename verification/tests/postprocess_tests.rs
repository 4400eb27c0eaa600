use entropia_nlp_ocr::ocr_types::{BoundingBox, OcrRegion};
use entropia_nlp_ocr::postprocess::{detect_paragraphs, group_columns, merge_hyphens, postprocess};

fn make_region(text: &str, x: i32, y: i32, w: u32, h: u32) -> OcrRegion {
    OcrRegion {
        text: text.to_string(),
        confidence: 9000,
        bbox: Some(BoundingBox {
            x,
            y,
            width: w,
            height: h,
        }),
        column: None,
    }
}

fn make_region_no_bbox(text: &str) -> OcrRegion {
    OcrRegion {
        text: text.to_string(),
        confidence: 9000,
        bbox: None,
        column: None,
    }
}

#[test]
fn test_group_columns_two_column_layout() {
    // Simulate a two-column document layout:
    // Left column (x=50): two paragraphs top-to-bottom
    // Right column (x=450): two paragraphs top-to-bottom
    let regions = vec![
        // Right column, bottom (should sort to position 3)
        make_region("Right bottom", 450, 400, 300, 30),
        // Left column, bottom (should sort to position 1)
        make_region("Left bottom", 50, 400, 300, 30),
        // Left column, top (should sort to position 0)
        make_region("Left top", 50, 100, 300, 30),
        // Right column, top (should sort to position 2)
        make_region("Right top", 450, 100, 300, 30),
    ];

    let result = group_columns(regions);

    // Verify column assignments
    assert_eq!(result[0].text, "Left top");
    assert_eq!(result[0].column, Some(0));
    assert_eq!(result[1].text, "Left bottom");
    assert_eq!(result[1].column, Some(0));
    assert_eq!(result[2].text, "Right top");
    assert_eq!(result[2].column, Some(1));
    assert_eq!(result[3].text, "Right bottom");
    assert_eq!(result[3].column, Some(1));
}

#[test]
fn test_group_columns_single_column() {
    // All regions overlap on X-axis — single column
    let regions = vec![
        make_region("Bottom", 50, 300, 300, 30),
        make_region("Top", 60, 100, 280, 30),
    ];

    let result = group_columns(regions);

    assert_eq!(result[0].text, "Top");
    assert_eq!(result[1].text, "Bottom");
    // Both should be in column 0
    assert_eq!(result[0].column, Some(0));
    assert_eq!(result[1].column, Some(0));
}

#[test]
fn test_group_columns_no_bboxes() {
    // Regions without bboxes should pass through unchanged
    let regions = vec![
        make_region_no_bbox("First line"),
        make_region_no_bbox("Second line"),
    ];

    let result = group_columns(regions);
    assert_eq!(result.len(), 2);
    assert_eq!(result[0].column, None);
    assert_eq!(result[1].column, None);
}

#[test]
fn test_merge_hyphens_basic() {
    let regions = vec![
        OcrRegion {
            text: "intro-".to_string(),
            confidence: 9000,
            bbox: Some(BoundingBox {
                x: 50,
                y: 100,
                width: 100,
                height: 20,
            }),
            column: Some(0),
        },
        OcrRegion {
            text: "duction".to_string(),
            confidence: 8500,
            bbox: Some(BoundingBox {
                x: 50,
                y: 130,
                width: 80,
                height: 20,
            }),
            column: Some(0),
        },
        OcrRegion {
            text: "of text.".to_string(),
            confidence: 8800,
            bbox: Some(BoundingBox {
                x: 50,
                y: 160,
                width: 90,
                height: 20,
            }),
            column: Some(0),
        },
    ];

    let result = merge_hyphens(regions);

    assert_eq!(result.len(), 2);
    assert_eq!(result[0].text, "introduction");
    assert_eq!(result[1].text, "of text.");
}

#[test]
fn test_merge_hyphens_no_merge_uppercase() {
    // Should NOT merge if next line starts with uppercase
    let regions = vec![
        OcrRegion {
            text: "self-".to_string(),
            confidence: 9000,
            bbox: None,
            column: None,
        },
        OcrRegion {
            text: "Important concept".to_string(),
            confidence: 8500,
            bbox: None,
            column: None,
        },
    ];

    let result = merge_hyphens(regions);
    assert_eq!(result.len(), 2);
    assert_eq!(result[0].text, "self-");
}

#[test]
fn test_merge_hyphens_trailing_whitespace() {
    // Hyphen with trailing whitespace should still merge
    let regions = vec![
        OcrRegion {
            text: "well- ".to_string(),
            confidence: 9000,
            bbox: None,
            column: None,
        },
        OcrRegion {
            text: "known".to_string(),
            confidence: 8500,
            bbox: None,
            column: None,
        },
    ];

    let result = merge_hyphens(regions);
    assert_eq!(result.len(), 1);
    assert_eq!(result[0].text, "wellknown");
}

#[test]
fn test_detect_paragraphs_sentence_break() {
    let regions = vec![
        OcrRegion {
            text: "This is the first paragraph.".to_string(),
            confidence: 9000,
            bbox: None,
            column: None,
        },
        OcrRegion {
            text: "This is the second paragraph.".to_string(),
            confidence: 8500,
            bbox: None,
            column: None,
        },
    ];

    let result = detect_paragraphs(regions);
    assert_eq!(result.len(), 2);
    // First region should have an extra newline
    assert!(result[0].text.ends_with('\n'));
    assert_eq!(result[1].text, "This is the second paragraph.");
}

#[test]
fn test_detect_paragraphs_no_break_lowercase() {
    // Should NOT insert paragraph break if next line starts with lowercase
    let regions = vec![
        OcrRegion {
            text: "This sentence continues".to_string(),
            confidence: 9000,
            bbox: None,
            column: None,
        },
        OcrRegion {
            text: "on the next line.".to_string(),
            confidence: 8500,
            bbox: None,
            column: None,
        },
    ];

    let result = detect_paragraphs(regions);
    assert_eq!(result[0].text, "This sentence continues");
}

#[test]
fn test_detect_paragraphs_exclamation() {
    let regions = vec![
        OcrRegion {
            text: "Watch out!".to_string(),
            confidence: 9000,
            bbox: None,
            column: None,
        },
        OcrRegion {
            text: "Danger ahead.".to_string(),
            confidence: 8500,
            bbox: None,
            column: None,
        },
    ];

    let result = detect_paragraphs(regions);
    assert!(result[0].text.ends_with('\n'));
}

#[test]
fn test_detect_paragraphs_question() {
    let regions = vec![
        OcrRegion {
            text: "What happened?".to_string(),
            confidence: 9000,
            bbox: None,
            column: None,
        },
        OcrRegion {
            text: "Nobody knows.".to_string(),
            confidence: 8500,
            bbox: None,
            column: None,
        },
    ];

    let result = detect_paragraphs(regions);
    assert!(result[0].text.ends_with('\n'));
}

#[test]
fn test_detect_paragraphs_single_region() {
    let regions = vec![OcrRegion {
        text: "Only one region.".to_string(),
        confidence: 9000,
        bbox: None,
        column: None,
    }];

    let result = detect_paragraphs(regions);
    assert_eq!(result.len(), 1);
    assert_eq!(result[0].text, "Only one region.");
}

#[test]
fn test_postprocess_full_pipeline() {
    // End-to-end: two columns, hyphenated word, paragraph break
    let regions = vec![
        make_region("Left para one. ", 50, 100, 300, 30),
        make_region("Left para two ", 50, 140, 300, 30),
        make_region("starts here.", 50, 170, 290, 30),  // lowercase start after prev line
        make_region("intro-", 50, 250, 100, 30),
        make_region("duction to AI.", 50, 280, 300, 30),
        make_region("Right col first.", 450, 100, 300, 30),
        make_region("Right col second.", 450, 140, 300, 30),
    ];

    let result = postprocess(regions);

    // Verify column assignments (0 for left, 1 for right)
    let left_regions: Vec<_> = result.iter().filter(|r| r.column == Some(0)).collect();
    let right_regions: Vec<_> = result.iter().filter(|r| r.column == Some(1)).collect();

    assert!(!left_regions.is_empty(), "Should have left column regions");
    assert!(!right_regions.is_empty(), "Should have right column regions");

    // Verify hyphen merge happened: "intro-" + "duction" → "introduction"
    let merged_texts: Vec<&str> = result.iter().map(|r| r.text.as_str()).collect();
    assert!(
        merged_texts.iter().any(|t| t.contains("introduction")),
        "Expected merged hyphen word 'introduction', got: {:?}",
        merged_texts
    );
}

#[test]
fn group_columns_reads_an_oversized_width_as_wrapped() {
    // A width above i32::MAX is read as a negative i32 (u32::MAX is -1), so the
    // second box spans 50..49 and overlaps the first column by -1: it opens a
    // column of its own.
    let regions = vec![
        make_region("first", 0, 0, 100, 20),
        make_region("second", 50, 10, u32::MAX, 20),
    ];
    let result = group_columns(regions);
    assert_eq!(result[0].text, "first");
    assert_eq!(result[0].column, Some(0));
    assert_eq!(result[1].text, "second");
    assert_eq!(result[1].column, Some(1));
}
