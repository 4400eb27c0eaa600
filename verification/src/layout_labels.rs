//! The categories of the document layout model's classes and labels.

use vstd::prelude::*;
use crate::nlp_queue::same_text;
use crate::ocr_types::LayoutCategory;

verus! {

/// The layout model's class table: class id to category (23 classes; unknown
/// ids are plain text).
pub open spec fn class_category(class_id: int) -> LayoutCategory {
    if class_id == 0 || class_id == 1 || class_id == 17 {
        LayoutCategory::Title
    } else if class_id == 3 || class_id == 15 || class_id == 16 {
        LayoutCategory::Abandoned
    } else if class_id == 4 || class_id == 10 {
        LayoutCategory::Caption
    } else if class_id == 5 || class_id == 11 || class_id == 14 {
        LayoutCategory::Footnote
    } else if class_id == 7 {
        LayoutCategory::Header
    } else if class_id == 8 || class_id == 21 {
        LayoutCategory::Footer
    } else if class_id == 9 {
        LayoutCategory::Table
    } else if class_id == 12 || class_id == 13 {
        LayoutCategory::Figure
    } else if class_id == 18 {
        LayoutCategory::Code
    } else if class_id == 19 {
        LayoutCategory::Reference
    } else {
        LayoutCategory::PlainText
    }
}

/// Maps a class id of the layout model's output to its category.
pub fn map_class_id(class_id: usize) -> (r: LayoutCategory)
    ensures
        r == class_category(class_id as int),
{
    match class_id {
        0 | 1 | 17 => LayoutCategory::Title,
        3 | 15 | 16 => LayoutCategory::Abandoned,
        4 | 10 => LayoutCategory::Caption,
        5 | 11 | 14 => LayoutCategory::Footnote,
        7 => LayoutCategory::Header,
        8 | 21 => LayoutCategory::Footer,
        9 => LayoutCategory::Table,
        12 | 13 => LayoutCategory::Figure,
        18 => LayoutCategory::Code,
        19 => LayoutCategory::Reference,
        _ => LayoutCategory::PlainText,
    }
}

/// The category of a label name; unknown names are plain text.
pub open spec fn label_category(l: Seq<char>) -> LayoutCategory {
    if l == "doc_title"@ || l == "paragraph_title"@ {
        LayoutCategory::Title
    } else if l == "text"@ || l == "abstract"@ {
        LayoutCategory::PlainText
    } else if l == "table"@ {
        LayoutCategory::Table
    } else if l == "image"@ || l == "chart"@ {
        LayoutCategory::Figure
    } else if l == "figure_title"@ || l == "table_caption"@ {
        LayoutCategory::Caption
    } else if l == "vision_footnote"@ || l == "figure_note"@ || l == "table_note"@ {
        LayoutCategory::Footnote
    } else if l == "page_header"@ {
        LayoutCategory::Header
    } else if l == "page_footer"@ || l == "page_number"@ {
        LayoutCategory::Footer
    } else if l == "code"@ {
        LayoutCategory::Code
    } else if l == "reference"@ {
        LayoutCategory::Reference
    } else if l == "abandoned"@ || l == "seal"@ || l == "formula"@ {
        LayoutCategory::Abandoned
    } else {
        LayoutCategory::PlainText
    }
}

/// Maps a label name of the layout model's metadata to its category.
pub fn map_label(label: &str) -> (r: LayoutCategory)
    ensures
        r == label_category(label@),
{
    if same_text(label, "doc_title") || same_text(label, "paragraph_title") {
        LayoutCategory::Title
    } else if same_text(label, "text") || same_text(label, "abstract") {
        LayoutCategory::PlainText
    } else if same_text(label, "table") {
        LayoutCategory::Table
    } else if same_text(label, "image") || same_text(label, "chart") {
        LayoutCategory::Figure
    } else if same_text(label, "figure_title") || same_text(label, "table_caption") {
        LayoutCategory::Caption
    } else if same_text(label, "vision_footnote") || same_text(label, "figure_note") || same_text(
        label,
        "table_note",
    ) {
        LayoutCategory::Footnote
    } else if same_text(label, "page_header") {
        LayoutCategory::Header
    } else if same_text(label, "page_footer") || same_text(label, "page_number") {
        LayoutCategory::Footer
    } else if same_text(label, "code") {
        LayoutCategory::Code
    } else if same_text(label, "reference") {
        LayoutCategory::Reference
    } else if same_text(label, "abandoned") || same_text(label, "seal") || same_text(
        label,
        "formula",
    ) {
        LayoutCategory::Abandoned
    } else {
        LayoutCategory::PlainText
    }
}

/// The category of a label of the remote OCR service, if it has one.
pub open spec fn remote_label_category(l: Seq<char>) -> Option<LayoutCategory> {
    if l == "title"@ {
        Some(LayoutCategory::Title)
    } else if l == "text"@ || l == "formula"@ {
        Some(LayoutCategory::PlainText)
    } else if l == "table"@ {
        Some(LayoutCategory::Table)
    } else if l == "image"@ {
        Some(LayoutCategory::Figure)
    } else {
        None
    }
}

/// Maps a label of the remote OCR service to a category.
pub fn glm_label_to_layout_category(label: &str) -> (r: Option<LayoutCategory>)
    ensures
        r == remote_label_category(label@),
{
    if same_text(label, "title") {
        Some(LayoutCategory::Title)
    } else if same_text(label, "text") || same_text(label, "formula") {
        Some(LayoutCategory::PlainText)
    } else if same_text(label, "table") {
        Some(LayoutCategory::Table)
    } else if same_text(label, "image") {
        Some(LayoutCategory::Figure)
    } else {
        None
    }
}

/// The RGBA colour in which regions of each category are outlined in the
/// debugging overlays.
pub open spec fn category_rgba(category: LayoutCategory) -> [u8; 4] {
    match category {
        LayoutCategory::Title => [220u8, 30u8, 30u8, 255u8],
        LayoutCategory::PlainText => [30u8, 160u8, 60u8, 255u8],
        LayoutCategory::Table => [30u8, 80u8, 200u8, 255u8],
        LayoutCategory::Figure => [200u8, 120u8, 30u8, 255u8],
        LayoutCategory::Caption => [160u8, 60u8, 180u8, 255u8],
        LayoutCategory::Footnote => [200u8, 200u8, 30u8, 255u8],
        LayoutCategory::Header => [130u8, 130u8, 130u8, 255u8],
        LayoutCategory::Footer => [90u8, 90u8, 90u8, 255u8],
        LayoutCategory::Code => [30u8, 180u8, 180u8, 255u8],
        LayoutCategory::Reference => [180u8, 100u8, 30u8, 255u8],
        LayoutCategory::Abandoned => [240u8, 100u8, 180u8, 255u8],
    }
}

/// The overlay colour of a category (see `category_rgba`).
pub fn category_color(category: &LayoutCategory) -> (r: [u8; 4])
    ensures
        r == category_rgba(*category),
{
    match category {
        LayoutCategory::Title => [220u8, 30u8, 30u8, 255u8],
        LayoutCategory::PlainText => [30u8, 160u8, 60u8, 255u8],
        LayoutCategory::Table => [30u8, 80u8, 200u8, 255u8],
        LayoutCategory::Figure => [200u8, 120u8, 30u8, 255u8],
        LayoutCategory::Caption => [160u8, 60u8, 180u8, 255u8],
        LayoutCategory::Footnote => [200u8, 200u8, 30u8, 255u8],
        LayoutCategory::Header => [130u8, 130u8, 130u8, 255u8],
        LayoutCategory::Footer => [90u8, 90u8, 90u8, 255u8],
        LayoutCategory::Code => [30u8, 180u8, 180u8, 255u8],
        LayoutCategory::Reference => [180u8, 100u8, 30u8, 255u8],
        LayoutCategory::Abandoned => [240u8, 100u8, 180u8, 255u8],
    }
}

} // verus!
