//! Shared OCR output types: bounding boxes, recognised regions and layout categories.
//!
//! Confidences are integers on the `CONFIDENCE_SCALE` of the NER types
//! (0.9 is stored as 9000).

use vstd::prelude::*;

verus! {

/// A rectangle in pixel coordinates; the origin is the top-left corner.
#[derive(Debug, Clone, Copy, PartialEq, Eq, Structural)]
pub struct BoundingBox {
    pub x: i32,
    pub y: i32,
    pub width: u32,
    pub height: u32,
}

/// The right edge `x + width`.
pub open spec fn right_edge(b: BoundingBox) -> int {
    b.x + b.width
}

/// The bottom edge `y + height`.
pub open spec fn bottom_edge(b: BoundingBox) -> int {
    b.y + b.height
}

/// The right and bottom edges are representable as `i32` pixel coordinates.
pub open spec fn edges_fit(b: BoundingBox) -> bool {
    right_edge(b) <= i32::MAX && bottom_edge(b) <= i32::MAX
}

/// A box as produced by a detector: extents and edges representable as `i32`.
pub open spec fn bbox_ok(b: BoundingBox) -> bool {
    edges_fit(b) && b.width <= i32::MAX && b.height <= i32::MAX
}

/// One recognised line or block of text; `column` is assigned by post-processing
/// (0 is the leftmost column).
#[derive(Debug)]
pub struct OcrRegion {
    pub text: String,
    pub confidence: u32,
    pub bbox: Option<BoundingBox>,
    pub column: Option<usize>,
}

/// The content of an `OcrRegion`, with its text as a character sequence.
pub struct OcrRegionView {
    pub text: Seq<char>,
    pub confidence: u32,
    pub bbox: Option<BoundingBox>,
    pub column: Option<usize>,
}

impl View for OcrRegion {
    type V = OcrRegionView;

    open spec fn view(&self) -> OcrRegionView {
        OcrRegionView {
            text: self.text@,
            confidence: self.confidence,
            bbox: self.bbox,
            column: self.column,
        }
    }
}

pub open spec fn region_views(s: Seq<OcrRegion>) -> Seq<OcrRegionView> {
    s.map_values(|r: OcrRegion| r@)
}

impl OcrRegion {
    /// A field-by-field copy.
    pub fn duplicate(&self) -> (r: OcrRegion)
        ensures
            r@ == self@,
    {
        OcrRegion {
            text: self.text.clone(),
            confidence: self.confidence,
            bbox: self.bbox,
            column: self.column,
        }
    }
}

/// The full output of an OCR provider.
#[derive(Debug)]
pub struct OcrOutput {
    pub text: String,
    pub regions: Vec<OcrRegion>,
    pub method: String,
}

/// The category of a region found by document layout detection.
#[derive(Debug, Clone, Copy, PartialEq, Eq, Structural)]
pub enum LayoutCategory {
    Title,
    PlainText,
    Table,
    Figure,
    Caption,
    Footnote,
    Header,
    Footer,
    Code,
    Reference,
    Abandoned,
}

/// A region found by layout detection, with its reading-order position.
#[derive(Debug, Clone, Copy, PartialEq, Eq, Structural)]
pub struct LayoutRegion {
    pub label: LayoutCategory,
    pub bbox: BoundingBox,
    pub confidence: u32,
    pub order: usize,
}

} // verus!
