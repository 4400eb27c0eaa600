//! The decisions of the OCR pipeline: jobs and modes, which engine handles a
//! high-quality job, layout-aware text formatting, native PDF text quality, how
//! page results accumulate into one document, and what follows a saved result.

use vstd::prelude::*;
use crate::chars::{char_is_alphanumeric, chars_of, is_alphanumeric, str_to_lowercase, to_lowercase};
use crate::nlp_queue::{NlpJob, same_text};
use crate::ocr_types::{BoundingBox, LayoutCategory, LayoutRegion, OcrRegion, OcrRegionView, region_views};
use crate::runtime_status::{RuntimeStatus, RuntimeState, managed_runtime_root_with};
use crate::text::{trim, trim_string};

verus! {

/// OCR processing mode: `Light` runs the lightweight recogniser on the whole
/// page; `High` runs the layout-aware engine, falling back to `Light`.
#[derive(Debug, Clone, Copy, PartialEq, Eq, Structural)]
pub enum OcrMode {
    Light,
    High,
}

impl Default for OcrMode {
    fn default() -> (r: Self)
        ensures
            r == OcrMode::Light,
    {
        OcrMode::Light
    }
}

/// A unit of OCR work: an asset file (`pdf` or an image) and the mode.
#[derive(Debug)]
pub struct OcrJob {
    pub asset_id: String,
    pub asset_path: String,
    pub asset_type: String,
    pub mode: OcrMode,
}

/// Progress of an OCR job.
pub struct OcrProgressPayload {
    pub asset_id: String,
    pub pct: u8,
    pub stage: String,
}

/// Completion of an OCR job.
pub struct OcrCompletePayload {
    pub asset_id: String,
    pub method: String,
    pub text_length: usize,
    pub text_content: String,
}

/// Failure of an OCR job.
pub struct OcrErrorPayload {
    pub asset_id: String,
    pub error: String,
}

/// Whether the job's asset is processed as a PDF (its type is `pdf`).
pub fn is_pdf_job(job: &OcrJob) -> (r: bool)
    ensures
        r == (job.asset_type@ == "pdf"@),
{
    same_text(job.asset_type.as_str(), "pdf")
}

/// Before a high-quality job, the layout engine is probed again when it is not loaded.
pub fn should_reprobe_layout_engine(mode: OcrMode, engine_loaded: bool) -> (r: bool)
    ensures
        r == (mode == OcrMode::High && !engine_loaded),
{
    mode == OcrMode::High && !engine_loaded
}

/// The NLP jobs that follow a saved OCR result: entity extraction for the
/// asset, full-text reindex of the item, and the asset's embedding.
pub fn follow_up_nlp_jobs(item_id: &str, asset_id: &str) -> (r: Vec<NlpJob>)
    ensures
        r.len() == 3,
        r@[0] matches NlpJob::ExtractEntitiesForAsset { item_id: i, asset_id: a } && i@
            == item_id@ && a@ == asset_id@,
        r@[1] matches NlpJob::IndexFts { item_id: i } && i@ == item_id@,
        r@[2] matches NlpJob::ComputeAssetEmbedding { item_id: i, asset_id: a } && i@
            == item_id@ && a@ == asset_id@,
{
    let mut r: Vec<NlpJob> = Vec::new();
    r.push(
        NlpJob::ExtractEntitiesForAsset {
            item_id: String::from_str(item_id),
            asset_id: String::from_str(asset_id),
        },
    );
    r.push(NlpJob::IndexFts { item_id: String::from_str(item_id) });
    r.push(
        NlpJob::ComputeAssetEmbedding {
            item_id: String::from_str(item_id),
            asset_id: String::from_str(asset_id),
        },
    );
    r
}

// ── High-quality route ───────────────────────────────────────────────────────

/// Which engines serve a high-quality job.
#[derive(Debug, Clone, Copy, PartialEq, Eq, Structural)]
pub enum HighRoute {
    /// The remote GLM-OCR service only.
    RemoteOnly,
    /// The remote service first, the local engines if it fails.
    RemoteThenLocal,
    /// The local engines only.
    LocalOnly,
}

/// The route for the (lowercased) high-quality mode setting and the remote key:
/// `glm_ocr` is remote only; `auto` with a key is remote first; otherwise local.
pub open spec fn high_route_for(mode: Seq<char>, api_key: Seq<char>) -> HighRoute {
    if mode == "glm_ocr"@ {
        HighRoute::RemoteOnly
    } else if mode == "auto"@ && api_key.len() > 0 {
        HighRoute::RemoteThenLocal
    } else {
        HighRoute::LocalOnly
    }
}

/// The high-quality mode setting, lowercased; `local` when unset.
pub open spec fn ocrh_mode_of(setting: Option<Seq<char>>) -> Seq<char> {
    match setting {
        Some(s) => str_to_lowercase(s),
        None => str_to_lowercase("local"@),
    }
}

/// The route of a high-quality job for the stored mode setting and remote key.
pub fn high_route(setting: Option<&str>, api_key: &str) -> (r: HighRoute)
    ensures
        r == high_route_for(
            ocrh_mode_of(
                match setting {
                    Some(s) => Some(s@),
                    None => None,
                },
            ),
            api_key@,
        ),
{
    let mode = match setting {
        Some(s) => to_lowercase(s),
        None => to_lowercase("local"),
    };
    if same_text(mode.as_str(), "glm_ocr") {
        HighRoute::RemoteOnly
    } else if same_text(mode.as_str(), "auto") && api_key.unicode_len() > 0 {
        HighRoute::RemoteThenLocal
    } else {
        HighRoute::LocalOnly
    }
}

pub const GLM_OCR_KEY_MISSING: &'static str = "GLM-OCR no está configurado. Andá a Configuración > OCRH y cargá una API key antes de usar OCRH.";

/// A high-quality job can start unless the remote service is selected and no
/// key for it is stored.
pub fn ensure_selected_cloud_key(setting: Option<&str>, api_key: &str) -> (r: Result<(), String>)
    ensures
        r is Err <==> (ocrh_mode_of(
            match setting {
                Some(s) => Some(s@),
                None => None,
            },
        ) == "glm_ocr"@ && api_key@.len() == 0),
        r matches Err(e) ==> e@ == GLM_OCR_KEY_MISSING@,
{
    let mode = match setting {
        Some(s) => to_lowercase(s),
        None => to_lowercase("local"),
    };
    if same_text(mode.as_str(), "glm_ocr") && api_key.unicode_len() == 0 {
        Err(String::from_str(GLM_OCR_KEY_MISSING))
    } else {
        Ok(())
    }
}

// ── Layout-aware formatting ──────────────────────────────────────────────────

/// The text contributed by a layout region: trimmed, marked by category; none
/// for empty text and for figures, headers, footers and abandoned regions.
pub open spec fn formatted_region(cat: LayoutCategory, text: Seq<char>) -> Option<Seq<char>> {
    let t = trim(text);
    if t.len() == 0 {
        None
    } else {
        match cat {
            LayoutCategory::Title => Some("## "@ + t),
            LayoutCategory::PlainText => Some(t),
            LayoutCategory::Table => Some("---\n"@ + t + "\n---"@),
            LayoutCategory::Figure => None,
            LayoutCategory::Caption => Some(t),
            LayoutCategory::Footnote => Some("Note: "@ + t),
            LayoutCategory::Header => None,
            LayoutCategory::Footer => None,
            LayoutCategory::Code => Some("```\n"@ + t + "\n```"@),
            LayoutCategory::Reference => Some(t),
            LayoutCategory::Abandoned => None,
        }
    }
}

fn wrap_text(prefix: &str, t: &str, suffix: &str) -> (r: String)
    ensures
        r@ == prefix@ + t@ + suffix@,
{
    let mut s = String::from_str(prefix);
    s.append(t);
    s.append(suffix);
    s
}

/// Formats the text of a layout region according to its category.
pub fn format_region_text(category: &LayoutCategory, text: &str) -> (r: Option<String>)
    ensures
        match r {
            Some(s) => formatted_region(*category, text@) == Some(s@),
            None => formatted_region(*category, text@) is None,
        },
{
    let t = trim_string(text);
    if t.as_str().unicode_len() == 0 {
        return None;
    }
    proof {
        reveal_strlit("");
    }
    match category {
        LayoutCategory::Title => {
            let s = wrap_text("## ", t.as_str(), "");
            assert(s@ =~= "## "@ + t@);
            Some(s)
        },
        LayoutCategory::PlainText => Some(t),
        LayoutCategory::Table => Some(wrap_text("---\n", t.as_str(), "\n---")),
        LayoutCategory::Figure => None,
        LayoutCategory::Caption => Some(t),
        LayoutCategory::Footnote => {
            let s = wrap_text("Note: ", t.as_str(), "");
            assert(s@ =~= "Note: "@ + t@);
            Some(s)
        },
        LayoutCategory::Header => None,
        LayoutCategory::Footer => None,
        LayoutCategory::Code => Some(wrap_text("```\n", t.as_str(), "\n```")),
        LayoutCategory::Reference => Some(t),
        LayoutCategory::Abandoned => None,
    }
}

/// Layout detection is not trusted when it found fewer than two regions, or
/// when one region covers more than 60% of the image area.
pub open spec fn bypass_layout(regions: Seq<LayoutRegion>, image_width: u32, image_height: u32) -> bool {
    if regions.len() < 2 {
        true
    } else if image_width * image_height == 0 {
        false
    } else {
        exists|i: int|
            0 <= i < regions.len() && 5 * ((#[trigger] regions[i]).bbox.width * regions[i].bbox.height)
                > 3 * (image_width * image_height)
    }
}

proof fn lemma_u32_product(a: u32, b: u32)
    ensures
        0 <= a * b <= 0xffff_fffe_0000_0001,
{
    assert(0 <= a * b <= 0xffff_fffe_0000_0001) by (nonlinear_arith)
        requires
            a <= 0xffff_ffff,
            b <= 0xffff_ffff,
    ;
}

/// Whether to ignore the detected layout and recognise the full image.
pub fn should_bypass_layout(regions: &Vec<LayoutRegion>, image_width: u32, image_height: u32) -> (r:
    bool)
    ensures
        r == bypass_layout(regions@, image_width, image_height),
{
    if regions.len() < 2 {
        return true;
    }
    proof {
        lemma_u32_product(image_width, image_height);
    }
    let total: u128 = image_width as u128 * image_height as u128;
    if total == 0 {
        return false;
    }
    let mut i: usize = 0;
    while i < regions.len()
        invariant
            i <= regions.len(),
            regions.len() >= 2,
            total == image_width * image_height,
            total > 0,
            total <= 0xffff_fffe_0000_0001,
            forall|k: int|
                0 <= k < i ==> !(5 * ((#[trigger] regions@[k]).bbox.width * regions@[k].bbox.height)
                    > 3 * (image_width * image_height)),
        decreases regions.len() - i,
    {
        let b = regions[i].bbox;
        proof {
            lemma_u32_product(b.width, b.height);
        }
        let area: u128 = b.width as u128 * b.height as u128;
        assert(area == b.width * b.height) by (nonlinear_arith)
            requires
                area == (b.width as u128) * (b.height as u128),
        ;
        if area * 5 > total * 3 {
            return true;
        }
        i += 1;
    }
    false
}

/// The rectangle `(x, y, width, height)` cropped around a box with a 5-pixel
/// margin, clamped to the image; none when it is under 10 pixels either way.
pub open spec fn crop_rect(img_w: int, img_h: int, b: BoundingBox) -> Option<(int, int, int, int)> {
    let x1 = if b.x - 5 >= 0 { b.x - 5 } else { 0 };
    let y1 = if b.y - 5 >= 0 { b.y - 5 } else { 0 };
    let x2 = if b.x + b.width + 5 <= img_w { b.x + b.width + 5 } else { img_w };
    let y2 = if b.y + b.height + 5 <= img_h { b.y + b.height + 5 } else { img_h };
    if x2 - x1 < 10 || y2 - y1 < 10 {
        None
    } else {
        Some((x1, y1, x2 - x1, y2 - y1))
    }
}

/// The crop rectangle of a region (see `crop_rect`).
pub fn crop_bounds(img_w: u32, img_h: u32, b: BoundingBox) -> (r: Option<(u32, u32, u32, u32)>)
    requires
        img_w <= i32::MAX,
        img_h <= i32::MAX,
        b.width <= i32::MAX,
        b.height <= i32::MAX,
        b.x + b.width + 5 <= i32::MAX,
        b.y + b.height + 5 <= i32::MAX,
        b.x - 5 >= i32::MIN,
        b.y - 5 >= i32::MIN,
    ensures
        match r {
            Some(t) => crop_rect(img_w as int, img_h as int, b) == Some(
                (t.0 as int, t.1 as int, t.2 as int, t.3 as int),
            ),
            None => crop_rect(img_w as int, img_h as int, b) is None,
        },
{
    let x1: i64 = if b.x as i64 - 5 >= 0 { b.x as i64 - 5 } else { 0 };
    let y1: i64 = if b.y as i64 - 5 >= 0 { b.y as i64 - 5 } else { 0 };
    let xr: i64 = b.x as i64 + b.width as i64 + 5;
    let yr: i64 = b.y as i64 + b.height as i64 + 5;
    let x2: i64 = if xr <= img_w as i64 { xr } else { img_w as i64 };
    let y2: i64 = if yr <= img_h as i64 { yr } else { img_h as i64 };
    if x2 - x1 < 10 || y2 - y1 < 10 {
        None
    } else {
        Some((x1 as u32, y1 as u32, (x2 - x1) as u32, (y2 - y1) as u32))
    }
}

/// The longest side above which an image is downscaled for the layout engine.
pub const PADDLE_VL_MAX_DIMENSION: u32 = 1000;

/// The pixel count above which an image is downscaled for the layout engine.
pub const PADDLE_VL_MAX_PIXELS: u32 = 1000000;

/// An image is downscaled when its longest side exceeds the dimension limit
/// or its area exceeds the pixel limit.
pub fn needs_layout_downscale(w: u32, h: u32) -> (r: bool)
    ensures
        r == (w > PADDLE_VL_MAX_DIMENSION || h > PADDLE_VL_MAX_DIMENSION || w * h
            > PADDLE_VL_MAX_PIXELS),
{
    proof {
        lemma_u32_product(w, h);
    }
    let total: u64 = w as u64 * h as u64;
    let max_dim = if w >= h {
        w
    } else {
        h
    };
    max_dim > PADDLE_VL_MAX_DIMENSION || total > PADDLE_VL_MAX_PIXELS as u64
}

// ── Native PDF text ──────────────────────────────────────────────────────────

/// The number of alphanumeric characters in a text.
pub open spec fn alnum_total(s: Seq<char>) -> nat
    decreases s.len(),
{
    if s.len() == 0 {
        0
    } else {
        alnum_total(s.drop_last()) + if char_is_alphanumeric(s.last()) {
            1nat
        } else {
            0nat
        }
    }
}

/// The fewest alphanumeric characters that make native PDF text usable.
pub const MIN_ALPHANUM_CHARS: usize = 50;

/// Native PDF text is usable when it has at least 50 alphanumeric characters.
pub fn is_quality_text(text: &str) -> (r: bool)
    ensures
        r == (alnum_total(text@) >= MIN_ALPHANUM_CHARS),
{
    let v = chars_of(text);
    let mut count: usize = 0;
    let mut i: usize = 0;
    while i < v.len()
        invariant
            i <= v.len(),
            count == alnum_total(v@.take(i as int)),
            count <= i,
        decreases v.len() - i,
    {
        proof {
            assert(v@.take(i + 1).drop_last() =~= v@.take(i as int));
        }
        if is_alphanumeric(v[i]) {
            count += 1;
        }
        i += 1;
    }
    assert(v@.take(v.len() as int) =~= v@);
    count >= MIN_ALPHANUM_CHARS
}

/// The extended-length prefix `\\?\` that Windows may put before a path.
pub open spec fn unc_prefix() -> Seq<char> {
    seq!['\\', '\\', '?', '\\']
}

/// A path without its extended-length prefix, when it has one.
pub open spec fn without_unc_prefix(path: Seq<char>) -> Seq<char> {
    if crate::search::starts_with_seq(path, unc_prefix()) {
        path.skip(4)
    } else {
        path
    }
}

/// Removes the extended-length prefix `\\?\` from a path (given as text), which
/// some native libraries cannot open.
pub fn strip_windows_prefix(path: String) -> (r: String)
    ensures
        r@ == without_unc_prefix(path@),
{
    let v = chars_of(path.as_str());
    let mut p: Vec<char> = Vec::new();
    p.push('\\');
    p.push('\\');
    p.push('?');
    p.push('\\');
    assert(p@ =~= unc_prefix());
    if v.len() >= 4 && crate::search::matches_at(&v, &p, 0) {
        crate::search::substring(&v, 4, v.len())
    } else {
        path
    }
}

/// The output for a PDF whose own text layer is usable: that text, as one
/// region without a box or confidence, with the method `native`.
pub fn native_pdf_output(text: String) -> (r: crate::ocr_types::OcrOutput)
    ensures
        r.text == text,
        r.method@ == "native"@,
        r.regions.len() == 1,
        r.regions[0].text == text,
        r.regions[0].confidence == 0,
        r.regions[0].bbox is None,
        r.regions[0].column is None,
{
    let mut regions: Vec<OcrRegion> = Vec::new();
    regions.push(OcrRegion { text: text.clone(), confidence: 0, bbox: None, column: None });
    crate::ocr_types::OcrOutput { text, regions, method: String::from_str("native") }
}

// ── Page-by-page PDF recognition ─────────────────────────────────────────────

/// The progress shown while page `page_idx` of `page_count` is recognised:
/// 60% plus the page's share of a 35% range, `60 + page_idx * 35 / page_count`
/// (a page count of zero counts as one), capped at 95.
pub open spec fn page_progress(page_idx: int, page_count: int) -> int {
    let den = if page_count >= 1 { page_count } else { 1 };
    let pct = 60 + (page_idx * 35) / den;
    if pct <= 95 { pct } else { 95 }
}

/// The progress percentage for a page of a PDF being recognised.
pub fn pdf_page_progress(page_idx: usize, page_count: usize) -> (r: u8)
    ensures
        r as int == page_progress(page_idx as int, page_count as int),
{
    let den: u128 = if page_count >= 1 { page_count as u128 } else { 1 };
    let num: u128 = page_idx as u128 * 35;
    let share: u128 = num / den;
    if share <= 35 {
        (60 + share) as u8
    } else {
        95
    }
}

/// The document assembled from the pages recognised so far.
pub struct PdfPages {
    pub text: String,
    pub regions: Vec<OcrRegion>,
    pub method_suffix: String,
}

/// The text after one more page: pages are separated by a horizontal rule.
pub open spec fn pages_text_after(text: Seq<char>, page: Seq<char>) -> Seq<char> {
    if text.len() == 0 {
        page
    } else {
        text + "\n\n---\n\n"@ + page
    }
}

/// The method after one more page: the first page's method, prefixed `pdf_`.
pub open spec fn method_after(suffix: Seq<char>, page_method: Seq<char>) -> Seq<char> {
    if suffix.len() == 0 {
        "pdf_"@ + page_method
    } else {
        suffix
    }
}

impl PdfPages {
    pub fn new() -> (r: Self)
        ensures
            r.text@.len() == 0,
            r.regions@.len() == 0,
            r.method_suffix@.len() == 0,
    {
        PdfPages { text: String::new(), regions: Vec::new(), method_suffix: String::new() }
    }

    /// Adds a recognised page.
    pub fn add_page(&mut self, page_text: &str, page_regions: Vec<OcrRegion>, page_method: &str)
        ensures
            final(self).text@ == pages_text_after(old(self).text@, page_text@),
            final(self).method_suffix@ == method_after(old(self).method_suffix@, page_method@),
            region_views(final(self).regions@) == region_views(old(self).regions@) + region_views(
                page_regions@,
            ),
    {
        if self.method_suffix.as_str().unicode_len() == 0 {
            let mut m = String::from_str("pdf_");
            m.append(page_method);
            self.method_suffix = m;
        }
        if self.text.as_str().unicode_len() > 0 {
            self.text.append("\n\n---\n\n");
        } else {
            proof {
                assert(old(self).text@ =~= Seq::<char>::empty());
            }
        }
        self.text.append(page_text);
        proof {
            if old(self).text@.len() == 0 {
                assert(self.text@ =~= page_text@);
            }
        }
        let mut moved = page_regions;
        let ghost before = region_views(self.regions@);
        let ghost added = region_views(moved@);
        self.regions.append(&mut moved);
        assert(region_views(self.regions@) =~= before + added);
    }

    /// The document's text, regions and method; `pdf_unknown` when no text was found.
    pub fn finish(self) -> (r: (String, Vec<OcrRegion>, String))
        ensures
            r.0@ == self.text@,
            region_views(r.1@) == region_views(self.regions@),
            r.2@ == (if self.text@.len() > 0 {
                self.method_suffix@
            } else {
                "pdf_unknown"@
            }),
    {
        let method = if self.text.as_str().unicode_len() > 0 {
            self.method_suffix
        } else {
            String::from_str("pdf_unknown")
        };
        (self.text, self.regions, method)
    }
}

// ── Light-mode ordering ──────────────────────────────────────────────────────

/// Reading-order reordering applies to two or more regions of which some has a box.
pub fn needs_reading_order(regions: &Vec<OcrRegion>) -> (r: bool)
    ensures
        r == (regions.len() >= 2 && exists|i: int|
            0 <= i < regions.len() && (#[trigger] regions@[i]).bbox is Some),
{
    if regions.len() < 2 {
        return false;
    }
    let mut i: usize = 0;
    while i < regions.len()
        invariant
            i <= regions.len(),
            regions.len() >= 2,
            forall|k: int| 0 <= k < i ==> (#[trigger] regions@[k]).bbox is None,
        decreases regions.len() - i,
    {
        if regions[i].bbox.is_some() {
            assert(regions@[i as int].bbox is Some);
            return true;
        }
        i += 1;
    }
    false
}

/// The texts of the regions joined by line breaks.
pub open spec fn joined_lines(rs: Seq<OcrRegionView>) -> Seq<char>
    decreases rs.len(),
{
    if rs.len() == 0 {
        Seq::empty()
    } else if rs.len() == 1 {
        rs[0].text
    } else {
        joined_lines(rs.drop_last()) + "\n"@ + rs.last().text
    }
}

/// The document text rebuilt from regions in reading order.
pub fn join_region_lines(regions: &Vec<OcrRegion>) -> (r: String)
    ensures
        r@ == joined_lines(region_views(regions@)),
{
    let ghost rs = region_views(regions@);
    let mut s = String::new();
    let mut i: usize = 0;
    while i < regions.len()
        invariant
            rs == region_views(regions@),
            i <= regions.len(),
            s@ == joined_lines(rs.take(i as int)),
        decreases regions.len() - i,
    {
        proof {
            assert(rs.take(i + 1).drop_last() =~= rs.take(i as int));
            assert(rs.take(i + 1).last() == rs[i as int]);
        }
        if i > 0 {
            s.append("\n");
        } else {
            assert(s@ =~= Seq::<char>::empty());
        }
        s.append(regions[i].text.as_str());
        proof {
            if i == 0 {
                assert(s@ =~= rs[0].text);
            }
        }
        i += 1;
    }
    assert(rs.take(regions.len() as int) =~= rs);
    s
}

/// Resolves the managed runtime root for OCR models: a healthy runtime's
/// hydrated root, nothing for a runtime that is not healthy.
pub fn managed_runtime_root_for_ocr_with<E, H>(ensure_ready_or_bootstrap: E, hydrated_runtime_root: H) -> (r:
    Result<Option<std::path::PathBuf>, String>) where
    E: FnOnce() -> Result<RuntimeStatus, String>,
    H: FnOnce() -> Result<Option<std::path::PathBuf>, String>,

    requires
        call_requires(ensure_ready_or_bootstrap, ()),
        call_requires(hydrated_runtime_root, ()),
    ensures
        exists|s: Result<RuntimeStatus, String>|
            #![trigger call_ensures(ensure_ready_or_bootstrap, (), s)]
            call_ensures(ensure_ready_or_bootstrap, (), s) && match s {
                Err(e) => r == Err::<Option<std::path::PathBuf>, String>(e),
                Ok(st) => if st.state != RuntimeState::Healthy {
                    r == Ok::<Option<std::path::PathBuf>, String>(None)
                } else {
                    call_ensures(hydrated_runtime_root, (), r)
                },
            },
{
    managed_runtime_root_with(ensure_ready_or_bootstrap, hydrated_runtime_root)
}

/// The managed runtime root where the PDF renderer's native library is looked
/// for (see `managed_runtime_root_with`).
pub fn managed_runtime_root_for_pdfium_with<E, H>(ensure_ready_or_bootstrap: E, hydrated_runtime_root: H) -> (r:
    Result<Option<std::path::PathBuf>, String>) where
    E: FnOnce() -> Result<RuntimeStatus, String>,
    H: FnOnce() -> Result<Option<std::path::PathBuf>, String>,

    requires
        call_requires(ensure_ready_or_bootstrap, ()),
        call_requires(hydrated_runtime_root, ()),
    ensures
        exists|s: Result<RuntimeStatus, String>|
            #![trigger call_ensures(ensure_ready_or_bootstrap, (), s)]
            call_ensures(ensure_ready_or_bootstrap, (), s) && match s {
                Err(e) => r == Err::<Option<std::path::PathBuf>, String>(e),
                Ok(st) => if st.state != RuntimeState::Healthy {
                    r == Ok::<Option<std::path::PathBuf>, String>(None)
                } else {
                    call_ensures(hydrated_runtime_root, (), r)
                },
            },
{
    managed_runtime_root_with(ensure_ready_or_bootstrap, hydrated_runtime_root)
}

} // verus!
