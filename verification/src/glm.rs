//! Reading the results of the remote layout-aware OCR service: text
//! normalisation, headings announced by its markdown, the effective label of
//! each layout item, and the assembly of text, regions and layout blocks.

use vstd::prelude::*;
use crate::chars::{chars_of, str_to_lowercase, string_from_chars, to_lowercase};
use crate::lines::{split_lines, string_views, text_lines};
use crate::nlp_queue::same_text;
use crate::search::{contains_seq, contains_str, starts_with_seq, starts_with_str};
use crate::layout_labels::{glm_label_to_layout_category, remote_label_category};
use crate::ocr_pipeline::{format_region_text, formatted_region};
use crate::ocr_types::{BoundingBox, LayoutCategory, OcrOutput, OcrRegion, OcrRegionView, region_views};
use crate::paddle_vl::{PaddleVlBbox, PaddleVlOutput};
use crate::sort::{SortKey, sort_by_keys, sort_by_keys_exec};
use crate::text::{
    CharClass, collapse_whitespace, collapse_ws, slice_chars, start_bound, strip_bounds,
    strip_start, trim, trim_chars, trim_string,
};

verus! {

// ── Text fragments ───────────────────────────────────────────────────────────

/// The state of tag stripping: the text so far and whether inside a tag.
pub open spec fn strip_tags_state(s: Seq<char>) -> (Seq<char>, bool)
    decreases s.len(),
{
    if s.len() == 0 {
        (Seq::empty(), false)
    } else {
        let (r, inside) = strip_tags_state(s.drop_last());
        let c = s.last();
        if c == '<' {
            (r, true)
        } else if c == '>' {
            (r.push(' '), false)
        } else if !inside {
            (r.push(c), inside)
        } else {
            (r, inside)
        }
    }
}

/// The text without markup tags: what lies between `<` and `>` is dropped and
/// each `>` becomes a space.
pub open spec fn tags_stripped(s: Seq<char>) -> Seq<char> {
    strip_tags_state(s).0
}

fn strip_tags_chars(v: &Vec<char>) -> (r: Vec<char>)
    ensures
        r@ == tags_stripped(v@),
{
    let mut out: Vec<char> = Vec::new();
    let mut inside = false;
    let mut i: usize = 0;
    while i < v.len()
        invariant
            i <= v.len(),
            (out@, inside) == strip_tags_state(v@.take(i as int)),
        decreases v.len() - i,
    {
        proof {
            assert(v@.take(i + 1).drop_last() =~= v@.take(i as int));
        }
        let c = v[i];
        if c == '<' {
            inside = true;
        } else if c == '>' {
            inside = false;
            out.push(' ');
        } else if !inside {
            out.push(c);
        }
        i += 1;
    }
    assert(v@.take(v.len() as int) =~= v@);
    out
}

/// Removes markup tags from a text fragment.
pub fn strip_html_tags(value: &str) -> (r: String)
    ensures
        r@ == tags_stripped(value@),
{
    let v = chars_of(value);
    let o = strip_tags_chars(&v);
    string_from_chars(&o)
}

/// The comparison form of a fragment: tags stripped, words separated by single
/// spaces, lowercased. (Line breaks and `<br>` variants only separate words,
/// and no `<` survives tag stripping.)
pub open spec fn fragment_key(s: Seq<char>) -> Seq<char> {
    str_to_lowercase(collapse_ws(tags_stripped(s)))
}

/// The comparison form of a text fragment (see `fragment_key`).
pub fn normalize_glm_text_fragment(value: &str) -> (r: String)
    ensures
        r@ == fragment_key(value@),
{
    let v = chars_of(value);
    let o = strip_tags_chars(&v);
    let c = collapse_whitespace(&o);
    let s = string_from_chars(&c);
    to_lowercase(s.as_str())
}

// ── Headings announced by the markdown ───────────────────────────────────────

/// The set of strings held by a list.
pub open spec fn string_set(v: Seq<String>) -> Set<Seq<char>> {
    Set::new(|s: Seq<char>| exists|i: int| 0 <= i < v.len() && v[i]@ == s)
}

/// `titles` with the comparison form of each line added, when the centered
/// block had a heading; empty forms are skipped.
pub open spec fn flush_lines(titles: Set<Seq<char>>, lines: Seq<Seq<char>>) -> Set<Seq<char>>
    decreases lines.len(),
{
    if lines.len() == 0 {
        titles
    } else {
        let t = flush_lines(titles, lines.drop_last());
        let k = fragment_key(lines.last());
        if k.len() > 0 {
            t.insert(k)
        } else {
            t
        }
    }
}

pub open spec fn flush_block(titles: Set<Seq<char>>, has_heading: bool, lines: Seq<Seq<char>>) -> Set<
    Seq<char>,
> {
    if has_heading {
        flush_lines(titles, lines)
    } else {
        titles
    }
}

/// The scan state: titles found, inside a centered block, whether that block
/// has a heading, and its lines.
pub struct TitleScan {
    pub titles: Set<Seq<char>>,
    pub inside: bool,
    pub has_heading: bool,
    pub lines: Seq<Seq<char>>,
}

/// One markdown line of the scan.
pub open spec fn title_step(st: TitleScan, raw: Seq<char>) -> TitleScan {
    let line = trim(raw);
    let nl = trim(tags_stripped(line));
    if starts_with_seq(line, "<div"@) && contains_seq(line, "align=\"center\""@) {
        TitleScan { titles: st.titles, inside: true, has_heading: false, lines: Seq::empty() }
    } else if st.inside {
        if starts_with_seq(line, "</div"@) {
            TitleScan {
                titles: flush_block(st.titles, st.has_heading, st.lines),
                inside: false,
                has_heading: false,
                lines: Seq::empty(),
            }
        } else {
            let cleaned = trim(strip_start(nl, CharClass::Hash));
            TitleScan {
                titles: st.titles,
                inside: true,
                has_heading: st.has_heading || starts_with_seq(nl, "#"@),
                lines: if cleaned.len() > 0 {
                    st.lines.push(cleaned)
                } else {
                    st.lines
                },
            }
        }
    } else if starts_with_seq(nl, "#"@) {
        let title = trim(strip_start(nl, CharClass::Hash));
        TitleScan {
            titles: if title.len() > 0 {
                st.titles.insert(fragment_key(title))
            } else {
                st.titles
            },
            ..st
        }
    } else {
        st
    }
}

pub open spec fn title_scan(lines: Seq<Seq<char>>) -> TitleScan
    decreases lines.len(),
{
    if lines.len() == 0 {
        TitleScan { titles: Set::empty(), inside: false, has_heading: false, lines: Seq::empty() }
    } else {
        title_step(title_scan(lines.drop_last()), lines.last())
    }
}

/// The headings announced by the markdown: `#` lines, and every line of a
/// centered block that contains a `#` line; each in comparison form.
pub open spec fn markdown_titles(markdown: Seq<char>) -> Set<Seq<char>> {
    let st = title_scan(text_lines(markdown));
    if st.inside {
        flush_block(st.titles, st.has_heading, st.lines)
    } else {
        st.titles
    }
}

fn list_contains(v: &Vec<String>, s: &str) -> (r: bool)
    ensures
        r == string_set(v@).contains(s@),
{
    let mut i: usize = 0;
    while i < v.len()
        invariant
            i <= v.len(),
            forall|k: int| 0 <= k < i ==> v@[k]@ != s@,
        decreases v.len() - i,
    {
        if same_text(v[i].as_str(), s) {
            assert(string_set(v@).contains(s@));
            return true;
        }
        i += 1;
    }
    false
}

fn set_insert(v: &mut Vec<String>, s: String)
    ensures
        string_set(final(v)@) == string_set(old(v)@).insert(s@),
{
    if !list_contains(v, s.as_str()) {
        let ghost before = v@;
        let ghost sv = s@;
        v.push(s);
        proof {
            assert forall|x: Seq<char>| string_set(v@).contains(x) <==> string_set(before).insert(sv).contains(x) by {
                if string_set(before).contains(x) {
                    let i = choose|i: int| 0 <= i < before.len() && before[i]@ == x;
                    assert(v@[i]@ == x);
                }
                if x == sv {
                    assert(v@[before.len() as int]@ == x);
                }
                if string_set(v@).contains(x) {
                    let i = choose|i: int| 0 <= i < v@.len() && v@[i]@ == x;
                    if i < before.len() {
                        assert(before[i]@ == x);
                    }
                }
            }
            assert(string_set(v@) =~= string_set(before).insert(sv));
        }
    } else {
        assert(string_set(v@).insert(s@) =~= string_set(v@));
    }
}

fn flush_exec(titles: &mut Vec<String>, has_heading: bool, lines: &Vec<String>)
    ensures
        string_set(final(titles)@) == flush_block(string_set(old(titles)@), has_heading, string_views(lines@)),
{
    if !has_heading {
        return;
    }
    let ghost ls = string_views(lines@);
    let ghost t0 = string_set(titles@);
    let mut i: usize = 0;
    while i < lines.len()
        invariant
            ls == string_views(lines@),
            i <= lines.len(),
            string_set(titles@) == flush_lines(t0, ls.take(i as int)),
        decreases lines.len() - i,
    {
        proof {
            assert(ls.take(i + 1).drop_last() =~= ls.take(i as int));
            assert(ls.take(i + 1).last() == ls[i as int]);
        }
        let k = normalize_glm_text_fragment(lines[i].as_str());
        if k.as_str().unicode_len() > 0 {
            set_insert(titles, k);
        }
        i += 1;
    }
    assert(ls.take(lines.len() as int) =~= ls);
}

fn trim_hashes(s: &str) -> (r: String)
    ensures
        r@ == trim(strip_start(s@, CharClass::Hash)),
{
    let v = chars_of(s);
    let a = start_bound(&v, CharClass::Hash);
    let rest = slice_chars(&v, a, v.len());
    let (x, y) = strip_bounds(&rest, CharClass::Whitespace);
    crate::search::substring(&rest, x, y)
}

/// The headings announced by a markdown document (see `markdown_titles`), each once.
pub fn collect_glm_markdown_titles(markdown: &str) -> (r: Vec<String>)
    ensures
        string_set(r@) == markdown_titles(markdown@),
{
    let lines = split_lines(markdown);
    let ghost ls = string_views(lines@);
    let mut titles: Vec<String> = Vec::new();
    let mut inside = false;
    let mut has_heading = false;
    let mut centered: Vec<String> = Vec::new();
    assert(string_set(titles@) =~= Set::<Seq<char>>::empty());
    assert(string_views(centered@) =~= Seq::<Seq<char>>::empty());
    let mut i: usize = 0;
    while i < lines.len()
        invariant
            ls == string_views(lines@),
            i <= lines.len(),
            title_scan(ls.take(i as int)) == (TitleScan {
                titles: string_set(titles@),
                inside,
                has_heading,
                lines: string_views(centered@),
            }),
        decreases lines.len() - i,
    {
        proof {
            assert(ls.take(i + 1).drop_last() =~= ls.take(i as int));
            assert(ls.take(i + 1).last() == ls[i as int]);
        }
        let line = trim_string(lines[i].as_str());
        let stripped = strip_html_tags(line.as_str());
        let nl = trim_string(stripped.as_str());
        if starts_with_str(line.as_str(), "<div") && contains_str(line.as_str(), "align=\"center\"") {
            inside = true;
            has_heading = false;
            centered = Vec::new();
            assert(string_views(centered@) =~= Seq::<Seq<char>>::empty());
        } else if inside {
            if starts_with_str(line.as_str(), "</div") {
                flush_exec(&mut titles, has_heading, &centered);
                inside = false;
                has_heading = false;
                centered = Vec::new();
                assert(string_views(centered@) =~= Seq::<Seq<char>>::empty());
            } else {
                if starts_with_str(nl.as_str(), "#") {
                    has_heading = true;
                }
                let cleaned = trim_hashes(nl.as_str());
                if cleaned.as_str().unicode_len() > 0 {
                    let ghost before = string_views(centered@);
                    let ghost cv = cleaned@;
                    centered.push(cleaned);
                    assert(string_views(centered@) =~= before.push(cv));
                }
            }
        } else if starts_with_str(nl.as_str(), "#") {
            let title = trim_hashes(nl.as_str());
            if title.as_str().unicode_len() > 0 {
                let k = normalize_glm_text_fragment(title.as_str());
                set_insert(&mut titles, k);
            }
        }
        i += 1;
    }
    assert(ls.take(lines.len() as int) =~= ls);
    if inside {
        flush_exec(&mut titles, has_heading, &centered);
    }
    titles
}

/// The label a layout item is treated as: a `text` item whose content is an
/// announced heading, or starts with `#`, is a title.
pub open spec fn effective_label(raw: Seq<char>, content: Seq<char>, titles: Set<Seq<char>>) -> Seq<
    char,
> {
    if raw == "text"@ {
        let k = fragment_key(trim(strip_start(content, CharClass::Hash)));
        if k.len() > 0 && titles.contains(k) {
            "title"@
        } else if starts_with_seq(strip_start(content, CharClass::Whitespace), "#"@) {
            "title"@
        } else {
            raw
        }
    } else {
        raw
    }
}

/// The label a layout item is treated as (see `effective_label`).
pub fn resolve_glm_effective_label(raw_label: &str, content: &str, markdown_titles: &Vec<String>) -> (r:
    String)
    ensures
        r@ == effective_label(raw_label@, content@, string_set(markdown_titles@)),
{
    if same_text(raw_label, "text") {
        let cleaned = trim_hashes(content);
        let k = normalize_glm_text_fragment(cleaned.as_str());
        if k.as_str().unicode_len() > 0 && list_contains(markdown_titles, k.as_str()) {
            return String::from_str("title");
        }
        let v = chars_of(content);
        let a = start_bound(&v, CharClass::Whitespace);
        let rest = crate::search::substring(&v, a, v.len());
        if starts_with_str(rest.as_str(), "#") {
            return String::from_str("title");
        }
    }
    String::from_str(raw_label)
}

// ── Service results ──────────────────────────────────────────────────────────

/// The size of a page as the service reports it.
#[derive(Debug, Clone, Copy, PartialEq, Eq, Structural)]
pub struct GlmOcrPageInfo {
    pub width: u32,
    pub height: u32,
}

/// Document information reported by the service.
#[derive(Debug, Clone)]
pub struct GlmOcrDataInfo {
    pub num_pages: Option<u32>,
    pub pages: Vec<GlmOcrPageInfo>,
}

/// One layout item of a page; its box is already in pixels (`None` when the
/// service gave no usable box).
#[derive(Debug)]
pub struct GlmLayoutItem {
    pub index: Option<i32>,
    pub label: Option<String>,
    pub content: Option<String>,
    pub width: Option<u32>,
    pub height: Option<u32>,
    pub bbox: Option<PaddleVlBbox>,
}

/// The service's result: its markdown and the layout items of each page.
#[derive(Debug)]
pub struct GlmDocument {
    pub md_results: String,
    pub layout_details: Vec<Vec<GlmLayoutItem>>,
    pub data_info: Option<GlmOcrDataInfo>,
}

pub struct GlmItemView {
    pub index: Option<i32>,
    pub label: Option<Seq<char>>,
    pub content: Option<Seq<char>>,
    pub width: Option<u32>,
    pub height: Option<u32>,
    pub bbox: Option<PaddleVlBbox>,
}

impl View for GlmLayoutItem {
    type V = GlmItemView;

    open spec fn view(&self) -> GlmItemView {
        GlmItemView {
            index: self.index,
            label: match self.label {
                Some(l) => Some(l@),
                None => None,
            },
            content: match self.content {
                Some(c) => Some(c@),
                None => None,
            },
            width: self.width,
            height: self.height,
            bbox: self.bbox,
        }
    }
}

pub open spec fn item_views(v: Seq<GlmLayoutItem>) -> Seq<GlmItemView> {
    v.map_values(|i: GlmLayoutItem| i@)
}

pub open spec fn page_views(v: Seq<Vec<GlmLayoutItem>>) -> Seq<Seq<GlmItemView>> {
    v.map_values(|p: Vec<GlmLayoutItem>| item_views(p@))
}

/// The size of page `i` (0-based) as reported, `(0, 0)` when unknown.
pub open spec fn page_dims(info: Option<GlmOcrDataInfo>, i: int) -> (u32, u32) {
    match info {
        Some(d) => if 0 <= i < d.pages@.len() {
            (d.pages@[i].width, d.pages@[i].height)
        } else {
            (0, 0)
        },
        None => (0, 0),
    }
}

/// The size of a page as reported by the service, `(0, 0)` when unknown.
pub fn page_dimensions_from_glm_response(doc: &GlmDocument, page_index: usize) -> (r: (u32, u32))
    ensures
        r == page_dims(doc.data_info, page_index as int),
{
    match &doc.data_info {
        Some(d) => if page_index < d.pages.len() {
            (d.pages[page_index].width, d.pages[page_index].height)
        } else {
            (0, 0)
        },
        None => (0, 0),
    }
}

pub open spec fn item_label(it: GlmItemView) -> Seq<char> {
    match it.label {
        Some(l) => l,
        None => Seq::empty(),
    }
}

pub open spec fn item_content(it: GlmItemView) -> Seq<char> {
    match it.content {
        Some(c) => c,
        None => Seq::empty(),
    }
}

/// A page item with text, labelled `text`, `table` or `formula`.
pub open spec fn useful_item(it: GlmItemView) -> bool {
    trim(item_content(it)).len() > 0 && (item_label(it) == "text"@ || item_label(it) == "table"@
        || item_label(it) == "formula"@)
}

/// The result has content: non-blank markdown, or a useful item.
pub open spec fn has_useful_content(md: Seq<char>, pages: Seq<Seq<GlmItemView>>) -> bool {
    trim(md).len() > 0 || exists|p: int, k: int|
        0 <= p < pages.len() && 0 <= k < pages[p].len() && useful_item(#[trigger] pages[p][k])
}

/// Whether the service's result has any usable content.
pub fn glm_response_has_useful_content(doc: &GlmDocument) -> (r: bool)
    ensures
        r == has_useful_content(doc.md_results@, page_views(doc.layout_details@)),
{
    let ghost pv = page_views(doc.layout_details@);
    let t = trim_chars(doc.md_results.as_str());
    if t.len() > 0 {
        return true;
    }
    let mut p: usize = 0;
    while p < doc.layout_details.len()
        invariant
            pv == page_views(doc.layout_details@),
            p <= doc.layout_details.len(),
            forall|q: int, k: int|
                0 <= q < p && 0 <= k < pv[q].len() ==> !useful_item(#[trigger] pv[q][k]),
        decreases doc.layout_details.len() - p,
    {
        let items = &doc.layout_details[p];
        assert(pv[p as int] == item_views(items@));
        let mut k: usize = 0;
        while k < items.len()
            invariant
                pv == page_views(doc.layout_details@),
                p < doc.layout_details.len(),
                items == doc.layout_details@[p as int],
                pv[p as int] == item_views(items@),
                k <= items.len(),
                forall|j: int| 0 <= j < k ==> !useful_item(#[trigger] pv[p as int][j]),
            decreases items.len() - k,
        {
            let it = &items[k];
            assert(pv[p as int][k as int] == it@);
            let content_nonblank = match &it.content {
                Some(c) => trim_chars(c.as_str()).len() > 0,
                None => false,
            };
            let label_ok = match &it.label {
                Some(l) => same_text(l.as_str(), "text") || same_text(l.as_str(), "table")
                    || same_text(l.as_str(), "formula"),
                None => {
                    proof {
                        reveal_strlit("text");
                        reveal_strlit("table");
                        reveal_strlit("formula");
                    }
                    false
                },
            };
            if content_nonblank && label_ok {
                assert(useful_item(pv[p as int][k as int]));
                return true;
            }
            proof {
                let iv = pv[p as int][k as int];
                if it.content is None {
                    assert(item_content(iv) =~= Seq::<char>::empty());
                    assert(trim(Seq::<char>::empty()) =~= Seq::<char>::empty());
                }
                if it.label is None {
                    reveal_strlit("text");
                    reveal_strlit("table");
                    reveal_strlit("formula");
                    assert(item_label(iv) =~= Seq::<char>::empty());
                }
                assert(!useful_item(iv));
            }
            k += 1;
        }
        p += 1;
    }
    false
}


// ── Assembling the result ────────────────────────────────────────────────────

/// A layout region to store.
#[derive(Debug)]
pub struct PersistedLayoutRegion {
    pub page: u32,
    pub image_width: u32,
    pub image_height: u32,
    pub category: String,
    pub bbox: PaddleVlBbox,
    pub confidence: u32,
}

/// A layout block (region with its text and reading order) to store.
#[derive(Debug)]
pub struct PersistedLayoutBlock {
    pub page: u32,
    pub image_width: u32,
    pub image_height: u32,
    pub label: String,
    pub content: String,
    pub bbox: PaddleVlBbox,
    pub order: i32,
    pub group_id: i32,
}

/// The layout of a processed document.
#[derive(Debug)]
pub struct LayoutPersistencePayload {
    pub model: String,
    pub image_width: u32,
    pub image_height: u32,
    pub regions: Vec<PersistedLayoutRegion>,
    pub blocks: Vec<PersistedLayoutBlock>,
}

/// The text of a processed document and, when any, its layout.
#[derive(Debug)]
pub struct ProcessedOcrOutput {
    pub ocr: OcrOutput,
    pub layout: Option<LayoutPersistencePayload>,
}

pub struct RegionRecord {
    pub page: u32,
    pub image_width: u32,
    pub image_height: u32,
    pub category: Seq<char>,
    pub bbox: PaddleVlBbox,
    pub confidence: u32,
}

pub struct BlockRecord {
    pub page: u32,
    pub image_width: u32,
    pub image_height: u32,
    pub label: Seq<char>,
    pub content: Seq<char>,
    pub bbox: PaddleVlBbox,
    pub order: i32,
    pub group_id: i32,
}

impl View for PersistedLayoutRegion {
    type V = RegionRecord;

    open spec fn view(&self) -> RegionRecord {
        RegionRecord {
            page: self.page,
            image_width: self.image_width,
            image_height: self.image_height,
            category: self.category@,
            bbox: self.bbox,
            confidence: self.confidence,
        }
    }
}

impl View for PersistedLayoutBlock {
    type V = BlockRecord;

    open spec fn view(&self) -> BlockRecord {
        BlockRecord {
            page: self.page,
            image_width: self.image_width,
            image_height: self.image_height,
            label: self.label@,
            content: self.content@,
            bbox: self.bbox,
            order: self.order,
            group_id: self.group_id,
        }
    }
}

pub open spec fn region_records(v: Seq<PersistedLayoutRegion>) -> Seq<RegionRecord> {
    v.map_values(|r: PersistedLayoutRegion| r@)
}

pub open spec fn block_records(v: Seq<PersistedLayoutBlock>) -> Seq<BlockRecord> {
    v.map_values(|b: PersistedLayoutBlock| b@)
}

/// What has been gathered from the items seen so far.
pub struct GlmAcc {
    pub blocks: Seq<BlockRecord>,
    pub regions: Seq<RegionRecord>,
    pub ocr: Seq<OcrRegionView>,
    pub max_w: u32,
    pub max_h: u32,
}

pub open spec fn glm_acc_start() -> GlmAcc {
    GlmAcc { blocks: Seq::empty(), regions: Seq::empty(), ocr: Seq::empty(), max_w: 0, max_h: 0 }
}

/// The box of an item as an OCR region box.
pub open spec fn ocr_box(b: PaddleVlBbox) -> BoundingBox {
    BoundingBox { x: b.x, y: b.y, width: b.width as u32, height: b.height as u32 }
}

/// One item of page `page` (1-based) whose reported size defaults to `(fw, fh)`:
/// the sizes raise the maxima; an item whose effective label has a category
/// contributes an OCR region (when it has formatted text and a box) and a
/// region and block (when it has a box), the block ordered by the item's index
/// or else after the blocks so far.
pub open spec fn glm_item_step(acc: GlmAcc, page: u32, fw: u32, fh: u32, it: GlmItemView, titles: Set<Seq<char>>) -> GlmAcc {
    let raw = match it.label {
        Some(l) => l,
        None => "text"@,
    };
    let content = item_content(it);
    let w = match it.width {
        Some(v) => v,
        None => fw,
    };
    let h = match it.height {
        Some(v) => v,
        None => fh,
    };
    let mw = if acc.max_w >= w { acc.max_w } else { w };
    let mh = if acc.max_h >= h { acc.max_h } else { h };
    let label = effective_label(raw, trim(content), titles);
    match remote_label_category(label) {
        None => GlmAcc { max_w: mw, max_h: mh, ..acc },
        Some(cat) => {
            let ocr = match (formatted_region(cat, content), it.bbox) {
                (Some(t), Some(b)) => acc.ocr.push(
                    OcrRegionView { text: t, confidence: crate::ner_types::CONFIDENCE_SCALE, bbox: Some(ocr_box(b)), column: None },
                ),
                _ => acc.ocr,
            };
            match it.bbox {
                Some(b) => GlmAcc {
                    blocks: acc.blocks.push(
                        BlockRecord {
                            page,
                            image_width: w,
                            image_height: h,
                            label,
                            content: trim(content),
                            bbox: b,
                            order: match it.index {
                                Some(i) => i,
                                None => (acc.blocks.len() + 1) as i32,
                            },
                            group_id: page as i32,
                        },
                    ),
                    regions: acc.regions.push(
                        RegionRecord {
                            page,
                            image_width: w,
                            image_height: h,
                            category: label,
                            bbox: b,
                            confidence: crate::ner_types::CONFIDENCE_SCALE,
                        },
                    ),
                    ocr,
                    max_w: mw,
                    max_h: mh,
                },
                None => GlmAcc { ocr, max_w: mw, max_h: mh, ..acc },
            }
        },
    }
}

pub open spec fn glm_items_fold(acc: GlmAcc, page: u32, fw: u32, fh: u32, items: Seq<GlmItemView>, titles: Set<Seq<char>>) -> GlmAcc
    decreases items.len(),
{
    if items.len() == 0 {
        acc
    } else {
        glm_item_step(glm_items_fold(acc, page, fw, fh, items.drop_last(), titles), page, fw, fh, items.last(), titles)
    }
}

/// The items of all pages, page by page.
pub open spec fn glm_pages_fold(pages: Seq<Seq<GlmItemView>>, info: Option<GlmOcrDataInfo>, titles: Set<Seq<char>>) -> GlmAcc
    decreases pages.len(),
{
    if pages.len() == 0 {
        glm_acc_start()
    } else {
        let k = pages.len() - 1;
        let dims = page_dims(info, k);
        glm_items_fold(glm_pages_fold(pages.drop_last(), info, titles), pages.len() as u32, dims.0, dims.1, pages.last(), titles)
    }
}

pub open spec fn block_key(b: BlockRecord) -> SortKey {
    (b.page as i128, b.order as i128, 0i128)
}

/// The blocks ordered by page, then reading order (stable).
pub open spec fn sorted_blocks(bs: Seq<BlockRecord>) -> Seq<BlockRecord> {
    sort_by_keys(bs.map_values(|b: BlockRecord| block_key(b)), bs)
}

/// The layout blocks are listed page by page, and within a page in the items'
/// reading order; the list holds the same blocks, none added or dropped.
pub proof fn law_blocks_in_page_order(bs: Seq<BlockRecord>)
    ensures
        sorted_blocks(bs).len() == bs.len(),
        forall|i: int, j: int|
            0 <= i < j < bs.len() ==> (#[trigger] sorted_blocks(bs)[i]).page < (
            #[trigger] sorted_blocks(bs)[j]).page || (sorted_blocks(bs)[i].page
                == sorted_blocks(bs)[j].page && sorted_blocks(bs)[i].order
                <= sorted_blocks(bs)[j].order),
        forall|i: int|
            0 <= i < bs.len() ==> exists|j: int|
                0 <= j < bs.len() && bs[j] == #[trigger] sorted_blocks(bs)[i],
{
    let f = |b: BlockRecord| block_key(b);
    crate::sort::lemma_sort_by_own_keys(bs, f);
    crate::sort::lemma_sort_items_from(bs.map_values(f), bs);
    assert(sorted_blocks(bs) == sort_by_keys(bs.map_values(f), bs));
    assert forall|i: int, j: int| 0 <= i < j < bs.len() implies (#[trigger] sorted_blocks(
        bs,
    )[i]).page < (#[trigger] sorted_blocks(bs)[j]).page || (sorted_blocks(bs)[i].page
        == sorted_blocks(bs)[j].page && sorted_blocks(bs)[i].order <= sorted_blocks(bs)[j].order) by {
        assert(crate::sort::key_le(f(sorted_blocks(bs)[i]), f(sorted_blocks(bs)[j])));
    }
}

/// The formatted texts of the blocks, in order, where their label has a
/// category and the text is not blank.
pub open spec fn block_texts(bs: Seq<BlockRecord>) -> Seq<Seq<char>>
    decreases bs.len(),
{
    if bs.len() == 0 {
        Seq::empty()
    } else {
        let prev = block_texts(bs.drop_last());
        match remote_label_category(bs.last().label) {
            Some(cat) => match formatted_region(cat, bs.last().content) {
                Some(t) => prev.push(t),
                None => prev,
            },
            None => prev,
        }
    }
}

/// The document text: the markdown, trimmed, when it is not blank; otherwise
/// the block texts separated by blank lines.
pub open spec fn glm_text(md: Seq<char>, blocks: Seq<BlockRecord>) -> Seq<char> {
    if trim(md).len() > 0 {
        trim(md)
    } else {
        crate::lines::join_lines(block_texts(blocks), "\n\n"@)
    }
}

/// The number of layout items over all pages.
pub open spec fn total_items(pages: Seq<Seq<GlmItemView>>) -> int
    decreases pages.len(),
{
    if pages.len() == 0 {
        0
    } else {
        total_items(pages.drop_last()) + pages.last().len()
    }
}

/// Item boxes are as the pixel conversion makes them: extents not negative.
pub open spec fn boxes_ok(pages: Seq<Seq<GlmItemView>>) -> bool {
    forall|p: int, k: int|
        0 <= p < pages.len() && 0 <= k < pages[p].len() ==> match (#[trigger] pages[p][k]).bbox {
            Some(b) => b.width >= 0 && b.height >= 0,
            None => true,
        }
}


pub open spec fn acc_of(
    blocks: Seq<PersistedLayoutBlock>,
    regions: Seq<PersistedLayoutRegion>,
    ocr: Seq<OcrRegion>,
    max_w: u32,
    max_h: u32,
) -> GlmAcc {
    GlmAcc {
        blocks: block_records(blocks),
        regions: region_records(regions),
        ocr: region_views(ocr),
        max_w,
        max_h,
    }
}

fn glm_item_exec(
    blocks: &mut Vec<PersistedLayoutBlock>,
    regions: &mut Vec<PersistedLayoutRegion>,
    ocr: &mut Vec<OcrRegion>,
    max_w: &mut u32,
    max_h: &mut u32,
    page: u32,
    fw: u32,
    fh: u32,
    it: &GlmLayoutItem,
    titles: &Vec<String>,
)
    requires
        old(blocks).len() + 1 < i32::MAX,
        match it.bbox {
            Some(b) => b.width >= 0 && b.height >= 0,
            None => true,
        },
    ensures
        acc_of(final(blocks)@, final(regions)@, final(ocr)@, *final(max_w), *final(max_h))
            == glm_item_step(
            acc_of(old(blocks)@, old(regions)@, old(ocr)@, *old(max_w), *old(max_h)),
            page,
            fw,
            fh,
            it@,
            string_set(titles@),
        ),
        final(blocks).len() <= old(blocks).len() + 1,
{
    let ghost acc0 = acc_of(blocks@, regions@, ocr@, *max_w, *max_h);
    let raw: String = match &it.label {
        Some(l) => String::from_str(l.as_str()),
        None => String::from_str("text"),
    };
    let content: String = match &it.content {
        Some(c) => String::from_str(c.as_str()),
        None => String::new(),
    };
    assert(content@ == item_content(it@));
    let w = match it.width {
        Some(v) => v,
        None => fw,
    };
    let h = match it.height {
        Some(v) => v,
        None => fh,
    };
    if *max_w < w {
        *max_w = w;
    }
    if *max_h < h {
        *max_h = h;
    }
    let trimmed = trim_string(content.as_str());
    let label = resolve_glm_effective_label(raw.as_str(), trimmed.as_str(), titles);
    let cat = match glm_label_to_layout_category(label.as_str()) {
        Some(c) => c,
        None => {
            return;
        },
    };
    match (format_region_text(&cat, content.as_str()), it.bbox) {
        (Some(t), Some(b)) => {
            let ghost before = region_views(ocr@);
            let ghost tv = t@;
            ocr.push(
                OcrRegion {
                    text: t,
                    confidence: crate::ner_types::CONFIDENCE_SCALE,
                    bbox: Some(BoundingBox { x: b.x, y: b.y, width: b.width as u32, height: b.height as u32 }),
                    column: None,
                },
            );
            assert(region_views(ocr@) =~= before.push(
                OcrRegionView { text: tv, confidence: crate::ner_types::CONFIDENCE_SCALE, bbox: Some(ocr_box(b)), column: None },
            ));
        },
        _ => {},
    }
    match it.bbox {
        Some(b) => {
            let order = match it.index {
                Some(i) => i,
                None => (blocks.len() + 1) as i32,
            };
            let ghost rb = region_records(regions@);
            let ghost bb = block_records(blocks@);
            regions.push(
                PersistedLayoutRegion {
                    page,
                    image_width: w,
                    image_height: h,
                    category: String::from_str(label.as_str()),
                    bbox: b,
                    confidence: crate::ner_types::CONFIDENCE_SCALE,
                },
            );
            blocks.push(
                PersistedLayoutBlock {
                    page,
                    image_width: w,
                    image_height: h,
                    label: String::from_str(label.as_str()),
                    content: String::from_str(trimmed.as_str()),
                    bbox: b,
                    order,
                    group_id: page as i32,
                },
            );
            assert(region_records(regions@) =~= rb.push(
                RegionRecord {
                    page,
                    image_width: w,
                    image_height: h,
                    category: label@,
                    bbox: b,
                    confidence: crate::ner_types::CONFIDENCE_SCALE,
                },
            ));
            assert(block_records(blocks@) =~= bb.push(
                BlockRecord {
                    page,
                    image_width: w,
                    image_height: h,
                    label: label@,
                    content: trimmed@,
                    bbox: b,
                    order,
                    group_id: page as i32,
                },
            ));
        },
        None => {},
    }
}

pub const PAGE_INDEX_OVERFLOW: &'static str = "GLM-OCR page index overflow";

/// Assembles the OCR text, regions and layout of the service's result: the
/// markdown is the text when it is not blank, otherwise the formatted text of
/// the layout blocks in page and reading order.
pub fn glm_response_to_processed_output(doc: &GlmDocument, method: &str) -> (r: Result<
    ProcessedOcrOutput,
    String,
>)
    requires
        total_items(page_views(doc.layout_details@)) + 1 < i32::MAX,
        boxes_ok(page_views(doc.layout_details@)),
    ensures
        doc.layout_details.len() > u32::MAX ==> (r matches Err(e) && e@ == PAGE_INDEX_OVERFLOW@),
        doc.layout_details.len() <= u32::MAX ==> (r matches Ok(out) && {
            let acc = glm_pages_fold(
                page_views(doc.layout_details@),
                doc.data_info,
                markdown_titles(doc.md_results@),
            );
            let sb = sorted_blocks(acc.blocks);
            &&& out.ocr.text@ == glm_text(doc.md_results@, sb)
            &&& region_views(out.ocr.regions@) == acc.ocr
            &&& out.ocr.method@ == method@
            &&& (out.layout is Some <==> acc.blocks.len() > 0)
            &&& out.layout matches Some(l) ==> {
                &&& l.model@ == method@
                &&& l.image_width == acc.max_w
                &&& l.image_height == acc.max_h
                &&& region_records(l.regions@) == acc.regions
                &&& block_records(l.blocks@) == sb
            }
        }),
{
    if doc.layout_details.len() > u32::MAX as usize {
        return Err(String::from_str(PAGE_INDEX_OVERFLOW));
    }
    let ghost pv = page_views(doc.layout_details@);
    let titles = collect_glm_markdown_titles(doc.md_results.as_str());
    let ghost ts = string_set(titles@);
    let mut blocks: Vec<PersistedLayoutBlock> = Vec::new();
    let mut regions: Vec<PersistedLayoutRegion> = Vec::new();
    let mut ocr: Vec<OcrRegion> = Vec::new();
    let mut max_w: u32 = 0;
    let mut max_h: u32 = 0;
    assert(block_records(blocks@) =~= Seq::<BlockRecord>::empty());
    assert(region_records(regions@) =~= Seq::<RegionRecord>::empty());
    assert(region_views(ocr@) =~= Seq::<OcrRegionView>::empty());
    assert(acc_of(blocks@, regions@, ocr@, max_w, max_h) == glm_acc_start());
    let mut p: usize = 0;
    while p < doc.layout_details.len()
        invariant
            pv == page_views(doc.layout_details@),
            ts == string_set(titles@),
            doc.layout_details.len() <= u32::MAX,
            total_items(pv) + 1 < i32::MAX,
            boxes_ok(pv),
            p <= doc.layout_details.len(),
            blocks.len() <= total_items(pv.take(p as int)),
            acc_of(blocks@, regions@, ocr@, max_w, max_h) == glm_pages_fold(pv.take(p as int), doc.data_info, ts),
        decreases doc.layout_details.len() - p,
    {
        proof {
            assert(pv.take(p + 1).drop_last() =~= pv.take(p as int));
            assert(pv.take(p + 1).last() == pv[p as int]);
            lemma_total_items_prefix(pv, p as int);
        }
        let dims = page_dimensions_from_glm_response(doc, p);
        let page: u32 = (p + 1) as u32;
        let items = &doc.layout_details[p];
        assert(pv[p as int] == item_views(items@));
        let ghost acc_p = acc_of(blocks@, regions@, ocr@, max_w, max_h);
        let ghost start_len = blocks.len();
        let mut k: usize = 0;
        while k < items.len()
            invariant
                pv == page_views(doc.layout_details@),
                p < doc.layout_details.len(),
                items == doc.layout_details@[p as int],
                pv[p as int] == item_views(items@),
                total_items(pv) + 1 < i32::MAX,
                total_items(pv.take(p as int)) + pv[p as int].len() <= total_items(pv),
                boxes_ok(pv),
                k <= items.len(),
                blocks.len() <= start_len + k,
                start_len <= total_items(pv.take(p as int)),
                acc_of(blocks@, regions@, ocr@, max_w, max_h) == glm_items_fold(
                    acc_p,
                    page,
                    dims.0,
                    dims.1,
                    pv[p as int].take(k as int),
                    string_set(titles@),
                ),
            decreases items.len() - k,
        {
            proof {
                let iv = pv[p as int];
                assert(iv.take(k + 1).drop_last() =~= iv.take(k as int));
                assert(iv.take(k + 1).last() == iv[k as int]);
                assert(iv[k as int] == items@[k as int]@);
                assert(match items@[k as int].bbox {
                    Some(b) => b.width >= 0 && b.height >= 0,
                    None => true,
                }) by {
                    assert(pv[p as int][k as int] == iv[k as int]);
                }
            }
            glm_item_exec(
                &mut blocks,
                &mut regions,
                &mut ocr,
                &mut max_w,
                &mut max_h,
                page,
                dims.0,
                dims.1,
                &items[k],
                &titles,
            );
            k += 1;
        }
        assert(pv[p as int].take(items.len() as int) =~= pv[p as int]);
        p += 1;
    }
    assert(pv.take(doc.layout_details.len() as int) =~= pv);
    let ghost acc = glm_pages_fold(pv, doc.data_info, ts);
    let mut keys: Vec<SortKey> = Vec::new();
    let mut i: usize = 0;
    let ghost bs = block_records(blocks@);
    while i < blocks.len()
        invariant
            bs == block_records(blocks@),
            i <= blocks.len(),
            keys@ == bs.take(i as int).map_values(|b: BlockRecord| block_key(b)),
        decreases blocks.len() - i,
    {
        keys.push((blocks[i].page as i128, blocks[i].order as i128, 0));
        i += 1;
        assert(keys@ =~= bs.take(i as int).map_values(|b: BlockRecord| block_key(b)));
    }
    assert(bs.take(blocks.len() as int) =~= bs);
    let ghost kv = keys@;
    let ghost bv = blocks@;
    let sorted = sort_by_keys_exec(keys, blocks);
    proof {
        let f = |b: PersistedLayoutBlock| b@;
        crate::sort::lemma_sort_map(kv, bv, f);
        assert(block_records(bv) =~= bv.map_values(f));
        assert(block_records(sorted@) =~= sorted@.map_values(f));
    }
    let ghost sb = block_records(sorted@);
    let md = trim_string(doc.md_results.as_str());
    let text = if md.as_str().unicode_len() > 0 {
        md
    } else {
        let mut texts: Vec<String> = Vec::new();
        let mut j: usize = 0;
        while j < sorted.len()
            invariant
                sb == block_records(sorted@),
                j <= sorted.len(),
                string_views(texts@) == block_texts(sb.take(j as int)),
            decreases sorted.len() - j,
        {
            proof {
                assert(sb.take(j + 1).drop_last() =~= sb.take(j as int));
                assert(sb.take(j + 1).last() == sb[j as int]);
            }
            let b = &sorted[j];
            match glm_label_to_layout_category(b.label.as_str()) {
                Some(cat) => match format_region_text(&cat, b.content.as_str()) {
                    Some(t) => {
                        let ghost before = string_views(texts@);
                        let ghost tv = t@;
                        texts.push(t);
                        assert(string_views(texts@) =~= before.push(tv));
                    },
                    None => {},
                },
                None => {},
            }
            j += 1;
        }
        assert(sb.take(sorted.len() as int) =~= sb);
        crate::lines::join_strings(&texts, "\n\n")
    };
    let layout = if sorted.len() > 0 {
        Some(
            LayoutPersistencePayload {
                model: String::from_str(method),
                image_width: max_w,
                image_height: max_h,
                regions,
                blocks: sorted,
            },
        )
    } else {
        None
    };
    Ok(
        ProcessedOcrOutput {
            ocr: OcrOutput { text, regions: ocr, method: String::from_str(method) },
            layout,
        },
    )
}

proof fn lemma_total_items_prefix(pages: Seq<Seq<GlmItemView>>, p: int)
    requires
        0 <= p < pages.len(),
    ensures
        total_items(pages.take(p)) + pages[p].len() == total_items(pages.take(p + 1)),
        total_items(pages.take(p + 1)) <= total_items(pages),
    decreases pages.len(),
{
    assert(pages.take(p + 1).drop_last() =~= pages.take(p));
    if p + 1 < pages.len() {
        lemma_total_items_prefix(pages.drop_last(), p);
        assert(pages.drop_last().take(p) =~= pages.take(p));
        assert(pages.drop_last().take(p + 1) =~= pages.take(p + 1));
    } else {
        assert(pages.take(p + 1) =~= pages);
    }
}

/// The stored layout records of one page of the engine's result.
pub open spec fn page_regions(page: u32, out: PaddleVlOutput) -> Seq<RegionRecord> {
    out.regions@.map_values(
        |r: crate::paddle_vl::PaddleVlRegion|
            RegionRecord {
                page,
                image_width: out.image_width,
                image_height: out.image_height,
                category: r.category@,
                bbox: r.bbox,
                confidence: r.confidence,
            },
    )
}

pub open spec fn page_blocks(page: u32, out: PaddleVlOutput) -> Seq<BlockRecord> {
    out.blocks@.map_values(
        |b: crate::paddle_vl::PaddleVlBlock|
            BlockRecord {
                page,
                image_width: out.image_width,
                image_height: out.image_height,
                label: b.label@,
                content: b.content@,
                bbox: b.bbox,
                order: b.order,
                group_id: b.group_id,
            },
    )
}

impl LayoutPersistencePayload {
    /// The layout of a single page.
    pub fn from_page(page: u32, output: &PaddleVlOutput) -> (r: Self)
        ensures
            r.model@ == output.method@,
            r.image_width == output.image_width,
            r.image_height == output.image_height,
            region_records(r.regions@) == page_regions(page, *output),
            block_records(r.blocks@) == page_blocks(page, *output),
    {
        let mut payload = LayoutPersistencePayload {
            model: String::from_str(output.method.as_str()),
            image_width: output.image_width,
            image_height: output.image_height,
            regions: Vec::new(),
            blocks: Vec::new(),
        };
        payload.push_page(page, output);
        proof {
            assert(region_records(Seq::<PersistedLayoutRegion>::empty()) =~= Seq::<RegionRecord>::empty());
            assert(block_records(Seq::<PersistedLayoutBlock>::empty()) =~= Seq::<BlockRecord>::empty());
            assert(Seq::<RegionRecord>::empty() + page_regions(page, *output) =~= page_regions(page, *output));
            assert(Seq::<BlockRecord>::empty() + page_blocks(page, *output) =~= page_blocks(page, *output));
        }
        payload
    }

    /// Adds a page: the image size grows to the largest page, and the page's
    /// regions and blocks are appended.
    pub fn push_page(&mut self, page: u32, output: &PaddleVlOutput)
        ensures
            final(self).model == old(self).model,
            final(self).image_width == (if old(self).image_width >= output.image_width {
                old(self).image_width
            } else {
                output.image_width
            }),
            final(self).image_height == (if old(self).image_height >= output.image_height {
                old(self).image_height
            } else {
                output.image_height
            }),
            region_records(final(self).regions@) == region_records(old(self).regions@) + page_regions(page, *output),
            block_records(final(self).blocks@) == block_records(old(self).blocks@) + page_blocks(page, *output),
    {
        if self.image_width < output.image_width {
            self.image_width = output.image_width;
        }
        if self.image_height < output.image_height {
            self.image_height = output.image_height;
        }
        let ghost r0 = region_records(self.regions@);
        let ghost m0 = self.model;
        let ghost w0 = self.image_width;
        let ghost h0 = self.image_height;
        let ghost bl0 = self.blocks;
        let mut i: usize = 0;
        while i < output.regions.len()
            invariant
                i <= output.regions.len(),
                self.model == m0,
                self.image_width == w0,
                self.image_height == h0,
                self.blocks == bl0,
                region_records(self.regions@) == r0 + page_regions(page, *output).take(i as int),
            decreases output.regions.len() - i,
        {
            let r = &output.regions[i];
            let ghost before = region_records(self.regions@);
            self.regions.push(
                PersistedLayoutRegion {
                    page,
                    image_width: output.image_width,
                    image_height: output.image_height,
                    category: String::from_str(r.category.as_str()),
                    bbox: r.bbox,
                    confidence: r.confidence,
                },
            );
            assert(region_records(self.regions@) =~= before.push(page_regions(page, *output)[i as int]));
            assert(page_regions(page, *output).take(i + 1) =~= page_regions(page, *output).take(i as int).push(page_regions(page, *output)[i as int]));
            i += 1;
        }
        assert(page_regions(page, *output).take(output.regions.len() as int) =~= page_regions(page, *output));
        let ghost b0 = block_records(self.blocks@);
        let ghost rg0 = self.regions;
        let mut j: usize = 0;
        while j < output.blocks.len()
            invariant
                j <= output.blocks.len(),
                self.model == m0,
                self.image_width == w0,
                self.image_height == h0,
                self.regions == rg0,
                block_records(self.blocks@) == b0 + page_blocks(page, *output).take(j as int),
            decreases output.blocks.len() - j,
        {
            let b = &output.blocks[j];
            let ghost before = block_records(self.blocks@);
            self.blocks.push(
                PersistedLayoutBlock {
                    page,
                    image_width: output.image_width,
                    image_height: output.image_height,
                    label: String::from_str(b.label.as_str()),
                    content: String::from_str(b.content.as_str()),
                    bbox: b.bbox,
                    order: b.order,
                    group_id: b.group_id,
                },
            );
            assert(block_records(self.blocks@) =~= before.push(page_blocks(page, *output)[j as int]));
            assert(page_blocks(page, *output).take(j + 1) =~= page_blocks(page, *output).take(j as int).push(page_blocks(page, *output)[j as int]));
            j += 1;
        }
        assert(page_blocks(page, *output).take(output.blocks.len() as int) =~= page_blocks(page, *output));
    }
}

} // verus!
