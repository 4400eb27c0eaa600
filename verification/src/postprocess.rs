//! Post-processing of OCR regions with bounding boxes:
//!
//! 1. column grouping: regions are clustered into columns by the overlap of
//!    their horizontal extents, then ordered column by column, top to bottom;
//! 2. hyphen merging: a line that ends with `-` is joined with a following line
//!    that starts with a lowercase letter;
//! 3. paragraph detection: a line that ends a sentence and is followed by a line
//!    starting with an uppercase letter gets an extra `\n`.

use vstd::prelude::*;
use crate::chars::{
    char_is_lowercase, char_is_uppercase, char_is_whitespace, chars_of, is_lowercase, is_uppercase,
    string_from_chars,
};
use crate::ocr_types::{
    BoundingBox, OcrRegion, OcrRegionView, bbox_ok, bottom_edge, edges_fit, region_views,
    right_edge,
};
use crate::sort::{
    SortKey, key_le, lemma_sort_by_own_keys, lemma_sort_items_from, lemma_sort_map, sort_by_keys,
    sort_by_keys_exec,
};
use crate::text::{CharClass, end_bound, start_bound, strip_end, strip_start};

verus! {

/// Two bounding-box extents that overlap by less than this many pixels (or by
/// less than the narrower region's width) belong to different columns.
pub const COLUMN_OVERLAP_THRESHOLD: i32 = 200;

// ── Paragraph detection ──────────────────────────────────────────────────────

/// The text, without trailing whitespace, ends with `.`, `!` or `?`.
pub open spec fn ends_sentence(t: Seq<char>) -> bool {
    let s = strip_end(t, CharClass::Whitespace);
    s.len() > 0 && (s.last() == '.' || s.last() == '!' || s.last() == '?')
}

/// The text, without leading whitespace, starts with an uppercase letter.
pub open spec fn starts_upper(t: Seq<char>) -> bool {
    let s = strip_start(t, CharClass::Whitespace);
    s.len() > 0 && char_is_uppercase(s[0])
}

/// The text, without leading whitespace, starts with a lowercase letter.
pub open spec fn starts_lower(t: Seq<char>) -> bool {
    let s = strip_start(t, CharClass::Whitespace);
    s.len() > 0 && char_is_lowercase(s[0])
}

/// A paragraph ends after region `i`.
pub open spec fn paragraph_break(rs: Seq<OcrRegionView>, i: int) -> bool {
    0 <= i && i + 1 < rs.len() && ends_sentence(rs[i].text) && starts_upper(rs[i + 1].text)
}

pub open spec fn with_text(r: OcrRegionView, t: Seq<char>) -> OcrRegionView {
    OcrRegionView { text: t, confidence: r.confidence, bbox: r.bbox, column: r.column }
}

/// The regions with `\n` appended to each one that ends a paragraph.
pub open spec fn with_paragraphs(rs: Seq<OcrRegionView>) -> Seq<OcrRegionView> {
    Seq::new(
        rs.len(),
        |i: int|
            if paragraph_break(rs, i) {
                with_text(rs[i], rs[i].text.push('\n'))
            } else {
                rs[i]
            },
    )
}

/// A paragraph break (a `\n` appended to a region's text) comes only after a
/// region whose text ends a sentence (`.`, `!` or `?` before trailing
/// whitespace) and that is followed by a region starting with an uppercase
/// letter, and always there; every other region, the last one included, is
/// kept as it is. Box, confidence and column never change.
pub proof fn law_paragraph_breaks(rs: Seq<OcrRegionView>)
    ensures
        with_paragraphs(rs).len() == rs.len(),
        forall|i: int|
            0 <= i < rs.len() && !ends_sentence(rs[i].text) ==> #[trigger] with_paragraphs(rs)[i]
                == rs[i],
        rs.len() > 0 ==> with_paragraphs(rs)[rs.len() - 1] == rs[rs.len() - 1],
        forall|i: int|
            0 <= i < rs.len() - 1 && !starts_upper(rs[i + 1].text) ==> #[trigger] with_paragraphs(
                rs,
            )[i] == rs[i],
        forall|i: int|
            0 <= i < rs.len() - 1 && ends_sentence(rs[i].text) && starts_upper(rs[i + 1].text)
                ==> (#[trigger] with_paragraphs(rs)[i]).text == rs[i].text + seq!['\n'],
        forall|i: int|
            0 <= i < rs.len() ==> (#[trigger] with_paragraphs(rs)[i]).bbox == rs[i].bbox
                && with_paragraphs(rs)[i].confidence == rs[i].confidence && with_paragraphs(rs)[i].column
                == rs[i].column,
{
    assert forall|i: int|
        0 <= i < rs.len() - 1 && ends_sentence(rs[i].text) && starts_upper(rs[i + 1].text)
            implies (#[trigger] with_paragraphs(rs)[i]).text == rs[i].text + seq!['\n'] by {
        assert(rs[i].text.push('\n') =~= rs[i].text + seq!['\n']);
    }
}

/// A text ends a sentence exactly when some `.`, `!` or `?` in it is followed
/// only by whitespace; it starts with a capital exactly when its first
/// character that is not whitespace is uppercase.
pub proof fn law_sentence_end_and_capital_start(t: Seq<char>)
    ensures
        ends_sentence(t) <==> exists|k: int|
            0 <= k < t.len() && (t[k] == '.' || t[k] == '!' || t[k] == '?') && forall|m: int|
                k < m < t.len() ==> char_is_whitespace(#[trigger] t[m]),
        starts_upper(t) <==> exists|k: int|
            0 <= k < t.len() && !char_is_whitespace(t[k]) && char_is_uppercase(t[k]) && forall|
                m: int,
            | 0 <= m < k ==> char_is_whitespace(#[trigger] t[m]),
{
    let ws = CharClass::Whitespace;
    reveal(char_is_whitespace);
    crate::text::lemma_strip_end_prefix(t, ws);
    crate::text::lemma_strip_end_tail(t, ws);
    let n = strip_end(t, ws).len() as int;
    if exists|k: int|
        0 <= k < t.len() && (t[k] == '.' || t[k] == '!' || t[k] == '?') && forall|m: int|
            k < m < t.len() ==> char_is_whitespace(#[trigger] t[m]) {
        let k = choose|k: int|
            0 <= k < t.len() && (t[k] == '.' || t[k] == '!' || t[k] == '?') && forall|m: int|
                k < m < t.len() ==> char_is_whitespace(#[trigger] t[m]);
        assert(!char_is_whitespace(t[k]));
        if n <= k {
            assert(char_is_whitespace(t[k]));
        }
        if n - 1 > k {
            assert(char_is_whitespace(t[n - 1]));
            assert(strip_end(t, ws).last() == t[n - 1]);
        }
        assert(strip_end(t, ws).last() == t[k]);
    }
    if ends_sentence(t) {
        assert(t[n - 1] == strip_end(t, ws).last());
        assert forall|m: int| n - 1 < m < t.len() implies char_is_whitespace(#[trigger] t[m]) by {}
    }
    let i = crate::text::lemma_strip_start_shape(t, ws);
    if exists|k: int|
        0 <= k < t.len() && !char_is_whitespace(t[k]) && char_is_uppercase(t[k]) && forall|m: int|
            0 <= m < k ==> char_is_whitespace(#[trigger] t[m]) {
        let k = choose|k: int|
            0 <= k < t.len() && !char_is_whitespace(t[k]) && char_is_uppercase(t[k]) && forall|
                m: int,
            | 0 <= m < k ==> char_is_whitespace(#[trigger] t[m]);
        if i < k {
            assert(char_is_whitespace(t[i]));
        }
        if i > k {
            assert(char_is_whitespace(t[k]));
        }
        assert(strip_start(t, ws)[0] == t[k]);
    }
    if starts_upper(t) {
        assert(strip_start(t, ws)[0] == t[i]);
        assert forall|m: int| 0 <= m < i implies char_is_whitespace(#[trigger] t[m]) by {}
    }
}

/// Whether `t` ends a sentence (see `ends_sentence`).
pub fn ends_with_sentence(t: &str) -> (b: bool)
    ensures
        b == ends_sentence(t@),
{
    let v = chars_of(t);
    let e = end_bound(&v, CharClass::Whitespace);
    if e == 0 {
        false
    } else {
        let c = v[e - 1];
        assert(v@.subrange(0, e as int).last() == c);
        c == '.' || c == '!' || c == '?'
    }
}

/// The first character of `t` after leading whitespace, if any.
fn first_after_whitespace(t: &str) -> (r: Option<char>)
    ensures
        r == (if strip_start(t@, CharClass::Whitespace).len() > 0 {
            Some(strip_start(t@, CharClass::Whitespace)[0])
        } else {
            None::<char>
        }),
{
    let v = chars_of(t);
    let s = start_bound(&v, CharClass::Whitespace);
    if s < v.len() {
        assert(v@.subrange(s as int, v.len() as int)[0] == v@[s as int]);
        Some(v[s])
    } else {
        None
    }
}

/// Whether `t` starts with an uppercase letter after leading whitespace.
pub fn starts_with_upper(t: &str) -> (b: bool)
    ensures
        b == starts_upper(t@),
{
    match first_after_whitespace(t) {
        Some(c) => is_uppercase(c),
        None => false,
    }
}

/// Whether `t` starts with a lowercase letter after leading whitespace.
pub fn starts_with_lower(t: &str) -> (b: bool)
    ensures
        b == starts_lower(t@),
{
    match first_after_whitespace(t) {
        Some(c) => is_lowercase(c),
        None => false,
    }
}

/// Marks paragraph boundaries: `\n` is appended to a region that ends with
/// `.`, `!` or `?` when the next region starts with an uppercase letter.
pub fn detect_paragraphs(regions: Vec<OcrRegion>) -> (r: Vec<OcrRegion>)
    ensures
        region_views(r@) == with_paragraphs(region_views(regions@)),
{
    let ghost rs = region_views(regions@);
    let mut out: Vec<OcrRegion> = Vec::new();
    let n = regions.len();
    let mut i: usize = 0;
    while i < n
        invariant
            n == regions.len(),
            rs == region_views(regions@),
            i <= n,
            region_views(out@) == with_paragraphs(rs).take(i as int),
        decreases n - i,
    {
        let cur = &regions[i];
        let brk = i + 1 < n && ends_with_sentence(cur.text.as_str()) && starts_with_upper(
            regions[i + 1].text.as_str(),
        );
        assert(brk == paragraph_break(rs, i as int));
        let ghost prev = out@;
        if brk {
            let mut v = chars_of(cur.text.as_str());
            v.push('\n');
            let t = string_from_chars(&v);
            out.push(
                OcrRegion { text: t, confidence: cur.confidence, bbox: cur.bbox, column: cur.column },
            );
            assert(out@.last()@ == with_paragraphs(rs)[i as int]);
        } else {
            out.push(cur.duplicate());
            assert(out@.last()@ == with_paragraphs(rs)[i as int]);
        }
        assert(region_views(out@) =~= region_views(prev).push(out@.last()@));
        i += 1;
        assert(region_views(out@) =~= with_paragraphs(rs).take(i as int));
    }
    assert(with_paragraphs(rs).take(n as int) =~= with_paragraphs(rs));
    out
}

// ── Hyphen merging ───────────────────────────────────────────────────────────

/// `cur` ends with `-` (after trailing whitespace) and `next` starts with a
/// lowercase letter (after leading whitespace).
pub open spec fn hyphen_joinable(cur: Seq<char>, next: Seq<char>) -> bool {
    let t = strip_end(cur, CharClass::Whitespace);
    t.len() > 0 && t.last() == '-' && starts_lower(next)
}

/// The smallest box with `a`'s top-left corner that reaches the right and
/// bottom edges of both boxes.
pub open spec fn extend_box(a: BoundingBox, b: BoundingBox) -> BoundingBox {
    let r = if right_edge(a) >= right_edge(b) { right_edge(a) } else { right_edge(b) };
    let btm = if bottom_edge(a) >= bottom_edge(b) { bottom_edge(a) } else { bottom_edge(b) };
    BoundingBox { x: a.x, y: a.y, width: (r - a.x) as u32, height: (btm - a.y) as u32 }
}

/// `cur` joined with `next`: the hyphen and the whitespace around the break are
/// removed, the box of `cur` is extended over `next`'s, the higher confidence kept.
pub open spec fn join_hyphenated(cur: OcrRegionView, next: OcrRegionView) -> OcrRegionView {
    OcrRegionView {
        text: strip_end(cur.text, CharClass::Whitespace).drop_last() + strip_start(
            next.text,
            CharClass::Whitespace,
        ),
        confidence: if cur.confidence >= next.confidence {
            cur.confidence
        } else {
            next.confidence
        },
        bbox: match (cur.bbox, next.bbox) {
            (Some(a), Some(b)) => Some(extend_box(a, b)),
            _ => cur.bbox,
        },
        column: cur.column,
    }
}

/// The regions with every hyphenated line break joined, left to right.
pub open spec fn hyphens_merged(rs: Seq<OcrRegionView>) -> Seq<OcrRegionView>
    decreases rs.len(),
{
    if rs.len() == 0 {
        rs
    } else {
        let acc = hyphens_merged(rs.drop_last());
        if acc.len() > 0 && hyphen_joinable(acc.last().text, rs.last().text) {
            acc.drop_last().push(join_hyphenated(acc.last(), rs.last()))
        } else {
            acc.push(rs.last())
        }
    }
}

pub open spec fn region_edges_fit(r: OcrRegionView) -> bool {
    match r.bbox {
        Some(b) => edges_fit(b),
        None => true,
    }
}

pub open spec fn all_edges_fit(rs: Seq<OcrRegionView>) -> bool {
    forall|i: int| 0 <= i < rs.len() ==> region_edges_fit(#[trigger] rs[i])
}

/// Whether the trimmed text of `cur` ends with `-` and `next` starts lowercase.
fn is_hyphen_break(cur: &str, next: &str) -> (b: bool)
    ensures
        b == hyphen_joinable(cur@, next@),
{
    let v = chars_of(cur);
    let e = end_bound(&v, CharClass::Whitespace);
    if e == 0 {
        return false;
    }
    assert(v@.subrange(0, e as int).last() == v@[e - 1]);
    v[e - 1] == '-' && starts_with_lower(next)
}

fn extend_box_exec(a: BoundingBox, b: BoundingBox) -> (r: BoundingBox)
    requires
        edges_fit(a),
        edges_fit(b),
    ensures
        r == extend_box(a, b),
        edges_fit(r),
{
    let ra = a.x as i64 + a.width as i64;
    let rb = b.x as i64 + b.width as i64;
    let ba = a.y as i64 + a.height as i64;
    let bb = b.y as i64 + b.height as i64;
    let r = if ra >= rb { ra } else { rb };
    let btm = if ba >= bb { ba } else { bb };
    BoundingBox { x: a.x, y: a.y, width: (r - a.x as i64) as u32, height: (btm - a.y as i64) as u32 }
}

fn join_regions(cur: &OcrRegion, next: &OcrRegion) -> (r: OcrRegion)
    requires
        hyphen_joinable(cur.text@, next.text@),
        region_edges_fit(cur@),
        region_edges_fit(next@),
    ensures
        r@ == join_hyphenated(cur@, next@),
        region_edges_fit(r@),
{
    let v = chars_of(cur.text.as_str());
    let e = end_bound(&v, CharClass::Whitespace);
    let w = chars_of(next.text.as_str());
    let s = start_bound(&w, CharClass::Whitespace);
    let mut t: Vec<char> = Vec::new();
    let mut k: usize = 0;
    while k + 1 < e
        invariant
            e <= v.len(),
            e > 0,
            k < e,
            t@ == v@.subrange(0, k as int),
        decreases e - k,
    {
        t.push(v[k]);
        k += 1;
        assert(t@ =~= v@.subrange(0, k as int));
    }
    assert(t@ =~= v@.subrange(0, e as int).drop_last());
    let mut k2: usize = s;
    let ghost base = t@;
    while k2 < w.len()
        invariant
            s <= k2 <= w.len(),
            t@ == base + w@.subrange(s as int, k2 as int),
        decreases w.len() - k2,
    {
        t.push(w[k2]);
        k2 += 1;
        assert(t@ =~= base + w@.subrange(s as int, k2 as int));
    }
    let text = string_from_chars(&t);
    let confidence = if cur.confidence >= next.confidence {
        cur.confidence
    } else {
        next.confidence
    };
    let bbox = match (cur.bbox, next.bbox) {
        (Some(a), Some(b)) => Some(extend_box_exec(a, b)),
        _ => cur.bbox,
    };
    OcrRegion { text, confidence, bbox, column: cur.column }
}

/// Joins hyphenated line breaks: while a region ends with `-` and the next one
/// starts with a lowercase letter, the two become one region.
pub fn merge_hyphens(regions: Vec<OcrRegion>) -> (r: Vec<OcrRegion>)
    requires
        all_edges_fit(region_views(regions@)),
    ensures
        region_views(r@) == hyphens_merged(region_views(regions@)),
        all_edges_fit(region_views(r@)),
{
    let ghost rs = region_views(regions@);
    let mut out: Vec<OcrRegion> = Vec::new();
    let n = regions.len();
    let mut i: usize = 0;
    while i < n
        invariant
            n == regions.len(),
            rs == region_views(regions@),
            all_edges_fit(rs),
            i <= n,
            region_views(out@) == hyphens_merged(rs.take(i as int)),
            all_edges_fit(region_views(out@)),
        decreases n - i,
    {
        proof {
            assert(rs.take(i + 1).drop_last() =~= rs.take(i as int));
            assert(rs.take(i + 1).last() == rs[i as int]);
            assert(region_edges_fit(rs[i as int]));
        }
        let next = &regions[i];
        let joinable = out.len() > 0 && is_hyphen_break(
            out[out.len() - 1].text.as_str(),
            next.text.as_str(),
        );
        let ghost prev = region_views(out@);
        let ghost acc = hyphens_merged(rs.take(i as int));
        if joinable {
            let ghost before = out@;
            let last = out.pop().unwrap();
            proof {
                assert(last == before.last());
                assert(region_views(before)[before.len() - 1] == last@);
                assert(region_edges_fit(last@));
                assert(region_views(out@) =~= prev.drop_last());
            }
            let j = join_regions(&last, next);
            out.push(j);
            proof {
                assert(acc.last() == last@);
                assert(region_views(out@) =~= acc.drop_last().push(join_hyphenated(acc.last(), rs[i as int])));
            }
        } else {
            out.push(next.duplicate());
            assert(region_views(out@) =~= acc.push(rs[i as int]));
        }
        i += 1;
        proof {
            assert forall|k: int| 0 <= k < out@.len() implies region_edges_fit(
                #[trigger] region_views(out@)[k],
            ) by {
                if k < out@.len() - 1 {
                    assert(region_views(out@)[k] == prev[k]);
                }
            }
        }
    }
    assert(rs.take(n as int) =~= rs);
    out
}

// ── Column grouping ──────────────────────────────────────────────────────────

/// The positions of the regions that have a bounding box, in order.
pub open spec fn bbox_positions(rs: Seq<OcrRegionView>) -> Seq<int>
    decreases rs.len(),
{
    if rs.len() == 0 {
        Seq::empty()
    } else {
        let p = bbox_positions(rs.drop_last());
        if rs.last().bbox is Some {
            p.push(rs.len() - 1)
        } else {
            p
        }
    }
}

/// The horizontal extent `(left, right)` of a region's box.
pub open spec fn x_range(r: OcrRegionView) -> (int, int) {
    (r.bbox.unwrap().x as int, r.bbox.unwrap().x + signed_width(r.bbox.unwrap().width))
}

/// A width read as `i32` (`width as i32`): widths above `i32::MAX` wrap to
/// negative values.
pub open spec fn signed_width(w: u32) -> int {
    if w <= i32::MAX {
        w as int
    } else {
        w - 0x1_0000_0000
    }
}

pub open spec fn min_int(a: int, b: int) -> int {
    if a <= b {
        a
    } else {
        b
    }
}

pub open spec fn max_int(a: int, b: int) -> int {
    if a >= b {
        a
    } else {
        b
    }
}

/// The overlap of the extent `(l, r)` with a column's extent (negative when apart).
pub open spec fn overlap(col: (int, int), l: int, r: int) -> int {
    min_int(r, col.1) - max_int(l, col.0)
}

/// The best of the first `k` columns for the extent `(l, r)` and its overlap:
/// a column qualifies when the overlap reaches the threshold (or the region's
/// width, if smaller); the first column with the largest positive overlap wins.
pub open spec fn scan_best(cols: Seq<(int, int)>, l: int, r: int, k: nat) -> (Option<int>, int)
    decreases k,
{
    if k == 0 {
        (None, 0)
    } else {
        let prev = scan_best(cols, l, r, (k - 1) as nat);
        let ov = overlap(cols[k - 1], l, r);
        if ov >= min_int(COLUMN_OVERLAP_THRESHOLD as int, r - l) && ov > prev.1 {
            (Some(k - 1), ov)
        } else {
            prev
        }
    }
}

/// Places an extent: it joins its best column (which grows to cover it) or
/// opens a new column. Returns the columns and the chosen column's index.
pub open spec fn place_range(cols: Seq<(int, int)>, lr: (int, int)) -> (Seq<(int, int)>, int) {
    match scan_best(cols, lr.0, lr.1, cols.len()).0 {
        Some(c) => (cols.update(c, (min_int(cols[c].0, lr.0), max_int(cols[c].1, lr.1))), c),
        None => (cols.push(lr), cols.len() as int),
    }
}

/// Places the extents one after the other; returns the columns and the column
/// chosen for each extent.
pub open spec fn place_all(ranges: Seq<(int, int)>) -> (Seq<(int, int)>, Seq<int>)
    decreases ranges.len(),
{
    if ranges.len() == 0 {
        (Seq::empty(), Seq::empty())
    } else {
        let prev = place_all(ranges.drop_last());
        let step = place_range(prev.0, ranges.last());
        (step.0, prev.1.push(step.1))
    }
}

/// The boxed regions (by their index among the boxed ones) in order of left edge.
pub open spec fn by_left_edge(rs: Seq<OcrRegionView>) -> Seq<usize> {
    let pos = bbox_positions(rs);
    sort_by_keys(
        Seq::new(pos.len(), |j: int| (rs[pos[j]].bbox.unwrap().x as i128, 0i128, 0i128)),
        Seq::new(pos.len(), |j: int| j as usize),
    )
}

/// `cols` with `Some(assigned[p])` written at `targets[p]`, for each `p` in order.
pub open spec fn apply_columns(
    cols: Seq<Option<usize>>,
    targets: Seq<int>,
    assigned: Seq<int>,
) -> Seq<Option<usize>>
    decreases targets.len(),
{
    if targets.len() == 0 || assigned.len() != targets.len() {
        cols
    } else {
        apply_columns(cols, targets.drop_last(), assigned.drop_last()).update(
            targets.last(),
            Some(assigned.last() as usize),
        )
    }
}

pub open spec fn with_column(r: OcrRegionView, c: Option<usize>) -> OcrRegionView {
    OcrRegionView { text: r.text, confidence: r.confidence, bbox: r.bbox, column: c }
}

/// The regions with their column assignments: boxed regions are visited by left
/// edge and placed into columns; regions without a box keep their column.
pub open spec fn columns_assigned(rs: Seq<OcrRegionView>) -> Seq<OcrRegionView> {
    let pos = bbox_positions(rs);
    let order = by_left_edge(rs);
    let targets = Seq::new(pos.len(), |p: int| pos[order[p] as int]);
    let assigned = place_all(Seq::new(pos.len(), |p: int| x_range(rs[targets[p]]))).1;
    let cols = apply_columns(rs.map_values(|r: OcrRegionView| r.column), targets, assigned);
    Seq::new(rs.len(), |i: int| with_column(rs[i], cols[i]))
}

/// The reading key: column (0 if none), then top edge (0 if no box).
pub open spec fn column_key(r: OcrRegionView) -> SortKey {
    (
        match r.column {
            Some(c) => c as i128,
            None => 0i128,
        },
        match r.bbox {
            Some(b) => b.y as i128,
            None => 0i128,
        },
        0i128,
    )
}

/// The regions grouped into columns and ordered left to right by column, then
/// top to bottom (a stable sort); unchanged when no region has a box.
pub open spec fn grouped(rs: Seq<OcrRegionView>) -> Seq<OcrRegionView> {
    if bbox_positions(rs).len() == 0 {
        rs
    } else {
        let wc = columns_assigned(rs);
        sort_by_keys(wc.map_values(|r: OcrRegionView| column_key(r)), wc)
    }
}

/// Every box is well formed (see `bbox_ok`).
pub open spec fn all_boxes_ok(rs: Seq<OcrRegionView>) -> bool {
    forall|i: int| 0 <= i < rs.len() ==> match (#[trigger] rs[i]).bbox {
        Some(b) => bbox_ok(b),
        None => true,
    }
}

/// Every box's right edge, its left edge plus its width read as `i32`, is
/// representable as `i32`, which is all that column grouping computes with.
pub open spec fn all_spans_fit(rs: Seq<OcrRegionView>) -> bool {
    forall|i: int| 0 <= i < rs.len() ==> match (#[trigger] rs[i]).bbox {
        Some(b) => i32::MIN <= b.x + signed_width(b.width) <= i32::MAX,
        None => true,
    }
}

proof fn lemma_bbox_positions(rs: Seq<OcrRegionView>)
    ensures
        bbox_positions(rs).len() <= rs.len(),
        forall|j: int|
            0 <= j < bbox_positions(rs).len() ==> 0 <= #[trigger] bbox_positions(rs)[j] < rs.len()
                && rs[bbox_positions(rs)[j]].bbox is Some,
    decreases rs.len(),
{
    if rs.len() > 0 {
        lemma_bbox_positions(rs.drop_last());
    }
}

proof fn lemma_scan_best(cols: Seq<(int, int)>, l: int, r: int, k: nat)
    ensures
        scan_best(cols, l, r, k).0 is Some ==> 0 <= scan_best(cols, l, r, k).0.unwrap() < k,
    decreases k,
{
    if k > 0 {
        lemma_scan_best(cols, l, r, (k - 1) as nat);
    }
}

proof fn lemma_place_all(ranges: Seq<(int, int)>)
    ensures
        place_all(ranges).1.len() == ranges.len(),
        place_all(ranges).0.len() <= ranges.len(),
    decreases ranges.len(),
{
    if ranges.len() > 0 {
        lemma_place_all(ranges.drop_last());
        let prev = place_all(ranges.drop_last());
        let lr = ranges.last();
        lemma_scan_best(prev.0, lr.0, lr.1, prev.0.len());
    }
}

/// The extents gathered for the boxed regions, as the column pass reads them.
pub open spec fn extents_match(
    rs: Seq<OcrRegionView>,
    bp: Seq<int>,
    pos: Seq<usize>,
    lefts: Seq<i64>,
    rights: Seq<i64>,
) -> bool {
    &&& pos.len() == bp.len()
    &&& lefts.len() == bp.len()
    &&& rights.len() == bp.len()
    &&& forall|j: int|
        0 <= j < bp.len() ==> {
            &&& (#[trigger] pos[j]) as int == bp[j]
            &&& pos[j] < rs.len()
            &&& rs[pos[j] as int].bbox is Some
            &&& lefts[j] as int == rs[pos[j] as int].bbox.unwrap().x
            &&& (lefts[j] as int, rights[j] as int) == x_range(rs[pos[j] as int])
            &&& i32::MIN <= lefts[j] <= i32::MAX && i32::MIN <= rights[j] <= i32::MAX
        }
}

pub open spec fn col_view(s: Seq<(i64, i64)>) -> Seq<(int, int)> {
    s.map_values(|c: (i64, i64)| (c.0 as int, c.1 as int))
}

pub open spec fn opt_int(o: Option<usize>) -> Option<int> {
    match o {
        Some(c) => Some(c as int),
        None => None,
    }
}

pub open spec fn cols_in_i32(s: Seq<(i64, i64)>) -> bool {
    forall|c: int|
        0 <= c < s.len() ==> i32::MIN <= (#[trigger] s[c]).0 <= i32::MAX && i32::MIN <= s[c].1
            <= i32::MAX
}

/// The column that the extent `(l, r)` joins, if any (see `scan_best`).
fn best_column(cols: &Vec<(i64, i64)>, l: i64, r: i64) -> (res: Option<usize>)
    requires
        i32::MIN <= l <= i32::MAX && i32::MIN <= r <= i32::MAX,
        cols_in_i32(cols@),
    ensures
        res.is_some() ==> res.unwrap() < cols.len(),
        opt_int(res) == scan_best(col_view(cols@), l as int, r as int, cols.len() as nat).0,
{
    let ghost cv = col_view(cols@);
    let mut best: Option<usize> = None;
    let mut best_ov: i64 = 0;
    let width = r - l;
    let thr: i64 = if (COLUMN_OVERLAP_THRESHOLD as i64) <= width {
        COLUMN_OVERLAP_THRESHOLD as i64
    } else {
        width
    };
    let mut k: usize = 0;
    while k < cols.len()
        invariant
            k <= cols.len(),
            cv == col_view(cols@),
            cols_in_i32(cols@),
            i32::MIN <= l <= i32::MAX && i32::MIN <= r <= i32::MAX,
            thr == min_int(COLUMN_OVERLAP_THRESHOLD as int, r - l),
            (opt_int(best), best_ov as int) == scan_best(cv, l as int, r as int, k as nat),
            best.is_some() ==> best.unwrap() < k,
        decreases cols.len() - k,
    {
        let (cl, cr) = cols[k];
        let os = if l >= cl {
            l
        } else {
            cl
        };
        let oe = if r <= cr {
            r
        } else {
            cr
        };
        let ov = oe - os;
        assert(ov as int == overlap(cv[k as int], l as int, r as int));
        if ov >= thr && ov > best_ov {
            best = Some(k);
            best_ov = ov;
        }
        k += 1;
    }
    best
}

/// Groups regions into columns by the horizontal overlap of their boxes and
/// orders them column by column, top to bottom. Regions without a box keep
/// their column; when no region has a box the input is returned unchanged.
pub fn group_columns(regions: Vec<OcrRegion>) -> (r: Vec<OcrRegion>)
    requires
        all_spans_fit(region_views(regions@)),
    ensures
        region_views(r@) == grouped(region_views(regions@)),
{
    let ghost rs = region_views(regions@);
    let n = regions.len();
    let mut pos: Vec<usize> = Vec::new();
    let mut lefts: Vec<i64> = Vec::new();
    let mut rights: Vec<i64> = Vec::new();
    let mut i: usize = 0;
    while i < n
        invariant
            n == regions.len(),
            rs == region_views(regions@),
            all_spans_fit(rs),
            i <= n,
            pos.len() == lefts.len(),
            pos.len() == rights.len(),
            pos.len() == bbox_positions(rs.take(i as int)).len(),
            forall|j: int|
                0 <= j < pos.len() ==> {
                    &&& (#[trigger] pos@[j]) as int == bbox_positions(rs.take(i as int))[j]
                    &&& pos@[j] < i
                    &&& rs[pos@[j] as int].bbox is Some
                    &&& lefts@[j] as int == rs[pos@[j] as int].bbox.unwrap().x
                    &&& (lefts@[j] as int, rights@[j] as int) == x_range(rs[pos@[j] as int])
                    &&& i32::MIN <= lefts@[j] <= i32::MAX && i32::MIN <= rights@[j] <= i32::MAX
                },
        decreases n - i,
    {
        proof {
            assert(rs.take(i + 1).drop_last() =~= rs.take(i as int));
            assert(rs.take(i + 1).last() == rs[i as int]);
        }
        match regions[i].bbox {
            Some(b) => {
                assert(i32::MIN <= b.x + signed_width(b.width) <= i32::MAX);
                let w: i64 = if b.width <= 0x7fff_ffffu32 {
                    b.width as i64
                } else {
                    b.width as i64 - 0x1_0000_0000i64
                };
                pos.push(i);
                lefts.push(b.x as i64);
                rights.push(b.x as i64 + w);
            },
            None => {},
        }
        i += 1;
    }
    assert(rs.take(n as int) =~= rs);
    let ghost bp = bbox_positions(rs);
    assert(extents_match(rs, bp, pos@, lefts@, rights@));
    if pos.len() == 0 {
        return regions;
    }
    let m = pos.len();
    let mut keys: Vec<SortKey> = Vec::new();
    let mut idx: Vec<usize> = Vec::new();
    let mut j: usize = 0;
    while j < m
        invariant
            m == pos.len(),
            m == lefts.len(),
            extents_match(rs, bp, pos@, lefts@, rights@),
            j <= m,
            keys.len() == j,
            idx.len() == j,
            forall|q: int| 0 <= q < j ==> #[trigger] keys@[q] == (lefts@[q] as i128, 0i128, 0i128),
            forall|q: int| 0 <= q < j ==> #[trigger] idx@[q] == q as usize,
        decreases m - j,
    {
        keys.push((lefts[j] as i128, 0, 0));
        idx.push(j);
        j += 1;
    }
    let ghost keys_v = keys@;
    let ghost idx_v = idx@;
    proof {
        assert forall|q: int| 0 <= q < m implies keys_v[q] == (
            rs[bp[q]].bbox.unwrap().x as i128,
            0i128,
            0i128,
        ) by {
            assert(pos@[q] as int == bp[q]);
        }
        assert(keys_v =~= Seq::new(bp.len(), |q: int| (rs[bp[q]].bbox.unwrap().x as i128, 0i128, 0i128)));
        assert(idx_v =~= Seq::new(bp.len(), |q: int| q as usize));
        lemma_sort_items_from(keys_v, idx_v);
    }
    let order = sort_by_keys_exec(keys, idx);
    assert(order@ == by_left_edge(rs));
    assert forall|q: int| 0 <= q < m implies #[trigger] order@[q] < m by {
        let w = choose|w: int| 0 <= w < idx_v.len() && idx_v[w] == sort_by_keys(keys_v, idx_v)[q];
    }
    let ghost targets = Seq::new(m as nat, |p: int| bp[order@[p] as int]);
    let ghost ranges = Seq::new(m as nat, |p: int| x_range(rs[targets[p]]));
    let ghost init = rs.map_values(|r: OcrRegionView| r.column);
    let mut columns: Vec<(i64, i64)> = Vec::new();
    let mut cols_out: Vec<Option<usize>> = Vec::new();
    let mut i: usize = 0;
    while i < n
        invariant
            n == regions.len(),
            rs == region_views(regions@),
            init == rs.map_values(|r: OcrRegionView| r.column),
            extents_match(rs, bp, pos@, lefts@, rights@),
            i <= n,
            cols_out@ == init.take(i as int),
        decreases n - i,
    {
        cols_out.push(regions[i].column);
        i += 1;
        assert(cols_out@ =~= init.take(i as int));
    }
    assert(init.take(n as int) =~= init);
    let mut p: usize = 0;
    while p < m
        invariant
            m == pos.len(),
            m == lefts.len(),
            m == rights.len(),
            m == order.len(),
            n == cols_out.len(),
            bp == bbox_positions(rs),
            bp.len() == m,
            forall|q: int| 0 <= q < m ==> #[trigger] order@[q] < m,
            n == rs.len(),
            extents_match(rs, bp, pos@, lefts@, rights@),
            targets == Seq::new(m as nat, |q: int| bp[order@[q] as int]),
            ranges == Seq::new(m as nat, |q: int| x_range(rs[targets[q]])),
            p <= m,
            columns.len() <= p,
            cols_in_i32(columns@),
            col_view(columns@) == place_all(ranges.take(p as int)).0,
            cols_out@ == apply_columns(init, targets.take(p as int), place_all(ranges.take(p as int)).1),
        decreases m - p,
    {
        let jj = order[p];
        let target = pos[jj];
        let l = lefts[jj];
        let r = rights[jj];
        proof {
            assert(targets[p as int] == target as int);
            assert((l as int, r as int) == ranges[p as int]);
            assert(ranges.take(p + 1).drop_last() =~= ranges.take(p as int));
            assert(ranges.take(p + 1).last() == ranges[p as int]);
            assert(targets.take(p + 1).drop_last() =~= targets.take(p as int));
            assert(targets.take(p + 1).last() == targets[p as int]);
            lemma_place_all(ranges.take(p as int));
        }
        let ghost before = col_view(columns@);
        let best = best_column(&columns, l, r);
        let col = match best {
            Some(c) => {
                let (cl, cr) = columns[c];
                let nl = if cl <= l {
                    cl
                } else {
                    l
                };
                let nr = if cr >= r {
                    cr
                } else {
                    r
                };
                columns.set(c, (nl, nr));
                assert(col_view(columns@) =~= before.update(
                    c as int,
                    (min_int(before[c as int].0, l as int), max_int(before[c as int].1, r as int)),
                ));
                c
            },
            None => {
                columns.push((l, r));
                assert(col_view(columns@) =~= before.push((l as int, r as int)));
                columns.len() - 1
            },
        };
        let ghost prev_out = cols_out@;
        cols_out.set(target, Some(col));
        proof {
            lemma_place_all(ranges.take(p + 1));
            lemma_place_all(ranges.take(p as int));
            let a0 = place_all(ranges.take(p as int));
            let a1 = place_all(ranges.take(p + 1));
            assert(place_range(a0.0, ranges[p as int]).1 == col as int);
            assert(a1.1 == a0.1.push(col as int));
            assert(a1.1.drop_last() =~= a0.1);
            assert(col_view(columns@) == a1.0);
            assert(apply_columns(init, targets.take(p + 1), a1.1) == apply_columns(
                init,
                targets.take(p as int),
                a0.1,
            ).update(target as int, Some(col)));
        }
        p += 1;
    }
    assert(ranges.take(m as int) =~= ranges);
    assert(targets.take(m as int) =~= targets);
    let ghost cols = apply_columns(init, targets, place_all(ranges).1);
    let ghost wc = Seq::new(n as nat, |k: int| with_column(rs[k], cols[k]));
    assert(wc == columns_assigned(rs));
    let mut with: Vec<OcrRegion> = Vec::new();
    let mut keys2: Vec<SortKey> = Vec::new();
    let mut i: usize = 0;
    while i < n
        invariant
            n == regions.len(),
            n == cols_out.len(),
            rs == region_views(regions@),
            cols_out@ == cols,
            wc == Seq::new(n as nat, |k: int| with_column(rs[k], cols[k])),
            i <= n,
            region_views(with@) == wc.take(i as int),
            keys2@ == wc.take(i as int).map_values(|r: OcrRegionView| column_key(r)),
        decreases n - i,
    {
        let cur = &regions[i];
        let c = cols_out[i];
        let y: i128 = match cur.bbox {
            Some(b) => b.y as i128,
            None => 0,
        };
        let cc: i128 = match c {
            Some(v) => v as i128,
            None => 0,
        };
        keys2.push((cc, y, 0));
        with.push(OcrRegion { text: cur.text.clone(), confidence: cur.confidence, bbox: cur.bbox, column: c });
        i += 1;
        assert(region_views(with@) =~= wc.take(i as int));
        assert(keys2@ =~= wc.take(i as int).map_values(|r: OcrRegionView| column_key(r)));
    }
    assert(wc.take(n as int) =~= wc);
    let ghost k2 = keys2@;
    let ghost w2 = with@;
    let out = sort_by_keys_exec(keys2, with);
    proof {
        let f = |r: OcrRegion| r@;
        lemma_sort_map(k2, w2, f);
        assert(region_views(w2) =~= w2.map_values(f));
        assert(region_views(out@) =~= out@.map_values(f));
    }
    out
}

/// The three post-processing steps in order: column grouping, hyphen merging,
/// paragraph detection.
pub open spec fn postprocessed(rs: Seq<OcrRegionView>) -> Seq<OcrRegionView> {
    with_paragraphs(hyphens_merged(grouped(rs)))
}

proof fn lemma_grouped_edges(rs: Seq<OcrRegionView>)
    requires
        all_boxes_ok(rs),
    ensures
        all_edges_fit(grouped(rs)),
{
    if bbox_positions(rs).len() > 0 {
        let wc = columns_assigned(rs);
        let keys = wc.map_values(|r: OcrRegionView| column_key(r));
        lemma_sort_items_from(keys, wc);
        assert forall|i: int| 0 <= i < grouped(rs).len() implies region_edges_fit(
            #[trigger] grouped(rs)[i],
        ) by {
            let j = choose|j: int| 0 <= j < wc.len() && wc[j] == sort_by_keys(keys, wc)[i];
            assert(wc[j].bbox == rs[j].bbox);
        }
    } else {
        assert forall|i: int| 0 <= i < rs.len() implies region_edges_fit(#[trigger] rs[i]) by {
            match rs[i].bbox {
                Some(b) => assert(bbox_ok(b)),
                None => {},
            }
        }
    }
}

/// Applies all post-processing steps to OCR regions: column grouping, hyphen
/// merging, paragraph detection.
pub fn postprocess(regions: Vec<OcrRegion>) -> (r: Vec<OcrRegion>)
    requires
        all_boxes_ok(region_views(regions@)),
    ensures
        region_views(r@) == postprocessed(region_views(regions@)),
{
    let grouped_regions = group_columns(regions);
    proof {
        lemma_grouped_edges(region_views(regions@));
    }
    let merged = merge_hyphens(grouped_regions);
    detect_paragraphs(merged)
}

/// Column grouping reorders the regions column by column (left to right) and,
/// within a column, top to bottom.
pub proof fn law_grouped_in_reading_order(rs: Seq<OcrRegionView>)
    requires
        bbox_positions(rs).len() > 0,
    ensures
        grouped(rs).len() == rs.len(),
        forall|i: int, j: int|
            0 <= i < j < rs.len() ==> key_le(
                column_key(#[trigger] grouped(rs)[i]),
                column_key(#[trigger] grouped(rs)[j]),
            ),
{
    let wc = columns_assigned(rs);
    lemma_sort_by_own_keys(wc, |r: OcrRegionView| column_key(r));
}

/// Column grouping keeps every region, changing only its column.
pub proof fn law_grouped_keeps_regions(rs: Seq<OcrRegionView>)
    ensures
        grouped(rs).len() == rs.len(),
        forall|i: int|
            0 <= i < rs.len() ==> exists|j: int|
                0 <= j < rs.len() && #[trigger] grouped(rs)[i] == with_column(
                    rs[j],
                    grouped(rs)[i].column,
                ),
{
    if bbox_positions(rs).len() > 0 {
        let wc = columns_assigned(rs);
        let keys = wc.map_values(|r: OcrRegionView| column_key(r));
        lemma_sort_items_from(keys, wc);
        assert forall|i: int| 0 <= i < rs.len() implies exists|j: int|
            0 <= j < rs.len() && #[trigger] grouped(rs)[i] == with_column(
                rs[j],
                grouped(rs)[i].column,
            ) by {
            let j = choose|j: int| 0 <= j < wc.len() && wc[j] == sort_by_keys(keys, wc)[i];
            assert(grouped(rs)[i] == with_column(rs[j], grouped(rs)[i].column));
        }
    } else {
        assert forall|i: int| 0 <= i < rs.len() implies exists|j: int|
            0 <= j < rs.len() && #[trigger] grouped(rs)[i] == with_column(
                rs[j],
                grouped(rs)[i].column,
            ) by {
            assert(grouped(rs)[i] == with_column(rs[i], grouped(rs)[i].column));
        }
    }
}

/// Hyphen merging never adds regions.
pub proof fn law_hyphen_merge_never_grows(rs: Seq<OcrRegionView>)
    ensures
        hyphens_merged(rs).len() <= rs.len(),
    decreases rs.len(),
{
    if rs.len() > 0 {
        law_hyphen_merge_never_grows(rs.drop_last());
    }
}

/// Paragraph detection keeps every region and only appends `\n` to texts.
pub proof fn law_paragraphs_only_append_newline(rs: Seq<OcrRegionView>)
    ensures
        with_paragraphs(rs).len() == rs.len(),
        forall|i: int|
            0 <= i < rs.len() ==> (#[trigger] with_paragraphs(rs)[i] == rs[i]
                || with_paragraphs(rs)[i] == with_text(rs[i], rs[i].text.push('\n'))),
{
}

} // verus!
