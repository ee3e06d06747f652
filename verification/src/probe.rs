//! Helpers for performing probing to verify the basic capabilities of the device we are
//! running on.
//!
//! The probe scene is laid out on a grid of whole pixels: every size in it (the element
//! rectangles and the margins around them) is an integer, so the layout and the
//! rectangles handed to a [`ProbeRenderer`] use integer pixel coordinates. A renderer
//! that draws with floating-point rectangles converts them exactly.
//!
//! A rendered probe is judged from its size and its unpremultiplied RGBA8 pixels, row by
//! row, as the renderer's pixmap gives them.

use vstd::prelude::*;

verus! {

/// Per-channel absolute tolerance used when comparing probe pixels.
pub const CHANNEL_TOLERANCE: u8 = 3;

/// Result of running the renderer probe.
#[derive(Debug, Clone)]
pub enum Probe<E> {
    /// The probe matched the bundled reference image.
    Success,
    /// The probe did not match the bundled reference image.
    Error(ProbeResult),
    /// Rendering the probe scene produces an error.
    RenderError(E),
}

/// Probe failure output.
#[derive(Debug, Clone)]
pub struct ProbeResult {
    /// The expected probe image.
    pub expected: ProbeImage,
    /// The actual probe image.
    pub actual: ProbeImage,
}

/// A probe image stored as RGBA8 bytes.
#[derive(Debug, Clone)]
pub struct ProbeImage {
    /// Width of the image in pixels.
    pub width: u16,
    /// Height of the image in pixels.
    pub height: u16,
    /// The image data as RGBA8 bytes.
    pub data: Vec<u8>,
}

/// The bytes of a run of RGBA8 pixels, laid out one pixel after the other.
pub open spec fn flatten_pixels(pixels: Seq<[u8; 4]>) -> Seq<u8> {
    Seq::new((pixels.len() * 4) as nat, |i: int| pixels[i / 4]@[i % 4])
}

/// Whether two channel values differ by at most `tolerance`.
pub open spec fn channel_within(expected: u8, actual: u8, tolerance: u8) -> bool {
    if expected >= actual {
        expected - actual <= tolerance
    } else {
        actual - expected <= tolerance
    }
}

/// Two pixels (RGBA8 byte runs) match when both are fully transparent, or when every
/// channel they share differs by at most `tolerance`.
pub open spec fn pixels_match(expected: Seq<u8>, actual: Seq<u8>, tolerance: u8) -> bool {
    ||| expected[3] == 0 && actual[3] == 0
    ||| forall|i: int|
        0 <= i < expected.len() && i < actual.len() ==> #[trigger] channel_within(
            expected[i],
            actual[i],
            tolerance,
        )
}

/// The `p`-th pixel of an RGBA8 byte buffer.
pub open spec fn pixel_at(data: Seq<u8>, p: int) -> Seq<u8> {
    data.subrange(4 * p, 4 * p + 4)
}

/// Two images match when they have the same size and the same number of bytes, and
/// every whole pixel of the one matches the pixel at the same place in the other,
/// within the probe's channel tolerance.
pub open spec fn images_match(
    expected_width: u16,
    expected_height: u16,
    expected: Seq<u8>,
    actual_width: u16,
    actual_height: u16,
    actual: Seq<u8>,
) -> bool {
    &&& expected_width == actual_width
    &&& expected_height == actual_height
    &&& expected.len() == actual.len()
    &&& forall|p: int|
        0 <= p < expected.len() / 4 ==> #[trigger] pixels_match(
            pixel_at(expected, p),
            pixel_at(actual, p),
            CHANNEL_TOLERANCE,
        )
}

/// Width and height of the probe canvas.
pub open spec fn probe_canvas_size() -> (u16, u16) {
    (12, 12)
}

/// The bundled reference image: the probe scene rendered on its canvas, which covers
/// every pixel with opaque red, as RGBA8 bytes.
pub open spec fn reference_rgba() -> Seq<u8> {
    Seq::new(
        576,
        |i: int|
            if i % 4 == 1 || i % 4 == 2 {
                0u8
            } else {
                255u8
            },
    )
}

/// `bytemuck::cast_slice` from `[[u8; 4]]` to `[u8]`, copied into a `Vec`. Claimed: the
/// bytes are those of the arrays in memory, which Rust lays out one element after the
/// other, so the result is the pixels' channels in order.
#[verifier::external_body]
fn cast_pixels_to_bytes(pixels: &[[u8; 4]]) -> (bytes: Vec<u8>)
    ensures
        bytes@ == flatten_pixels(pixels@),
{
    bytemuck::cast_slice::<[u8; 4], u8>(pixels).to_vec()
}

impl<E> Probe<E> {
    /// Returns `true` when the probe matched the bundled reference image.
    pub fn is_success(&self) -> (r: bool)
        ensures
            r == (self is Success),
    {
        match self {
            Probe::Success => true,
            _ => false,
        }
    }

    /// Construct a new probe result by inspecting the rendered pixels (unpremultiplied
    /// RGBA8, row by row) and comparing them against the reference output.
    pub fn from_actual(width: u16, height: u16, pixels: &[[u8; 4]]) -> (probe: Self)
        ensures
            !(probe is RenderError),
            (probe is Success) == images_match(
                probe_canvas_size().0,
                probe_canvas_size().1,
                reference_rgba(),
                width,
                height,
                flatten_pixels(pixels@),
            ),
            probe matches Probe::Error(result) ==> {
                &&& result.expected.width == probe_canvas_size().0
                &&& result.expected.height == probe_canvas_size().1
                &&& result.expected.data@ == reference_rgba()
                &&& result.actual.width == width
                &&& result.actual.height == height
                &&& result.actual.data@ == flatten_pixels(pixels@)
            },
    {
        let (expected_width, expected_height) = canvas_size();
        let expected = ProbeImage {
            width: expected_width,
            height: expected_height,
            data: reference_rgba_bytes(),
        };
        let actual = ProbeImage::from_pixels(width, height, pixels);
        let matches_reference = images_match_exec(&expected, &actual);
        if matches_reference {
            Probe::Success
        } else {
            Probe::Error(ProbeResult { expected, actual })
        }
    }
}

impl ProbeImage {
    fn from_pixels(width: u16, height: u16, pixels: &[[u8; 4]]) -> (image: Self)
        ensures
            image.width == width,
            image.height == height,
            image.data@ == flatten_pixels(pixels@),
    {
        Self { width, height, data: cast_pixels_to_bytes(pixels) }
    }
}

/// The bundled reference image bytes.
fn reference_rgba_bytes() -> (bytes: Vec<u8>)
    ensures
        bytes@ == reference_rgba(),
{
    let mut bytes: Vec<u8> = Vec::new();
    let mut p: usize = 0;
    while p < 144
        invariant
            p <= 144,
            bytes@.len() == 4 * p,
            forall|i: int| 0 <= i < bytes@.len() ==> #[trigger] bytes@[i] == reference_rgba()[i],
        decreases 144 - p,
    {
        bytes.push(255);
        bytes.push(0);
        bytes.push(0);
        bytes.push(255);
        p = p + 1;
    }
    assert(bytes@ =~= reference_rgba());
    bytes
}

/// Whether the two images match within the probe's tolerance.
fn images_match_exec(expected: &ProbeImage, actual: &ProbeImage) -> (m: bool)
    ensures
        m == images_match(
            expected.width,
            expected.height,
            expected.data@,
            actual.width,
            actual.height,
            actual.data@,
        ),
{
    if expected.width != actual.width || expected.height != actual.height || expected.data.len()
        != actual.data.len() {
        return false;
    }
    let len = expected.data.len();
    let n = len / 4;
    let mut p: usize = 0;
    while p < n
        invariant
            len == expected.data@.len(),
            n == len / 4,
            expected.data@.len() == actual.data@.len(),
            p <= n,
            forall|q: int|
                0 <= q < p ==> #[trigger] pixels_match(
                    pixel_at(expected.data@, q),
                    pixel_at(actual.data@, q),
                    CHANNEL_TOLERANCE,
                ),
        decreases n - p,
    {
        assert(4 * p + 4 <= len);
        let i = 4 * p;
        let e: [u8; 4] = [
            expected.data[i],
            expected.data[i + 1],
            expected.data[i + 2],
            expected.data[i + 3],
        ];
        let a: [u8; 4] = [actual.data[i], actual.data[i + 1], actual.data[i + 2], actual.data[i + 3]];
        assert(e@ =~= pixel_at(expected.data@, p as int));
        assert(a@ =~= pixel_at(actual.data@, p as int));
        if !pixels_within_tolerance(&e, &a, CHANNEL_TOLERANCE) {
            return false;
        }
        p = p + 1;
    }
    true
}

/// Whether two RGBA8 pixels match: both fully transparent, or every channel they share
/// within `channel_tolerance`.
pub fn pixels_within_tolerance(expected: &[u8], actual: &[u8], channel_tolerance: u8) -> (r: bool)
    requires
        expected@.len() >= 4,
        expected@[3] == 0 ==> actual@.len() >= 4,
    ensures
        r == pixels_match(expected@, actual@, channel_tolerance),
{
    if expected[3] == 0 && actual[3] == 0 {
        return true;
    }
    let n = if expected.len() < actual.len() {
        expected.len()
    } else {
        actual.len()
    };
    let mut i: usize = 0;
    while i < n
        invariant
            n <= expected@.len(),
            n <= actual@.len(),
            n == expected@.len() || n == actual@.len(),
            !(expected@[3] == 0 && actual@[3] == 0),
            i <= n,
            forall|j: int|
                0 <= j < i ==> #[trigger] channel_within(expected@[j], actual@[j], channel_tolerance),
        decreases n - i,
    {
        let e = expected[i];
        let a = actual[i];
        let diff = if e >= a {
            e - a
        } else {
            a - e
        };
        if diff > channel_tolerance {
            assert(!channel_within(expected@[i as int], actual@[i as int], channel_tolerance));
            return false;
        }
        i = i + 1;
    }
    true
}

/// An RGBA8 color that is not premultiplied.
#[derive(Debug, Clone, Copy, PartialEq, Eq, Structural)]
pub struct Rgba8 {
    /// Red component.
    pub r: u8,
    /// Green component.
    pub g: u8,
    /// Blue component.
    pub b: u8,
    /// Alpha component.
    pub a: u8,
}

/// The paint that the probe scene hands to a renderer.
#[derive(Debug, Clone, Copy, PartialEq, Eq, Structural)]
pub enum PaintType {
    /// A solid color.
    Solid(Rgba8),
}

/// An axis-aligned rectangle in pixel coordinates, from `(x0, y0)` to `(x1, y1)`.
#[derive(Debug, Clone, Copy, PartialEq, Eq, Structural)]
pub struct Rect {
    /// Left edge.
    pub x0: u32,
    /// Top edge.
    pub y0: u32,
    /// Right edge.
    pub x1: u32,
    /// Bottom edge.
    pub y1: u32,
}

/// One call that the probe scene makes on a [`ProbeRenderer`].
#[derive(Debug, Clone, Copy, PartialEq, Eq, Structural)]
pub enum DrawOp {
    /// `set_paint` with this paint.
    SetPaint(PaintType),
    /// `fill_rect` with this rectangle.
    FillRect(Rect),
}

/// API necessary to draw the probe scene.
///
/// An implementation models itself by the calls it has received, so that what drawing
/// the scene does to it can be stated.
pub trait ProbeRenderer {
    /// The calls this renderer has received so far, in order.
    spec fn draw_ops(&self) -> Seq<DrawOp>;

    /// Sets the paint for subsequent fills.
    fn set_paint(&mut self, paint: PaintType)
        ensures
            final(self).draw_ops() == old(self).draw_ops().push(DrawOp::SetPaint(paint)),
    ;

    /// Fills a rectangle with the current paint.
    fn fill_rect(&mut self, rect: &Rect)
        ensures
            final(self).draw_ops() == old(self).draw_ops().push(DrawOp::FillRect(*rect)),
    ;
}

/// A renderer that draws nothing and keeps the calls it receives.
pub struct SceneRecorder {
    ops: Vec<DrawOp>,
}

impl SceneRecorder {
    /// A recorder that has received no call yet.
    pub fn new() -> (recorder: Self)
        ensures
            recorder.draw_ops() == Seq::<DrawOp>::empty(),
    {
        SceneRecorder { ops: Vec::new() }
    }

    /// The calls received so far, in order.
    pub fn ops(&self) -> (ops: &Vec<DrawOp>)
        ensures
            ops@ == self.draw_ops(),
    {
        &self.ops
    }
}

impl ProbeRenderer for SceneRecorder {
    closed spec fn draw_ops(&self) -> Seq<DrawOp> {
        self.ops@
    }

    fn set_paint(&mut self, paint: PaintType) {
        self.ops.push(DrawOp::SetPaint(paint));
    }

    fn fill_rect(&mut self, rect: &Rect) {
        self.ops.push(DrawOp::FillRect(*rect));
    }
}

/// CSS `red`, opaque.
pub open spec fn red() -> Rgba8 {
    Rgba8 { r: 255, g: 0, b: 0, a: 255 }
}

fn css_red() -> (paint: PaintType)
    ensures
        paint == PaintType::Solid(red()),
{
    PaintType::Solid(Rgba8 { r: 255, g: 0, b: 0, a: 255 })
}

const ELEMENTS_PER_ROW: usize = 1;

const ELEMENT_MARGIN: u32 = 1;

const RECT_SIZE: u32 = 10;

#[derive(Clone, Copy, Debug)]
enum ProbeElement {
    SolidRect,
}

spec fn probe_elements() -> Seq<ProbeElement> {
    seq![ProbeElement::SolidRect]
}

fn elements() -> (es: [ProbeElement; 1])
    ensures
        es@ == probe_elements(),
{
    let es = [ProbeElement::SolidRect];
    assert(es@ =~= probe_elements());
    es
}

#[derive(Clone, Copy, Debug)]
struct GridLayout {
    columns: usize,
    rows: usize,
    cell_width: u32,
    cell_height: u32,
}

spec fn bounds_of(element: ProbeElement) -> (u32, u32) {
    match element {
        ProbeElement::SolidRect => (
            (RECT_SIZE + ELEMENT_MARGIN * 2) as u32,
            (RECT_SIZE + ELEMENT_MARGIN * 2) as u32,
        ),
    }
}

/// The largest bounds over the elements, starting from zero.
spec fn max_bounds(elements: Seq<ProbeElement>) -> (u32, u32)
    decreases elements.len(),
{
    if elements.len() == 0 {
        (0, 0)
    } else {
        let (w, h) = max_bounds(elements.drop_last());
        let (bw, bh) = bounds_of(elements.last());
        (if w >= bw { w } else { bw }, if h >= bh { h } else { bh })
    }
}

spec fn ceil_div(n: int, d: int) -> int {
    if n % d == 0 {
        n / d
    } else {
        n / d + 1
    }
}

spec fn layout_of(elements: Seq<ProbeElement>) -> GridLayout {
    let columns = if ELEMENTS_PER_ROW <= elements.len() {
        ELEMENTS_PER_ROW as int
    } else {
        elements.len() as int
    };
    GridLayout {
        columns: columns as usize,
        rows: ceil_div(elements.len() as int, columns) as usize,
        cell_width: max_bounds(elements).0,
        cell_height: max_bounds(elements).1,
    }
}

/// A length in pixels, rounded up, as a `u16` that saturates.
spec fn saturate_u16(x: int) -> u16 {
    if x > u16::MAX {
        u16::MAX
    } else {
        x as u16
    }
}

/// `n` cells of `cell` pixels separated by margins.
spec fn span(n: int, cell: int) -> int {
    n * cell + (if n >= 1 { n - 1 } else { 0 }) * ELEMENT_MARGIN
}

spec fn layout_canvas_size(layout: GridLayout) -> (u16, u16) {
    (
        saturate_u16(span(layout.columns as int, layout.cell_width as int)),
        saturate_u16(span(layout.rows as int, layout.cell_height as int)),
    )
}

spec fn layout_cell_rect(layout: GridLayout, index: int) -> Rect {
    let column = index % (layout.columns as int);
    let row = index / (layout.columns as int);
    let x0 = column * (layout.cell_width + ELEMENT_MARGIN);
    let y0 = row * (layout.cell_height + ELEMENT_MARGIN);
    Rect {
        x0: x0 as u32,
        y0: y0 as u32,
        x1: (x0 + layout.cell_width) as u32,
        y1: (y0 + layout.cell_height) as u32,
    }
}

/// The cell rectangle of `index` has coordinates that a `u32` holds.
spec fn cell_rect_fits(layout: GridLayout, index: int) -> bool {
    let column = index % (layout.columns as int);
    let row = index / (layout.columns as int);
    &&& column * (layout.cell_width + ELEMENT_MARGIN) + layout.cell_width <= u32::MAX
    &&& row * (layout.cell_height + ELEMENT_MARGIN) + layout.cell_height <= u32::MAX
}

/// The rectangle of the given size centered in `cell` has whole-pixel coordinates that a
/// `u32` holds.
spec fn centered_rect_fits(cell: Rect, width: u32, height: u32) -> bool {
    &&& cell.x0 + cell.x1 >= width
    &&& cell.y0 + cell.y1 >= height
    &&& (cell.x0 + cell.x1 - width) % 2 == 0
    &&& (cell.y0 + cell.y1 - height) % 2 == 0
    &&& cell.x0 + cell.x1 + width <= 2 * (u32::MAX as int)
    &&& cell.y0 + cell.y1 + height <= 2 * (u32::MAX as int)
}

spec fn centered_rect_of(cell: Rect, width: u32, height: u32) -> Rect {
    Rect {
        x0: ((cell.x0 + cell.x1 - width) / 2) as u32,
        y0: ((cell.y0 + cell.y1 - height) / 2) as u32,
        x1: ((cell.x0 + cell.x1 + width) / 2) as u32,
        y1: ((cell.y0 + cell.y1 + height) / 2) as u32,
    }
}

spec fn element_ops(cell: Rect, element: ProbeElement) -> Seq<DrawOp> {
    match element {
        ProbeElement::SolidRect => seq![
            DrawOp::SetPaint(PaintType::Solid(red())),
            DrawOp::FillRect(centered_rect_of(cell, RECT_SIZE, RECT_SIZE)),
        ],
    }
}

/// The calls that draw the first `elements.len()` elements of a layout.
spec fn elements_ops(layout: GridLayout, elements: Seq<ProbeElement>) -> Seq<DrawOp>
    decreases elements.len(),
{
    if elements.len() == 0 {
        seq![]
    } else {
        elements_ops(layout, elements.drop_last()) + element_ops(
            layout_cell_rect(layout, elements.len() - 1),
            elements.last(),
        )
    }
}

impl GridLayout {
    fn from_elements(elements: &[ProbeElement]) -> (layout: Self)
        requires
            elements@.len() > 0,
        ensures
            layout == layout_of(elements@),
    {
        let columns = if ELEMENTS_PER_ROW <= elements.len() {
            ELEMENTS_PER_ROW
        } else {
            elements.len()
        };
        let rows = if elements.len() % columns == 0 {
            elements.len() / columns
        } else {
            elements.len() / columns + 1
        };
        let mut cell_width: u32 = 0;
        let mut cell_height: u32 = 0;
        let mut i: usize = 0;
        while i < elements.len()
            invariant
                i <= elements@.len(),
                (cell_width, cell_height) == max_bounds(elements@.take(i as int)),
            decreases elements@.len() - i,
        {
            assert(elements@.take(i + 1).drop_last() =~= elements@.take(i as int));
            let (w, h) = elements[i].bounds();
            if w > cell_width {
                cell_width = w;
            }
            if h > cell_height {
                cell_height = h;
            }
            i = i + 1;
        }
        assert(elements@.take(elements@.len() as int) =~= elements@);
        GridLayout { columns, rows, cell_width, cell_height }
    }

    fn canvas_size(self) -> (size: (u16, u16))
        ensures
            size == layout_canvas_size(self),
    {
        let width = Self::span(self.columns, self.cell_width);
        let height = Self::span(self.rows, self.cell_height);
        (Self::saturate(width), Self::saturate(height))
    }

    fn span(n: usize, cell: u32) -> (s: u128)
        ensures
            s == span(n as int, cell as int),
    {
        let n = n as u128;
        let cell = cell as u128;
        assert(n * cell <= 0x1_0000_0000_0000_0000u128 * 0x1_0000_0000u128) by (nonlinear_arith)
            requires
                n <= 0x1_0000_0000_0000_0000u128,
                cell <= 0x1_0000_0000u128,
        ;
        n * cell + n.saturating_sub(1) * (ELEMENT_MARGIN as u128)
    }

    fn saturate(x: u128) -> (r: u16)
        ensures
            r == saturate_u16(x as int),
    {
        if x > u16::MAX as u128 {
            u16::MAX
        } else {
            x as u16
        }
    }

    fn canvas_rect(self) -> (rect: Rect)
        ensures
            rect == (Rect {
                x0: 0,
                y0: 0,
                x1: layout_canvas_size(self).0 as u32,
                y1: layout_canvas_size(self).1 as u32,
            }),
    {
        let (width, height) = self.canvas_size();
        Rect { x0: 0, y0: 0, x1: width as u32, y1: height as u32 }
    }

    fn cell_rect(self, index: usize) -> (rect: Rect)
        requires
            self.columns > 0,
            cell_rect_fits(self, index as int),
        ensures
            rect == layout_cell_rect(self, index as int),
    {
        let column = index % self.columns;
        let row = index / self.columns;
        let x0 = column as u128 * (self.cell_width as u128 + ELEMENT_MARGIN as u128);
        let y0 = row as u128 * (self.cell_height as u128 + ELEMENT_MARGIN as u128);
        Rect {
            x0: x0 as u32,
            y0: y0 as u32,
            x1: (x0 + self.cell_width as u128) as u32,
            y1: (y0 + self.cell_height as u128) as u32,
        }
    }
}

impl ProbeElement {
    fn bounds(self) -> (b: (u32, u32))
        ensures
            b == bounds_of(self),
    {
        (RECT_SIZE + ELEMENT_MARGIN * 2, RECT_SIZE + ELEMENT_MARGIN * 2)
    }
}

/// Quotient and remainder of a cell index by the column count.
proof fn lemma_index_split(i: int, columns: int, rows: int)
    requires
        columns >= 1,
        0 <= i,
    ensures
        i == columns * (i / columns) + i % columns,
        0 <= i % columns < columns,
        0 <= i / columns,
        i < columns * rows ==> i / columns < rows,
{
    assert(i == columns * (i / columns) + i % columns && 0 <= i % columns < columns && 0 <= i
        / columns) by (nonlinear_arith)
        requires
            columns >= 1,
            0 <= i,
    ;
    if i < columns * rows {
        assert(i / columns < rows) by (nonlinear_arith)
            requires
                columns >= 1,
                0 <= i,
                i < columns * rows,
                i == columns * (i / columns) + i % columns,
                0 <= i % columns < columns,
        ;
    }
}

/// A cell that starts `k` strides along ends a whole margin before any cell further along.
proof fn lemma_stride(k1: int, k2: int, cell: int)
    requires
        0 <= k1 < k2,
        0 <= cell,
    ensures
        k1 * (cell + ELEMENT_MARGIN) + cell + ELEMENT_MARGIN <= k2 * (cell + ELEMENT_MARGIN),
        k1 * (cell + ELEMENT_MARGIN) >= 0,
{
    assert(k1 * (cell + 1) + cell + 1 <= k2 * (cell + 1) && k1 * (cell + 1) >= 0)
        by (nonlinear_arith)
        requires
            0 <= k1 < k2,
            0 <= cell,
    ;
}

/// The last of `n` cells of a span ends exactly where the span does.
proof fn lemma_span_end(n: int, cell: int)
    requires
        n >= 1,
        0 <= cell,
    ensures
        (n - 1) * (cell + ELEMENT_MARGIN) + cell == span(n, cell),
{
    assert((n - 1) * (cell + 1) + cell == n * cell + (n - 1) * 1) by (nonlinear_arith);
}

/// Every cell of the layout ends at or before `width` on the horizontal axis.
spec fn covers_width(layout: GridLayout, width: int) -> bool {
    forall|i: int|
        0 <= i < layout.columns * layout.rows ==> #[trigger] layout_cell_rect(layout, i).x1 <= width
}

/// Every cell of the layout ends at or before `height` on the vertical axis.
spec fn covers_height(layout: GridLayout, height: int) -> bool {
    forall|i: int|
        0 <= i < layout.columns * layout.rows ==> #[trigger] layout_cell_rect(layout, i).y1
            <= height
}

/// Every cell of a layout whose canvas size does not saturate lies inside the canvas
/// (which starts at the origin) and has exactly the layout's cell width and height. The
/// canvas is the least size doing so: the last column's cells end at its right edge, the
/// last row's at its bottom edge.
proof fn lemma_canvas_is_least_cover(layout: GridLayout)
    requires
        layout.columns >= 1,
        layout.rows >= 1,
        span(layout.columns as int, layout.cell_width as int) <= u16::MAX,
        span(layout.rows as int, layout.cell_height as int) <= u16::MAX,
    ensures
        forall|i: int|
            0 <= i < layout.columns * layout.rows ==> {
                let r = #[trigger] layout_cell_rect(layout, i);
                &&& r.x0 <= r.x1 <= layout_canvas_size(layout).0
                &&& r.y0 <= r.y1 <= layout_canvas_size(layout).1
                &&& r.x1 - r.x0 == layout.cell_width
                &&& r.y1 - r.y0 == layout.cell_height
            },
        layout_cell_rect(layout, layout.columns - 1).x1 == layout_canvas_size(layout).0,
        layout_cell_rect(layout, (layout.rows - 1) * layout.columns).y1 == layout_canvas_size(
            layout,
        ).1,
        covers_width(layout, layout_canvas_size(layout).0 as int),
        covers_height(layout, layout_canvas_size(layout).1 as int),
        forall|w: int| #[trigger] covers_width(layout, w) ==> layout_canvas_size(layout).0 <= w,
        forall|h: int| #[trigger] covers_height(layout, h) ==> layout_canvas_size(layout).1 <= h,
{
    let c = layout.columns as int;
    let rows = layout.rows as int;
    let cw = layout.cell_width as int;
    let ch = layout.cell_height as int;
    lemma_span_end(c, cw);
    lemma_span_end(rows, ch);
    assert forall|i: int| 0 <= i < layout.columns * layout.rows implies {
        let r = #[trigger] layout_cell_rect(layout, i);
        &&& r.x0 <= r.x1 <= layout_canvas_size(layout).0
        &&& r.y0 <= r.y1 <= layout_canvas_size(layout).1
        &&& r.x1 - r.x0 == layout.cell_width
        &&& r.y1 - r.y0 == layout.cell_height
    } by {
        lemma_index_split(i, c, rows);
        let col = i % c;
        let row = i / c;
        if col < c - 1 {
            lemma_stride(col, c - 1, cw);
        } else {
            lemma_stride(col, c, cw);
        }
        if row < rows - 1 {
            lemma_stride(row, rows - 1, ch);
        } else {
            lemma_stride(row, rows, ch);
        }
    }
    // The last cell of the first row, and the first cell of the last row.
    lemma_index_split(c - 1, c, rows);
    assert((c - 1) % c == c - 1 && (c - 1) / c == 0) by (nonlinear_arith)
        requires
            c >= 1,
    ;
    assert(c - 1 < c * rows) by (nonlinear_arith)
        requires
            c >= 1,
            rows >= 1,
    ;
    let last = (rows - 1) * c;
    assert(last % c == 0 && last / c == rows - 1 && 0 <= last < c * rows) by (nonlinear_arith)
        requires
            c >= 1,
            rows >= 1,
            last == (rows - 1) * c,
    ;
    assert(layout_cell_rect(layout, c - 1).x1 == layout_canvas_size(layout).0);
    assert(layout_cell_rect(layout, last).y1 == layout_canvas_size(layout).1);
    assert forall|w: int| #[trigger] covers_width(layout, w) implies layout_canvas_size(layout).0
        <= w by {
        assert(layout_cell_rect(layout, c - 1).x1 <= w);
    }
    assert forall|h: int| #[trigger] covers_height(layout, h) implies layout_canvas_size(
        layout,
    ).1 <= h by {
        assert(layout_cell_rect(layout, last).y1 <= h);
    }
}

/// Two different cells of a layout never overlap: along one axis or the other, one ends
/// at least a whole margin before the other begins.
proof fn lemma_cells_apart(layout: GridLayout, i: int, j: int)
    requires
        layout.columns >= 1,
        0 <= i,
        0 <= j,
        i != j,
        cell_rect_fits(layout, i),
        cell_rect_fits(layout, j),
    ensures
        ({
            let a = layout_cell_rect(layout, i);
            let b = layout_cell_rect(layout, j);
            ||| a.x1 + ELEMENT_MARGIN <= b.x0
            ||| b.x1 + ELEMENT_MARGIN <= a.x0
            ||| a.y1 + ELEMENT_MARGIN <= b.y0
            ||| b.y1 + ELEMENT_MARGIN <= a.y0
        }),
{
    let c = layout.columns as int;
    let cw = layout.cell_width as int;
    let ch = layout.cell_height as int;
    lemma_index_split(i, c, 0);
    lemma_index_split(j, c, 0);
    let (ci, ri) = (i % c, i / c);
    let (cj, rj) = (j % c, j / c);
    assert(ci * (cw + ELEMENT_MARGIN) >= 0 && cj * (cw + ELEMENT_MARGIN) >= 0 && ri * (ch
        + ELEMENT_MARGIN) >= 0 && rj * (ch + ELEMENT_MARGIN) >= 0) by (nonlinear_arith)
        requires
            ci >= 0,
            cj >= 0,
            ri >= 0,
            rj >= 0,
            cw >= 0,
            ch >= 0,
    ;
    if ci < cj {
        lemma_stride(ci, cj, cw);
    } else if cj < ci {
        lemma_stride(cj, ci, cw);
    } else if ri < rj {
        lemma_stride(ri, rj, ch);
    } else if rj < ri {
        lemma_stride(rj, ri, ch);
    }
}

/// Return the canvas size of the shared probe scene.
pub fn canvas_size() -> (size: (u16, u16))
    ensures
        size == probe_canvas_size(),
{
    proof {
        lemma_probe_layout();
    }
    GridLayout::from_elements(&elements()).canvas_size()
}

/// The calls that drawing the probe scene makes: paint the whole 12 by 12 canvas red,
/// then fill the 10 by 10 rectangle centered in its one cell with red.
pub open spec fn probe_scene_ops() -> Seq<DrawOp> {
    seq![
        DrawOp::SetPaint(PaintType::Solid(red())),
        DrawOp::FillRect(Rect { x0: 0, y0: 0, x1: 12, y1: 12 }),
        DrawOp::SetPaint(PaintType::Solid(red())),
        DrawOp::FillRect(Rect { x0: 1, y0: 1, x1: 11, y1: 11 }),
    ]
}

/// Draw the full shared probe scene into a rendering context.
pub fn draw_scene<T: ProbeRenderer>(ctx: &mut T)
    ensures
        final(ctx).draw_ops() == old(ctx).draw_ops() + probe_scene_ops(),
{
    proof {
        lemma_probe_layout();
        lemma_probe_scene_ops();
    }
    let ghost start = ctx.draw_ops();
    let es = elements();
    let layout = GridLayout::from_elements(&es);
    ctx.set_paint(css_red());
    ctx.fill_rect(&layout.canvas_rect());
    let ghost head = ctx.draw_ops();
    assert(head == start + seq![
        DrawOp::SetPaint(PaintType::Solid(red())),
        DrawOp::FillRect(Rect { x0: 0, y0: 0, x1: 12, y1: 12 }),
    ]);
    let mut index: usize = 0;
    while index < es.len()
        invariant
            es@ == probe_elements(),
            layout == (GridLayout { columns: 1, rows: 1, cell_width: 12, cell_height: 12 }),
            index <= es@.len(),
            ctx.draw_ops() == head + elements_ops(layout, es@.take(index as int)),
        decreases es@.len() - index,
    {
        assert(es@.take(index + 1).drop_last() =~= es@.take(index as int));
        assert(index == 0);
        assert(0int * (layout.cell_width + ELEMENT_MARGIN) == 0);
        let cell = layout.cell_rect(index);
        assert(cell == Rect { x0: 0, y0: 0, x1: 12, y1: 12 });
        draw_probe_element(ctx, cell, es[index]);
        index = index + 1;
    }
    assert(es@.take(es@.len() as int) =~= es@);
}

fn draw_probe_element<T: ProbeRenderer>(ctx: &mut T, cell: Rect, element: ProbeElement)
    requires
        centered_rect_fits(cell, RECT_SIZE, RECT_SIZE),
    ensures
        final(ctx).draw_ops() == old(ctx).draw_ops() + element_ops(cell, element),
{
    match element {
        ProbeElement::SolidRect => {
            ctx.set_paint(css_red());
            ctx.fill_rect(&centered_rect(cell, RECT_SIZE, RECT_SIZE));
        },
    }
}

fn centered_rect(cell: Rect, width: u32, height: u32) -> (rect: Rect)
    requires
        centered_rect_fits(cell, width, height),
    ensures
        rect == centered_rect_of(cell, width, height),
{
    let sx = cell.x0 as u64 + cell.x1 as u64;
    let sy = cell.y0 as u64 + cell.y1 as u64;
    Rect {
        x0: ((sx - width as u64) / 2) as u32,
        y0: ((sy - height as u64) / 2) as u32,
        x1: ((sx + width as u64) / 2) as u32,
        y1: ((sy + height as u64) / 2) as u32,
    }
}

/// Drawing the probe elements into their layout gives the calls of the probe scene.
proof fn lemma_probe_scene_ops()
    ensures
        seq![
            DrawOp::SetPaint(PaintType::Solid(red())),
            DrawOp::FillRect(Rect { x0: 0, y0: 0, x1: 12, y1: 12 }),
        ] + elements_ops(
            GridLayout { columns: 1, rows: 1, cell_width: 12, cell_height: 12 },
            probe_elements(),
        ) == probe_scene_ops(),
{
    reveal_with_fuel(elements_ops, 2);
    let layout = GridLayout { columns: 1, rows: 1, cell_width: 12, cell_height: 12 };
    assert(probe_elements().drop_last() =~= Seq::<ProbeElement>::empty());
    assert(0int * (layout.cell_width + ELEMENT_MARGIN) == 0);
    assert(layout_cell_rect(layout, 0) == Rect { x0: 0, y0: 0, x1: 12, y1: 12 });
    assert(centered_rect_of(Rect { x0: 0, y0: 0, x1: 12, y1: 12 }, RECT_SIZE, RECT_SIZE) == Rect {
        x0: 1,
        y0: 1,
        x1: 11,
        y1: 11,
    });
    assert(seq![
        DrawOp::SetPaint(PaintType::Solid(red())),
        DrawOp::FillRect(Rect { x0: 0, y0: 0, x1: 12, y1: 12 }),
    ] + elements_ops(layout, probe_elements()) =~= probe_scene_ops());
}

/// The probe elements lay out as one cell of 12 by 12 pixels.
proof fn lemma_probe_layout()
    ensures
        layout_of(probe_elements()) == (GridLayout { columns: 1, rows: 1, cell_width: 12, cell_height: 12 }),
        layout_canvas_size(layout_of(probe_elements())) == probe_canvas_size(),
{
    reveal_with_fuel(max_bounds, 2);
    assert(probe_elements().drop_last() =~= Seq::<ProbeElement>::empty());
}

/// The reference image holds exactly one RGBA8 pixel for every pixel of the probe
/// canvas, and every one of them is opaque red, the only color the probe scene paints.
pub proof fn lemma_reference_is_red_canvas()
    ensures
        reference_rgba().len() == 4 * (probe_canvas_size().0 as int) * (probe_canvas_size().1 as int),
        forall|p: int|
            0 <= p < (probe_canvas_size().0 as int) * (probe_canvas_size().1 as int) ==> #[trigger] pixel_at(
                reference_rgba(),
                p,
            ) == seq![red().r, red().g, red().b, red().a],
        forall|i: int|
            0 <= i < probe_scene_ops().len() ==> (#[trigger] probe_scene_ops()[i] matches DrawOp::SetPaint(
                paint,
            ) ==> paint == PaintType::Solid(red())),
{
    assert(probe_canvas_size().0 as int == 12 && probe_canvas_size().1 as int == 12);
    assert(4 * (probe_canvas_size().0 as int) * (probe_canvas_size().1 as int) == 576);
    assert forall|p: int| 0 <= p < 144 implies #[trigger] pixel_at(reference_rgba(), p) == seq![
        red().r,
        red().g,
        red().b,
        red().a,
    ] by {
        assert((4 * p) % 4 == 0 && (4 * p + 1) % 4 == 1 && (4 * p + 2) % 4 == 2 && (4 * p + 3) % 4
            == 3);
        assert(pixel_at(reference_rgba(), p) =~= seq![red().r, red().g, red().b, red().a]);
    }
}

/// Every rectangle that the probe scene fills lies within the canvas whose size
/// `canvas_size` reports.
pub proof fn lemma_scene_within_canvas()
    ensures
        forall|i: int|
            0 <= i < probe_scene_ops().len() ==> (#[trigger] probe_scene_ops()[i] matches DrawOp::FillRect(
                r,
            ) ==> {
                &&& r.x0 <= r.x1 <= probe_canvas_size().0
                &&& r.y0 <= r.y1 <= probe_canvas_size().1
            }),
{
}

/// Every image matches itself: rendering exactly the reference is a success.
pub proof fn lemma_images_match_reflexive(width: u16, height: u16, data: Seq<u8>)
    ensures
        images_match(width, height, data, width, height, data),
{
    assert forall|p: int| 0 <= p < data.len() / 4 implies #[trigger] pixels_match(
        pixel_at(data, p),
        pixel_at(data, p),
        CHANNEL_TOLERANCE,
    ) by {
        let px = pixel_at(data, p);
        assert forall|i: int| 0 <= i < px.len() && i < px.len() implies #[trigger] channel_within(
            px[i],
            px[i],
            CHANNEL_TOLERANCE,
        ) by {}
    }
}

/// Whether two images match does not depend on which is taken as the expected one.
pub proof fn lemma_images_match_symmetric(
    w1: u16,
    h1: u16,
    d1: Seq<u8>,
    w2: u16,
    h2: u16,
    d2: Seq<u8>,
)
    ensures
        images_match(w1, h1, d1, w2, h2, d2) == images_match(w2, h2, d2, w1, h1, d1),
{
    if images_match(w1, h1, d1, w2, h2, d2) {
        assert forall|p: int| 0 <= p < d2.len() / 4 implies #[trigger] pixels_match(
            pixel_at(d2, p),
            pixel_at(d1, p),
            CHANNEL_TOLERANCE,
        ) by {
            lemma_pixels_match_symmetric(pixel_at(d1, p), pixel_at(d2, p), CHANNEL_TOLERANCE);
        }
    }
    if images_match(w2, h2, d2, w1, h1, d1) {
        assert forall|p: int| 0 <= p < d1.len() / 4 implies #[trigger] pixels_match(
            pixel_at(d1, p),
            pixel_at(d2, p),
            CHANNEL_TOLERANCE,
        ) by {
            lemma_pixels_match_symmetric(pixel_at(d2, p), pixel_at(d1, p), CHANNEL_TOLERANCE);
        }
    }
}

proof fn lemma_pixels_match_symmetric(e: Seq<u8>, a: Seq<u8>, t: u8)
    requires
        pixels_match(e, a, t),
    ensures
        pixels_match(a, e, t),
{
    if !(e[3] == 0 && a[3] == 0) {
        assert forall|i: int| 0 <= i < a.len() && i < e.len() implies #[trigger] channel_within(
            a[i],
            e[i],
            t,
        ) by {
            assert(channel_within(e[i], a[i], t));
        }
    }
}

/// Two fully transparent pixels match whatever their color channels hold.
pub proof fn lemma_transparent_pixels_match(expected: Seq<u8>, actual: Seq<u8>, tolerance: u8)
    requires
        expected.len() == 4,
        actual.len() == 4,
        expected[3] == 0,
        actual[3] == 0,
    ensures
        pixels_match(expected, actual, tolerance),
{
}

/// A larger tolerance accepts every pair of pixels that a smaller one accepts.
pub proof fn lemma_tolerance_monotone(expected: Seq<u8>, actual: Seq<u8>, small: u8, large: u8)
    requires
        small <= large,
        pixels_match(expected, actual, small),
    ensures
        pixels_match(expected, actual, large),
{
    if !(expected[3] == 0 && actual[3] == 0) {
        assert forall|i: int| 0 <= i < expected.len() && i < actual.len() implies #[trigger] channel_within(
            expected[i],
            actual[i],
            large,
        ) by {
            assert(channel_within(expected[i], actual[i], small));
        }
    }
}

/// An image of the canvas size whose every channel is within the tolerance of the
/// reference's matches the reference.
pub proof fn lemma_close_image_matches(width: u16, height: u16, data: Seq<u8>)
    requires
        (width, height) == probe_canvas_size(),
        data.len() == reference_rgba().len(),
        forall|i: int|
            0 <= i < data.len() ==> #[trigger] channel_within(
                reference_rgba()[i],
                data[i],
                CHANNEL_TOLERANCE,
            ),
    ensures
        images_match(
            probe_canvas_size().0,
            probe_canvas_size().1,
            reference_rgba(),
            width,
            height,
            data,
        ),
{
    assert forall|p: int| 0 <= p < reference_rgba().len() / 4 implies #[trigger] pixels_match(
        pixel_at(reference_rgba(), p),
        pixel_at(data, p),
        CHANNEL_TOLERANCE,
    ) by {
        let e = pixel_at(reference_rgba(), p);
        let a = pixel_at(data, p);
        assert forall|i: int| 0 <= i < e.len() && i < a.len() implies #[trigger] channel_within(
            e[i],
            a[i],
            CHANNEL_TOLERANCE,
        ) by {
            assert(channel_within(reference_rgba()[4 * p + i], data[4 * p + i], CHANNEL_TOLERANCE));
        }
    }
}


/// A render of the probe scene, made at the size `canvas_size` gives, whose
/// unpremultiplied pixels are exactly the bundled reference passes the probe.
pub proof fn lemma_reference_render_passes(pixels: Seq<[u8; 4]>)
    requires
        flatten_pixels(pixels) == reference_rgba(),
    ensures
        images_match(
            probe_canvas_size().0,
            probe_canvas_size().1,
            reference_rgba(),
            probe_canvas_size().0,
            probe_canvas_size().1,
            flatten_pixels(pixels),
        ),
{
    lemma_images_match_reflexive(probe_canvas_size().0, probe_canvas_size().1, reference_rgba());
}


/// Two pixels that are not both fully transparent do not match when some channel they
/// share differs by more than the tolerance.
pub proof fn lemma_pixel_channel_mismatch(expected: Seq<u8>, actual: Seq<u8>, tolerance: u8, i: int)
    requires
        expected.len() >= 4,
        actual.len() >= 4,
        !(expected[3] == 0 && actual[3] == 0),
        0 <= i < expected.len(),
        i < actual.len(),
        expected[i] - actual[i] > tolerance || actual[i] - expected[i] > tolerance,
    ensures
        !pixels_match(expected, actual, tolerance),
{
    assert(!channel_within(expected[i], actual[i], tolerance));
}

/// Two pixels match when every channel they share differs by at most the tolerance.
pub proof fn lemma_pixel_channels_close(expected: Seq<u8>, actual: Seq<u8>, tolerance: u8)
    requires
        forall|i: int|
            0 <= i < expected.len() && i < actual.len() ==> -tolerance <= #[trigger] (expected[i]
                - actual[i]) <= tolerance,
    ensures
        pixels_match(expected, actual, tolerance),
{
    assert forall|i: int| 0 <= i < expected.len() && i < actual.len() implies #[trigger] channel_within(
        expected[i],
        actual[i],
        tolerance,
    ) by {
        assert(-tolerance <= expected[i] - actual[i] <= tolerance);
    }
}

/// Two images do not match when, at some byte of a whole pixel, they differ by more than
/// the tolerance while that pixel (the four bytes from `i - i % 4`) is not fully
/// transparent in both.
pub proof fn lemma_image_byte_mismatch(
    expected_width: u16,
    expected_height: u16,
    expected: Seq<u8>,
    actual_width: u16,
    actual_height: u16,
    actual: Seq<u8>,
    i: int,
)
    requires
        0 <= i < 4 * (expected.len() / 4),
        i < actual.len(),
        !(expected[i - i % 4 + 3] == 0 && actual[i - i % 4 + 3] == 0),
        expected[i] - actual[i] > CHANNEL_TOLERANCE || actual[i] - expected[i] > CHANNEL_TOLERANCE,
    ensures
        !images_match(
            expected_width,
            expected_height,
            expected,
            actual_width,
            actual_height,
            actual,
        ),
{
    if expected.len() == actual.len() {
        let p = i / 4;
        let k = i % 4;
        assert(i == 4 * p + k && 0 <= k < 4 && 0 <= p < expected.len() / 4) by (nonlinear_arith)
            requires
                0 <= i < 4 * (expected.len() / 4),
                p == i / 4,
                k == i % 4,
        ;
        let e = pixel_at(expected, p);
        let a = pixel_at(actual, p);
        assert(e[k] == expected[i] && a[k] == actual[i]);
        assert(e[3] == expected[i - i % 4 + 3] && a[3] == actual[i - i % 4 + 3]);
        lemma_pixel_channel_mismatch(e, a, CHANNEL_TOLERANCE, k);
    }
}

/// Two images of the same size and byte count match when every byte of the one is within
/// the tolerance of the byte at the same place in the other.
pub proof fn lemma_image_bytes_close(
    width: u16,
    height: u16,
    expected: Seq<u8>,
    actual: Seq<u8>,
)
    requires
        expected.len() == actual.len(),
        forall|i: int|
            0 <= i < expected.len() ==> -CHANNEL_TOLERANCE <= #[trigger] (expected[i] - actual[i])
                <= CHANNEL_TOLERANCE,
    ensures
        images_match(width, height, expected, width, height, actual),
{
    assert forall|p: int| 0 <= p < expected.len() / 4 implies #[trigger] pixels_match(
        pixel_at(expected, p),
        pixel_at(actual, p),
        CHANNEL_TOLERANCE,
    ) by {
        let e = pixel_at(expected, p);
        let a = pixel_at(actual, p);
        assert(4 * p + 4 <= expected.len()) by (nonlinear_arith)
            requires
                0 <= p < expected.len() / 4,
        ;
        assert forall|k: int| 0 <= k < e.len() && k < a.len() implies -CHANNEL_TOLERANCE <= #[trigger] (
        e[k] - a[k]) <= CHANNEL_TOLERANCE by {
            assert(e[k] - a[k] == expected[4 * p + k] - actual[4 * p + k]);
        }
        lemma_pixel_channels_close(e, a, CHANNEL_TOLERANCE);
    }
}

/// Against the opaque reference, an image of the canvas size fails the probe as soon as
/// one of its first 576 bytes is more than the tolerance away from the reference's byte
/// there; with exactly 576 bytes all within the tolerance, it passes.
pub proof fn lemma_reference_byte_decides(width: u16, height: u16, data: Seq<u8>)
    ensures
        (exists|i: int|
            0 <= i < 576 && i < data.len() && (reference_rgba()[i] - data[i] > CHANNEL_TOLERANCE
                || data[i] - reference_rgba()[i] > CHANNEL_TOLERANCE)) ==> !images_match(
            probe_canvas_size().0,
            probe_canvas_size().1,
            reference_rgba(),
            width,
            height,
            data,
        ),
        ((width, height) == probe_canvas_size() && data.len() == 576 && forall|i: int|
            0 <= i < 576 ==> -CHANNEL_TOLERANCE <= #[trigger] (reference_rgba()[i] - data[i])
                <= CHANNEL_TOLERANCE) ==> images_match(
            probe_canvas_size().0,
            probe_canvas_size().1,
            reference_rgba(),
            width,
            height,
            data,
        ),
{
    if exists|i: int|
        0 <= i < 576 && i < data.len() && (reference_rgba()[i] - data[i] > CHANNEL_TOLERANCE
            || data[i] - reference_rgba()[i] > CHANNEL_TOLERANCE) {
        let i = choose|i: int|
            0 <= i < 576 && i < data.len() && (reference_rgba()[i] - data[i] > CHANNEL_TOLERANCE
                || data[i] - reference_rgba()[i] > CHANNEL_TOLERANCE);
        let j = i - i % 4 + 3;
        assert(j % 4 == 3 && 0 <= j < 576) by (nonlinear_arith)
            requires
                0 <= i < 576,
                j == i - i % 4 + 3,
        ;
        assert(reference_rgba()[j] == 255);
        lemma_image_byte_mismatch(
            probe_canvas_size().0,
            probe_canvas_size().1,
            reference_rgba(),
            width,
            height,
            data,
            i,
        );
    }
    if (width, height) == probe_canvas_size() && data.len() == 576 && forall|i: int|
        0 <= i < 576 ==> -CHANNEL_TOLERANCE <= #[trigger] (reference_rgba()[i] - data[i])
            <= CHANNEL_TOLERANCE {
        lemma_image_bytes_close(width, height, reference_rgba(), data);
    }
}

} // verus!
