//! GPU paint packing for scheduled strip draws.

use vstd::prelude::*;

verus! {

/// Color source value telling the shader to read the color from the strip's payload.
pub const COLOR_SOURCE_PAYLOAD: u32 = 0;

/// Color source value telling the shader to read the color from a layer.
pub const COLOR_SOURCE_LAYER: u32 = 1;

/// Bit position of the color source in a packed paint (see the layout in `render.wesl`).
pub const COLOR_SOURCE_SHIFT: u32 = 29;

/// Identifier of a texture supplied from outside the renderer.
#[derive(Debug, Clone, Copy, PartialEq, Eq, Structural)]
pub struct TextureId(pub u32);

/// A premultiplied RGBA8 color.
#[derive(Debug, Clone, Copy, PartialEq, Eq, Structural)]
pub struct PremulRgba8 {
    /// Red component.
    pub r: u8,
    /// Green component.
    pub g: u8,
    /// Blue component.
    pub b: u8,
    /// Alpha component.
    pub a: u8,
}

/// A solid paint color as strips need it: its premultiplied RGBA8 value, and whether
/// the color is fully opaque.
#[derive(Debug, Clone, Copy, PartialEq, Eq, Structural)]
pub struct SolidColor {
    /// The color, premultiplied, with 8 bits per channel.
    pub premul_rgba8: PremulRgba8,
    /// Whether the color's alpha is exactly one.
    pub opaque: bool,
}

/// Index of an encoded (non-solid) paint.
#[derive(Debug, Clone, Copy, PartialEq, Eq, Structural)]
pub struct IndexedPaint {
    /// Position of the paint among the encoded paints.
    pub index: usize,
}

/// A paint recorded for a strip.
#[derive(Debug, Clone, Copy, PartialEq, Eq, Structural)]
pub enum Paint {
    /// A solid color.
    Solid(SolidColor),
    /// A paint that was encoded separately, by its index.
    Indexed(IndexedPaint),
}

/// The kind of an encoded gradient.
#[derive(Debug, Clone, Copy, PartialEq, Eq, Structural)]
pub enum EncodedKind {
    /// A linear gradient.
    Linear,
    /// A radial gradient.
    Radial,
    /// A sweep gradient.
    Sweep,
}

/// The kind of an encoded non-solid paint.
#[derive(Debug, Clone, Copy, PartialEq, Eq, Structural)]
pub enum EncodedPaint {
    /// An image.
    Image,
    /// An external texture.
    ExternalTexture,
    /// A gradient.
    Gradient(EncodedKind),
    /// A blurred rounded rectangle.
    BlurredRoundedRect,
}

/// Shader-ready paint metadata for a strip.
#[derive(Clone, Copy)]
pub struct PackedPaint {
    /// Value source for the strip's payload field.
    pub payload: u32,
    /// Packed paint kind, source, and data offset.
    pub paint: u32,
    /// External texture required by this paint, if any.
    pub external_texture_id: Option<TextureId>,
    /// Whether the paint is fully opaque.
    pub opaque: bool,
}

/// The four channels packed little-endian: `r` in the least significant byte, `a` in the
/// most significant.
pub open spec fn packed_le(c: PremulRgba8) -> u32 {
    (c.r + c.g * 0x100 + c.b * 0x1_0000 + c.a * 0x100_0000) as u32
}

/// The four channels packed big-endian: `r` in the most significant byte, `a` in the
/// least significant.
pub open spec fn packed_be(c: PremulRgba8) -> u32 {
    (c.a + c.b * 0x100 + c.g * 0x1_0000 + c.r * 0x100_0000) as u32
}

/// The four channels packed in the byte order of the machine running the code
/// (`vstd::endian::endianness()`): their bytes in memory are `r, g, b, a`.
pub open spec fn packed_native(c: PremulRgba8) -> u32 {
    match vstd::endian::endianness() {
        vstd::endian::Endian::Little => packed_le(c),
        vstd::endian::Endian::Big => packed_be(c),
    }
}

/// `color::PremulRgba8::to_u32` on the same four channels. Its source returns
/// `u32::from_ne_bytes([r, g, b, a])`, so the bytes land in the byte order of the
/// machine running it: the little-endian packing on a little-endian machine (the order
/// the crate documents), the big-endian packing on a big-endian one.
#[verifier::external_body]
fn premul_rgba8_to_u32(c: PremulRgba8) -> (packed: u32)
    ensures
        packed == packed_le(c) || packed == packed_be(c),
        packed == packed_native(c),
{
    color::PremulRgba8 { r: c.r, g: c.g, b: c.b, a: c.a }.to_u32()
}

impl PackedPaint {
    /// The payload at a pixel of the strip; every pixel has the same one.
    pub fn payload_at(self, _x: u16, _y: u16) -> (payload: u32)
        ensures
            payload == self.payload,
    {
        self.payload
    }
}

/// Resolves recorded paints to their encoded GPU offsets.
#[derive(Debug, Clone, Copy)]
pub struct PaintResolver<'a> {
    /// Encoded non-solid paints indexed by [`Paint`].
    encoded: &'a [EncodedPaint],
    /// GPU data offset corresponding to each encoded paint.
    _gpu_offsets: &'a [u32],
}

impl<'a> PaintResolver<'a> {
    /// The encoded paints the resolver looks indexed paints up in.
    pub closed spec fn encoded_paints(self) -> Seq<EncodedPaint> {
        self.encoded@
    }

    /// The GPU data offsets of the encoded paints.
    pub closed spec fn gpu_offsets(self) -> Seq<u32> {
        self._gpu_offsets@
    }

    /// Creates a resolver over the encoded paints and their GPU offsets.
    pub fn new(encoded: &'a [EncodedPaint], gpu_offsets: &'a [u32]) -> (resolver: Self)
        ensures
            resolver.encoded_paints() == encoded@,
            resolver.gpu_offsets() == gpu_offsets@,
    {
        Self { encoded, _gpu_offsets: gpu_offsets }
    }

    /// Packs a solid paint: the color goes into the payload, the paint word selects
    /// the payload as color source, no texture is needed, and opacity is the color's.
    /// Indexed paints are not supported yet (their kinds are temporarily disabled).
    pub fn pack(self, paint: &Paint) -> (packed: PackedPaint)
        requires
            paint is Solid,
        ensures
            packed.payload == packed_le(paint->Solid_0.premul_rgba8)
                || packed.payload == packed_be(paint->Solid_0.premul_rgba8),
            packed.payload == packed_native(paint->Solid_0.premul_rgba8),
            packed.paint == COLOR_SOURCE_PAYLOAD << COLOR_SOURCE_SHIFT,
            packed.paint == 0,
            packed.external_texture_id is None,
            packed.opaque == paint->Solid_0.opaque,
    {
        match paint {
            Paint::Solid(color) => {
                assert(0u32 << 29u32 == 0) by (bit_vector);
                PackedPaint {
                    payload: premul_rgba8_to_u32(color.premul_rgba8),
                    paint: COLOR_SOURCE_PAYLOAD << COLOR_SOURCE_SHIFT,
                    external_texture_id: None,
                    opaque: color.opaque,
                }
            },
            Paint::Indexed(_) => vstd::pervasive::unreached(),
        }
    }
}

/// Every solid color is packed in one and the same byte order: the little-endian order
/// for all of them, or the big-endian order for all of them.
pub proof fn lemma_one_byte_order(c1: PremulRgba8, c2: PremulRgba8)
    ensures
        (packed_native(c1) == packed_le(c1) && packed_native(c2) == packed_le(c2)) || (
        packed_native(c1) == packed_be(c1) && packed_native(c2) == packed_be(c2)),
{
}

/// Reading the packed payload back byte by byte, least significant first, gives
/// `r, g, b, a` in the little-endian order and `a, b, g, r` in the big-endian order, so
/// the payload holds the color's channels and nothing else.
pub proof fn lemma_packed_bytes(c: PremulRgba8)
    ensures
        packed_le(c) % 0x100 == c.r,
        (packed_le(c) / 0x100) % 0x100 == c.g,
        (packed_le(c) / 0x1_0000) % 0x100 == c.b,
        packed_le(c) / 0x100_0000 == c.a,
        packed_be(c) % 0x100 == c.a,
        (packed_be(c) / 0x100) % 0x100 == c.b,
        (packed_be(c) / 0x1_0000) % 0x100 == c.g,
        packed_be(c) / 0x100_0000 == c.r,
{
    let (r, g, b, a) = (c.r as int, c.g as int, c.b as int, c.a as int);
    assert(r + g * 0x100 + b * 0x1_0000 + a * 0x100_0000 <= u32::MAX);
    assert(a + b * 0x100 + g * 0x1_0000 + r * 0x100_0000 <= u32::MAX);
    let le = r + g * 0x100 + b * 0x1_0000 + a * 0x100_0000;
    let be = a + b * 0x100 + g * 0x1_0000 + r * 0x100_0000;
    assert(le % 0x100 == r && (le / 0x100) % 0x100 == g && (le / 0x1_0000) % 0x100 == b && le
        / 0x100_0000 == a) by (nonlinear_arith)
        requires
            0 <= r < 0x100,
            0 <= g < 0x100,
            0 <= b < 0x100,
            0 <= a < 0x100,
            le == r + g * 0x100 + b * 0x1_0000 + a * 0x100_0000,
    ;
    assert(be % 0x100 == a && (be / 0x100) % 0x100 == b && (be / 0x1_0000) % 0x100 == g && be
        / 0x100_0000 == r) by (nonlinear_arith)
        requires
            0 <= r < 0x100,
            0 <= g < 0x100,
            0 <= b < 0x100,
            0 <= a < 0x100,
            be == a + b * 0x100 + g * 0x1_0000 + r * 0x100_0000,
    ;
}

} // verus!
