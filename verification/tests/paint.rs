use vello_probe::paint::{
    EncodedKind, EncodedPaint, Paint, PaintResolver, PremulRgba8, SolidColor,
    COLOR_SOURCE_PAYLOAD, COLOR_SOURCE_SHIFT,
};

fn solid(r: u8, g: u8, b: u8, a: u8, opaque: bool) -> Paint {
    Paint::Solid(SolidColor { premul_rgba8: PremulRgba8 { r, g, b, a }, opaque })
}

#[test]
fn pack_solid_color() {
    let encoded = [EncodedPaint::Image, EncodedPaint::Gradient(EncodedKind::Sweep)];
    let offsets = [0u32, 16];
    let resolver = PaintResolver::new(&encoded, &offsets);
    let packed = resolver.pack(&solid(1, 2, 3, 4, false));
    // The channels sit in memory order r, g, b, a; read little-endian, r is the low byte.
    assert_eq!(packed.payload.to_ne_bytes(), [1, 2, 3, 4]);
    assert_eq!(u32::from_le_bytes(packed.payload.to_ne_bytes()), 0x0403_0201);
    assert_eq!(packed.payload_at(0, 0), packed.payload);
    assert_eq!(packed.paint, COLOR_SOURCE_PAYLOAD << COLOR_SOURCE_SHIFT);
    assert_eq!(packed.paint, 0);
    assert!(packed.external_texture_id.is_none());
    assert!(!packed.opaque);
}

#[test]
fn pack_opaque_red() {
    let resolver = PaintResolver::new(&[], &[]);
    let packed = resolver.pack(&solid(255, 0, 0, 255, true));
    assert!(packed.opaque);
    assert_eq!(packed.payload.to_ne_bytes(), [255, 0, 0, 255]);
}

#[test]
fn payload_is_the_same_at_every_pixel() {
    let resolver = PaintResolver::new(&[], &[]);
    let packed = resolver.pack(&solid(9, 8, 7, 6, false));
    let p = packed.payload_at(0, 0);
    assert_eq!(packed.payload_at(17, 3), p);
    assert_eq!(packed.payload_at(u16::MAX, u16::MAX), p);
}
