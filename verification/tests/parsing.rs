//! Variable-length words, pixel formats and containers.

use jxr_native::pixel_format::{premultiplication_is_consistent, GUID_PREFIX};
use jxr_native::tail::ByteCursor;
use jxr_native::types::{
    AnnexABitDepth, AnnexAChannelOrder, AnnexANumericKind, AnnexAPixelFamily, AnnexAPixelFormat,
};
use jxr_native::classify_annex_a_pixel_format;

fn guid(code: u8) -> [u8; 16] {
    let mut value = [0; 16];
    value[..15].copy_from_slice(&GUID_PREFIX);
    value[15] = code;
    value
}

#[test]
fn reads_all_vlw_encodings() {
    let bytes = [
        0x01, 0x02, 0xFB, 0, 0, 1, 2, 0xFC, 0, 0, 0, 0, 0, 0, 1, 3, 0xFD,
    ];
    let mut cursor = ByteCursor::new(&bytes, 0).unwrap();
    assert_eq!(cursor.read_vlw().unwrap(), 0x0102);
    assert_eq!(cursor.read_vlw().unwrap(), 0x0102);
    assert_eq!(cursor.read_vlw().unwrap(), 0x0103);
    assert_eq!(cursor.read_vlw().unwrap(), 0);
}

#[test]
fn classifies_representative_standard_families() {
    let cases = [
        (0x08, AnnexAPixelFamily::Luma),
        (0x0c, AnnexAPixelFamily::Rgb),
        (0x3d, AnnexAPixelFamily::Rgbe),
        (0x1c, AnnexAPixelFamily::Cmyk { direct: false }),
        (0x54, AnnexAPixelFamily::Cmyk { direct: true }),
        (0x20, AnnexAPixelFamily::NComponent),
    ];
    for (code, family) in cases {
        let AnnexAPixelFormat::Known(format) = classify_annex_a_pixel_format(guid(code)) else {
            panic!("standard format must classify");
        };
        assert_eq!(format.family, family);
    }
}

#[test]
fn classifies_fixed_float_packed_and_alpha_properties() {
    let AnnexAPixelFormat::Known(fixed) = classify_annex_a_pixel_format(guid(0x12)) else {
        panic!()
    };
    assert_eq!(fixed.numeric, AnnexANumericKind::FixedPoint);
    let AnnexAPixelFormat::Known(float) = classify_annex_a_pixel_format(guid(0x1b)) else {
        panic!()
    };
    assert_eq!(float.numeric, AnnexANumericKind::Float);
    let AnnexAPixelFormat::Known(packed) = classify_annex_a_pixel_format(guid(0x0a)) else {
        panic!()
    };
    assert_eq!(packed.bit_depth, AnnexABitDepth::Rgb565);
    let AnnexAPixelFormat::Known(alpha) = classify_annex_a_pixel_format(guid(0x10)) else {
        panic!()
    };
    assert!(alpha.alpha && alpha.premultiplied_alpha);
}

#[test]
fn classifies_annex_a_rgb_padding_explicitly() {
    for code in [0x1b, 0x40, 0x41, 0x42] {
        let AnnexAPixelFormat::Known(format) = classify_annex_a_pixel_format(guid(code)) else {
            panic!()
        };
        assert_eq!(format.order, AnnexAChannelOrder::Rgbx);
    }
    for code in [0x12, 0x18, 0x3b] {
        let AnnexAPixelFormat::Known(format) = classify_annex_a_pixel_format(guid(code)) else {
            panic!()
        };
        assert_eq!(format.order, AnnexAChannelOrder::Rgb);
    }
    let AnnexAPixelFormat::Known(padded_bgr) = classify_annex_a_pixel_format(guid(0x0e)) else {
        panic!()
    };
    assert_eq!(padded_bgr.order, AnnexAChannelOrder::Bgrx);
    let AnnexAPixelFormat::Known(bgr) = classify_annex_a_pixel_format(guid(0x0c)) else {
        panic!()
    };
    assert_eq!(bgr.order, AnnexAChannelOrder::Bgr);
}

#[test]
fn retains_unknown_guid_bytes() {
    let unknown = [0xa5; 16];
    assert_eq!(
        classify_annex_a_pixel_format(unknown),
        AnnexAPixelFormat::Unknown(unknown)
    );
    assert_eq!(
        classify_annex_a_pixel_format(guid(0xff)),
        AnnexAPixelFormat::Unknown(guid(0xff))
    );
}

#[test]
fn classifies_every_table_a6_discriminator() {
    for code in core::iter::once(0x05).chain(0x08..=0x3b).chain(0x3d..=0x56) {
        assert!(
            matches!(
                classify_annex_a_pixel_format(guid(code)),
                AnnexAPixelFormat::Known(_)
            ),
            "unknown code {code:#04x}"
        );
    }
}

#[test]
fn separate_alpha_uses_the_combined_annex_a_premultiplication_declaration() {
    assert!(premultiplication_is_consistent(true, false, true));
    assert!(premultiplication_is_consistent(true, true, false));
    assert!(!premultiplication_is_consistent(false, false, true));
}
