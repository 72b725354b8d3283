use openslide_rs::text::{decimal_string, parse_u32};
use openslide_rs::{Address, OpenSlideError, Region, Size};

#[test]
fn decimal_string_writes_numerals() {
    assert_eq!(decimal_string(0), "0");
    assert_eq!(decimal_string(7), "7");
    assert_eq!(decimal_string(10), "10");
    assert_eq!(decimal_string(909), "909");
    assert_eq!(decimal_string(4294967295), "4294967295");
    for n in [1u32, 9, 11, 99, 100, 101, 65535, 1_000_000_000, 2_147_483_648] {
        assert_eq!(decimal_string(n), n.to_string());
    }
}

#[test]
fn parse_u32_reads_numerals() {
    assert_eq!(parse_u32("0"), Some(0));
    assert_eq!(parse_u32("123"), Some(123));
    assert_eq!(parse_u32("+5"), Some(5));
    assert_eq!(parse_u32("0007"), Some(7));
    assert_eq!(parse_u32("4294967295"), Some(u32::MAX));
    assert_eq!(parse_u32("00000000004294967295"), Some(u32::MAX));
}

#[test]
fn parse_u32_refuses_everything_else() {
    for text in [
        "", "+", "-", "-1", "++1", "1+", "12a", "a12", " 1", "1 ", "1.0", "0x10", "4294967296",
        "99999999999999999999", "١٢٣", "1é",
    ] {
        assert_eq!(parse_u32(text), None, "{:?}", text);
    }
}

#[test]
fn parse_u32_agrees_with_the_standard_library() {
    for text in ["0", "42", "+42", "-42", "", "+", "4294967295", "4294967296", "12 ", "０"] {
        assert_eq!(parse_u32(text), text.parse::<u32>().ok(), "{:?}", text);
    }
    for n in [0u32, 1, 10, 4096, u32::MAX] {
        assert_eq!(parse_u32(&decimal_string(n)), Some(n));
    }
}

#[test]
fn error_messages() {
    assert_eq!(
        OpenSlideError::MissingFile("__missing".to_string()).error_message(),
        "File __missing does not exist"
    );
    assert_eq!(
        OpenSlideError::UnsupportedFile("Cargo.toml".to_string()).error_message(),
        "Unsupported format: Cargo.toml"
    );
    assert_eq!(
        OpenSlideError::KeyError("__missing".to_string()).error_message(),
        "Key __missing does not exist"
    );
    assert_eq!(
        OpenSlideError::KeyError("openslide.vendor".to_string()).error_message(),
        "Key openslide.vendor does not exist"
    );
    assert_eq!(
        OpenSlideError::IndexError("10".to_string()).error_message(),
        "Level 10 out of range"
    );
    assert_eq!(
        OpenSlideError::InternalError("Unsupported TIFF compression: 52479".to_string())
            .error_message(),
        "Unsupported TIFF compression: 52479"
    );
    assert_eq!(OpenSlideError::InternalError(String::new()).error_message(), "");
}

#[test]
fn addresses_and_sizes_from_pairs() {
    assert_eq!(Address::from((3, 4)), Address { x: 3, y: 4 });
    assert_eq!(Size::from((3, 4)), Size { w: 3, h: 4 });
    let region = Region {
        address: Address::from((1, 2)),
        level: 3,
        size: Size::from((400, 200)),
    };
    assert_eq!(region.size.w, 400);
    assert_eq!(region.size.h, 200);
    assert_eq!(region, region.clone());
}

#[test]
fn address_text() {
    assert_eq!(Address { x: 0, y: 0 }.to_text(), "(0, 0)");
    assert_eq!(Address { x: 253, y: 7 }.to_text(), "(253, 7)");
    assert_eq!(Address { x: u32::MAX, y: 10 }.to_text(), "(4294967295, 10)");
}
