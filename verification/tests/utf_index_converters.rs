use zaffre::utf16_utf8_index_converter::Utf16Utf8IndexConverter;
use zaffre::utf_index_converter::{Utf16IndexesForUtf8, UtfIndexConverter};

#[test]
fn utf16_utf8_index_converter_utf16_to_utf8_conversion_test() {
    // ללשון
    // utf8: \x61\x6e\x20\xd7\x9c\xd7\x9c\xd7\xa9\xd7\x95\xd7\x9f\x21
    let (u16_str, u8_str) = (
        [0x61u16, 0x6E, 0x20, 0x5DC, 0x5DC, 0x5e9, 0x5D5, 0x5DF, 0x21],
        "an ללשון!"
    );
    let mut converter = Utf16Utf8IndexConverter::new(&u16_str, u8_str);
    assert_eq!(converter.convert_to_utf8_index(0), 0);
    assert_eq!(converter.convert_to_utf8_index(1), 1);
    assert_eq!(converter.convert_to_utf8_index(2), 2);
    assert_eq!(converter.convert_to_utf8_index(3), 3);
    assert_eq!(converter.convert_to_utf8_index(4), 5);
    assert_eq!(converter.convert_to_utf8_index(5), 7);
    assert_eq!(converter.convert_to_utf8_index(7), 11);
    assert_eq!(converter.convert_to_utf8_index(8), 13);

    // utf8: \x68\x69\xf0\x9f\x99\x83\xf0\x9f\x92\x99\xf0\x9f\x92\x9a
    let (u16_str, u8_str) = (
        [0x0068, 0x0069, 0xd83d, 0xde43, 0xd83d, 0xdc99, 0xd83d, 0xdc9a],
        "hi🙃💙💚"
    );
    let converter = Utf16Utf8IndexConverter::new(&u16_str, u8_str);
    assert_eq!(converter.collect_pairs(), &[
        (0, 0), (1, 1), (2, 2), (4, 6), (6, 10), (8, 14)
    ]);
    let mut converter = Utf16Utf8IndexConverter::new(&u16_str, u8_str);
    assert_eq!(converter.convert_to_utf8_index(2), 2);
    assert_eq!(converter.convert_to_utf8_index(4), 6);
    assert_eq!(converter.convert_to_utf8_index(8), 14);
}

#[test]
fn utf16_utf8_index_converter_utf8_to_utf16_conversion_test() {
    // utf8: \x68\x69\xf0\x9f\x99\x83\xf0\x9f\x92\x99\xf0\x9f\x92\x9a
    let (u16_str, u8_str) = (
        [0x0068, 0x0069, 0xd83d, 0xde43, 0xd83d, 0xdc99, 0xd83d, 0xdc9a],
        "hi🙃💙💚"
    );
    let converter = Utf16Utf8IndexConverter::new(&u16_str, u8_str);
    assert_eq!(converter.collect_pairs(), &[
        (0, 0), (1, 1), (2, 2), (4, 6), (6, 10), (8, 14)
    ]);
    let mut converter = Utf16Utf8IndexConverter::new(&u16_str, u8_str);
    assert_eq!(converter.convert_to_utf16_index(2), 2);
    assert_eq!(converter.convert_to_utf16_index(6), 4);
    assert_eq!(converter.convert_to_utf16_index(14), 8);
}

#[test]
fn utf_index_converter_utf16_to_utf8_conversion_test() {
    // ללשון
    // utf8: \x61\x6e\x20\xd7\x9c\xd7\x9c\xd7\xa9\xd7\x95\xd7\x9f\x21
    let (u8_str, u16_str) = (
        "an ללשון!",
        [0x61u16, 0x6E, 0x20, 0x5DC, 0x5DC, 0x5e9, 0x5D5, 0x5DF, 0x21]
    );
    let mut converter = UtfIndexConverter::new(u8_str, &u16_str);
    assert_eq!(converter.convert_to_utf8_index(0), 0);
    assert_eq!(converter.convert_to_utf8_index(1), 1);
    assert_eq!(converter.convert_to_utf8_index(2), 2);
    assert_eq!(converter.convert_to_utf8_index(3), 3);
    assert_eq!(converter.convert_to_utf8_index(4), 5);
    assert_eq!(converter.convert_to_utf8_index(5), 7);
    assert_eq!(converter.convert_to_utf8_index(7), 11);
    assert_eq!(converter.convert_to_utf8_index(8), 13);

    // utf8: \x68\x69\xf0\x9f\x99\x83\xf0\x9f\x92\x99\xf0\x9f\x92\x9a
    let (u8_str, u16_str) = (
        "hi🙃💙💚",
        [0x0068, 0x0069, 0xd83d, 0xde43, 0xd83d, 0xdc99, 0xd83d, 0xdc9a]
    );
    let converter = UtfIndexConverter::new(u8_str, &u16_str);
    assert_eq!(converter.collect_pairs(), &[
        (0, 0), (1, 1), (2, 2), (6, 4), (10, 6), (14, 8)
    ]);
    let mut converter = UtfIndexConverter::new(u8_str, &u16_str);
    assert_eq!(converter.convert_to_utf8_index(2), 2);
    assert_eq!(converter.convert_to_utf8_index(2), 2);
    assert_eq!(converter.convert_to_utf8_index(4), 6);
    assert_eq!(converter.convert_to_utf8_index(8), 14);
}

#[test]
fn utf_index_converter_utf8_to_utf16_conversion_test() {
    // utf8: \x68\x69\xf0\x9f\x99\x83\xf0\x9f\x92\x99\xf0\x9f\x92\x9a
    let (u8_str, u16_str) = (
        "hi🙃💙💚",
        [0x0068, 0x0069, 0xd83d, 0xde43, 0xd83d, 0xdc99, 0xd83d, 0xdc9a]
    );
    let converter = UtfIndexConverter::new(u8_str, &u16_str);
    assert_eq!(converter.collect_pairs(), &[
        (0, 0), (1, 1), (2, 2), (6, 4), (10, 6), (14, 8)
    ]);
    let mut converter = UtfIndexConverter::new(u8_str, &u16_str);
    assert_eq!(converter.convert_to_utf16_index(2), 2);
    assert_eq!(converter.convert_to_utf16_index(2), 2);
    assert_eq!(converter.convert_to_utf16_index(6), 4);
    assert_eq!(converter.convert_to_utf16_index(14), 8);
}

#[test]
fn utf16_index_for_utf8_test() {
    // utf8: \x68\x69\x20\xd7\x90\xd7\x91\xd7\x90
    let (u8_str, u16_str) = (
        "hi אבא",
        [0x0068, 0x0069, 0x0020, 0x05d0, 0x05d1, 0x05d0]
    );
    let converter = Utf16IndexesForUtf8::new(u8_str, &u16_str);
    assert_eq!(converter.collect_indexes(), &[
        0, 1, 2, 3, 3, 4, 4, 5, 5
    ]);
}

#[test]
fn utf16_index_for_utf8_test_with_emoji() {
    // utf8: \x68\x69\xf0\x9f\x99\x83\xf0\x9f\x92\x99\xf0\x9f\x92\x9a
    let (u8_str, u16_str) = (
        "hi🙃💙💚",
        [0x0068, 0x0069, 0xd83d, 0xde43, 0xd83d, 0xdc99, 0xd83d, 0xdc9a]
    );
    let converter = Utf16IndexesForUtf8::new(u8_str, &u16_str);
    assert_eq!(converter.collect_indexes(), &[
        0, 1, 2, 2, 2, 2, 4, 4, 4, 4, 6, 6, 6, 6
    ]);
}

#[test]
fn utf16_index_for_utf8_empty_text_yields_nothing() {
    let mut converter = Utf16IndexesForUtf8::new("", &[]);
    assert_eq!(converter.next(), None);
    assert_eq!(converter.next(), None);
    assert!(Utf16IndexesForUtf8::new("", &[]).collect_indexes().is_empty());
}
