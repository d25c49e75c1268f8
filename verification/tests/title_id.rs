use niiebla::title_id::TitleId;

// Fake ID "4A4132BC-HAGA"
const TEST_ID_NUMBER: u64 = 5350613616540337985;

const TEST_ID_NUMBER_NOT_VALID_ASCII: u64 = 5350613615614431505;

#[test]
fn default_display() {
    let title_id = TitleId::new(TEST_ID_NUMBER);

    assert_eq!("4a4132bc-48414741", title_id.to_string())
}

#[test]
fn default_display_alternative_mode() {
    let title_id = TitleId::new(TEST_ID_NUMBER);

    assert_eq!("4A4132BC-48414741", title_id.format(true))
}

#[test]
fn ascii_display() {
    let title_id = TitleId::new(TEST_ID_NUMBER);

    assert_eq!("4a4132bc-HAGA", title_id.display_ascii().to_string())
}

#[test]
fn ascii_display_alternative_mode() {
    let title_id = TitleId::new(TEST_ID_NUMBER);

    assert_eq!("4A4132BC-HAGA", title_id.display_ascii().format(true))
}

#[test]
fn ascii_display_invalid_ascii() {
    let title_id = TitleId::new(TEST_ID_NUMBER_NOT_VALID_ASCII);

    assert_eq!("4a4132bc-11111111", title_id.display_ascii().to_string())
}

#[test]
fn ascii_display_invalid_ascii_alternative_mode() {
    let title_id = TitleId::new(TEST_ID_NUMBER_NOT_VALID_ASCII);

    assert_eq!("4A4132BC-11111111", title_id.display_ascii().format(true))
}

#[test]
fn ascii_display_of_bytes_that_are_no_text() {
    // 0xFF is no UTF-8.
    let title_id = TitleId::new_with_halfs(1, 0xFF41_4141);
    assert_eq!("00000001-ff414141", title_id.display_ascii().to_string());
    // Letters beyond ASCII are letters too.
    let title_id = TitleId::new_with_halfs(1, 0xC3A9_C3A9);
    assert_eq!("00000001-éé", title_id.display_ascii().to_string());
}

#[test]
fn set_lower_half() {
    let mut title_id = TitleId::new_with_halfs(500, 500);
    title_id.set_lower_half(100);

    assert_eq!(title_id.lower_half(), 100);
    assert_eq!(title_id.higher_half(), 500);
}

#[test]
fn set_higher_half() {
    let mut title_id = TitleId::new_with_halfs(500, 500);
    title_id.set_higher_half(100);

    assert_eq!(title_id.lower_half(), 500);
    assert_eq!(title_id.higher_half(), 100);
}

#[test]
fn halves_are_read_back() {
    for (higher, lower) in [(0, 0), (1, 2), (u32::MAX, 0), (0, u32::MAX), (u32::MAX, u32::MAX)] {
        let title_id = TitleId::new_with_halfs(higher, lower);
        assert_eq!(title_id.higher_half(), higher);
        assert_eq!(title_id.lower_half(), lower);
        assert_eq!(title_id.inner(), ((higher as u64) << 32) | lower as u64);
    }
}

#[test]
fn wii_platform_display_names_the_system_titles() {
    let name = |lower| TitleId::new_with_halfs(1, lower).display_wii_platform().to_string();
    assert_eq!(name(1), "BOOT2");
    assert_eq!(name(2), "System Menu");
    assert_eq!(name(0x100), "BC");
    assert_eq!(name(0x101), "MIOS");
    assert_eq!(name(0x200), "BC-NAND");
    assert_eq!(name(0x201), "BC-WFS");
    assert_eq!(name(58), "IOS58 (Wii)");
    assert_eq!(name(0), "IOS0 (Wii)");
    assert_eq!(name(u32::MAX), "IOS4294967295 (Wii)");
    assert_eq!(
        TitleId::new(TEST_ID_NUMBER).display_wii_platform().to_string(),
        "4a4132bc-48414741"
    );
    assert_eq!(
        TitleId::new(TEST_ID_NUMBER).display_wii_platform().format(true),
        "4A4132BC-48414741"
    );
}

#[test]
fn dump_writes_the_id_most_significant_byte_first() {
    let mut stream = niiebla::Stream::new(vec![]);
    TitleId::new(0x0102_0304_0506_0708).dump(&mut stream).unwrap();
    assert_eq!(stream.into_inner(), [1, 2, 3, 4, 5, 6, 7, 8]);
}

#[test]
fn display_bytes_follow_what_the_caller_knows_of_the_lower_half() {
    let title_id = TitleId::new(5350613616540337985);
    let display = title_id.display_ascii();
    assert_eq!(display.display_bytes(false, true), b"4a4132bc-HAGA".to_vec());
    assert_eq!(display.display_bytes(true, true), b"4A4132BC-HAGA".to_vec());
    assert_eq!(display.display_bytes(false, false), b"4a4132bc-48414741".to_vec());
    assert_eq!(display.display_bytes(true, false), b"4A4132BC-48414741".to_vec());
}
