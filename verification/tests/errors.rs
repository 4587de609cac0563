use peak_vista::{ErrorKind, MeshError, PngError, TextError};

#[test]
fn kinds_follow_the_variants() {
    assert_eq!(PngError::ImageSize { width: 1, height: 2 }.kind(), ErrorKind::Shape);
    assert_eq!(TextError::InvalidToken(String::from("x")).kind(), ErrorKind::Format);
    assert_eq!(TextError::ValueCount(3).kind(), ErrorKind::Shape);
    assert_eq!(MeshError::FieldLength(3).kind(), ErrorKind::Shape);
    assert_eq!(MeshError::LodLevel(3).kind(), ErrorKind::Parameter);
}

#[test]
fn numbers_in_messages_are_decimal() {
    let cases: [(usize, &str); 9] = [
        (0, "0"),
        (7, "7"),
        (9, "9"),
        (10, "10"),
        (99, "99"),
        (100, "100"),
        (1009, "1009"),
        (65536, "65536"),
        (4294967295, "4294967295"),
    ];
    for (found, written) in cases {
        assert_eq!(
            MeshError::FieldLength(found).message(),
            format!("Invalid elevation array length: {}, expected 65536", written)
        );
        assert_eq!(
            TextError::ValueCount(found).message(),
            format!("Invalid number of elevation values: {}, expected 65536", written)
        );
    }
    assert_eq!(
        MeshError::FieldLength(usize::MAX).message(),
        format!("Invalid elevation array length: {}, expected 65536", usize::MAX)
    );
}

#[test]
fn image_size_message_names_both_sides() {
    assert_eq!(
        PngError::ImageSize { width: 0, height: 4294967295 }.message(),
        "Invalid image size: 0x4294967295, expected 256x256"
    );
    assert_eq!(
        PngError::ImageSize { width: 1024, height: 768 }.message(),
        "Invalid image size: 1024x768, expected 256x256"
    );
}

#[test]
fn level_message_names_the_code() {
    assert_eq!(MeshError::LodLevel(3).message(), "Invalid LOD level 3 (0-2)");
    assert_eq!(MeshError::LodLevel(255).message(), "Invalid LOD level 255 (0-2)");
}

#[test]
fn token_message_quotes_the_token() {
    assert_eq!(
        TextError::InvalidToken(String::from("12,5")).message(),
        "Failed to parse elevation value: 12,5"
    );
    assert_eq!(
        TextError::InvalidToken(String::new()).message(),
        "Failed to parse elevation value: "
    );
    assert_eq!(
        TextError::InvalidToken(String::from("höhe")).message(),
        "Failed to parse elevation value: höhe"
    );
}
