use fuse_img2heic::detect::{is_convertible_format, FileDetector, ImageFormat};

#[test]
fn test_format_detection() {
    assert_eq!(ImageFormat::from_extension("jpg"), Some(ImageFormat::Jpeg));
    assert_eq!(ImageFormat::from_extension("PNG"), Some(ImageFormat::Png));
    assert_eq!(ImageFormat::from_extension("gif"), Some(ImageFormat::Gif));
    assert_eq!(ImageFormat::from_extension("txt"), None);
}

#[test]
fn test_should_convert() {
    assert!(ImageFormat::Jpeg.should_convert());
    assert!(ImageFormat::Png.should_convert());
    assert!(!ImageFormat::Heic.should_convert());
}

#[test]
fn test_file_detector() {
    let detector =
        FileDetector::new(vec![".*\\.(jpg|jpeg|png|gif)$".to_string()]).unwrap();

    assert!(detector.is_image_file("test.jpg", b"test"));
    assert!(!detector.is_image_file("test.txt", b"test"));
}

#[test]
fn test_is_convertible_format() {
    let _ = is_convertible_format("test.jpg", &[]);
    let _ = is_convertible_format("test.heic", &[]);
}

#[test]
fn convertible_covers_heic_sources() {
    // Every recognized format is convertible, HEIC included: a HEIC source
    // is re-encoded with the current parameters.
    assert!(is_convertible_format("test.jpg", &[]));
    assert!(is_convertible_format("test.heic", &[]));
    assert!(is_convertible_format("photo.HEIF", &[]));
    assert!(!is_convertible_format("notes.txt", &[]));
    assert!(!is_convertible_format("archive", &[]));
}

#[test]
fn content_sniffing_beats_extension() {
    let png_magic: &[u8] = &[0x89, b'P', b'N', b'G', 0x0d, 0x0a, 0x1a, 0x0a, 0, 0, 0, 0];
    assert_eq!(ImageFormat::from_content(png_magic), Some(ImageFormat::Png));
    let jpeg_magic: &[u8] = &[0xff, 0xd8, 0xff, 0xe0, 0, 0, 0, 0];
    assert_eq!(ImageFormat::from_content(jpeg_magic), Some(ImageFormat::Jpeg));
    assert_eq!(ImageFormat::from_content(b"hello world, not an image"), None);

    // A PNG payload behind a .txt name is still detected by content.
    let detector = FileDetector::new(vec![".*\\.(jpg)$".to_string()]).unwrap();
    assert!(detector.is_image_file("masked.txt", png_magic));
    // The detector surfaces the sniffed format first, the extension second.
    assert_eq!(detector.detect_format("masked.txt", png_magic), Some(ImageFormat::Png));
    assert_eq!(detector.detect_format("photo.gif", b"not-an-image"), Some(ImageFormat::Gif));
    assert_eq!(detector.detect_format("readme", &[]), None);
}

#[test]
fn invalid_pattern_is_reported() {
    let err = FileDetector::new(vec!["(unclosed".to_string()]);
    assert!(err.is_err());
    assert_eq!(err.err().unwrap(), "(unclosed");
}

#[test]
fn first_invalid_pattern_wins() {
    let err = FileDetector::new(vec![
        "ok.*".to_string(),
        "(first-bad".to_string(),
        "(second-bad".to_string(),
    ]);
    assert_eq!(err.err().unwrap(), "(first-bad");
}
