use iso_extract_jpegs::iso::strip_iso_version;
use iso_extract_jpegs::jpeg::{has_allowed_extension, has_jpeg_magic, is_jpeg_name};
use iso_extract_jpegs::manifest::json_string;
use iso_extract_jpegs::paths::{output_path, sanitize_internal_path};
use std::path::PathBuf;

#[test]
fn strips_iso_version_suffix() {
    assert_eq!(strip_iso_version("PHOTO.JPG;1".to_string()), "PHOTO.JPG");
    assert_eq!(strip_iso_version("FOLDER.".to_string()), "FOLDER");
    assert_eq!(strip_iso_version("A;B".to_string()), "A;B");
}

#[test]
fn detects_jpeg_extensions_case_insensitively() {
    assert!(is_jpeg_name("photo.jpg"));
    assert!(is_jpeg_name("photo.jpeg"));
    assert!(is_jpeg_name("photo.JPG"));
    assert!(is_jpeg_name("photo.JPEG"));
    assert!(!is_jpeg_name("photo.png"));
    assert!(!is_jpeg_name("photo.jpg.exe"));
}

#[test]
fn detects_configured_extensions() {
    let extensions = vec!["pcd".to_string(), "bmp".to_string()];
    assert!(has_allowed_extension("1000.PCD", &extensions));
    assert!(has_allowed_extension("folder/cover.bmp", &extensions));
    assert!(!has_allowed_extension("photo.jpg", &extensions));
    assert!(!has_allowed_extension("notpcd", &extensions));
}

#[test]
fn checks_jpeg_magic() {
    assert!(has_jpeg_magic(&[0xff, 0xd8, 0xff, 0xe0]));
    assert!(!has_jpeg_magic(&[0xff]));
    assert!(!has_jpeg_magic(&[0x89, b'P', b'N', b'G']));
}

#[test]
fn escapes_json_strings() {
    assert_eq!(json_string("a\"b\\c\n"), "\"a\\\"b\\\\c\\n\"");
}

#[test]
fn builds_path_under_iso_directory() {
    let path = output_path(b"out", b"disc.iso", "photos/a.jpg").unwrap();
    assert_eq!(
        PathBuf::from(String::from_utf8(path).unwrap()),
        PathBuf::from("out")
            .join("disc")
            .join("photos")
            .join("a.jpg")
    );
}

#[test]
fn rejects_traversal_and_absolute_paths() {
    for bad in [
        "../evil.jpg",
        "../../evil.jpg",
        "/evil.jpg",
        "C:\\evil.jpg",
        "folder/../../../evil.jpg",
        "folder\\..\\evil.jpg",
    ] {
        assert!(sanitize_internal_path(bad).is_err(), "{bad}");
    }
}

#[test]
fn sanitizes_windows_reserved_characters() {
    let parts = sanitize_internal_path("folder/a:b?.jpg").unwrap();
    assert_eq!(parts, vec!["folder".to_string(), "a_b_.jpg".to_string()]);
}
