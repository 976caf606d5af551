//! Tests for `is_image_filename`, the extension check behind the storage service's preview of stored images.

use et_services::storage::is_image_filename;

#[test]
fn recognizes_common_image_extensions_case_insensitively() {
    for ext in ["png", "jpg", "jpeg", "gif", "webp", "bmp", "PNG", "Jpg"] {
        let filename = format!("capture.{ext}");
        assert!(is_image_filename(&filename), "{filename} should be recognized as an image");
    }
}

#[test]
fn rejects_non_image_extensions_and_extensionless_names() {
    for name in ["notes.txt", "data.json", "archive.tar.gz", "no-extension", ".hidden"] {
        assert!(!is_image_filename(name), "{name} should not be recognized as an image");
    }
}

#[test]
fn the_extension_is_taken_after_the_last_dot_of_the_last_component() {
    assert!(is_image_filename("archive.tar.png"));
    assert!(is_image_filename("dir/photo.JPEG"));
    assert!(is_image_filename("dir/photo.bmp/"));
    assert!(!is_image_filename("photo.png/.."));
    assert!(!is_image_filename(".png"));
    assert!(!is_image_filename("photo."));
    assert!(!is_image_filename(""));
}
