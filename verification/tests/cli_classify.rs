use gemini_unmark::cli::{classify_extension, classify_input, InputKind};
use std::path::Path;

#[test]
fn still_image_extensions_are_image() {
    for p in ["shot.png", "a.JPG", "b.jpeg", "c.webp", "d.bmp", "e.tif", "f.tiff"] {
        assert_eq!(
            classify_input(Path::new(p)).unwrap(),
            InputKind::Image,
            "{p}"
        );
    }
}

#[test]
fn video_extensions_are_video() {
    for p in ["clip.mp4", "a.MOV", "b.mkv", "c.webm", "d.avi"] {
        assert_eq!(
            classify_input(Path::new(p)).unwrap(),
            InputKind::Video,
            "{p}"
        );
    }
}

#[test]
fn unknown_extension_is_error() {
    let err = classify_input(Path::new("notes.txt")).unwrap_err();
    assert!(err.contains("txt") || err.contains("unsupported"), "{err}");
}

#[test]
fn unknown_extension_message_is_lowercased() {
    let err = classify_input(Path::new("Notes.TXT")).unwrap_err();
    assert_eq!(err, "unsupported input extension 'txt'");
}

#[test]
fn missing_extension_is_error() {
    let err = classify_input(Path::new("README")).unwrap_err();
    assert_eq!(err, "input path has no extension");
    let err = classify_input(Path::new("dir/.hidden")).unwrap_err();
    assert_eq!(err, "input path has no extension");
}

#[test]
fn extension_only_last_dot_counts() {
    assert_eq!(classify_input(Path::new("clip.png.mp4")).unwrap(), InputKind::Video);
    assert_eq!(classify_input(Path::new("dir.mp4/shot.PnG")).unwrap(), InputKind::Image);
}

#[test]
fn classify_extension_ignores_ascii_case() {
    for (upper, lower) in [("PNG", "png"), ("WebM", "webm"), ("TiFf", "tiff"), ("Doc", "doc")] {
        assert_eq!(classify_extension(upper), classify_extension(lower));
    }
    assert_eq!(classify_extension("JPEG"), Ok(InputKind::Image));
    assert_eq!(classify_extension("AVI"), Ok(InputKind::Video));
    assert_eq!(classify_extension(""), Err("input path has no extension".to_string()));
    assert_eq!(classify_extension("Gif"), Err("unsupported input extension 'gif'".to_string()));
}
