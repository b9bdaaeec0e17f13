use tjipe_showcase::media::{
    contains_str, find_media_file_by_name, folder_for_media_type, has_any_media, media_type_for_extension, media_types,
    mime_for_path, type_label,
};
use tjipe_showcase::names::FilePath;

#[test]
fn table_of_media_types() {
    let rows = media_types();
    assert_eq!(rows.len(), 3);
    assert_eq!(rows[0], ("video", "videos", "视频目录", vec!["mp4", "webm", "mov", "m4v"]));
    assert_eq!(rows[1], ("image", "images", "图片目录", vec!["jpg", "jpeg", "png", "gif", "webp", "bmp"]));
    assert_eq!(rows[2], ("ppt", "ppt", "PPT 目录", vec!["ppt", "pptx", "pps", "ppsx", "pdf"]));
    assert!(contains_str(&rows[2].3, "pdf"));
    assert!(!contains_str(&rows[2].3, "mp4"));
}

#[test]
fn extensions_have_a_kind() {
    assert_eq!(media_type_for_extension("MP4"), Some("video"));
    assert_eq!(media_type_for_extension("jpeg"), Some("image"));
    assert_eq!(media_type_for_extension("Pdf"), Some("ppt"));
    assert_eq!(media_type_for_extension("exe"), None);
    assert_eq!(media_type_for_extension(""), None);
}

#[test]
fn every_extension_belongs_to_the_folder_of_its_kind() {
    for (kind, folder, _, extensions) in media_types() {
        for extension in extensions {
            assert_eq!(media_type_for_extension(extension), Some(kind));
            assert_eq!(folder_for_media_type(kind), folder);
            let mime = mime_for_path(&FilePath::of(&format!("a.{}", extension)));
            assert_ne!(mime, "application/octet-stream");
            assert_eq!(mime.starts_with("video/"), kind == "video");
            assert_eq!(mime.starts_with("image/"), kind == "image");
        }
    }
    assert_eq!(folder_for_media_type("other"), "ppt");
}

#[test]
fn kinds_have_labels() {
    assert_eq!(type_label("video"), "视频");
    assert_eq!(type_label("image"), "图片");
    assert_eq!(type_label("ppt"), "PPT");
}

#[test]
fn mime_types() {
    let expected = [
        ("a.mp4", "video/mp4"),
        ("a.WEBM", "video/webm"),
        ("a.mov", "video/quicktime"),
        ("a.m4v", "video/quicktime"),
        ("a.JPG", "image/jpeg"),
        ("a.jpeg", "image/jpeg"),
        ("a.png", "image/png"),
        ("a.gif", "image/gif"),
        ("a.webp", "image/webp"),
        ("a.bmp", "image/bmp"),
        ("a.pdf", "application/pdf"),
        ("a.ppt", "application/vnd.ms-powerpoint"),
        ("a.pptx", "application/vnd.openxmlformats-officedocument.presentationml.presentation"),
        ("a.pps", "application/vnd.ms-powerpoint"),
        ("a.ppsx", "application/vnd.openxmlformats-officedocument.presentationml.slideshow"),
        ("a.txt", "application/octet-stream"),
        ("mp4", "application/octet-stream"),
    ];
    for (name, mime) in expected {
        assert_eq!(mime_for_path(&FilePath::of(name)), mime);
    }
}

#[test]
fn file_is_found_in_the_first_folder() {
    let both = vec!["ppt".to_string(), "images".to_string()];
    assert_eq!(find_media_file_by_name(&both), Some("images"));
    assert_eq!(find_media_file_by_name(&vec!["posters".to_string()]), None);
    assert_eq!(find_media_file_by_name(&Vec::new()), None);
}

#[test]
fn media_are_files() {
    assert!(!has_any_media(&vec![None, Some(vec![]), Some(vec![false])]));
    assert!(has_any_media(&vec![None, Some(vec![false, true]), None]));
}
