use loki_file_access::platform::filters::{is_valid_extension, mime_types_to_extensions};

#[test]
fn known_mime_types_produce_valid_extensions() {
    let cases = [
        ("text/plain", "txt"),
        ("application/pdf", "pdf"),
        ("application/msword", "doc"),
        ("application/vnd.openxmlformats-officedocument.wordprocessingml.document", "docx"),
        ("application/vnd.ms-excel", "xls"),
        ("application/vnd.openxmlformats-officedocument.spreadsheetml.sheet", "xlsx"),
        ("application/vnd.oasis.opendocument.text", "odt"),
        ("image/svg+xml", "svg"),
        ("application/epub+zip", "epub"),
    ];
    for (mime, expected_ext) in cases {
        let result = mime_types_to_extensions(&[mime.to_owned()]);
        assert_eq!(result[0], expected_ext, "wrong ext for {mime}");
        assert!(
            is_valid_extension(&result[0]),
            "ext '{}' for '{mime}' failed is_valid_extension",
            result[0]
        );
    }
}

#[test]
fn unlisted_vnd_mime_type_produces_invalid_extension() {
    let result = mime_types_to_extensions(&["application/vnd.example.format".to_owned()]);
    assert!(!is_valid_extension(&result[0]), "dotted fallback must be invalid");
}

#[test]
fn is_valid_extension_rejects_dots_and_slashes() {
    assert!(!is_valid_extension(""));
    assert!(!is_valid_extension("vnd.foo.bar"));
    assert!(!is_valid_extension("foo/bar"));
    assert!(!is_valid_extension("foo bar"));
    assert!(is_valid_extension("docx"));
    assert!(is_valid_extension("txt"));
    assert!(is_valid_extension("7z"));
}

#[test]
fn full_mime_table() {
    let table = [
        ("text/plain", "txt"), ("text/html", "html"), ("text/css", "css"), ("text/csv", "csv"),
        ("text/markdown", "md"), ("text/x-markdown", "md"), ("text/rtf", "rtf"),
        ("application/rtf", "rtf"), ("application/json", "json"), ("application/xml", "xml"),
        ("text/xml", "xml"), ("application/pdf", "pdf"), ("application/zip", "zip"),
        ("application/x-tar", "tar"), ("application/gzip", "gz"), ("application/x-gzip", "gz"),
        ("application/x-bzip2", "bz2"), ("application/x-7z-compressed", "7z"),
        ("image/png", "png"), ("image/jpeg", "jpg"), ("image/gif", "gif"),
        ("image/svg+xml", "svg"), ("image/webp", "webp"), ("image/tiff", "tiff"),
        ("image/bmp", "bmp"), ("audio/mpeg", "mp3"), ("audio/wav", "wav"),
        ("audio/x-wav", "wav"), ("audio/ogg", "ogg"), ("audio/flac", "flac"),
        ("video/mp4", "mp4"), ("video/webm", "webm"), ("video/x-matroska", "mkv"),
        ("application/msword", "doc"), ("application/vnd.ms-excel", "xls"),
        ("application/vnd.ms-powerpoint", "ppt"),
        ("application/vnd.openxmlformats-officedocument.wordprocessingml.document", "docx"),
        ("application/vnd.openxmlformats-officedocument.spreadsheetml.sheet", "xlsx"),
        ("application/vnd.openxmlformats-officedocument.presentationml.presentation", "pptx"),
        ("application/vnd.oasis.opendocument.text", "odt"),
        ("application/vnd.oasis.opendocument.spreadsheet", "ods"),
        ("application/vnd.oasis.opendocument.presentation", "odp"),
        ("application/epub+zip", "epub"),
    ];
    let mimes: Vec<String> = table.iter().map(|(m, _)| m.to_string()).collect();
    let exts = mime_types_to_extensions(&mimes);
    assert_eq!(exts.len(), table.len());
    for (i, (_, e)) in table.iter().enumerate() {
        assert_eq!(exts[i], *e);
        assert!(is_valid_extension(&exts[i]));
    }
}

#[test]
fn unlisted_mime_types_fall_back_to_subtype() {
    let mimes = vec![
        "application/x-foo".to_owned(),
        "noslash".to_owned(),
        "a/b/c".to_owned(),
        "trailing/".to_owned(),
        "/lead".to_owned(),
    ];
    let exts = mime_types_to_extensions(&mimes);
    assert_eq!(exts, vec!["x-foo", "noslash", "b", "", "lead"]);
    assert!(is_valid_extension(&exts[0]));
    assert!(!is_valid_extension(&exts[3]));
}

#[test]
fn extension_checks_cover_every_forbidden_character() {
    for bad in [".", "/", "\\", " ", "\t", "\n", "\r", "\x0C", "a.b", "a\\b"] {
        assert!(!is_valid_extension(bad), "{bad:?} must be invalid");
    }
    assert!(is_valid_extension("\x0B"));
    assert!(is_valid_extension("é"));
}

#[test]
fn mapping_keeps_order_and_length() {
    let mimes = vec!["image/png".to_owned(), "text/plain".to_owned(), "image/png".to_owned()];
    assert_eq!(mime_types_to_extensions(&mimes), vec!["png", "txt", "png"]);
    assert!(mime_types_to_extensions(&[]).is_empty());
}
