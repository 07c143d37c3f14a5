use loki_file_access::platform::{android, desktop, ios, wasm, zenity};
use loki_file_access::{AccessError, FilePicker, PermissionStatus, PickOptions, PickerError, SaveOptions, TokenInner};

#[test]
fn open_filter_keeps_valid_extensions_in_order() {
    let opts = PickOptions {
        mime_types: vec![
            "application/pdf".into(),
            "application/vnd.example.format".into(),
            "image/png".into(),
        ],
        filter_label: None,
        multi: false,
    };
    let f = desktop::open_dialog_filter(&opts);
    assert_eq!(f.label, "Files");
    assert_eq!(f.extensions, vec!["pdf", "png"]);
    let opts = PickOptions { filter_label: Some("Images".into()), ..PickOptions::default() };
    let f = desktop::open_dialog_filter(&opts);
    assert_eq!(f.label, "Images");
    assert!(f.extensions.is_empty());
}

#[test]
fn save_filter_uses_the_mime_type() {
    let f = desktop::save_dialog_filter(&SaveOptions {
        mime_type: Some(
            "application/vnd.openxmlformats-officedocument.wordprocessingml.document".into(),
        ),
        suggested_name: Some("report.docx".into()),
    });
    assert_eq!(f.label, "File");
    assert_eq!(f.extensions, vec!["docx"]);
    let f = desktop::save_dialog_filter(&SaveOptions {
        mime_type: Some("application/vnd.example.format".into()),
        suggested_name: None,
    });
    assert!(f.extensions.is_empty());
    assert!(desktop::save_dialog_filter(&SaveOptions::default()).extensions.is_empty());
}

#[test]
fn retain_valid_extensions_filters() {
    let v = desktop::retain_valid_extensions(vec!["a".into(), "b.c".into(), "".into(), "d".into()]);
    assert_eq!(v, vec!["a", "d"]);
}

#[test]
fn backend_env_none_disables_the_picker() {
    assert!(desktop::check_backend_env(None).is_ok());
    assert!(desktop::check_backend_env(Some("auto")).is_ok());
    assert!(desktop::check_backend_env(Some("None")).is_ok());
    match desktop::check_backend_env(Some("none")) {
        Err(PickerError::Platform { message }) => {
            assert!(message.contains("LOKI_FILE_ACCESS_BACKEND=none"))
        }
        _ => panic!("expected a platform error"),
    }
}

#[test]
fn picked_paths_become_desktop_tokens() {
    let t = desktop::token_from_picked(desktop::PickedPath {
        path: "/home/u/a.txt".into(),
        file_name: Some("a.txt".into()),
    });
    assert_eq!(t.display_name(), "a.txt");
    assert!(matches!(t.inner, TokenInner::Desktop { ref path, .. } if path == "/home/u/a.txt"));
    let t = desktop::token_from_picked(desktop::PickedPath { path: "/".into(), file_name: None });
    assert_eq!(t.display_name(), "unnamed");
    assert_eq!(desktop::file_name_from_path(None), "unnamed");
    assert_eq!(desktop::file_name_from_path(Some("x".into())), "x");
}

#[test]
fn dialog_answers_decide_the_next_step() {
    let picked = Some(desktop::PickedPath { path: "/a".into(), file_name: Some("a".into()) });
    match desktop::after_single_dialog(picked, true) {
        desktop::AfterDialog::Done(Some(t)) => assert_eq!(t.display_name(), "a"),
        _ => panic!("expected a token"),
    }
    assert!(matches!(desktop::after_single_dialog(None, true), desktop::AfterDialog::UseZenity));
    assert!(matches!(desktop::after_single_dialog(None, false), desktop::AfterDialog::Done(None)));
    let many = Some(vec![
        desktop::PickedPath { path: "/a".into(), file_name: Some("a".into()) },
        desktop::PickedPath { path: "/b".into(), file_name: None },
    ]);
    match desktop::after_multi_dialog(many, false) {
        desktop::AfterDialog::Done(ts) => {
            assert_eq!(ts.len(), 2);
            assert_eq!(ts[0].display_name(), "a");
            assert_eq!(ts[1].display_name(), "unnamed");
        }
        _ => panic!("expected tokens"),
    }
    assert!(matches!(desktop::after_multi_dialog(None, true), desktop::AfterDialog::UseZenity));
    match desktop::after_multi_dialog(None, false) {
        desktop::AfterDialog::Done(ts) => assert!(ts.is_empty()),
        _ => panic!("expected no tokens"),
    }
}

#[test]
fn pick_options_are_normalised() {
    let opts = PickOptions { mime_types: vec!["a/b".into()], filter_label: Some("L".into()), multi: true };
    let single = FilePicker::single_pick_options(opts.clone());
    assert!(!single.multi);
    assert_eq!(single.mime_types, vec!["a/b"]);
    assert_eq!(single.filter_label.as_deref(), Some("L"));
    let multi = FilePicker::multi_pick_options(PickOptions::default());
    assert!(multi.multi);
    let _ = FilePicker::new();
}

#[test]
fn zenity_arguments() {
    let exts = vec!["txt".to_owned(), ".md".to_owned(), "..x".to_owned()];
    assert_eq!(
        zenity::pick_file_args("Open File", "Files", &exts),
        vec!["--file-selection", "--file-filter", "Files | *.txt *.md *.x", "--title", "Open File"]
    );
    assert_eq!(
        zenity::pick_files_args("Open Files", "Docs", &[]),
        vec!["--file-selection", "--multiple", "--separator", "\n", "--title", "Open Files"]
    );
    assert_eq!(
        zenity::pick_save_args("Save File", Some("report.docx"), "File", &["docx".to_owned()]),
        vec![
            "--file-selection", "--file-filter", "File | *.docx", "--save", "--confirm-overwrite",
            "--title", "Save File", "--filename", "report.docx"
        ]
    );
    assert_eq!(
        zenity::pick_save_args("Save File", None, "File", &[]),
        vec!["--file-selection", "--save", "--confirm-overwrite", "--title", "Save File"]
    );
}

#[test]
fn zenity_single_output() {
    assert_eq!(zenity::parse_single_output(false, "/a\n"), None);
    assert_eq!(zenity::parse_single_output(true, "  \n"), None);
    assert_eq!(zenity::parse_single_output(true, "/home/u/a b.txt\n").as_deref(), Some("/home/u/a b.txt"));
    assert_eq!(zenity::parse_single_output(true, "\u{3000}/x\u{a0}").as_deref(), Some("/x"));
}

#[test]
fn zenity_multi_output() {
    assert!(zenity::parse_multi_output(false, "/a\n/b\n").is_empty());
    assert_eq!(zenity::parse_multi_output(true, "/a\n/b\n"), vec!["/a", "/b"]);
    assert_eq!(zenity::parse_multi_output(true, "/a\r\n\n/b\r"), vec!["/a", "/b\r"]);
    assert!(zenity::parse_multi_output(true, "").is_empty());
}

#[test]
fn trim_and_lines_agree_with_std() {
    let samples = [
        "", " ", "a", " a ", "\t\na b\r\n", "\u{85}x\u{2028}", "\u{200b}x\u{200b}",
        "a\nb", "a\r\nb\r\n", "\n\n", "\r", "a\r", "\r\n", "x\ny\r\n\r\nz",
    ];
    for s in samples {
        assert_eq!(zenity::trim_exec(s), s.trim(), "trim of {s:?}");
        let expected: Vec<String> = s.lines().filter(|l| !l.is_empty()).map(String::from).collect();
        assert_eq!(zenity::parse_multi_output(true, s), expected, "lines of {s:?}");
    }
}

#[test]
fn white_space_matches_char_is_whitespace() {
    for u in 0u32..=0x10FFFF {
        if let Some(c) = char::from_u32(u) {
            assert_eq!(zenity::is_white_space_exec(c), c.is_whitespace(), "U+{u:04X}");
        }
    }
}

#[test]
fn android_tokens_and_permissions() {
    let t = android::token_from_picked_uri("content://com.example/doc/1".into());
    assert_eq!(t.display_name(), "1");
    assert_eq!(t.mime_type(), None);
    let t = android::token_from_picked_uri("noslash".into());
    assert_eq!(t.display_name(), "noslash");
    let t = android::token_from_saved_uri(
        "content://x/y".into(),
        &SaveOptions { mime_type: Some("text/plain".into()), suggested_name: None },
    );
    assert_eq!(t.display_name(), "untitled");
    assert_eq!(t.mime_type(), Some("text/plain"));
    let inner = TokenInner::Android { uri: "content://a".into(), display_name: "a".into(), mime_type: None };
    let granted = vec!["content://b".to_owned(), "content://a".to_owned()];
    assert_eq!(android::check_permission(&inner, &granted, true), PermissionStatus::Valid);
    assert_eq!(android::check_permission(&inner, &granted[..1], true), PermissionStatus::Revoked);
    assert_eq!(android::check_permission(&inner, &[], false), PermissionStatus::Unknown);
    assert_eq!(android::check_permission(&inner, &granted[..1], false), PermissionStatus::Unknown);
    assert_eq!(android::check_permission(&inner, &granted, false), PermissionStatus::Valid);
    let other = TokenInner::Desktop { path: "/a".into(), display_name: "a".into() };
    assert_eq!(android::check_permission(&other, &granted, true), PermissionStatus::Unknown);
    assert_eq!(android::content_uri(&inner).unwrap(), "content://a");
    assert!(matches!(android::content_uri(&other), Err(AccessError::Platform { .. })));
    match android::access_err("detachFd") {
        AccessError::Platform { message } => assert_eq!(message, "detachFd failed"),
        _ => panic!("expected a platform error"),
    }
}

#[test]
fn ios_tokens_and_bookmarks() {
    let t = ios::token_from_url("file:///private/var/notes.pdf");
    assert_eq!(t.display_name(), "notes.pdf");
    assert!(matches!(t.inner, TokenInner::Ios { ref bookmark, .. } if bookmark == b"file:///private/var/notes.pdf"));
    let ts = ios::tokens_from_urls(&["a/b".to_owned(), "c".to_owned()]);
    assert_eq!(ts.len(), 2);
    assert_eq!(ts[1].display_name(), "c");
    assert_eq!(ios::check_bookmark(&[]), PermissionStatus::Revoked);
    assert_eq!(ios::check_bookmark(&[1]), PermissionStatus::Unknown);
    let msg = |e: AccessError| match e {
        AccessError::Platform { message } => message,
        _ => panic!("expected a platform error"),
    };
    assert_eq!(msg(ios::bookmark_open_error(&[0xff])), "invalid bookmark data");
    assert_eq!(
        msg(ios::bookmark_open_error(b"file:///x")),
        "iOS bookmark resolution requires Objective-C runtime"
    );
    let other = TokenInner::Desktop { path: "/a".into(), display_name: "a".into() };
    assert_eq!(msg(ios::open_error(&other)), "non-iOS token on iOS platform");
    assert_eq!(ios::check_permission(&other), PermissionStatus::Unknown);
}

#[test]
fn wasm_tokens() {
    assert_eq!(wasm::accept_attribute(&[]), None);
    assert_eq!(
        wasm::accept_attribute(&["image/png".to_owned(), "image/jpeg".to_owned()]).as_deref(),
        Some("image/png,image/jpeg")
    );
    let t = wasm::token_from_file("a.bin".into(), "".into(), vec![1, 2]);
    assert_eq!(t.mime_type(), None);
    let t = wasm::token_from_file("a.txt".into(), "text/plain".into(), vec![]);
    assert_eq!(t.mime_type(), Some("text/plain"));
    let s = wasm::save_token(&SaveOptions::default());
    assert_eq!(s.display_name(), "download");
    assert_eq!(wasm::token_data(&s.inner).unwrap(), Vec::<u8>::new());
    assert_eq!(wasm::check_permission(&s.inner), PermissionStatus::Valid);
    let other = TokenInner::Desktop { path: "/a".into(), display_name: "a".into() };
    assert_eq!(wasm::check_permission(&other), PermissionStatus::Unknown);
    assert!(wasm::token_data(&other).is_err());
    assert_eq!(wasm::token_data(&t.inner).unwrap(), Vec::<u8>::new());
}

#[test]
fn wasm_writes_reach_the_save_token_buffer() {
    let mut t = wasm::save_token(&SaveOptions {
        mime_type: Some("text/plain".into()),
        suggested_name: None,
    });
    wasm::write_at(&mut t.inner, 0, b"abc").unwrap();
    assert_eq!(wasm::token_data(&t.inner).unwrap(), b"abc".to_vec());
    wasm::write_at(&mut t.inner, 3, b"def").unwrap();
    assert_eq!(wasm::token_data(&t.inner).unwrap(), b"abcdef".to_vec());
    wasm::write_at(&mut t.inner, 1, b"XY").unwrap();
    assert_eq!(wasm::token_data(&t.inner).unwrap(), b"aXYdef".to_vec());
    wasm::write_at(&mut t.inner, 5, b"12").unwrap();
    assert_eq!(wasm::token_data(&t.inner).unwrap(), b"aXYde12".to_vec());
    wasm::write_at(&mut t.inner, 9, b"z").unwrap();
    assert_eq!(wasm::token_data(&t.inner).unwrap(), b"aXYde12\0\0z".to_vec());
    wasm::write_at(&mut t.inner, 2, b"").unwrap();
    assert_eq!(wasm::token_data(&t.inner).unwrap(), b"aXYde12\0\0z".to_vec());
    assert_eq!(t.display_name(), "download");
    assert_eq!(t.mime_type(), Some("text/plain"));
}

#[test]
fn wasm_write_refuses_other_tokens() {
    let mut other = TokenInner::Desktop { path: "/a".into(), display_name: "a".into() };
    match wasm::write_at(&mut other, 0, b"abc") {
        Err(AccessError::Platform { message }) => assert_eq!(message, "non-WASM token on WASM platform"),
        r => panic!("unexpected {r:?}"),
    }
    assert!(matches!(other, TokenInner::Desktop { ref path, .. } if path == "/a"));
}
