use base64::engine::general_purpose::URL_SAFE_NO_PAD;
use base64::Engine as _;
use loki_file_access::{FileAccessToken, PermissionStatus, TokenInner, TokenParseError};

fn desktop(path: &str, name: &str) -> FileAccessToken {
    FileAccessToken {
        inner: TokenInner::Desktop {
            path: path.into(),
            display_name: name.into(),
        },
    }
}

fn decoded_json(serialized: &str) -> String {
    String::from_utf8(URL_SAFE_NO_PAD.decode(serialized).unwrap()).unwrap()
}

fn from_json(json: &str) -> Result<FileAccessToken, TokenParseError> {
    FileAccessToken::deserialize(&URL_SAFE_NO_PAD.encode(json.as_bytes()))
}

/// Builds a desktop token through the stored format, as serde_json writes it.
fn create_desktop_token(path: &std::path::Path, name: &str) -> FileAccessToken {
    let mut fields = serde_json::Map::new();
    fields.insert(
        "path".to_owned(),
        serde_json::Value::String(path.to_str().unwrap().to_owned()),
    );
    fields.insert(
        "display_name".to_owned(),
        serde_json::Value::String(name.to_owned()),
    );
    let mut outer = serde_json::Map::new();
    outer.insert("Desktop".to_owned(), serde_json::Value::Object(fields));
    let json = serde_json::Value::Object(outer).to_string();
    let encoded = URL_SAFE_NO_PAD.encode(json.as_bytes());
    FileAccessToken::deserialize(&encoded).unwrap()
}

#[test]
fn round_trip_desktop_token() {
    let token = desktop("/tmp/test.txt", "test.txt");
    let serialized = token.serialize();
    let restored = FileAccessToken::deserialize(&serialized).unwrap();
    assert_eq!(restored.display_name(), "test.txt");
    assert!(restored.mime_type().is_none());
}

#[test]
fn round_trip_android_token() {
    let token = FileAccessToken {
        inner: TokenInner::Android {
            uri: "content://com.example/doc/1".into(),
            display_name: "photo.jpg".into(),
            mime_type: Some("image/jpeg".into()),
        },
    };
    let serialized = token.serialize();
    let restored = FileAccessToken::deserialize(&serialized).unwrap();
    assert_eq!(restored.display_name(), "photo.jpg");
    assert_eq!(restored.mime_type(), Some("image/jpeg"));
}

#[test]
fn round_trip_ios_token() {
    let token = FileAccessToken {
        inner: TokenInner::Ios {
            bookmark: vec![0xDE, 0xAD, 0xBE, 0xEF],
            display_name: "notes.pdf".into(),
            mime_type: Some("application/pdf".into()),
        },
    };
    let serialized = token.serialize();
    let restored = FileAccessToken::deserialize(&serialized).unwrap();
    assert_eq!(restored.display_name(), "notes.pdf");
    assert_eq!(restored.mime_type(), Some("application/pdf"));
}

#[test]
fn round_trip_wasm_token() {
    let token = FileAccessToken {
        inner: TokenInner::Wasm {
            data: vec![1, 2, 3, 4, 5],
            name: "data.bin".into(),
            mime_type: Some("application/octet-stream".into()),
        },
    };
    let serialized = token.serialize();
    let restored = FileAccessToken::deserialize(&serialized).unwrap();
    assert_eq!(restored.display_name(), "data.bin");
    assert_eq!(restored.mime_type(), Some("application/octet-stream"));
}

#[test]
fn deserialize_invalid_base64_returns_error() {
    let result = FileAccessToken::deserialize("not!valid!base64!!!");
    assert!(result.is_err());
    assert!(matches!(
        result.unwrap_err(),
        TokenParseError::InvalidBase64 { .. }
    ));
}

#[test]
fn deserialize_invalid_json_returns_error() {
    let bad = URL_SAFE_NO_PAD.encode(b"not json");
    let result = FileAccessToken::deserialize(&bad);
    assert!(result.is_err());
    assert!(matches!(
        result.unwrap_err(),
        TokenParseError::InvalidJson { .. }
    ));
}

#[test]
fn display_and_from_str_round_trip() {
    let token = desktop("/tmp/x.txt", "x.txt");
    let s = token.to_string();
    let restored: FileAccessToken = s.parse().unwrap();
    assert_eq!(restored.display_name(), "x.txt");
}

#[test]
fn check_permission_returns_revoked_for_missing_file() {
    let path = std::path::Path::new("/tmp/nonexistent_loki_test_file_12345.txt");
    let token = create_desktop_token(path, "nonexistent.txt");
    assert_eq!(token.check_permission(path.exists()), PermissionStatus::Revoked);
}

#[test]
fn display_name_returns_filename() {
    let token = create_desktop_token(std::path::Path::new("/tmp/example.csv"), "example.csv");
    assert_eq!(token.display_name(), "example.csv");
}

#[test]
fn mime_type_is_none_for_desktop() {
    let token = create_desktop_token(std::path::Path::new("/tmp/file.txt"), "file.txt");
    assert!(token.mime_type().is_none());
}

#[test]
fn check_permission_on_desktop_follows_the_path() {
    let token = desktop("/tmp/a", "a");
    assert_eq!(token.check_permission(true), PermissionStatus::Valid);
    assert_eq!(token.check_permission(false), PermissionStatus::Revoked);
    let other = FileAccessToken {
        inner: TokenInner::Wasm { data: vec![], name: "n".into(), mime_type: None },
    };
    assert_eq!(other.check_permission(true), PermissionStatus::Unknown);
}

#[test]
fn open_targets_only_desktop_paths() {
    let token = desktop("/tmp/read.txt", "read.txt");
    assert_eq!(token.open_read().unwrap(), "/tmp/read.txt");
    assert_eq!(token.open_write().unwrap(), "/tmp/read.txt");
    let other = FileAccessToken {
        inner: TokenInner::Android { uri: "content://x".into(), display_name: "x".into(), mime_type: None },
    };
    match other.open_read() {
        Err(loki_file_access::AccessError::Platform { message }) => {
            assert_eq!(message, "non-desktop token on desktop platform")
        }
        _ => panic!("expected a platform error"),
    }
    assert!(other.open_write().is_err());
}

#[test]
fn serialized_text_is_compact_json_in_declaration_order() {
    let token = desktop("/tmp/x.txt", "x.txt");
    assert_eq!(
        decoded_json(&token.serialize()),
        r#"{"Desktop":{"path":"/tmp/x.txt","display_name":"x.txt"}}"#
    );
    let android = FileAccessToken {
        inner: TokenInner::Android { uri: "u".into(), display_name: "d".into(), mime_type: None },
    };
    assert_eq!(
        decoded_json(&android.serialize()),
        r#"{"Android":{"uri":"u","display_name":"d","mime_type":null}}"#
    );
    let ios = FileAccessToken {
        inner: TokenInner::Ios { bookmark: vec![0, 9, 10, 99, 100, 255], display_name: "b".into(), mime_type: Some("t/p".into()) },
    };
    assert_eq!(
        decoded_json(&ios.serialize()),
        r#"{"Ios":{"bookmark":[0,9,10,99,100,255],"display_name":"b","mime_type":"t/p"}}"#
    );
    let wasm = FileAccessToken {
        inner: TokenInner::Wasm { data: vec![], name: "n".into(), mime_type: None },
    };
    assert_eq!(
        decoded_json(&wasm.serialize()),
        r#"{"Wasm":{"data":[],"name":"n","mime_type":null}}"#
    );
    assert_eq!(token.serialize(), token.to_string());
}

#[test]
fn serialized_strings_are_escaped_as_serde_json_escapes_them() {
    let tricky = "q\"b\\s/\u{8}\u{c}\n\r\t\u{1}\u{1f}\u{7f}é😀 end";
    let token = desktop(tricky, tricky);
    let json = decoded_json(&token.serialize());
    let escaped = serde_json::to_string(tricky).unwrap();
    assert_eq!(json, format!("{{\"Desktop\":{{\"path\":{escaped},\"display_name\":{escaped}}}}}"));
    let restored = FileAccessToken::deserialize(&token.serialize()).unwrap();
    match restored.inner {
        TokenInner::Desktop { path, display_name } => {
            assert_eq!(path, tricky);
            assert_eq!(display_name, tricky);
        }
        _ => panic!("wrong variant"),
    }
}

#[test]
fn serialized_text_parses_with_serde_json() {
    let token = FileAccessToken {
        inner: TokenInner::Ios { bookmark: vec![1, 2, 3], display_name: "a\"b".into(), mime_type: None },
    };
    let v: serde_json::Value = serde_json::from_str(&decoded_json(&token.serialize())).unwrap();
    assert_eq!(v["Ios"]["bookmark"][2], serde_json::Value::from(3));
    assert_eq!(v["Ios"]["display_name"], serde_json::Value::from("a\"b"));
    assert!(v["Ios"]["mime_type"].is_null());
}

#[test]
fn reading_accepts_every_shape_serde_accepts() {
    let ok = [
        r#" { "Desktop" : { "display_name" : "n" , "path" : "/p" } } "#,
        r#"{"Desktop":["/p","n"]}"#,
        r#"{"Desktop":{"path":"/p","extra":{"a":[1,2.5e-3,true,false,null,"\ud800"]},"display_name":"n"}}"#,
        "{\"Desktop\":{\"path\":\"/p\",\n\t\"display_name\":\"n\"}}\r\n",
    ];
    for json in ok {
        let t = from_json(json).unwrap_or_else(|e| panic!("{json}: {e:?}"));
        match t.inner {
            TokenInner::Desktop { path, display_name } => {
                assert_eq!(path, "/p");
                assert_eq!(display_name, "n");
            }
            _ => panic!("wrong variant"),
        }
    }
    let t = from_json(r#"{"Android":{"uri":"u","display_name":"d"}}"#).unwrap();
    assert_eq!(t.mime_type(), None);
    let t = from_json(r#"{"Wasm":{"data":[0, 255],"name":"\u00e9\ud83d\ude00","mime_type":"m"}}"#).unwrap();
    match t.inner {
        TokenInner::Wasm { data, name, mime_type } => {
            assert_eq!(data, vec![0, 255]);
            assert_eq!(name, "é😀");
            assert_eq!(mime_type.as_deref(), Some("m"));
        }
        _ => panic!("wrong variant"),
    }
}

#[test]
fn reading_refuses_what_serde_refuses() {
    let bad = [
        r#"{"Desktop":{"path":"/p"}}"#,
        r#"{"Desktop":{"path":"/p","path":"/q","display_name":"n"}}"#,
        r#"{"Desktop":{"path":1,"display_name":"n"}}"#,
        r#"{"Desktop":{"path":"/p","display_name":"n"}} x"#,
        r#"{"Desktop":{"path":"/p","display_name":"n"},"Wasm":{}}"#,
        r#"{"Desktop":{"path":"/p","display_name":"n",}}"#,
        r#"{"Desktop":["/p"]}"#,
        r#"{"Desktop":["/p","n","x"]}"#,
        r#"{"Wasm":{"data":[256],"name":"n"}}"#,
        r#"{"Wasm":{"data":[-1],"name":"n"}}"#,
        r#"{"Wasm":{"data":[1.0],"name":"n"}}"#,
        r#"{"Wasm":{"data":[01],"name":"n"}}"#,
        r#"{"Wasm":{"data":[1,],"name":"n"}}"#,
        r#"{"Desktop":{"path":"\ud800","display_name":"n"}}"#,
        r#"{"Desktop":{"path":"a	b","display_name":"n"}}"#,
        r#"{"Desktop":{"path":"/p","display_name":"n","x":[1,]}}"#,
        r#""Desktop""#,
        "",
        "{}",
    ];
    for json in bad {
        let r = from_json(json);
        assert!(matches!(r, Err(TokenParseError::InvalidJson { .. })), "{json} must be refused");
    }
}

#[test]
fn payloads_that_are_not_utf8_are_base64_errors() {
    let encoded = URL_SAFE_NO_PAD.encode([0xff, 0xfe]);
    assert!(matches!(
        FileAccessToken::deserialize(&encoded),
        Err(TokenParseError::InvalidBase64 { .. })
    ));
    assert!(matches!(
        FileAccessToken::deserialize("aGVsbG8="),
        Err(TokenParseError::InvalidBase64 { .. })
    ));
}

#[test]
fn display_name_and_mime_type_of_each_platform() {
    let a = FileAccessToken {
        inner: TokenInner::Android { uri: "u".into(), display_name: "d".into(), mime_type: Some("m".into()) },
    };
    assert_eq!(a.display_name(), "d");
    assert_eq!(a.mime_type(), Some("m"));
    let w = FileAccessToken {
        inner: TokenInner::Wasm { data: vec![1], name: "w".into(), mime_type: None },
    };
    assert_eq!(w.display_name(), "w");
    assert_eq!(w.mime_type(), None);
}

#[test]
fn unknown_platform_tag_is_unknown_variant() {
    let r = from_json(r#"{"FuturePlatform":{}}"#);
    match r {
        Err(TokenParseError::UnknownVariant { variant }) => assert_eq!(variant, "FuturePlatform"),
        other => panic!("expected UnknownVariant, got {other:?}"),
    }
    let r = from_json(r#" { "Linux" : {"path":"/p","display_name":"n","x":[1,{"y":null}]} } "#);
    assert!(matches!(r, Err(TokenParseError::UnknownVariant { ref variant }) if variant == "Linux"));
    let r = from_json(r#"{"Linux":[true,false,-1.5e3,"\u0041"]}"#);
    assert!(matches!(r, Err(TokenParseError::UnknownVariant { ref variant }) if variant == "Linux"));
}

#[test]
fn unknown_platform_tag_in_malformed_json_is_invalid_json() {
    for json in [
        r#"{"Linux":}"#,
        r#"{"Linux":{}"#,
        r#"{"Linux":{}} x"#,
        r#"{"Linux":[1,]}"#,
        r#"{"Linux":{},"Wasm":{}}"#,
    ] {
        let r = from_json(json);
        assert!(matches!(r, Err(TokenParseError::InvalidJson { .. })), "{json} must be invalid JSON");
    }
}

#[test]
fn serialized_text_is_url_safe_base64_without_padding() {
    let token = desktop("/a?", "a?");
    let json = r#"{"Desktop":{"path":"/a?","display_name":"a?"}}"#;
    assert_eq!(token.serialize(), URL_SAFE_NO_PAD.encode(json.as_bytes()));
    assert_eq!(
        token.serialize(),
        "eyJEZXNrdG9wIjp7InBhdGgiOiIvYT8iLCJkaXNwbGF5X25hbWUiOiJhPyJ9fQ"
    );
    assert!(token
        .serialize()
        .chars()
        .all(|c| c.is_ascii_alphanumeric() || c == '-' || c == '_'));
}

#[test]
fn deeply_nested_unknown_field_is_skipped() {
    let depth = 200_000;
    let nested = format!("{}{}", "[".repeat(depth), "]".repeat(depth));
    let json = format!(r#"{{"Desktop":{{"x":{nested},"path":"/p","display_name":"n"}}}}"#);
    let token = from_json(&json).unwrap();
    assert_eq!(token.display_name(), "n");
    assert_eq!(token.open_read().unwrap(), "/p");
    let objects = format!("{}1{}", r#"{"a":"#.repeat(depth), "}".repeat(depth));
    let r = from_json(&format!(r#"{{"FuturePlatform":{objects}}}"#));
    assert!(matches!(r, Err(TokenParseError::UnknownVariant { ref variant }) if variant == "FuturePlatform"));
    let unclosed = "[".repeat(depth);
    let r = from_json(&format!(r#"{{"Desktop":{{"x":{unclosed},"path":"/p","display_name":"n"}}}}"#));
    assert!(matches!(r, Err(TokenParseError::InvalidJson { .. })));
}
