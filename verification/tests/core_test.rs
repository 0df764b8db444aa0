use robotcode::dataclasses::{to_camel_case, to_snake_case};
use robotcode::lsp::{position_in_range, Position, PositionExt, Range, RangeExt, TextDocumentContentChangeEvent};
use robotcode::path::{clean_path, innermost_folder, path_is_relative_to, same_file_id, FileId};
use robotcode::text_document::{TextDocument, TextDocumentError};
use robotcode::uri::{Uri, UriError};
use robotcode::workspace::{Workspace, WorkspaceFolder};

#[test]
fn test_position_is_before() {
    let a = Position { line: 0, character: 5 };
    let b = Position { line: 1, character: 0 };
    assert!(a.is_before(&b));
    assert!(!b.is_before(&a));
}

#[test]
fn test_range_contains() {
    let range = Range {
        start: Position { line: 1, character: 2 },
        end: Position { line: 3, character: 4 },
    };
    assert!(range.contains(&Position { line: 2, character: 0 }));
    assert!(!range.contains(&Position { line: 0, character: 0 }));
}

#[test]
fn range_end_is_excluded_but_in_closed_range() {
    let range = Range {
        start: Position { line: 1, character: 2 },
        end: Position { line: 3, character: 4 },
    };
    let end = Position { line: 3, character: 4 };
    assert!(!range.contains(&end));
    assert!(position_in_range(end, range));
}

#[test]
fn ranges_overlap_symmetrically() {
    let a = Range { start: Position { line: 0, character: 0 }, end: Position { line: 2, character: 0 } };
    let b = Range { start: Position { line: 1, character: 0 }, end: Position { line: 3, character: 0 } };
    let c = Range { start: Position { line: 2, character: 0 }, end: Position { line: 4, character: 0 } };
    assert!(a.overlaps(&b) && b.overlaps(&a));
    assert!(!a.overlaps(&c) && !c.overlaps(&a));
}

#[test]
fn position_after_is_reverse_of_before() {
    let a = Position { line: 2, character: 1 };
    let b = Position { line: 2, character: 7 };
    assert!(b.is_after(&a));
    assert!(!a.is_after(&b));
    assert!(!a.is_after(&a) && !a.is_before(&a));
}

#[test]
fn test_to_camel_case() {
    assert_eq!(to_camel_case("hello_world"), "helloWorld");
    assert_eq!(to_camel_case("my_long_field_name"), "myLongFieldName");
    assert_eq!(to_camel_case("already"), "already");
    assert_eq!(to_camel_case(""), "");
}

#[test]
fn test_to_snake_case() {
    assert_eq!(to_snake_case("helloWorld"), "hello_world");
    assert_eq!(to_snake_case("myLongFieldName"), "my_long_field_name");
    assert_eq!(to_snake_case("already"), "already");
    assert_eq!(to_snake_case(""), "");
}

#[test]
fn test_roundtrip() {
    let original = "my_field_name";
    assert_eq!(to_snake_case(&to_camel_case(original)), original);
}

#[test]
fn snake_camel_roundtrip_empty_and_leading_digit() {
    for s in ["", "2fa_code", "x", "a1_b2"] {
        assert_eq!(to_snake_case(&to_camel_case(s)), s);
    }
}

#[test]
fn case_conversion_other_delimiters_and_unicode() {
    assert_eq!(to_camel_case("a-b.c"), "aBC");
    assert_eq!(to_camel_case("Hello_world"), "helloWorld");
    assert_eq!(to_snake_case("a-b.c"), "a_b_c");
    assert_eq!(to_snake_case("ÄpfelÖl"), "äpfel_öl");
    assert_eq!(to_camel_case("über_öl"), "überÖl");
}

#[test]
fn test_path_is_relative_to() {
    assert!(path_is_relative_to("/home/user/project/file.robot", "/home/user/project"));
    assert!(!path_is_relative_to("/home/other/file.robot", "/home/user/project"));
}

#[test]
fn path_is_relative_to_compares_whole_components() {
    assert!(!path_is_relative_to("/home/user/projectX/file.robot", "/home/user/project"));
    assert!(path_is_relative_to("/home/user/project", "/home/user/project"));
}

#[test]
fn clean_path_removes_dots() {
    assert_eq!(clean_path("/home/user/../user/./project"), "/home/user/project");
    assert_eq!(clean_path("/.."), "/");
    assert_eq!(clean_path("/a/b/../../c"), "/c");
}

#[test]
fn same_file_id_needs_two_equal_ids() {
    let a = FileId { dev: 1, ino: 2 };
    let b = FileId { dev: 1, ino: 3 };
    assert!(same_file_id(Some(a), Some(a)));
    assert!(!same_file_id(Some(a), Some(b)));
    assert!(!same_file_id(None, Some(a)));
    assert!(!same_file_id(None, None));
}

fn make_doc(text: &str) -> TextDocument {
    TextDocument::new("file:///test.robot", text, Some("robotframework".to_string()), Some(1)).unwrap()
}

#[test]
fn test_full_change() {
    let mut doc = make_doc("hello world");
    doc.apply_full_change(Some(2), "goodbye world");
    assert_eq!(doc.text(), "goodbye world");
    assert_eq!(doc.version(), Some(2));
}

#[test]
fn test_incremental_change_replaces_range() {
    let mut doc = make_doc("hello world\n");
    let change = TextDocumentContentChangeEvent {
        range: Some(Range {
            start: Position { line: 0, character: 0 },
            end: Position { line: 0, character: 5 },
        }),
        range_length: None,
        text: "goodbye".to_string(),
    };
    doc.apply_change(Some(2), &change).unwrap();
    assert_eq!(doc.text(), "goodbye world\n");
}

#[test]
fn test_apply_change_invalid_range_returns_error() {
    let mut doc = make_doc("hello world\n");
    let change = TextDocumentContentChangeEvent {
        range: Some(Range {
            start: Position { line: 0, character: 5 },
            end: Position { line: 0, character: 0 },
        }),
        range_length: None,
        text: "oops".to_string(),
    };
    assert!(matches!(doc.apply_change(None, &change), Err(TextDocumentError::InvalidRange(_, _))));
    assert_eq!(doc.text(), "hello world\n");
}

#[test]
fn test_position_at() {
    let doc = make_doc("hello\nworld\n");
    let pos = doc.position_at(6);
    assert_eq!(pos.line, 1);
    assert_eq!(pos.character, 0);
}

#[test]
fn test_offset_at() {
    let doc = make_doc("hello\nworld\n");
    let offset = doc.offset_at(Position { line: 1, character: 0 });
    assert_eq!(offset, 6);
}

#[test]
fn offset_and_position_use_utf16_columns() {
    let doc = make_doc("a😀b\nx");
    // The emoji takes two UTF-16 code units.
    assert_eq!(doc.offset_at(Position { line: 0, character: 3 }), 2);
    // A column inside the emoji stops at its start.
    assert_eq!(doc.offset_at(Position { line: 0, character: 2 }), 1);
    let p = doc.position_at(2);
    assert_eq!((p.line, p.character), (0, 3));
    // Lines past the end clamp to the last line.
    assert_eq!(doc.offset_at(Position { line: 9, character: 0 }), 4);
    assert_eq!(doc.offset_at(Position { line: 9, character: 7 }), 5);
    // Offsets past the end denote the end.
    let end = doc.position_at(100);
    assert_eq!((end.line, end.character), (1, 1));
}

#[test]
fn offset_position_roundtrip_on_every_offset() {
    let doc = make_doc("ab\r\ncd\u{2028}é😀\n");
    let len = doc.text().chars().count();
    for o in 0..=len {
        let p = doc.position_at(o);
        assert_eq!(doc.offset_at(p), o);
    }
}

#[test]
fn apply_changes_stops_at_first_invalid_change_and_keeps_version() {
    let mut doc = make_doc("abc\n");
    let good = TextDocumentContentChangeEvent {
        range: Some(Range { start: Position { line: 0, character: 1 }, end: Position { line: 0, character: 2 } }),
        range_length: None,
        text: "X".to_string(),
    };
    let bad = TextDocumentContentChangeEvent {
        range: Some(Range { start: Position { line: 0, character: 2 }, end: Position { line: 0, character: 1 } }),
        range_length: None,
        text: "Y".to_string(),
    };
    let r = doc.apply_changes(Some(5), &[good.clone(), bad, good]);
    assert!(matches!(
        r,
        Err(TextDocumentError::InvalidRange(s, e))
            if s == Position { line: 0, character: 2 } && e == Position { line: 0, character: 1 }
    ));
    assert_eq!(doc.text(), "aXc\n");
    assert_eq!(doc.version(), Some(1));
    let ok = doc.apply_changes(Some(6), &[TextDocumentContentChangeEvent { range: None, range_length: None, text: "new".to_string() }]);
    assert!(ok.is_ok());
    assert_eq!(doc.text(), "new");
    assert_eq!(doc.version(), Some(6));
}

#[test]
fn get_text_returns_range_or_error() {
    let doc = make_doc("hello\nworld\n");
    let r = Range { start: Position { line: 0, character: 1 }, end: Position { line: 1, character: 3 } };
    assert_eq!(doc.get_text(r).unwrap(), "ello\nwor");
    let inverted = Range { start: Position { line: 1, character: 0 }, end: Position { line: 0, character: 0 } };
    assert!(matches!(doc.get_text(inverted), Err(TextDocumentError::InvalidRange(_, _))));
    assert_eq!(doc.line_count(), 3);
}

#[test]
fn innermost_folder_prefers_longest_then_last() {
    let folders = vec![
        Some("/home/user".to_string()),
        None,
        Some("/home/user/project".to_string()),
        Some("/home/other".to_string()),
        Some("/home/user/projekt".to_string()),
    ];
    assert_eq!(innermost_folder("/home/user/project/tests/a.robot", &folders), Some(2));
    assert_eq!(innermost_folder("/home/user/x.robot", &folders), Some(0));
    assert_eq!(innermost_folder("/srv/x.robot", &folders), None);
    let ties = vec![Some("/a".to_string()), Some("/a".to_string())];
    assert_eq!(innermost_folder("/a/b", &ties), Some(1));
}

#[test]
fn case_conversion_first_char_lowered() {
    assert_eq!(to_camel_case("Über_straße"), "überStraße");
    assert_eq!(to_snake_case("ÜberStraße"), "über_straße");
}

#[test]
fn test_parse_file_uri() {
    let uri = Uri::parse("file:///home/user/project/test.robot").unwrap();
    assert_eq!(uri.scheme(), "file");
    assert_eq!(uri.path(), "/home/user/project/test.robot");
}

#[test]
fn test_display() {
    let uri = Uri::parse("file:///home/user/test.robot").unwrap();
    assert_eq!(uri.to_string(), "file:///home/user/test.robot");
}

#[test]
fn test_equality() {
    let a = Uri::parse("file:///home/user/test.robot").unwrap();
    let b = Uri::parse("file:///home/user/test.robot").unwrap();
    assert_eq!(a, b);
    assert_eq!(Uri::parse("FILE:///home/user/test.robot").unwrap(), a);
}

#[test]
fn uri_path_roundtrip_and_errors() {
    let uri = Uri::from_path("/tmp/suite dir/a.robot").unwrap();
    assert_eq!(uri.to_string(), "file:///tmp/suite%20dir/a.robot");
    assert_eq!(uri.to_path().unwrap(), "/tmp/suite dir/a.robot");
    assert!(matches!(Uri::parse("not a uri"), Err(UriError::Parse(_))));
    assert!(matches!(Uri::from_path("relative/path"), Err(UriError::PathConversion(p)) if p == "relative/path"));
    let http = Uri::parse("https://example.com:8080/a/b?x=1#frag").unwrap();
    assert!(matches!(http.to_path(), Err(UriError::InvalidScheme(s)) if s == "https"));
    assert_eq!(http.host().as_deref(), Some("example.com"));
    assert_eq!(http.query().as_deref(), Some("x=1"));
    assert_eq!(http.fragment().as_deref(), Some("frag"));
    assert_eq!(http.normalized(), http);
    let moved = http.with_path("/c").unwrap();
    assert_eq!(moved.to_string(), "https://example.com:8080/c?x=1#frag");
    assert_eq!(uri.as_url().as_str(), "file:///tmp/suite%20dir/a.robot");
}

#[test]
fn file_uri_normalizes_its_path() {
    let uri = Uri::parse("file:///home/user/%2E%2E/x.robot").unwrap();
    let n = uri.normalized();
    assert_eq!(n.to_path().unwrap(), "/home/x.robot");
    let doc = TextDocument::new("file:///home/user/%2E%2E/x.robot", "", None, None).unwrap();
    assert_eq!(doc.uri, n);
    assert!(matches!(TextDocument::new("::", "", None, None), Err(TextDocumentError::Uri(UriError::Parse(_)))));
}

#[test]
fn test_workspace_folder_for_uri() {
    let folder = WorkspaceFolder::new("project".to_string(), Uri::parse("file:///home/user/project").unwrap());
    let ws = Workspace::new(None, vec![folder], serde_json::Value::Null);
    let found = ws.folder_for_uri(&Uri::parse("file:///home/user/project/tests/test.robot").unwrap());
    assert!(found.is_some());
    assert_eq!(found.unwrap().name, "project");
}

#[test]
fn test_workspace_no_matching_folder() {
    let folder = WorkspaceFolder::new("project".to_string(), Uri::parse("file:///home/user/project").unwrap());
    let ws = Workspace::new(None, vec![folder], serde_json::Value::Null);
    let found = ws.folder_for_uri(&Uri::parse("file:///home/other/file.robot").unwrap());
    assert!(found.is_none());
}

#[test]
fn workspace_prefers_innermost_folder() {
    let outer = WorkspaceFolder::new("outer".to_string(), Uri::parse("file:///home/user").unwrap());
    let inner = WorkspaceFolder::new("inner".to_string(), Uri::parse("file:///home/user/project").unwrap());
    let web = WorkspaceFolder::new("web".to_string(), Uri::parse("https://example.com/home/user/project/x").unwrap());
    let mut ws = Workspace::new(None, vec![inner.clone(), outer.clone()], serde_json::Value::Null);
    let target = Uri::parse("file:///home/user/project/a.robot").unwrap();
    assert_eq!(ws.folder_for_uri(&target).unwrap().name, "inner");
    ws.set_folders(vec![outer, web, inner]);
    assert_eq!(ws.folder_for_uri(&target).unwrap().name, "inner");
    assert_eq!(ws.folders().len(), 3);
    let mut settings = serde_json::Map::new();
    settings.insert("a".to_string(), serde_json::Value::from(1));
    ws.set_settings(serde_json::Value::Object(settings));
    assert_eq!(ws.settings()["a"], 1);
}
