use oneagent::entity::{EntityId, EntityName};
use oneagent::source::{
    SourceLocation, SourcePath, SourcePathErrorKind, SourcePosition, SourceSpan,
    MAX_SOURCE_PATH_BYTES,
};

#[test]
fn entity_id_rejects_empty_value() {
    assert!(EntityId::new("   ").is_err());
}

#[test]
fn entity_name_preserves_value() {
    let name = EntityName::new("SalesDocument").expect("name must be valid");

    assert_eq!(name.as_str(), "SalesDocument");
}

#[test]
fn entity_id_accepts_inner_whitespace_and_rejects_empty() {
    assert!(EntityId::new("").is_err());
    assert!(EntityName::new("\t\n").is_err());
    assert_eq!(EntityId::new(" a b ").expect("id must be valid").as_str(), " a b ");
    assert_eq!(
        EntityName::from_string(String::from("Name")).expect("name must be valid").as_str(),
        "Name"
    );
}

#[test]
fn source_path_normalizes_supported_absolute_and_relative_values() {
    let relative = SourcePath::new("src\\CommonModules\\Sales\\Module.bsl")
        .expect("relative source path must pass");
    let posix = SourcePath::new("/workspace/configuration/Module.bsl")
        .expect("POSIX source path must pass");
    let windows = SourcePath::new("C:\\workspace\\configuration\\Module.bsl")
        .expect("Windows source path must pass");
    let unc = SourcePath::new("\\\\server\\share\\Module.bsl").expect("UNC source path must pass");

    assert_eq!(relative.as_str(), "src/CommonModules/Sales/Module.bsl");
    assert_eq!(posix.as_str(), "/workspace/configuration/Module.bsl");
    assert_eq!(windows.as_str(), "C:/workspace/configuration/Module.bsl");
    assert_eq!(unc.as_str(), "//server/share/Module.bsl");
}

#[test]
fn source_path_enforces_exact_bound_and_closed_invalid_shapes() {
    assert!(SourcePath::new(&"a".repeat(MAX_SOURCE_PATH_BYTES)).is_ok());
    assert_eq!(
        SourcePath::new(&"a".repeat(MAX_SOURCE_PATH_BYTES + 1))
            .expect_err("one-over path must fail")
            .kind(),
        SourcePathErrorKind::TooLong
    );

    for (value, kind) in [
        ("", SourcePathErrorKind::Empty),
        ("src//Module.bsl", SourcePathErrorKind::Malformed),
        ("src/./Module.bsl", SourcePathErrorKind::Traversal),
        ("src/../Module.bsl", SourcePathErrorKind::Traversal),
        ("src/Module.bsl/", SourcePathErrorKind::Malformed),
        ("C:Module.bsl", SourcePathErrorKind::Malformed),
        ("src/\0/Module.bsl", SourcePathErrorKind::Malformed),
    ] {
        assert_eq!(
            SourcePath::new(value)
                .expect_err("invalid source path must fail")
                .kind(),
            kind
        );
    }
}

#[test]
fn source_path_byte_bound_counts_utf8_bytes_and_renormalizes_identically() {
    let wide = "я".repeat(MAX_SOURCE_PATH_BYTES / 2);
    assert!(SourcePath::new(&wide).is_ok());
    let over = format!("{wide}a");
    assert_eq!(
        SourcePath::new(&over).expect_err("over-bound path must fail").kind(),
        SourcePathErrorKind::TooLong
    );
    assert_eq!(SourcePath::new("/").expect_err("root only").kind(), SourcePathErrorKind::Malformed);
    assert_eq!(SourcePath::new("1:/x").expect_err("digit drive").kind(), SourcePathErrorKind::Malformed);
    assert_eq!(SourcePath::new("a//./b").expect_err("empty first").kind(), SourcePathErrorKind::Malformed);
    let path = SourcePath::new("C:\\a\\b.bsl").expect("path must pass");
    let again = SourcePath::new(path.as_str()).expect("normalized path must pass");
    assert_eq!(path, again);
}

#[test]
fn source_positions_spans_and_locations_are_one_based_and_ordered() {
    assert!(SourcePosition::new(0, 1).is_err());
    assert!(SourcePosition::new(1, 0).is_err());
    let start = SourcePosition::new(12, 1).expect("position must pass");
    let end = SourcePosition::new(12, 8).expect("position must pass");
    let point = SourceSpan::new(start, start).expect("point span must pass");
    let range = SourceSpan::new(start, end).expect("ordered span must pass");

    assert!(SourceSpan::new(end, start).is_err());
    assert_eq!(point.start(), point.end());
    assert_eq!(range.start().line(), 12);
    assert_eq!(range.end().column(), 8);

    let path = SourcePath::new("src/Module.bsl").expect("path must pass");
    let location = SourceLocation::new(path.clone(), Some(point));
    assert_eq!(location.path(), &path);
    assert_eq!(location.span(), Some(point));
}

#[test]
fn trimming_trimmed_text_changes_nothing() {
    for value in ["  padded \t", "plain", " \u{3000}юникод\u{3000} ", "", "   "] {
        let once = oneagent::text::trimmed(value);
        let twice = oneagent::text::trimmed(once.as_str());
        assert_eq!(once, twice);
        assert_eq!(once, value.trim());
    }
}
