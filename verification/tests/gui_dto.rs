use diskscope::domain::{DomainError, FileNode, FileType, IoKind, PathError, ScanResult};
use diskscope::gui::dto::{CommandErrorDto, ErrorKindDto, FileNodeDto, FileTypeDto, FilterDto, PathErrorDto, ScanResultDto};

#[test]
fn file_type_roundtrip() {
    for t in [
        FileType::Audio,
        FileType::Video,
        FileType::Image,
        FileType::Document,
        FileType::Code,
        FileType::Archive,
        FileType::Directory,
        FileType::Other,
    ] {
        assert_eq!(FileType::from(FileTypeDto::from(t)), t);
    }
}

#[test]
fn filter_dto_stamps_now() {
    let dto = FilterDto { max_age: Some(3600), min_size: Some(10), ..Default::default() };
    let f = dto.into_domain();
    assert_eq!(f.max_age, Some(3600));
    assert_eq!(f.min_size, Some(10));
    assert!(f.now > 0, "now must be stamped by into_domain");
}

#[test]
fn filter_dto_converts_kinds_in_order() {
    let dto = FilterDto {
        file_types: Some(vec![FileTypeDto::Video, FileTypeDto::Code]),
        name_pattern: Some("x".to_string()),
        max_depth: Some(3),
        ..Default::default()
    };
    let f = dto.into_domain_at(1234);
    assert_eq!(f.file_types, Some(vec![FileType::Video, FileType::Code]));
    assert_eq!(f.name_pattern, Some("x".to_string()));
    assert_eq!(f.max_depth, Some(3));
    assert_eq!(f.now, 1234);
    assert_eq!(f.min_size, None);
}

#[test]
fn scan_result_dto_round_trip_keeps_the_tree() {
    let node = FileNode {
        path: "/".into(),
        size: 100,
        modified: 1,
        file_type: FileType::Directory,
        children: vec![FileNode { path: "/a.txt".into(), size: 40, modified: 2, file_type: FileType::Document, children: vec![] }],
    };
    let r = ScanResult::from_tree(node.clone(), 5);
    let dto = ScanResultDto::from(&r);
    assert_eq!(dto.total_size, 100);
    assert_eq!(dto.file_count, 2);
    assert_eq!(dto.root.children[0].file_type, FileTypeDto::Document);
    let back = dto.to_domain();
    assert_eq!(back.root, node);
    assert_eq!(back.total_size, 100);
    assert_eq!(back.scan_duration_ms, 5);
    let copy = FileNodeDto::from(&node).to_domain();
    assert_eq!(copy, node);
}

#[test]
fn command_errors_convert_both_ways() {
    let e = CommandErrorDto::from(DomainError::PermissionDenied("/root".into()));
    assert_eq!(e, CommandErrorDto::PermissionDenied("/root".into()));
    let e = CommandErrorDto::from(DomainError::Unsupported("no".into()));
    assert_eq!(e, CommandErrorDto::Io("no".into()));
    let e = CommandErrorDto::from(DomainError::Io(std::io::Error::other("disk")));
    assert_eq!(e, CommandErrorDto::Io("disk".into()));
    match DomainError::from(CommandErrorDto::ScanInProgress("busy".into())) {
        DomainError::InvalidPath(m) => assert_eq!(m, "scan in progress: busy"),
        other => panic!("unexpected {other:?}"),
    }
    match DomainError::from(CommandErrorDto::Io("boom".into())) {
        DomainError::Io(e) => assert_eq!(e.to_string(), "boom"),
        other => panic!("unexpected {other:?}"),
    }
}

#[test]
fn path_error_dto_classifies_the_kind() {
    let e = PathError { path: "/x".into(), kind: IoKind::NotFound, message: "gone".into() };
    let d = PathErrorDto::from(&e);
    assert_eq!(d.path, "/x");
    assert_eq!(d.kind, ErrorKindDto::NotFound);
    assert_eq!(d.message, "gone");
    assert_eq!(ErrorKindDto::from(&std::io::ErrorKind::PermissionDenied), ErrorKindDto::PermissionDenied);
    assert_eq!(ErrorKindDto::from(&std::io::ErrorKind::TimedOut), ErrorKindDto::TimedOut);
    assert_eq!(ErrorKindDto::from(&std::io::ErrorKind::Interrupted), ErrorKindDto::Other);
}

#[test]
fn kinds_outside_the_three_named_ones_are_other() {
    assert_eq!(ErrorKindDto::from(&IoKind::NotFound), ErrorKindDto::NotFound);
    assert_eq!(ErrorKindDto::from(&IoKind::Uncategorized), ErrorKindDto::Other);
    assert_eq!(ErrorKindDto::from(&IoKind::Interrupted), ErrorKindDto::Other);
    let e = PathError::from_io("/y", &std::io::Error::from(std::io::ErrorKind::PermissionDenied));
    assert_eq!(e.kind, IoKind::PermissionDenied);
    assert_eq!(PathErrorDto::from(&e).kind, ErrorKindDto::PermissionDenied);
}
