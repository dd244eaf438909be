//! Namespace conventions.
use zim_reader::namespace::detect_namespace_mode;
use zim_reader::{article_namespace, metadata_namespace, Header, NamespaceMode};

fn header_with_version(major: u16, minor: u16) -> Header {
    Header {
        magic_number: 0x044D_495A,
        major_version: major,
        minor_version: minor,
        uuid: [0; 16],
        entry_count: 0,
        cluster_count: 0,
        path_ptr_pos: 0,
        title_ptr_pos: 0,
        cluster_ptr_pos: 0,
        mime_list_pos: 80,
        main_page: None,
        layout_page: None,
        checksum_pos: 0,
    }
}

#[test]
fn v6_1_is_new() {
    assert_eq!(
        detect_namespace_mode(&header_with_version(6, 1)),
        NamespaceMode::New
    );
}

#[test]
fn v6_0_is_legacy() {
    assert_eq!(
        detect_namespace_mode(&header_with_version(6, 0)),
        NamespaceMode::Legacy
    );
}

#[test]
fn v5_is_legacy() {
    assert_eq!(
        detect_namespace_mode(&header_with_version(5, 0)),
        NamespaceMode::Legacy
    );
}

#[test]
fn namespace_helpers() {
    assert_eq!(article_namespace(NamespaceMode::New), 'C');
    assert_eq!(article_namespace(NamespaceMode::Legacy), 'A');
    assert_eq!(metadata_namespace(NamespaceMode::New), 'M');
    assert_eq!(metadata_namespace(NamespaceMode::Legacy), '-');
}

#[test]
fn later_minor_versions_are_new() {
    assert_eq!(
        detect_namespace_mode(&header_with_version(6, 3)),
        NamespaceMode::New
    );
    assert_eq!(
        detect_namespace_mode(&header_with_version(5, 1)),
        NamespaceMode::Legacy
    );
}
