//! Articles and their text.
use zim_reader::{Article, ContentEntry};

fn fake_entry(mime_idx: u16) -> ContentEntry {
    ContentEntry {
        mime_type_idx: mime_idx,
        namespace: 'C',
        revision: 0,
        cluster_number: 0,
        blob_number: 0,
        path: "p".into(),
        title: "p".into(),
    }
}

#[test]
fn as_text_on_valid_utf8() {
    let a = Article {
        entry: fake_entry(0),
        data: b"<html></html>".to_vec(),
    };
    assert_eq!(a.as_text(), Some("<html></html>"));
    assert!(!a.is_binary());
}

#[test]
fn as_text_on_invalid_utf8() {
    let a = Article {
        entry: fake_entry(0),
        data: vec![0xFF, 0xD8, 0xFF, 0xE0],
    };
    assert_eq!(a.as_text(), None);
    assert!(a.is_binary());
}

#[test]
fn clone_of_an_article_is_equal() {
    let a = Article {
        entry: fake_entry(3),
        data: vec![1, 2, 3],
    };
    let b = a.clone();
    assert_eq!(b.data, vec![1, 2, 3]);
    assert_eq!(b.entry.mime_type_idx, 3);
    assert_eq!(b.entry.path, "p");
}

#[test]
fn empty_data_is_text() {
    let a = Article {
        entry: fake_entry(0),
        data: Vec::new(),
    };
    assert_eq!(a.as_text(), Some(""));
    assert!(!a.is_binary());
}
