//! Lookup, iteration and content, on archives built in memory.
use std::io::Write;
use xz2::write::XzEncoder;
use zim_reader::content::MAX_REDIRECT_DEPTH;
use zim_reader::order::{compare, starts_with, Order};
use zim_reader::{
    article_namespace, Archive, ArchiveOptions, Article, ContentEntry, Dirent, Error,
    NamespaceMode, VerifyChecksum,
};

/// A directory entry to write.
#[derive(Clone)]
struct Item {
    mime: u16,
    namespace: u8,
    target: u32,
    blob: u32,
    path: &'static str,
    title: &'static str,
}

fn content_item(namespace: u8, path: &'static str, title: &'static str, cluster: u32, blob: u32) -> Item {
    Item { mime: 0, namespace, target: cluster, blob, path, title }
}

fn redirect_item(namespace: u8, path: &'static str, target: u32) -> Item {
    Item { mime: 0xFFFF, namespace, target, blob: 0, path, title: "" }
}

fn cluster_of(info: u8, blobs: &[&[u8]]) -> Vec<u8> {
    let width: usize = if info & 0x10 != 0 { 8 } else { 4 };
    let mut payload: Vec<u8> = Vec::new();
    let mut running = (blobs.len() + 1) * width;
    for b in blobs {
        payload.extend_from_slice(&(running as u64).to_le_bytes()[..width]);
        running += b.len();
    }
    payload.extend_from_slice(&(running as u64).to_le_bytes()[..width]);
    for b in blobs {
        payload.extend_from_slice(b);
    }
    let mut out = vec![info];
    match info & 0x0F {
        4 => {
            let mut enc = XzEncoder::new(Vec::new(), 6);
            enc.write_all(&payload).unwrap();
            out.extend_from_slice(&enc.finish().unwrap());
        }
        5 => out.extend_from_slice(&zstd::encode_all(&payload[..], 3).unwrap()),
        _ => out.extend_from_slice(&payload),
    }
    out
}

/// Where the parts of a written archive start.
struct Layout {
    path_list: usize,
    dirents: Vec<usize>,
    cluster_list: usize,
    clusters: Vec<usize>,
}

fn write_archive(
    version: (u16, u16),
    main_page: u32,
    items: &[Item],
    clusters: &[Vec<u8>],
) -> (Vec<u8>, Layout) {
    let mimes: &[u8] = b"text/html\0image/png\0text/plain\0\0";
    let path_list = 80 + mimes.len();
    let title_list = path_list + 8 * items.len();
    let dirents_start = title_list + 4 * items.len();

    let mut dirents: Vec<u8> = Vec::new();
    let mut offsets = Vec::new();
    for item in items {
        offsets.push(dirents_start + dirents.len());
        dirents.extend_from_slice(&item.mime.to_le_bytes());
        dirents.push(0);
        dirents.push(item.namespace);
        dirents.extend_from_slice(&0u32.to_le_bytes());
        dirents.extend_from_slice(&item.target.to_le_bytes());
        if item.mime != 0xFFFF {
            dirents.extend_from_slice(&item.blob.to_le_bytes());
        }
        dirents.extend_from_slice(item.path.as_bytes());
        dirents.push(0);
        dirents.extend_from_slice(item.title.as_bytes());
        dirents.push(0);
    }
    let cluster_list = dirents_start + dirents.len();
    let mut at = cluster_list + 8 * clusters.len();
    let mut cluster_offsets = Vec::new();
    for c in clusters {
        cluster_offsets.push(at);
        at += c.len();
    }

    let mut by_title: Vec<u32> = (0..items.len() as u32).collect();
    by_title.sort_by_key(|i| {
        let item = &items[*i as usize];
        let title = if item.title.is_empty() { item.path } else { item.title };
        (item.namespace, title.as_bytes().to_vec())
    });

    let mut buf: Vec<u8> = Vec::new();
    buf.extend_from_slice(&0x044D_495Au32.to_le_bytes());
    buf.extend_from_slice(&version.0.to_le_bytes());
    buf.extend_from_slice(&version.1.to_le_bytes());
    buf.extend_from_slice(&[0x22; 16]);
    buf.extend_from_slice(&(items.len() as u32).to_le_bytes());
    buf.extend_from_slice(&(clusters.len() as u32).to_le_bytes());
    buf.extend_from_slice(&(path_list as u64).to_le_bytes());
    buf.extend_from_slice(&(title_list as u64).to_le_bytes());
    buf.extend_from_slice(&(cluster_list as u64).to_le_bytes());
    buf.extend_from_slice(&80u64.to_le_bytes());
    buf.extend_from_slice(&main_page.to_le_bytes());
    buf.extend_from_slice(&0xFFFF_FFFFu32.to_le_bytes());
    buf.extend_from_slice(&(at as u64).to_le_bytes());
    buf.extend_from_slice(mimes);
    for off in &offsets {
        buf.extend_from_slice(&(*off as u64).to_le_bytes());
    }
    for idx in &by_title {
        buf.extend_from_slice(&idx.to_le_bytes());
    }
    buf.extend_from_slice(&dirents);
    for off in &cluster_offsets {
        buf.extend_from_slice(&(*off as u64).to_le_bytes());
    }
    for c in clusters {
        buf.extend_from_slice(c);
    }
    assert_eq!(buf.len(), at);
    buf.extend_from_slice(&[0; 16]);
    (
        buf,
        Layout { path_list, dirents: offsets, cluster_list, clusters: cluster_offsets },
    )
}

/// A version 5 archive: articles under `A`, an image, metadata under `-`.
fn small_v5() -> (Vec<u8>, Layout) {
    let items = [
        content_item(b'-', "Title", "", 0, 2),
        content_item(b'A', "Apple", "Apple pie", 0, 0),
        content_item(b'A', "Banana", "", 0, 1),
        redirect_item(b'A', "Pomme", 1),
        Item { mime: 1, ..content_item(b'I', "logo.png", "", 1, 0) },
    ];
    let clusters = [
        cluster_of(0x01, &[b"<p>apple</p>", b"<p>banana</p>", b"Small v5"]),
        cluster_of(0x04, &[&[0x89, b'P', b'N', b'G', 0xFF]]),
    ];
    write_archive((5, 0), 2, &items, &clusters)
}

/// A version 6.1 archive: content under `C`, metadata under `M`.
fn small_v6() -> (Vec<u8>, Layout) {
    let items = [
        content_item(b'C', "Apple", "Apple pie", 0, 0),
        content_item(b'C', "Banana", "", 0, 1),
        redirect_item(b'C', "Pomme", 0),
        Item { mime: 1, ..content_item(b'C', "i/logo.png", "Logo", 1, 0) },
        content_item(b'M', "Title", "", 1, 1),
        redirect_item(b'W', "mainPage", 0),
    ];
    let clusters = [
        cluster_of(0x05, &[b"<p>apple</p>", b"<p>banana</p>"]),
        cluster_of(0x11, &[&[0x89, b'P', b'N', b'G', 0xFF], b"Small v6"]),
    ];
    write_archive((6, 1), 5, &items, &clusters)
}

fn must_open(bytes: &[u8]) -> Archive<'_> {
    let mut opts = ArchiveOptions::default();
    opts.verify_checksum = VerifyChecksum::Skip;
    match Archive::open_with_options("small.zim", bytes, opts) {
        Ok(a) => a,
        Err(e) => panic!("open: {e:?}"),
    }
}

fn all_entries(a: &Archive<'_>) -> Vec<zim_reader::Result<Dirent>> {
    let mut out = Vec::new();
    let mut iter = a.entries();
    while let Some(item) = iter.next() {
        out.push(item);
    }
    assert!(iter.next().is_none());
    out
}

fn all_articles(a: &Archive<'_>) -> Vec<zim_reader::Result<ContentEntry>> {
    let mut out = Vec::new();
    let mut iter = a.articles();
    while let Some(item) = iter.next() {
        out.push(item);
    }
    assert!(iter.next().is_none());
    out
}

fn must_find(a: &Archive<'_>, namespace: Option<char>, path: &str) -> Dirent {
    match a.find_by_path(namespace, path) {
        Ok(Some(d)) => d,
        other => panic!("{path}: {other:?}"),
    }
}

fn must_get(a: &Archive<'_>, path: &str) -> Article {
    match a.get_article(path) {
        Ok(Some(article)) => article,
        other => panic!("{path}: {other:?}"),
    }
}

#[test]
fn test_open_v5_small() {
    let (bytes, _) = small_v5();
    let a = must_open(&bytes);
    assert_eq!(a.header().major_version, 5);
    assert_eq!(a.namespace_mode(), NamespaceMode::Legacy);
    assert!(a.entry_count() > 0);
    assert!(a.cluster_count() > 0);
    assert!(!a.mime_types().is_empty());
}

#[test]
fn test_open_v6_small() {
    let (bytes, _) = small_v6();
    let a = must_open(&bytes);
    assert_eq!(a.header().major_version, 6);
    assert_eq!(a.namespace_mode(), NamespaceMode::New);
    assert!(a.entry_count() > 0);
}

#[test]
fn test_entries_iterate_v6() {
    let (bytes, _) = small_v6();
    let a = must_open(&bytes);
    let entries: Vec<Dirent> = all_entries(&a)
        .into_iter()
        .collect::<Result<Vec<_>, _>>()
        .expect("entry iteration error");
    assert_eq!(entries.len() as u32, a.entry_count());
    let names: Vec<(char, &str)> = entries.iter().map(|d| (d.namespace(), d.path())).collect();
    assert_eq!(
        names,
        vec![
            ('C', "Apple"),
            ('C', "Banana"),
            ('C', "Pomme"),
            ('C', "i/logo.png"),
            ('M', "Title"),
            ('W', "mainPage"),
        ]
    );
}

#[test]
fn test_find_any_entry_round_trip_v5() {
    let (bytes, _) = small_v5();
    let a = must_open(&bytes);
    let entry = all_articles(&a)
        .into_iter()
        .filter_map(Result::ok)
        .next()
        .expect("at least one article entry");
    let found = a
        .find_by_path(Some(entry.namespace), &entry.path)
        .unwrap()
        .expect("found by path");
    assert_eq!(found.path(), entry.path);
    assert_eq!(found.namespace(), entry.namespace);
}

#[test]
fn test_find_any_entry_round_trip_v6() {
    let (bytes, _) = small_v6();
    let a = must_open(&bytes);
    let ns = article_namespace(a.namespace_mode());
    assert_eq!(ns, 'C');
    let entry = all_articles(&a)
        .into_iter()
        .filter_map(Result::ok)
        .next()
        .expect("at least one article entry");
    let found = a.find_by_path(Some(ns), &entry.path).unwrap();
    assert!(found.is_some());
}

#[test]
fn test_get_article_v6() {
    let (bytes, _) = small_v6();
    let a = must_open(&bytes);
    let path = all_articles(&a)
        .into_iter()
        .filter_map(Result::ok)
        .next()
        .map(|e| e.path)
        .expect("content entry");
    let article = a.get_article(&path).unwrap().expect("article exists");
    assert!(!article.data.is_empty());
    assert_eq!(article.mime_type(&a), "text/html");
}

#[test]
fn test_main_page_v6() {
    let (bytes, _) = small_v6();
    let a = must_open(&bytes);
    let page = a.main_page().unwrap().expect("main page");
    assert!(!page.data.is_empty());
    assert_eq!(page.entry.path, "Apple");
    assert_eq!(page.as_text(), Some("<p>apple</p>"));
}

#[test]
fn test_metadata_title() {
    let (bytes, _) = small_v6();
    let a = must_open(&bytes);
    let title = a.metadata("Title").unwrap().expect("title");
    assert!(!title.trim().is_empty());
    assert_eq!(title, "Small v6");
    assert_eq!(a.metadata("Language").unwrap(), None);
    let (bytes, _) = small_v5();
    let a = must_open(&bytes);
    assert_eq!(a.metadata("Title").unwrap(), Some("Small v5".to_string()));
}

#[test]
fn errors_on_smaller_than_header() {
    let (bytes, _) = small_v5();
    match Archive::open("small.zim", &bytes[..79]) {
        Err(Error::TruncatedHeader(len)) => assert_eq!(len, 79),
        Err(e) => panic!("unexpected error variant: {e:?}"),
        Ok(_) => panic!("expected open to fail"),
    }
}

#[test]
fn errors_on_outofbounds_first_direntptr() {
    let (mut bytes, layout) = small_v5();
    let far = bytes.len() as u64 + 1000;
    bytes[layout.path_list..layout.path_list + 8].copy_from_slice(&far.to_le_bytes());
    let a = must_open(&bytes);
    let items = all_entries(&a);
    assert!(matches!(
        items[0],
        Err(Error::OffsetOutOfBounds { field: "mime_type_idx", .. })
    ));
    assert_eq!(items.len() as u32, a.entry_count());
    let any_err = items.iter().any(|r| r.is_err());
    let any_find_err = a.find_by_path(None, "-/A").is_err();
    assert!(any_err && any_find_err);
}

#[test]
fn errors_on_misaligned_blob_offset() {
    let (mut bytes, layout) = small_v5();
    // The first offset of the uncompressed cluster, made odd.
    bytes[layout.clusters[0] + 1] += 1;
    let a = must_open(&bytes);
    let saw_misalignment = all_entries(&a).into_iter().flatten().any(|d| {
        if let Dirent::Content(entry) = d {
            matches!(
                a.get_blob(&entry),
                Err(Error::OffsetOutOfBounds {
                    field: "cluster_first_offset",
                    ..
                }),
            )
        } else {
            false
        }
    });
    assert!(saw_misalignment);
}

#[test]
fn errors_on_offset_in_cluster() {
    let (mut bytes, layout) = small_v5();
    // The end of the first blob, made to lie outside the cluster.
    bytes[layout.clusters[0] + 1 + 4 + 2] = 0xFF;
    let a = must_open(&bytes);
    let saw_err = all_entries(&a).into_iter().flatten().any(|d| {
        if let Dirent::Content(entry) = d {
            matches!(a.get_blob(&entry), Err(Error::OffsetOutOfBounds { .. }))
        } else {
            false
        }
    });
    assert!(saw_err);
}

#[test]
fn does_not_panic_on_bad_mimetype_in_dirent() {
    let (mut bytes, layout) = small_v5();
    bytes[layout.dirents[1]] = 77;
    let a = must_open(&bytes);
    let items = all_entries(&a);
    assert!(matches!(
        items[1],
        Err(Error::InvalidHeader { field: "dirent.mime_type_idx", .. })
    ));
    let _ = a.find_by_path(None, "A/a");
    let _ = a.find_by_path(None, "does_not_exist");
}

#[test]
fn does_not_panic_on_nonsorted_dirent_table() {
    let items = [
        content_item(b'A', "z", "", 0, 0),
        content_item(b'A', "main", "", 0, 0),
        content_item(b'A', "a", "", 0, 0),
    ];
    let (bytes, _) = write_archive((5, 0), 0, &items, &[cluster_of(0, &[b"x"])]);
    let a = must_open(&bytes);
    for probe in ["a", "z", "main", "does_not_exist", ""] {
        let _ = a.find_by_path(None, probe);
        let _ = a.find_by_title(None, probe);
    }
    assert_eq!(all_entries(&a).len() as u32, a.entry_count());
}

#[test]
fn every_entry_is_found_by_namespace_and_path() {
    for (bytes, _) in [small_v5(), small_v6()] {
        let a = must_open(&bytes);
        for (idx, item) in all_entries(&a).into_iter().enumerate() {
            let d = item.unwrap();
            let found = must_find(&a, Some(d.namespace()), d.path());
            assert_eq!(format!("{found:?}"), format!("{d:?}"));
            let full = format!("{}{}", d.namespace(), d.path());
            assert_eq!(a.search_path(&full).unwrap(), Some(idx as u32));
        }
        assert_eq!(a.search_path("Cnothing").unwrap(), None);
        assert_eq!(a.search_path("").unwrap(), None);
        assert!(a.find_by_path(Some('C'), "nothing").unwrap().is_none());
        assert!(a.find_by_path(Some('é'), "Apple").unwrap().is_none());
    }
}

#[test]
fn new_archives_take_paths_without_namespace() {
    let (bytes, _) = small_v6();
    let a = must_open(&bytes);
    assert_eq!(must_find(&a, None, "Banana").path(), "Banana");
    // The whole path is tried first, though it looks like a namespace.
    assert_eq!(must_find(&a, None, "i/logo.png").namespace(), 'C');
    // A namespace in front works too.
    assert_eq!(must_find(&a, None, "M/Title").namespace(), 'M');
    assert_eq!(must_find(&a, None, "C/Apple").path(), "Apple");
    assert!(a.find_by_path(None, "M/Nothing").unwrap().is_none());
}

#[test]
fn legacy_archives_take_paths_with_namespace() {
    let (bytes, _) = small_v5();
    let a = must_open(&bytes);
    assert_eq!(must_find(&a, None, "A/Apple").path(), "Apple");
    assert_eq!(must_find(&a, None, "I/logo.png").namespace(), 'I');
    assert_eq!(must_find(&a, None, "Banana").namespace(), 'A');
    assert!(a.find_by_path(None, "B/Apple").unwrap().is_none());
}

#[test]
fn explicit_prefix_wins_in_legacy_archives() {
    let items = [
        content_item(b'A', "I/x", "", 0, 0),
        content_item(b'I', "x", "", 0, 1),
    ];
    let clusters = [cluster_of(0, &[b"article", b"image"])];
    let (bytes, _) = write_archive((5, 0), 0, &items, &clusters);
    assert_eq!(must_get(&must_open(&bytes), "I/x").data, b"image");
    let items = [
        content_item(b'C', "I/x", "", 0, 0),
        content_item(b'I', "x", "", 0, 1),
    ];
    let (bytes, _) = write_archive((6, 1), 0, &items, &clusters);
    assert_eq!(must_get(&must_open(&bytes), "I/x").data, b"article");
}

#[test]
fn articles_are_read_from_all_kinds_of_clusters() {
    let text: &[u8] = b"the same text in every cluster";
    for (version, info) in [
        ((5, 0), 0x00u8),
        ((5, 0), 0x01),
        ((5, 0), 0x04),
        ((5, 0), 0x05),
        ((6, 1), 0x14),
        ((6, 1), 0x15),
        ((6, 1), 0x10),
        ((6, 1), 0xE4),
    ] {
        let namespace = if version.0 == 5 { b'A' } else { b'C' };
        let items = [content_item(namespace, "page", "", 0, 1)];
        let clusters = [cluster_of(info, &[b"other", text])];
        let (bytes, _) = write_archive(version, 0, &items, &clusters);
        let a = must_open(&bytes);
        let article = must_get(&a, "page");
        assert_eq!(article.data, text);
        assert_eq!(article.entry.path, "page");
        assert_eq!(article.mime_type(&a), "text/html");
        let (info_read, payload) = a.cluster_data(0).unwrap();
        assert_eq!(info_read.extended, info & 0x10 != 0);
        assert!(payload.len() > text.len());
    }
}

#[test]
fn extended_clusters_are_rejected_in_version_5() {
    let items = [content_item(b'A', "page", "", 0, 0)];
    let (bytes, _) = write_archive((5, 0), 0, &items, &[cluster_of(0x10, &[b"x"])]);
    let a = must_open(&bytes);
    assert!(matches!(
        a.get_article("page"),
        Err(Error::ExtendedClusterInV5)
    ));
}

#[test]
fn unknown_compression_is_reported() {
    let items = [content_item(b'A', "page", "", 0, 0)];
    let (bytes, _) = write_archive((5, 0), 0, &items, &[cluster_of(0x02, &[b"x"])]);
    let a = must_open(&bytes);
    assert!(matches!(
        a.get_article("page"),
        Err(Error::UnknownCompression(2))
    ));
}

#[test]
fn missing_blobs_and_clusters_are_reported() {
    let items = [
        content_item(b'A', "blob", "", 0, 9),
        content_item(b'A', "cluster", "", 3, 0),
    ];
    let (bytes, _) = write_archive((5, 0), 0, &items, &[cluster_of(0, &[b"x", b"y"])]);
    let a = must_open(&bytes);
    assert!(matches!(
        a.get_article("blob"),
        Err(Error::BlobOutOfRange { blob_number: 9, blob_count: 2 })
    ));
    assert!(matches!(
        a.get_article("cluster"),
        Err(Error::OffsetOutOfBounds { offset: 3, field: "cluster_number" })
    ));
}

#[test]
fn clusters_outside_the_file_are_reported() {
    let (bytes, layout) = small_v5();
    let list = layout.cluster_list;
    let far = bytes.len() as u64;

    let mut start = bytes.clone();
    start[list..list + 8].copy_from_slice(&far.to_le_bytes());
    assert!(matches!(
        must_open(&start).cluster_data(0),
        Err(Error::OffsetOutOfBounds { field: "cluster_start", .. })
    ));

    let mut end = bytes.clone();
    end[list + 8..list + 16].copy_from_slice(&(far + 1).to_le_bytes());
    assert!(matches!(
        must_open(&end).cluster_data(0),
        Err(Error::OffsetOutOfBounds { field: "cluster_end", .. })
    ));

    let mut reversed = bytes.clone();
    reversed[list + 8..list + 16].copy_from_slice(&(layout.clusters[0] as u64).to_le_bytes());
    assert!(matches!(
        must_open(&reversed).cluster_data(0),
        Err(Error::OffsetOutOfBounds { field: "cluster_end", .. })
    ));
}

#[test]
fn redirects_are_followed() {
    let (bytes, _) = small_v6();
    let a = must_open(&bytes);
    let article = must_get(&a, "Pomme");
    assert_eq!(article.entry.path, "Apple");
    assert_eq!(article.data, b"<p>apple</p>");
    match must_find(&a, None, "Pomme") {
        Dirent::Redirect(r) => {
            assert_eq!(r.redirect_index, 0);
            assert_eq!(a.resolve_redirect(&r).unwrap().path, "Apple");
        }
        other => panic!("expected a redirect, got {other:?}"),
    }
}

/// Entry `i` redirects to `targets[i]`; the last entry is content.
fn chain_archive(targets: &[u32]) -> Vec<u8> {
    let names = ["a", "b", "c", "d", "e", "f", "g", "h", "i", "j", "k", "l"];
    let mut items: Vec<Item> = targets
        .iter()
        .enumerate()
        .map(|(i, t)| redirect_item(b'C', names[i], *t))
        .collect();
    items.push(content_item(b'C', names[targets.len()], "", 0, 0));
    write_archive((6, 1), 0, &items, &[cluster_of(0, &[b"end"])]).0
}

#[test]
fn redirect_chains_are_followed_through_eight_entries() {
    assert_eq!(MAX_REDIRECT_DEPTH, 8);
    // a -> b -> ... -> i, where i is content: eight entries behind a.
    let bytes = chain_archive(&[1, 2, 3, 4, 5, 6, 7, 8]);
    assert_eq!(must_get(&must_open(&bytes), "a").data, b"end");
    // One more is too many.
    let bytes = chain_archive(&[1, 2, 3, 4, 5, 6, 7, 8, 9]);
    let a = must_open(&bytes);
    assert!(matches!(a.get_article("a"), Err(Error::RedirectLoop(9))));
    assert_eq!(must_get(&a, "b").data, b"end");
}

#[test]
fn redirect_cycles_are_detected() {
    let bytes = chain_archive(&[0]);
    assert!(matches!(
        must_open(&bytes).get_article("a"),
        Err(Error::RedirectLoop(0))
    ));
    let bytes = chain_archive(&[1, 0]);
    assert!(matches!(
        must_open(&bytes).get_article("a"),
        Err(Error::RedirectLoop(1))
    ));
    let bytes = chain_archive(&[1, 2, 1]);
    assert!(matches!(
        must_open(&bytes).get_article("a"),
        Err(Error::RedirectLoop(1))
    ));
}

#[test]
fn redirects_to_missing_entries_are_reported() {
    let bytes = chain_archive(&[77]);
    assert!(matches!(
        must_open(&bytes).get_article("a"),
        Err(Error::RedirectIndexOutOfRange(77))
    ));
    // A redirect to a deprecated entry.
    let items = [
        redirect_item(b'C', "a", 1),
        Item { mime: 0xFFFE, ..content_item(b'C', "b", "", 0, 0) },
    ];
    let (bytes, _) = write_archive((6, 1), 0, &items, &[cluster_of(0, &[b"x"])]);
    assert!(matches!(
        must_open(&bytes).get_article("a"),
        Err(Error::RedirectIndexOutOfRange(1))
    ));
}

#[test]
fn deprecated_entries_are_skipped() {
    let items = [
        content_item(b'C', "a", "", 0, 0),
        Item { mime: 0xFFFD, ..content_item(b'C', "b", "", 0, 0) },
        Item { mime: 0xFFFE, ..content_item(b'C', "c", "", 0, 0) },
        content_item(b'C', "d", "", 0, 0),
    ];
    let (bytes, _) = write_archive((6, 1), 1, &items, &[cluster_of(0, &[b"x"])]);
    let a = must_open(&bytes);
    let paths: Vec<String> = all_entries(&a)
        .into_iter()
        .map(|d| d.unwrap().path().to_string())
        .collect();
    assert_eq!(paths, vec!["a".to_string(), "d".to_string()]);
    assert!(a.dirent_at(1).unwrap().is_none());
    assert!(a.find_by_path(None, "b").unwrap().is_none());
    assert_eq!(must_find(&a, None, "d").path(), "d");
    // They have a place in the path order all the same.
    assert_eq!(a.search_path("Cb").unwrap(), Some(1));
    assert!(a.get_article("b").unwrap().is_none());
    assert!(a.main_page().unwrap().is_none());
    assert_eq!(a.search_title_prefix("C", 10).unwrap().len(), 2);
}

#[test]
fn entries_beyond_the_last_are_out_of_bounds() {
    let (bytes, _) = small_v6();
    let a = must_open(&bytes);
    assert_eq!(a.dirent_at(0).unwrap().unwrap().path(), "Apple");
    assert!(matches!(
        a.dirent_at(a.entry_count()),
        Err(Error::OffsetOutOfBounds { offset: 6, field: "entry_index" })
    ));
}

#[test]
fn article_iteration_keeps_content_of_the_article_namespace() {
    let (bytes, _) = small_v6();
    let a = must_open(&bytes);
    let paths: Vec<String> = all_articles(&a).into_iter().map(|e| e.unwrap().path).collect();
    assert_eq!(paths, vec!["Apple", "Banana", "i/logo.png"]);
    let (bytes, _) = small_v5();
    let a = must_open(&bytes);
    let paths: Vec<String> = all_articles(&a).into_iter().map(|e| e.unwrap().path).collect();
    assert_eq!(paths, vec!["Apple", "Banana"]);
    assert!(all_articles(&a).len() <= all_entries(&a).len());
}

#[test]
fn titles_are_searched() {
    let (bytes, _) = small_v6();
    let a = must_open(&bytes);
    assert_eq!(a.search_title("CApple pie").unwrap(), Some(0));
    assert_eq!(a.search_title("CBanana").unwrap(), Some(1));
    assert_eq!(a.search_title("CLogo").unwrap(), Some(3));
    assert_eq!(a.search_title("CApple").unwrap(), None);
    assert_eq!(a.search_title("MTitle").unwrap(), Some(4));
    assert_eq!(a.search_title("").unwrap(), None);
}

#[test]
fn title_prefixes_are_searched_in_order() {
    let items = [
        content_item(b'C', "1", "beta", 0, 0),
        content_item(b'C', "2", "alpha", 0, 0),
        content_item(b'C', "3", "alphabet", 0, 0),
        content_item(b'C', "4", "alp", 0, 0),
        content_item(b'M', "5", "alpha", 0, 0),
    ];
    let (bytes, _) = write_archive((6, 1), 0, &items, &[cluster_of(0, &[b"x"])]);
    let a = must_open(&bytes);
    let titles = |prefix: &str, limit: usize| -> Vec<String> {
        a.search_title_prefix(prefix, limit)
            .unwrap()
            .iter()
            .map(|d| d.title().to_string())
            .collect()
    };
    assert_eq!(titles("Calp", 10), vec!["alp", "alpha", "alphabet"]);
    assert_eq!(titles("Calpha", 10), vec!["alpha", "alphabet"]);
    assert_eq!(titles("Calpha", 1), vec!["alpha"]);
    assert_eq!(titles("Calpha", 0), Vec::<String>::new());
    assert_eq!(titles("C", 10), vec!["alp", "alpha", "alphabet", "beta"]);
    assert_eq!(titles("", 10).len(), 5);
    assert_eq!(titles("Cgamma", 10), Vec::<String>::new());
    assert_eq!(titles("Z", 10), Vec::<String>::new());

    let hit = a.find_by_title(None, "alph").unwrap().unwrap();
    assert_eq!(hit.title(), "alpha");
    assert_eq!(hit.namespace(), 'C');
    let hit = a.find_by_title(Some('M'), "a").unwrap().unwrap();
    assert_eq!(hit.path(), "5");
    assert!(a.find_by_title(None, "zeta").unwrap().is_none());
    assert!(a.find_by_title(Some('é'), "alpha").unwrap().is_none());
}

#[test]
fn blobs_are_shared_by_alias_entries() {
    let items = [
        content_item(b'C', "alias", "", 0, 0),
        content_item(b'C', "page", "", 0, 0),
    ];
    let (bytes, _) = write_archive((6, 2), 0, &items, &[cluster_of(5, &[b"shared"])]);
    let a = must_open(&bytes);
    assert_eq!(must_get(&a, "alias").data, must_get(&a, "page").data);
}

#[test]
fn binary_articles_and_unknown_mime_types() {
    let (bytes, _) = small_v6();
    let a = must_open(&bytes);
    let mut logo = must_get(&a, "i/logo.png");
    assert!(logo.is_binary());
    assert_eq!(logo.as_text(), None);
    assert_eq!(logo.mime_type(&a), "image/png");
    assert_eq!(logo.entry.mime_type(&a), "image/png");
    logo.entry.mime_type_idx = 3;
    assert_eq!(logo.mime_type(&a), "");
}

#[test]
fn metadata_has_to_be_text() {
    let items = [content_item(b'M', "Illustration", "", 0, 0)];
    let (bytes, _) = write_archive((6, 1), 0, &items, &[cluster_of(0, &[&[0xFF, 0xD8]])]);
    let a = must_open(&bytes);
    assert!(matches!(
        a.metadata("Illustration"),
        Err(Error::InvalidUtf8(0))
    ));
}

#[test]
fn archives_without_main_page_have_none() {
    let items = [content_item(b'C', "page", "", 0, 0)];
    let (bytes, _) = write_archive((6, 1), 0xFFFF_FFFF, &items, &[cluster_of(0, &[b"x"])]);
    let a = must_open(&bytes);
    assert!(a.main_page().unwrap().is_none());
    let (bytes, _) = small_v5();
    let a = must_open(&bytes);
    let page = a.main_page().unwrap().unwrap();
    assert_eq!(page.data, b"<p>banana</p>");
}

#[test]
fn main_page_index_out_of_range_is_an_error() {
    let items = [content_item(b'C', "page", "", 0, 0)];
    let (bytes, _) = write_archive((6, 1), 5, &items, &[cluster_of(0, &[b"x"])]);
    let a = must_open(&bytes);
    assert!(matches!(
        a.main_page(),
        Err(Error::OffsetOutOfBounds { offset: 5, field: "entry_index" })
    ));
}

#[test]
fn empty_archives_find_nothing() {
    let (bytes, _) = write_archive((6, 1), 0xFFFF_FFFF, &[], &[]);
    let a = must_open(&bytes);
    assert!(a.find_by_path(None, "x").unwrap().is_none());
    assert!(a.find_by_title(None, "x").unwrap().is_none());
    assert_eq!(a.search_title("Cx").unwrap(), None);
    assert!(a.search_title_prefix("", 9).unwrap().is_empty());
    assert!(all_entries(&a).is_empty());
    assert!(all_articles(&a).is_empty());
}

#[test]
fn paths_beyond_ascii_are_found() {
    let items = [
        content_item(b'C', "café", "Café 🎉", 0, 0),
        content_item(b'C', "日本", "", 0, 1),
    ];
    let (bytes, _) = write_archive((6, 1), 0, &items, &[cluster_of(4, &[b"one", b"two"])]);
    let a = must_open(&bytes);
    assert_eq!(must_get(&a, "café").data, b"one");
    assert_eq!(must_get(&a, "日本").data, b"two");
    assert_eq!(a.find_by_title(None, "Café").unwrap().unwrap().path(), "café");
}

#[test]
fn order_of_bytes_is_that_of_slices() {
    let samples: [&[u8]; 8] = [
        b"", b"A", b"AB", b"ABC", b"B", b"\xFF", b"\x00", b"AB\x00",
    ];
    for x in samples {
        for y in samples {
            let order = compare(x, y);
            if x < y {
                assert_eq!(order, Order::Before);
            } else if x == y {
                assert_eq!(order, Order::Same);
            } else {
                assert_eq!(order, Order::After);
            }
            assert_eq!(starts_with(x, y), x.starts_with(y));
        }
    }
}
