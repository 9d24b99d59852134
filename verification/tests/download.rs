use storage_node::cache::path_of;
use storage_node::download::{Download, LookStep, CAP};
use storage_node::entry::{Children, Entry, EntryMetaData};
use storage_node::keys::content_id;
use storage_node::put::{judge_file, PutStep};
use storage_node::service::{
    ApiEntry, DownloadFile, DownloadResponse, GetResponse, PutRequestMetadata, UploadFile,
};

fn child(name: &str, kind: &str, cid: &str) -> Children {
    Children { name: name.to_string(), kind: kind.to_string(), cid: Some(cid.to_string()) }
}

fn entry() -> Entry {
    Entry {
        metadata: EntryMetaData {
            children: vec![
                child("d", "dir", "0"),
                child("d/a", "file", "1"),
                child("b", "file", "2"),
            ],
        },
    }
}

fn path(cid: &str) -> Option<String> {
    Some(format!("./cache/{}", cid))
}

#[test]
fn paths() {
    assert_eq!(path_of("abc"), "./cache/abc");
    assert_ne!(path_of("abc"), path_of("abd"));
}

#[test]
fn pieces_are_bounded() {
    assert_eq!(CAP, 1024 * 128);
}

#[test]
fn files_are_sent_in_order() {
    let mut download = Download::begin("/".to_string(), entry()).unwrap();
    assert_eq!(download.next_path(), path("1"));
    assert_eq!(download.on_look(true), LookStep::Read);
    let mut sent: Vec<u8> = Vec::new();
    for piece in [&b"he"[..], &b"llo"[..]] {
        let response = download.on_read(piece).unwrap();
        assert_eq!(
            response,
            GetResponse {
                download_response: Some(DownloadResponse::File(DownloadFile {
                    content: piece.to_vec(),
                    cid: "1".to_string(),
                    name: "d/a".to_string(),
                }))
            }
        );
        sent.extend_from_slice(piece);
    }
    assert_eq!(sent, b"hello");
    assert_eq!(download.on_read(b""), None);
    assert_eq!(download.next_path(), path("2"));
    assert_eq!(download.on_look(true), LookStep::Read);
    assert_eq!(download.on_read(b""), None);
    assert_eq!(download.next_path(), None);
}

#[test]
fn missing_files_are_passed_over() {
    let mut download = Download::begin("/".to_string(), entry()).unwrap();
    assert_eq!(download.on_look(false), LookStep::Report("File does not exists".to_string()));
    assert_eq!(download.next_path(), path("2"));
}

#[test]
fn nested_entry_is_not_sent() {
    assert_eq!(
        Download::begin("d".to_string(), entry()),
        Err("Nested entry selected".to_string())
    );
}

#[test]
fn one_file_is_sent_alone() {
    let mut download = Download::begin("d/a".to_string(), entry()).unwrap();
    assert_eq!(download.next_path(), path("1"));
    download.on_look(false);
    assert_eq!(download.next_path(), None);
}

#[test]
fn file_without_identifier_cannot_be_sent() {
    let mut nameless = child("b", "file", "2");
    nameless.cid = None;
    let entry = Entry {
        metadata: EntryMetaData { children: vec![child("a", "file", "1"), nameless] },
    };
    let mut download = Download::begin("/".to_string(), entry).unwrap();
    assert!(download.can_send_next());
    download.on_look(false);
    assert!(!download.can_send_next());
    download.on_look(false);
    assert!(download.can_send_next());
    assert_eq!(download.next_path(), None);
}

#[test]
fn longest_piece_is_sent_whole() {
    let mut download = Download::begin("b".to_string(), entry()).unwrap();
    assert_eq!(download.on_look(true), LookStep::Read);
    let buffer = vec![7u8; CAP];
    match download.on_read(&buffer).unwrap().download_response {
        Some(DownloadResponse::File(file)) => assert_eq!(file.content, buffer),
        other => panic!("{:?}", other),
    }
}

#[test]
fn download_looks_where_upload_wrote() {
    let cid = content_id(b"hello");
    let data = PutRequestMetadata {
        signature: "s".to_string(),
        entry: Some(ApiEntry { name: "n".to_string(), encoded: Vec::new() }),
    };
    let file = UploadFile { cid: cid.clone(), content: b"hello".to_vec() };
    let location = match judge_file(&Some(data), file, content_id(b"hello")) {
        PutStep::Look { location, .. } => location,
        other => panic!("{:?}", other),
    };
    let children = vec![child("a", "file", &cid), child("b", "file", "other")];
    let entry = Entry { metadata: EntryMetaData { children } };
    let mut download = Download::begin("/".to_string(), entry).unwrap();
    assert_eq!(download.next_path(), Some(location.clone()));
    download.on_look(false);
    assert_ne!(download.next_path(), Some(location));
}
