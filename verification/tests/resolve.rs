use storage_node::entry::Children;
use storage_node::resolve::{can_resolve, resolve_cid};

fn child(name: &str, kind: &str, cid: Option<&str>) -> Children {
    Children {
        name: name.to_string(),
        kind: kind.to_string(),
        cid: cid.map(|c| c.to_string()),
    }
}

fn tree() -> Vec<Children> {
    vec![
        child("docs", "dir", None),
        child("docs/a.txt", "file", Some("a")),
        child("docs/b.txt", "file", Some("b")),
        child("docsy", "file", Some("y")),
        child("img/c.png", "file", Some("c")),
        child("img/copy.txt", "file", Some("a")),
        child("nested", "entry", None),
    ]
}

fn names(location: &str) -> Vec<String> {
    assert!(can_resolve(&location.to_string(), &tree()));
    resolve_cid(location.to_string(), tree())
        .unwrap()
        .into_iter()
        .map(|c| c.name)
        .collect()
}

#[test]
fn root_stands_for_all_files() {
    assert_eq!(
        names("/"),
        vec!["docs/a.txt", "docs/b.txt", "docsy", "img/c.png", "img/copy.txt"]
    );
}

#[test]
fn root_does_not_look_at_identifiers() {
    let children = vec![child("a", "file", None), child("b", "dir", None)];
    assert!(can_resolve(&"/".to_string(), &children));
    assert_eq!(
        resolve_cid("/".to_string(), children).unwrap(),
        vec![child("a", "file", None)]
    );
}

#[test]
fn root_is_idempotent() {
    let once = resolve_cid("/".to_string(), tree()).unwrap();
    assert_eq!(resolve_cid("/".to_string(), once.clone()).unwrap(), once);
}

#[test]
fn file_name_stands_for_all_files_with_its_content() {
    assert_eq!(names("docs/a.txt"), vec!["docs/a.txt", "img/copy.txt"]);
    assert_eq!(names("docs/b.txt"), vec!["docs/b.txt"]);
}

#[test]
fn directory_stands_for_what_is_below() {
    assert_eq!(names("img"), vec!["docs/a.txt", "img/c.png", "img/copy.txt"]);
}

#[test]
fn prefix_without_slash_is_not_below() {
    assert_eq!(names("doc"), Vec::<String>::new());
    assert_eq!(names("img/"), Vec::<String>::new());
    assert_eq!(names("missing"), Vec::<String>::new());
}

#[test]
fn item_that_is_no_file_is_nested() {
    for location in ["nested", "docs"] {
        assert!(can_resolve(&location.to_string(), &tree()));
        assert_eq!(
            resolve_cid(location.to_string(), tree()),
            Err("Nested entry selected".to_string())
        );
    }
}

#[test]
fn first_item_of_a_name_decides() {
    let children = vec![child("a", "file", Some("1")), child("a", "dir", None)];
    assert_eq!(resolve_cid("a".to_string(), children).unwrap().len(), 1);
    let children = vec![child("a", "dir", None), child("a", "file", Some("1"))];
    assert!(resolve_cid("a".to_string(), children).is_err());
}

#[test]
fn empty_location_looks_for_a_leading_slash() {
    let children = vec![child("/a", "file", Some("1")), child("b", "file", Some("2"))];
    let files = resolve_cid("".to_string(), children).unwrap();
    assert_eq!(files, vec![child("/a", "file", Some("1"))]);
}

#[test]
fn slash_is_looked_for_at_the_byte_length() {
    // Two bytes for one character: the slash is looked for one character too far.
    let children = vec![child("\u{e9}/x", "file", Some("1")), child("\u{e9}x/", "file", Some("2"))];
    let files = resolve_cid("\u{e9}".to_string(), children).unwrap();
    assert_eq!(files, vec![child("\u{e9}x/", "file", Some("2"))]);
}

#[test]
fn what_cannot_be_resolved_is_told() {
    let no_cid = vec![child("x", "file", None)];
    assert!(!can_resolve(&"y".to_string(), &no_cid));
    assert!(!can_resolve(&"x".to_string(), &no_cid));
    let too_short = vec![child("\u{e9}/", "file", Some("1"))];
    assert!(!can_resolve(&"\u{e9}".to_string(), &too_short));
    assert!(can_resolve(&"\u{e9}/".to_string(), &too_short));
}
