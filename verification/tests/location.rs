use storage_node::location::get_location_key;

fn located(location: &str) -> Option<(String, String, String)> {
    match get_location_key(location.to_string()) {
        Ok((key, location, signature)) => Some((
            String::from_utf8(key.to_vec()).unwrap(),
            location,
            signature,
        )),
        Err(error) => {
            assert_eq!(error, "No signature key found");
            None
        }
    }
}

fn triple(key: &str, location: &str, signature: &str) -> Option<(String, String, String)> {
    Some((key.to_string(), location.to_string(), signature.to_string()))
}

#[test]
fn entry_alone_is_its_own_root() {
    assert_eq!(located("e_abc"), triple("e_abc", "/", "abc"));
    assert_eq!(located("e_"), triple("e_", "/", ""));
}

#[test]
fn trailing_slash_changes_nothing() {
    assert_eq!(located("e_abc/"), located("e_abc"));
    assert_eq!(located("e_abc/docs/"), located("e_abc/docs"));
}

#[test]
fn place_inside_entry() {
    assert_eq!(located("e_abc/docs/a.txt"), triple("e_abc", "docs/a.txt", "abc"));
    assert_eq!(located("/x/e_abc/docs"), triple("e_abc", "docs", "abc"));
}

#[test]
fn last_entry_wins() {
    assert_eq!(located("e_one/dir/e_two/file"), triple("e_two", "file", "two"));
    assert_eq!(located("e_one/dir/e_two"), triple("e_two", "/", "two"));
}

#[test]
fn only_one_trailing_slash_is_dropped() {
    assert_eq!(located("e_abc//"), triple("e_abc", "", "abc"));
    assert_eq!(located("e_abc///"), triple("e_abc", "/", "abc"));
}

#[test]
fn other_characters_are_kept() {
    assert_eq!(located("e_\u{e9}\u{20ac}/\u{1f600}"), triple("e_\u{e9}\u{20ac}", "\u{1f600}", "\u{e9}\u{20ac}"));
}

#[test]
fn no_entry_no_key() {
    for location in ["", "/", "abc", "E_abc", "xe_abc/y", "e", "a/e/_b", "docs/e-abc/"] {
        assert_eq!(located(location), None);
    }
}

#[test]
fn key_holds_the_bytes_of_the_part() {
    let (key, _, _) = get_location_key("e_\u{e9}/x".to_string()).unwrap();
    assert_eq!(key.to_vec(), vec![0x65, 0x5f, 0xc3, 0xa9]);
}
