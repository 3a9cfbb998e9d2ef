use aircard::afc::{child_path, directory_prefixes, size_from_info, visible_entries, MAX_REMOVE_DEPTH};

fn pair(k: &str, v: &str) -> (String, String) {
    (k.to_string(), v.to_string())
}

#[test]
fn recursive_creation_makes_each_level() {
    assert_eq!(
        directory_prefixes("Books/Sync"),
        vec!["Books".to_string(), "Books/Sync".to_string()]
    );
    assert_eq!(
        directory_prefixes("/var//mobile/Library/"),
        vec!["var".to_string(), "var/mobile".to_string(), "var/mobile/Library".to_string()]
    );
    assert!(directory_prefixes("///").is_empty());
    assert!(directory_prefixes("").is_empty());
}

#[test]
fn child_paths_drop_trailing_slashes() {
    assert_eq!(child_path("Books/Sync//", "a.plist"), "Books/Sync/a.plist");
    assert_eq!(child_path("Books", "x"), "Books/x");
    assert_eq!(child_path("/", "x"), "/x");
}

#[test]
fn dot_entries_are_hidden() {
    let names = vec![".".to_string(), "a".to_string(), "..".to_string(), "...".to_string()];
    assert_eq!(visible_entries(&names), vec!["a".to_string(), "...".to_string()]);
}

#[test]
fn size_is_the_first_readable_st_size() {
    let info = vec![
        pair("st_ifmt", "S_IFREG"),
        pair("st_size", "abc"),
        pair("st_size", "99999999999999999999999999"),
        pair("st_size", "+4096"),
        pair("st_size", "7"),
    ];
    assert_eq!(size_from_info(&info), Some(4096));
    assert_eq!(size_from_info(&[pair("st_size", "0012")]), Some(12));
    assert_eq!(size_from_info(&[pair("st_size", "+")]), None);
    assert_eq!(size_from_info(&[pair("st_size", "-1")]), None);
    assert_eq!(size_from_info(&[pair("st_size", "")]), None);
    assert_eq!(size_from_info(&[pair("st_size", "18446744073709551615")]), Some(usize::MAX));
    assert_eq!(size_from_info(&[pair("st_size", "18446744073709551616")]), None);
    assert_eq!(size_from_info(&[]), None);
}

#[test]
fn removal_depth_limit() {
    assert_eq!(MAX_REMOVE_DEPTH, 32);
}
