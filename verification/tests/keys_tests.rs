use mindav::minio::keys::{
    copy_source_of, get_path, is_keep_object, is_listing_self_key, keep_path, listing_prefix_of,
    remove_dir_name, renamed_key, scoped_url_of,
};
use mindav::minio::{KEEP_FILE_CONTENT_TYPE, KEEP_FILE_NAME};
use mindav::text::{after_last_char, ends_with_str, hex_lower_string, replace_first_str, str_eq, trim_char};

#[test]
fn get_path_strips_every_leading_slash() {
    assert_eq!(get_path("/docs/a.txt"), "docs/a.txt");
    assert_eq!(get_path("///x"), "x");
    assert_eq!(get_path("/"), "");
    assert_eq!(get_path(""), "");
    assert_eq!(get_path("a/"), "a/");
}

#[test]
fn remove_dir_name_trims_like_get_path() {
    for p in ["/a/b", "//a", "", "/", "x"] {
        assert_eq!(remove_dir_name(p), get_path(p));
        assert_eq!(get_path(&get_path(p)), get_path(p));
    }
}

#[test]
fn keep_path_of_root_and_directory() {
    assert_eq!(KEEP_FILE_NAME, ".mindavkeep");
    assert_eq!(KEEP_FILE_CONTENT_TYPE, "application/mindav-folder-keeper");
    assert_eq!(keep_path(""), ".mindavkeep");
    assert_eq!(keep_path("docs"), "docs/.mindavkeep");
    assert_eq!(keep_path("a/b"), "a/b/.mindavkeep");
}

#[test]
fn keep_paths_are_always_hidden() {
    for name in ["", "docs", "a/b/c", "weird/.mindavkeep"] {
        assert!(is_keep_object(&keep_path(name)));
    }
    assert!(is_keep_object(".mindavkeep"));
    assert!(is_keep_object("x/.mindavkeep"));
    assert!(!is_keep_object("x.mindavkeep"));
    assert!(!is_keep_object(".mindavkeep/x"));
    assert!(!is_keep_object("x/a.txt"));
}

#[test]
fn listing_prefix_adds_a_slash_unless_root() {
    assert_eq!(listing_prefix_of(""), "");
    assert_eq!(listing_prefix_of("docs"), "docs/");
}

#[test]
fn listing_self_is_the_prefix_with_or_without_slash() {
    assert!(is_listing_self_key("docs/", "docs/"));
    assert!(is_listing_self_key("docs//", "docs/"));
    assert!(!is_listing_self_key("docs/a", "docs/"));
    assert!(is_listing_self_key("", ""));
    assert!(is_listing_self_key("/", ""));
}

#[test]
fn copy_source_names_bucket_and_key() {
    assert_eq!(copy_source_of("test", "a/b.txt"), "test/a/b.txt");
    assert_eq!(copy_source_of("test", ""), "test/");
}

#[test]
fn renamed_key_replaces_first_occurrence_only() {
    assert_eq!(renamed_key("src/a/src/b", "src", "dst"), "dst/a/src/b");
    assert_eq!(renamed_key("x/src", "src", "dst"), "x/dst");
    assert_eq!(renamed_key("abc", "zz", "y"), "abc");
    assert_eq!(renamed_key("abc", "", "y"), "yabc");
    assert_eq!(renamed_key("", "", "y"), "y");
    assert_eq!(renamed_key("aaa", "aa", "b"), "ba");
}

#[test]
fn renamed_key_reroots_subtree() {
    let from = "rndirsrc";
    let to = "rndirdst";
    for k in ["rndirsrc/.mindavkeep", "rndirsrc/a.txt", "rndirsrc/sub/b.txt"] {
        let r = renamed_key(k, from, to);
        assert_eq!(r, format!("{}{}", to, &k[from.len()..]));
    }
}

#[test]
fn scoped_urls_of_distinct_users_differ() {
    assert_eq!(scoped_url_of("alice", "/secret.txt"), "/alice/secret.txt");
    assert_ne!(scoped_url_of("alice", "/x"), scoped_url_of("bob", "/x"));
    assert_ne!(scoped_url_of("al", "/ice/x"), scoped_url_of("alice", "/x"));
}

#[test]
fn text_helpers() {
    assert_eq!(trim_char("//a/b//", '/'), "a/b");
    assert_eq!(trim_char("///", '/'), "");
    assert_eq!(after_last_char("a/b/c", '/'), "c");
    assert_eq!(after_last_char("abc", '/'), "abc");
    assert_eq!(after_last_char("abc/", '/'), "");
    assert!(ends_with_str("abc", "bc"));
    assert!(ends_with_str("abc", ""));
    assert!(!ends_with_str("bc", "abc"));
    assert!(str_eq("é", "é"));
    assert!(!str_eq("a", "b"));
    assert_eq!(replace_first_str("ééa", "é", "x"), "xéa");
}

#[test]
fn hex_matches_lower_hex_format() {
    assert_eq!(hex_lower_string(&[10, 20, 30]), "0a141e");
    assert_eq!(hex_lower_string(&[]), "");
    assert_eq!(hex_lower_string(&[0xff, 0x00, 0x7f]), "ff007f");
}
