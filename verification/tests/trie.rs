use aincradfs_path::path::{Path, U16Path, U16PathBuf, U8Path, U8PathBuf};
use aincradfs_path::trie::PathTrie;

fn wide(s: &str) -> Vec<u16> {
    s.encode_utf16().collect()
}

#[test]
pub fn insert_u16() {
    let mut trie = PathTrie::new();
    trie.insert(U16PathBuf::from("/hello/world"), 1);
    trie.insert(U16PathBuf::from("/hello/world/spam"), 2);
    trie.insert(U16PathBuf::from("/hello/spam/eggs"), 1);

    let pref = trie.longest_prefix(U16PathBuf::from("/hello/world/spad"));
    let expected = wide("/hello/world");
    assert_eq!(U16Path::from_str(&expected), pref.unwrap().as_path())
}

#[test]
pub fn insert_u8() {
    let mut trie = PathTrie::new();
    trie.insert(U8PathBuf::from("/hello/world"), 1);
    trie.insert(U8PathBuf::from("/hello/world/spam"), 2);
    trie.insert(U8PathBuf::from("/hello/spam/eggs"), 1);

    let pref = trie.longest_prefix(U8PathBuf::from("/hello/world/spad"));
    assert_eq!(U8Path::from_str(b"/hello/world"), pref.unwrap().as_path())
}

#[test]
fn longest_prefix_is_a_whole_path() {
    let mut trie = PathTrie::new();
    trie.insert(U8PathBuf::from("/hello/world"), 1);
    trie.insert(U8PathBuf::from("/hello/world/spam"), 2);
    trie.insert(U8PathBuf::from("/hello/spam/eggs"), 1);

    let pref = trie.longest_prefix(U8PathBuf::from("/hello/world/spad"));
    assert_eq!(pref.unwrap().as_bytes(), b"/hello/world");
    let exact = trie.longest_prefix(U8PathBuf::from("/hello/world/spam"));
    assert_eq!(exact.unwrap().as_bytes(), b"/hello/world/spam");
    let deeper = trie.longest_prefix(U8PathBuf::from("/hello/world/spam/x/y"));
    assert_eq!(deeper.unwrap().as_bytes(), b"/hello/world/spam");
    // only a stored path counts, not what two stored paths share
    assert!(trie.longest_prefix(U8PathBuf::from("/hello/spam")).is_none());
    assert!(trie.longest_prefix(U8PathBuf::from("/hello")).is_none());
}

#[test]
fn no_match_inside_a_component() {
    let mut trie = PathTrie::new();
    trie.insert(U8PathBuf::from("/abc"), 7);
    assert!(trie.longest_prefix(U8PathBuf::from("/abcdef")).is_none());
    assert!(trie.longest_prefix(U8PathBuf::from("/ab")).is_none());
    assert_eq!(trie.longest_prefix(U8PathBuf::from("/abc/def")).unwrap().as_bytes(), b"/abc");
    assert_eq!(trie.longest_prefix(U8PathBuf::from("/abc")).unwrap().as_bytes(), b"/abc");

    let mut wide_trie = PathTrie::new();
    wide_trie.insert(U16PathBuf::from("/abc"), 7);
    assert!(wide_trie.longest_prefix(U16PathBuf::from("/abcdef")).is_none());
    assert_eq!(
        wide_trie.longest_prefix(U16PathBuf::from("/abc/def")).unwrap().as_slice(),
        &wide("/abc")[..]
    );
}

#[test]
fn empty_index_has_no_match() {
    let trie: PathTrie<U8PathBuf, u32> = PathTrie::new();
    assert!(trie.longest_prefix(U8PathBuf::from("/a/b")).is_none());
    assert!(trie.longest_prefix(U8PathBuf::from("")).is_none());
}

#[test]
fn insert_returns_the_previous_value() {
    let mut trie = PathTrie::new();
    assert_eq!(trie.insert(U8PathBuf::from("/a/b"), 1), None);
    assert_eq!(trie.insert(U8PathBuf::from("/a/c"), 2), None);
    assert_eq!(trie.insert(U8PathBuf::from("/a/b"), 3), Some(1));
    assert_eq!(trie.insert(U8PathBuf::from("/a/b"), 4), Some(3));
    assert_eq!(trie.insert(U8PathBuf::from("/a/c"), 5), Some(2));
}

#[test]
fn keys_are_logical_paths() {
    let mut trie = PathTrie::new();
    assert_eq!(trie.insert(U8PathBuf::from("/a//b/./"), 1), None);
    assert_eq!(trie.insert(U8PathBuf::from("\\a\\b"), 2), Some(1));
    assert_eq!(trie.insert(U8PathBuf::from("a/b"), 3), None);
    assert_eq!(trie.insert(U8PathBuf::from("./a/b"), 4), None);
    let found = trie.longest_prefix(U8PathBuf::from("/a/./b//c"));
    assert_eq!(found.unwrap().as_bytes(), b"/a/b");
    let rootless = trie.longest_prefix(U8PathBuf::from("a\\b\\c"));
    assert_eq!(rootless.unwrap().as_bytes(), b"a/b");
    let dotted = trie.longest_prefix(U8PathBuf::from("./a/b/c"));
    assert_eq!(dotted.unwrap().as_bytes(), b"./a/b");
}

#[test]
fn empty_and_root_can_be_stored() {
    let mut trie = PathTrie::new();
    trie.insert(U8PathBuf::from("/"), 1);
    assert_eq!(trie.longest_prefix(U8PathBuf::from("/x/y")).unwrap().as_bytes(), b"/");
    assert!(trie.longest_prefix(U8PathBuf::from("x/y")).is_none());
    trie.insert(U8PathBuf::from(""), 2);
    assert_eq!(trie.longest_prefix(U8PathBuf::from("x/y")).unwrap().as_bytes(), b"");
    assert_eq!(trie.longest_prefix(U8PathBuf::from("/x/y")).unwrap().as_bytes(), b"/");
}

#[test]
fn parent_components_are_kept() {
    let mut trie = PathTrie::new();
    trie.insert(U8PathBuf::from("a/.."), 1);
    assert_eq!(trie.longest_prefix(U8PathBuf::from("a/../b")).unwrap().as_bytes(), b"a/..");
    assert!(trie.longest_prefix(U8PathBuf::from("b")).is_none());
}

#[test]
fn wide_units_above_one_byte_do_not_collide() {
    let mut trie = PathTrie::new();
    // U+2F2F holds the byte of `/` twice but is no separator
    trie.insert(U16PathBuf::from("/a"), 1);
    assert!(trie.longest_prefix(U16PathBuf::from("/a\u{2f2f}b")).is_none());
    trie.insert(U16PathBuf::from("/\u{6161}"), 2);
    assert!(trie.longest_prefix(U16PathBuf::from("/aa")).is_none());
    assert_eq!(
        trie.longest_prefix(U16PathBuf::from("/\u{6161}/x")).unwrap().as_slice(),
        &wide("/\u{6161}")[..]
    );
}
