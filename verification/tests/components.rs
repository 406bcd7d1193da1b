use aincradfs_path::path::order::{order_components, order_units};
use aincradfs_path::path::owned::{canonical_units, is_separator_unit, parent_len, push_units};
use aincradfs_path::path::{
    units_equal, Component, Components, Path, PathBuf, PathOwned, PathStr, U16Path, U16PathBuf,
    U8Path, U8PathBuf,
};

fn forward8<'a>(path: &'a U8PathBuf) -> Vec<Component<'a, U8Path<'a>>> {
    let mut comps = path.components();
    let mut out = Vec::new();
    while let Some(c) = comps.next() {
        out.push(c);
    }
    out
}

fn backward8<'a>(path: &'a U8PathBuf) -> Vec<Component<'a, U8Path<'a>>> {
    let mut comps = path.components();
    let mut out = Vec::new();
    while let Some(c) = comps.next_back() {
        out.push(c);
    }
    out
}

fn forward16<'a>(path: &'a U16PathBuf) -> Vec<Component<'a, U16Path<'a>>> {
    let mut comps = path.components();
    let mut out = Vec::new();
    while let Some(c) = comps.next() {
        out.push(c);
    }
    out
}

fn n8<'a>(s: &'a [u8]) -> Component<'a, U8Path<'a>> {
    Component::Normal(s)
}

fn n16<'a>(s: &'a [u16]) -> Component<'a, U16Path<'a>> {
    Component::Normal(s)
}

fn wide(s: &str) -> Vec<u16> {
    s.encode_utf16().collect()
}

#[test]
pub fn test_wstr() {
    let path = U16PathBuf::from("./test/my/./../help//");

    let mut comps = path.components();
    while let Some(component) = comps.next() {
        println!("{:?}", component);
    }
}

#[test]
pub fn test_u8str() {
    let path = U8PathBuf::from("./test/my/./../help//");

    let mut comps = path.components();
    while let Some(component) = comps.next() {
        println!("{:?}", component);
    }
}

#[test]
pub fn test_eq() {
    let path = U16PathBuf::from("./test/my/./help//");
    let path2 = U16PathBuf::from("./test/my/help/");

    assert_eq!(path, path2)
}

#[test]
pub fn test_eq_pathsep() {
    let path = U16PathBuf::from("./test/my\\help/");
    let path2 = U16PathBuf::from("./test/my/help/");

    assert_eq!(path, path2)
}

#[test]
fn eq_holds_for_bytes_too() {
    assert_eq!(U8PathBuf::from("./test/my\\help/"), U8PathBuf::from("./test/my/help/"));
    assert_eq!(U8PathBuf::from("./test/my/./help//"), U8PathBuf::from("./test/my/help/"));
    assert_eq!(U8PathBuf::from("a/b"), U8PathBuf::from("a/b"));
}

#[test]
fn different_components_are_unequal() {
    assert_ne!(U8PathBuf::from("./a/b"), U8PathBuf::from("a/b"));
    assert_ne!(U8PathBuf::from("/a/b"), U8PathBuf::from("a/b"));
    assert_ne!(U8PathBuf::from("a/b"), U8PathBuf::from("a/c"));
    assert_ne!(U8PathBuf::from("a/b"), U8PathBuf::from("a/b/c"));
    assert_ne!(U8PathBuf::from("a/../b"), U8PathBuf::from("b"));
    assert_ne!(U16PathBuf::from("a/b"), U16PathBuf::from("a/bc"));
}

#[test]
fn forward_components_round_trip() {
    let path = U8PathBuf::from("./test/my/./../help//");
    let got = forward8(&path);
    let expected: Vec<Component<U8Path>> = vec![
        Component::Current,
        n8(b"test"),
        n8(b"my"),
        Component::Parent,
        n8(b"help"),
    ];
    assert_eq!(got.len(), 5);
    for (g, e) in got.iter().zip(expected.iter()) {
        assert!(g == e, "{:?} != {:?}", g, e);
    }
}

#[test]
fn forward_components_round_trip_wide() {
    let path = U16PathBuf::from("./test/my/./../help//");
    let got = forward16(&path);
    let test = wide("test");
    let my = wide("my");
    let help = wide("help");
    let expected: Vec<Component<U16Path>> = vec![
        Component::Current,
        n16(&test),
        n16(&my),
        Component::Parent,
        n16(&help),
    ];
    assert_eq!(got.len(), 5);
    for (g, e) in got.iter().zip(expected.iter()) {
        assert!(g == e, "{:?} != {:?}", g, e);
    }
}

#[test]
fn backward_is_forward_reversed() {
    for text in [
        "",
        "/",
        ".",
        "..",
        "./",
        "//",
        "/a",
        "a",
        "./test/my/./../help//",
        "/a//b/./c/../d\\e\\",
        ".a/b",
        "a/.",
        "./.",
        "/.",
        "\\\\x\\.\\y",
    ] {
        let path = U8PathBuf::from(text);
        let f = forward8(&path);
        let mut b = backward8(&path);
        b.reverse();
        assert_eq!(f.len(), b.len(), "{:?}", text);
        for (x, y) in f.iter().zip(b.iter()) {
            assert!(x == y, "{:?}: {:?} != {:?}", text, x, y);
        }
    }
}

#[test]
fn ends_meet_exactly_once() {
    let path = U8PathBuf::from("/a/b/c");
    let mut comps = path.components();
    assert!(comps.next() == Some(Component::Root));
    assert!(comps.next_back() == Some(n8(b"c")));
    assert!(comps.next() == Some(n8(b"a")));
    assert!(comps.next_back() == Some(n8(b"b")));
    assert!(comps.next().is_none());
    assert!(comps.next_back().is_none());
    assert!(comps.next().is_none());
}

#[test]
fn root_is_detected() {
    assert!(U8PathBuf::from("/a").as_path().has_root());
    assert!(U8PathBuf::from("\\a").as_path().has_root());
    assert!(!U8PathBuf::from("a/").as_path().has_root());
    assert!(!U8PathBuf::from("").as_path().has_root());
    assert!(U16PathBuf::from("/").as_path().has_root());
    assert!(!U16PathBuf::from("./").as_path().has_root());

    let rooted = U8PathBuf::from("//only");
    assert!(forward8(&rooted)[0] == Component::Root);
    let rootless = U8PathBuf::from("only//");
    assert!(forward8(&rootless).iter().all(|c| !(*c == Component::Root)));
}

#[test]
fn empty_path_has_no_components() {
    let path = U8PathBuf::from("");
    assert!(path.components().next().is_none());
    assert!(path.components().next_back().is_none());
    assert!(U8Path::empty().components().next().is_none());
    assert!(U16Path::empty().components().next_back().is_none());
    let wide_path = <U16PathBuf as PathBuf>::new();
    assert!(wide_path.components().next().is_none());
}

#[test]
fn separators_only() {
    let path = U8PathBuf::from("///");
    let f = forward8(&path);
    assert_eq!(f.len(), 1);
    assert!(f[0] == Component::Root);
}

#[test]
fn static_views() {
    assert_eq!(U8Path::root().as_str(), b"/");
    assert_eq!(U8Path::empty().as_str(), b"");
    assert_eq!(U8Path::current_dir(), b".");
    assert_eq!(U8Path::parent_dir(), b"..");
    assert_eq!(U8Path::separator(), b"/");
    assert_eq!(U16Path::root().as_str(), &[47u16][..]);
    assert_eq!(U16Path::current_dir(), &[46u16][..]);
    assert_eq!(U16Path::parent_dir(), &[46u16, 46u16][..]);
    assert_eq!(U16Path::separator(), &[47u16][..]);
    assert!(U8Path::is_separator(b'/'));
    assert!(U8Path::is_separator(b'\\'));
    assert!(!U8Path::is_separator(b'.'));
    assert!(U16Path::is_separator(47));
    assert!(U16Path::is_separator(92));
    assert!(!U16Path::is_separator(0x2f2f));
}

#[test]
fn as_path_gives_what_is_left() {
    let path = U8PathBuf::from("/a//b/./c//");
    let mut comps = path.components();
    assert_eq!(comps.as_path().as_str(), b"/a//b/./c");
    comps.next();
    assert_eq!(comps.as_path().as_str(), b"a//b/./c");
    comps.next();
    assert_eq!(comps.as_path().as_str(), b"b/./c");
    comps.next_back();
    assert_eq!(comps.as_path().as_str(), b"b");
    comps.next_back();
    assert_eq!(comps.as_path().as_str(), b"");
}

#[test]
fn as_path_is_idempotent() {
    for text in ["./a//b/./", "/x/../y//", "a", "", "/", "./.", "a/./"] {
        let path = U8PathBuf::from(text);
        let once = U8PathBuf::from(&path.components().as_path());
        let twice = U8PathBuf::from(&once.components().as_path());
        assert_eq!(once.as_bytes(), twice.as_bytes());
        assert_eq!(path, once);
    }
}

#[test]
fn iterators_compare_by_what_is_left() {
    let a = U8PathBuf::from("/x/a/b");
    let b = U8PathBuf::from("y//a/b/");
    let mut ca = a.components();
    let mut cb = b.components();
    assert!(!ca.eq(&cb));
    ca.next();
    ca.next();
    cb.next();
    assert!(ca.eq(&cb));
    let fresh: Components<U8Path> = Components::new(&b"a\\b"[..]);
    assert!(ca.eq(&fresh));
}

#[test]
fn text_becomes_units() {
    assert_eq!(U8PathBuf::from("a/é").as_bytes(), "a/é".as_bytes());
    assert_eq!(U16PathBuf::from("a/é").as_slice(), &[97u16, 47, 0xe9][..]);
    // outside the basic plane: a surrogate pair
    assert_eq!(U16PathBuf::from("𝄞").as_slice(), &[0xD834u16, 0xDD1E][..]);
    assert_eq!(U8PathBuf::from_text("x").as_bytes(), b"x");
    assert_eq!(U16PathBuf::from_text("x").as_slice(), &[120u16][..]);
}

#[test]
fn push_appends_one_component() {
    let mut p = <U8PathBuf as PathBuf>::new();
    p.push(b"a");
    assert_eq!(p.as_bytes(), b"a");
    p.push(b"b");
    assert_eq!(p.as_bytes(), b"a/b");
    p.push(b".");
    assert_eq!(p.as_bytes(), b"a/b");
    p.push(b"");
    assert_eq!(p.as_bytes(), b"a/b");
    p.push(b"..");
    assert_eq!(p.as_bytes(), b"a/b/..");

    let mut q = U8PathBuf::from("/");
    q.push(b"x");
    assert_eq!(q.as_bytes(), b"/x");
    let mut r = U8PathBuf::from("x\\");
    r.push(b"y");
    assert_eq!(r.as_bytes(), b"x\\y");

    let mut w = U16PathBuf::from("a");
    w.push(&wide("b"));
    assert_eq!(w.as_slice(), &wide("a/b")[..]);
}

#[test]
fn pop_removes_the_last_component() {
    let mut p = U8PathBuf::from("/a//b/./c//");
    p.pop();
    assert_eq!(p.as_bytes(), b"/a//b");
    p.pop();
    assert_eq!(p.as_bytes(), b"/a");
    p.pop();
    assert_eq!(p.as_bytes(), b"/");
    p.pop();
    assert_eq!(p.as_bytes(), b"/");

    let mut e = U8PathBuf::from("");
    e.pop();
    assert_eq!(e.as_bytes(), b"");

    let mut d = U8PathBuf::from("./x");
    d.pop();
    assert_eq!(d.as_bytes(), b".");
    d.pop();
    assert_eq!(d.as_bytes(), b"");

    let mut w = U16PathBuf::from("a/b/");
    w.pop();
    assert_eq!(w.as_slice(), &wide("a")[..]);
}

#[test]
fn pop_undoes_push() {
    for text in ["", "/", ".", "a", "/a/b", "a//", "./x/..", "..", "a/./"] {
        let before = U8PathBuf::from(text);
        let mut p = before.clone();
        p.push(b"leaf");
        assert_ne!(p, before);
        p.pop();
        assert_eq!(p, before, "{:?}", text);
    }
}

#[test]
fn find_break_backs_up_to_a_separator() {
    let p = U8PathBuf::from("/hello/world/spam");
    assert_eq!(p.find_break(16).as_str(), b"/hello/world");
    assert_eq!(p.find_break(12).as_str(), b"/hello/world");
    assert_eq!(p.find_break(11).as_str(), b"/hello");
    assert_eq!(p.find_break(0).as_str(), b"");

    let w = U16PathBuf::from("/hello/world/spam");
    assert_eq!(w.find_break(33).as_str(), &wide("/hello/world")[..]);
    assert_eq!(w.find_break(24).as_str(), &wide("/hello/world")[..]);
    assert_eq!(w.find_break(23).as_str(), &wide("/hello")[..]);
    assert_eq!(U8PathBuf::empty().as_str(), b"");
    assert_eq!(U16PathBuf::empty().as_str(), &[0u16; 0][..]);
}

#[test]
fn owned_and_borrowed_convert() {
    let p = U8PathBuf::from("a/b");
    let v = p.as_path();
    assert_eq!(U8PathBuf::from(&v).as_bytes(), b"a/b");
    assert_eq!(<U8PathBuf as PathOwned>::from_units(b"x/y").as_bytes(), b"x/y");
    assert_eq!(<U8PathBuf as PathOwned>::as_str(&p), b"a/b");
    assert!(U8Path::from_str(b"a//b") == v);
    let w = U16PathBuf::from("a/b");
    assert!(U16Path::from_str(&wide("a\\b")) == w.as_path());
    assert_eq!(U16PathBuf::from(&w.as_path()).as_slice(), &wide("a/b")[..]);
}

#[test]
fn components_are_ordered_by_kind_then_units() {
    let root: Component<U8Path> = Component::Root;
    let cur: Component<U8Path> = Component::Current;
    let parent: Component<U8Path> = Component::Parent;
    assert!(root < cur);
    assert!(cur < parent);
    assert!(parent < n8(b"a"));
    assert!(root < n8(b""));
    assert!(n8(b"a") < n8(b"ab"));
    assert!(n8(b"ab") < n8(b"b"));
    assert!(n8(b"b") > n8(b"ab"));
    assert!(n8(b"a") <= n8(b"a"));
    assert!(n8(b"a") >= n8(b"a"));
    assert!(!(n8(b"a") < n8(b"a")));
    assert_eq!(n8(b"x").partial_cmp(&n8(b"x")), Some(std::cmp::Ordering::Equal));
    assert_eq!(n8(b"x").partial_cmp(&parent), Some(std::cmp::Ordering::Greater));
    assert_eq!(cur.partial_cmp(&parent), Some(std::cmp::Ordering::Less));
    let big = [0x100u16];
    let small = [0xffu16, 0xffff];
    assert!(n16(&small) < n16(&big));
}

#[test]
fn canonical_spelling_and_where_its_components_end() {
    let p = U8PathBuf::from("\\a//b/./..\\c/");
    let (units, ends) = p.canonical();
    assert_eq!(units, b"/a/b/../c".to_vec());
    assert_eq!(ends, vec![0, 1, 2, 4, 7, 9]);

    let q = U8PathBuf::from("./x//");
    let (units, ends) = q.canonical();
    assert_eq!(units, b"./x".to_vec());
    assert_eq!(ends, vec![0, 1, 3]);

    let e = U8PathBuf::from("");
    let (units, ends) = e.canonical();
    assert_eq!(units, Vec::<u8>::new());
    assert_eq!(ends, vec![0]);

    let w = U16PathBuf::from("a\\\\b");
    let (units, ends) = w.canonical();
    assert_eq!(units, wide("a/b"));
    assert_eq!(ends, vec![0, 1, 3]);
}

#[test]
fn canonical_spelling_keeps_the_components() {
    for text in ["", "/", ".", "./", "a//b", "/a/./b/", "../x", "a/..", "\\x\\y"] {
        let p = U8PathBuf::from(text);
        let (units, _) = p.canonical();
        let c = <U8PathBuf as PathOwned>::from_units(&units);
        assert_eq!(p, c, "{:?}", text);
        let (again, _) = c.canonical();
        assert_eq!(units, again);
    }
}

#[test]
fn key_bytes_are_low_byte_first() {
    let units = [0x1234u16, 0x002f, 0xff00];
    assert_eq!(units[..].to_key(), vec![0x34, 0x12, 0x2f, 0x00, 0x00, 0xff]);
    assert_eq!(b"a/b"[..].to_key(), b"a/b".to_vec());
    assert_eq!(<[u8] as PathStr>::unit_code(b'/'), 47);
    assert_eq!(<[u16] as PathStr>::unit_code(0x2f2f), 0x2f2f);
    assert_eq!(<[u8] as PathStr>::unit_from_ascii(46), b'.');
    assert_eq!(<[u16] as PathStr>::unit_from_ascii(47), 47u16);
    assert_eq!(PathStr::len(&units[..]), 3);
    assert!(!PathStr::is_empty(&units[..]));
    assert!(PathStr::is_empty(&b""[..]));
}

#[test]
fn units_compare_in_order() {
    assert_eq!(order_units::<[u8]>(b"", b""), 0);
    assert_eq!(order_units::<[u8]>(b"", b"a"), -1);
    assert_eq!(order_units::<[u8]>(b"a", b""), 1);
    assert_eq!(order_units::<[u8]>(b"abc", b"abd"), -1);
    assert_eq!(order_units::<[u8]>(b"abd", b"abc"), 1);
    assert_eq!(order_units::<[u8]>(b"abc", b"abc"), 0);
    assert_eq!(order_components(&n8(b"a"), &Component::Root), 1);
    assert_eq!(order_components::<U8Path>(&Component::Current, &Component::Current), 0);
    assert!(units_equal::<[u8]>(b"ab", b"ab"));
    assert!(!units_equal::<[u8]>(b"ab", b"ac"));
    assert!(!units_equal::<[u8]>(b"ab", b"abc"));
}

#[test]
fn generic_helpers_work_on_plain_buffers() {
    let mut buf: Vec<u8> = b"a".to_vec();
    push_units::<[u8]>(&mut buf, b"b");
    assert_eq!(buf, b"a/b".to_vec());
    assert_eq!(parent_len::<U8Path>(&b"a/b//"[..]), 1);
    assert_eq!(parent_len::<U8Path>(&b"/"[..]), 1);
    assert_eq!(parent_len::<U8Path>(&b"./"[..]), 0);
    assert_eq!(parent_len::<U8Path>(&b"/a/b"[..]), 2);
    assert!(is_separator_unit::<[u16]>(92));
    assert!(!is_separator_unit::<[u16]>(46));
    let (units, ends) = canonical_units::<U8Path>(&b"x/./y"[..]);
    assert_eq!(units, b"x/y".to_vec());
    assert_eq!(ends, vec![0, 1, 3]);
}
