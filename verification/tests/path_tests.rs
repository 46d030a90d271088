use rv6_kernel::directory::{InodeGuard, Walk};
use rv6_kernel::inode::{InodeInner, InodeType, NDIRECT};
use rv6_kernel::path::{is_absolute, skipelem, SLASH};

fn split(path: &[u8]) -> Option<(Vec<u8>, Vec<u8>)> {
    skipelem(path).map(|(rest, name)| (rest.to_vec(), name.to_vec()))
}

fn some(rest: &[u8], name: &[u8]) -> Option<(Vec<u8>, Vec<u8>)> {
    Some((rest.to_vec(), name.to_vec()))
}

fn guard(typ: InodeType, entries: &[(u16, &[u8])]) -> InodeGuard {
    let mut data = Vec::new();
    for (inum, name) in entries {
        data.push((inum % 256) as u8);
        data.push((inum / 256) as u8);
        let mut field = [0u8; 14];
        field[..name.len()].copy_from_slice(name);
        data.extend_from_slice(&field);
    }
    InodeGuard {
        dev: 1,
        inum: 1,
        inner: InodeInner {
            valid: true,
            typ,
            nlink: 1,
            size: data.len() as u32,
            addr_direct: [0; NDIRECT],
            addr_indirect: 0,
        },
        data,
    }
}

#[test]
fn slash_is_the_separator() {
    assert_eq!(SLASH, b'/');
}

#[test]
fn is_absolute_looks_at_the_first_byte() {
    assert!(is_absolute(b"/"));
    assert!(is_absolute(b"/a/b"));
    assert!(!is_absolute(b"a/b"));
    assert!(!is_absolute(b""));
}

#[test]
fn skipelem_splits_off_the_first_element() {
    assert_eq!(split(b"a/bb/c"), some(b"bb/c", b"a"));
    assert_eq!(split(b"///a//bb"), some(b"bb", b"a"));
    assert_eq!(split(b"a"), some(b"", b"a"));
    assert_eq!(split(b"a///"), some(b"", b"a"));
    assert_eq!(split(b"/usr/bin/"), some(b"bin/", b"usr"));
}

#[test]
fn skipelem_of_no_element_is_none() {
    assert_eq!(split(b""), None);
    assert_eq!(split(b"/"), None);
    assert_eq!(split(b"////"), None);
}

#[test]
fn skipelem_cuts_a_long_element() {
    assert_eq!(split(b"/abcdefghijklmnopq/x"), some(b"x", b"abcdefghijklmn"));
    assert_eq!(split(b"abcdefghijklmn"), some(b"", b"abcdefghijklmn"));
    assert_eq!(split(b"abcdefghijklmno"), some(b"", b"abcdefghijklmn"));
}

#[test]
fn namex_ends_where_the_path_ends() {
    let ip = guard(InodeType::File, &[]);
    assert!(matches!(ip.namex(b"", false), Walk::Found));
    assert!(matches!(ip.namex(b"//", false), Walk::Found));
    assert!(matches!(ip.namex(b"/", true), Walk::Fail));
    assert!(matches!(ip.namex(b"", true), Walk::Fail));
}

#[test]
fn namex_fails_below_what_is_no_directory() {
    let ip = guard(InodeType::File, &[]);
    assert!(matches!(ip.namex(b"a", false), Walk::Fail));
    assert!(matches!(ip.namex(b"a", true), Walk::Fail));
    let dev = guard(InodeType::Device { major: 1, minor: 1 }, &[]);
    assert!(matches!(dev.namex(b"/a/b", false), Walk::Fail));
}

#[test]
fn namex_descends_into_the_entry_named() {
    let ip = guard(InodeType::Dir, &[(1, b"."), (1, b".."), (5, b"usr"), (6, b"bin")]);
    match ip.namex(b"/usr/lib", false) {
        Walk::Descend { inum, rest } => {
            assert_eq!(inum, 5);
            assert_eq!(rest, b"lib");
        }
        _ => panic!("the walk goes on"),
    }
    match ip.namex(b"bin", false) {
        Walk::Descend { inum, rest } => {
            assert_eq!(inum, 6);
            assert_eq!(rest, b"");
        }
        _ => panic!("the walk goes on"),
    }
    match ip.namex(b"usr/lib", true) {
        Walk::Descend { inum, rest } => {
            assert_eq!(inum, 5);
            assert_eq!(rest, b"lib");
        }
        _ => panic!("the walk goes on"),
    }
    assert!(matches!(ip.namex(b"/etc/x", false), Walk::Fail));
    assert!(matches!(ip.namex(b"/etc/x", true), Walk::Fail));
}

#[test]
fn namex_stops_at_the_parent_of_the_last_element() {
    let ip = guard(InodeType::Dir, &[(1, b"."), (1, b".."), (5, b"usr")]);
    match ip.namex(b"/usr", true) {
        Walk::FoundParent { name } => assert_eq!(name, b"usr"),
        _ => panic!("this is the parent"),
    }
    match ip.namex(b"new//", true) {
        Walk::FoundParent { name } => assert_eq!(name, b"new"),
        _ => panic!("this is the parent"),
    }
}
