use serpula::path::{file_name, join_path};
use serpula::text::{print_decimal, print_hexadecimal, print_signed, split_once, trim};
use std::path::Path;

#[test]
fn trim_drops_white_space_and_nothing_else() {
    for n in 0..=0x10ffffu32 {
        if let Some(c) = char::from_u32(n) {
            let s: String = [c, 'x', c, 'x', c].iter().collect();
            assert_eq!(trim(&s), s.trim(), "character {n:x}");
        }
    }
    assert_eq!(trim(" \t\n"), "");
    assert_eq!(trim(""), "");
}

#[test]
fn split_once_takes_the_first_separator() {
    assert_eq!(split_once("A=B=C", '='), Some(("A", "B=C")));
    assert_eq!(split_once("=", '='), Some(("", "")));
    assert_eq!(split_once("none", '='), None);
    assert_eq!(split_once("\u{e9}=\u{e8}", '='), Some(("\u{e9}", "\u{e8}")));
}

#[test]
fn numbers_are_printed_as_std_prints_them() {
    for n in [0, 7, 10, 99, 100, 3600, 1_000_000, u64::MAX] {
        assert_eq!(print_decimal(n), n.to_string());
    }
    for n in [0, 42, -1, i32::MIN, i32::MAX] {
        assert_eq!(print_signed(n), n.to_string());
    }
    assert_eq!(print_hexadecimal(&[0, 1, 0x9a, 0xff]), "00019aff");
    assert_eq!(print_hexadecimal(&[]), "");
}

#[test]
fn join_path_agrees_with_std() {
    for base in ["", "/", "/home/alice", "/home/alice/", "rel", "a//"] {
        for part in ["Library", "a/b", "/abs", "", ".hidden"] {
            assert_eq!(
                join_path(base, part),
                Path::new(base).join(part).to_str().unwrap(),
                "{base} {part}"
            );
        }
    }
}

#[test]
fn file_name_agrees_with_std() {
    for path in [
        "", "/", "//", ".", "./", "..", "/..", "a/..", "a", "a/", "a//", "a/.", "a/./", "/home/alice",
        "/home/alice/.", "./a", "...", "a/.../", ".a", "..a/", "/.", "./.", "../.", "a/../b",
    ] {
        assert_eq!(
            file_name(path).as_deref(),
            Path::new(path).file_name().map(|s| s.to_str().unwrap()),
            "{path}"
        );
    }
}
