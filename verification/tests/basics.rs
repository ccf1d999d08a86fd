//! Texts, paths, ordered maps and errors.

use uci_grabber::choice::TextSet;
use uci_grabber::error::Error;
use uci_grabber::order::{comes_before, TextMap};
use uci_grabber::place::{Part, Place};
use uci_grabber::text::{
    chars_of, decimal_text, equal_ignoring_ascii_case, find_text, join3, parse_number, same_text,
    split_chars, text_of, text_starts_with, trim, wide_decimal_text,
};

fn place(text: &str) -> Place {
    Place::read(text, '/')
}

#[test]
fn texts_are_joined_compared_and_split() {
    assert_eq!(join3("a", "é", "c"), "aéc");
    assert!(same_text("é", "é"));
    assert!(!same_text("a", "A"));
    assert!(equal_ignoring_ascii_case("aÉz", "AÉZ"));
    assert!(!equal_ignoring_ascii_case("é", "É"));
    assert!(text_starts_with("https://a", "https://"));
    let parts = split_chars(&chars_of("a//b"), '/');
    let texts: Vec<String> = parts.iter().map(|part| text_of(part)).collect();
    assert_eq!(texts, vec!["a", "", "b"]);
    assert_eq!(find_text(&chars_of("a-b-c"), &chars_of("-")), 1);
    assert_eq!(text_of(&trim(&chars_of("\u{3000} a b\t"))), "a b");
}

#[test]
fn numbers_read_back() {
    for number in [0, 7, 10, 1_234_567_890, u64::MAX] {
        assert_eq!(parse_number(&decimal_text(number)), Some(number));
    }
    assert_eq!(decimal_text(u64::MAX), "18446744073709551615");
    assert_eq!(wide_decimal_text(u128::MAX), "340282366920938463463374607431768211455");
    assert_eq!(parse_number("+5"), Some(5));
    assert_eq!(parse_number("007"), Some(7));
    for text in ["", "+", "-1", "1x", "18446744073709551616"] {
        assert_eq!(parse_number(text), None, "{text}");
    }
}

#[test]
fn texts_are_ordered_by_their_characters() {
    assert!(comes_before("a", "b"));
    assert!(comes_before("a", "ab"));
    assert!(comes_before("B", "a"));
    assert!(!comes_before("a", "a"));
    let mut map: TextMap<u64> = TextMap::new();
    for (key, value) in [("b", 1), ("a", 2), ("c", 3), ("b", 4)] {
        map.insert(key.to_owned(), value);
    }
    assert_eq!(map.len(), 3);
    assert_eq!(map.get("b"), Some(&4));
    assert_eq!(map.get("d"), None);
    assert_eq!(map.at(0), (&"a".to_owned(), &2));
    assert_eq!(map.at(2), (&"c".to_owned(), &3));
    let mut set = TextSet::new();
    set.insert("a".to_owned());
    assert!(set.contains("a"));
    set.remove("a".to_owned());
    assert!(!set.contains("a"));
}

#[test]
fn paths_are_read_and_joined() {
    let root = place("/data/");
    assert_eq!(root.parts, vec![Part::Root, Part::Normal("data".into())]);
    let child = root.child("engine");
    assert_eq!(child.shown, "/data/engine");
    assert!(child.same(&place("/data/engine")));
    assert!(child.starts_with(&root));
    assert!(!root.starts_with(&child));
    assert!(!place("/database").starts_with(&root));
    assert!(child.parent().unwrap().same(&root));
    assert_eq!(child.file_name(), Some(&"engine".to_owned()));
    assert_eq!(child.strip_prefix(&root), Some(vec![Part::Normal("engine".into())]));
    assert_eq!(root.strip_prefix(&child), None);
    assert_eq!(place("/").parent(), None);
    assert_eq!(place("a/..").file_name(), None);
    let names = vec!["a".to_owned(), "b".to_owned()];
    assert!(root.below(&names).same(&root.child("a").child("b")));
}

#[test]
fn white_space_is_that_of_unicode() {
    let white: String = (0..=0x10ffff_u32)
        .filter_map(char::from_u32)
        .filter(|ch| trim(&[*ch]).is_empty())
        .collect();
    assert_eq!(
        white,
        "\u{9}\u{a}\u{b}\u{c}\u{d} \u{85}\u{a0}\u{1680}\u{2000}\u{2001}\u{2002}\u{2003}\u{2004}\u{2005}\
         \u{2006}\u{2007}\u{2008}\u{2009}\u{200a}\u{2028}\u{2029}\u{202f}\u{205f}\u{3000}",
    );
}

#[test]
fn texts_fall_into_components() {
    let parts = |text: &str| place(text).parts;
    let name = |text: &str| Part::Normal(text.to_owned());
    assert_eq!(parts(""), Vec::new());
    assert_eq!(parts("."), vec![Part::Current]);
    assert_eq!(parts("./a"), vec![Part::Current, name("a")]);
    assert_eq!(parts(".."), vec![Part::Parent]);
    assert_eq!(parts("../1"), vec![Part::Parent, name("1")]);
    assert_eq!(parts("a/../b"), vec![name("a"), Part::Parent, name("b")]);
    assert_eq!(parts("a//./b/"), vec![name("a"), name("b")]);
    assert_eq!(parts("a/."), vec![name("a")]);
    assert_eq!(parts("/"), vec![Part::Root]);
    assert_eq!(parts("/."), vec![Part::Root]);
    assert_eq!(parts("/./a"), vec![Part::Root, name("a")]);
    assert_eq!(parts("/.."), vec![Part::Root, Part::Parent]);
    assert_eq!(parts("..."), vec![name("...")]);
}

#[test]
fn directories_of_paths_are_shown_as_they_were_written() {
    let shown = |text: &str| place(text).parent().map(|parent| parent.shown);
    assert_eq!(shown("/data/"), Some("/".to_owned()));
    assert_eq!(shown("data/"), Some(String::new()));
    assert_eq!(shown("a/b"), Some("a".to_owned()));
    assert_eq!(shown("a//b"), Some("a".to_owned()));
    assert_eq!(shown("/a/b/c"), Some("/a/b".to_owned()));
    for text in ["a/./b", "x//a/b/", "/a", "//a", "/a/.", ".", "./a", "a/..", "..", "./"] {
        let expected = std::path::Path::new(text).parent().map(|parent| parent.to_str().unwrap());
        assert_eq!(shown(text).as_deref(), expected, "{text}");
    }
}

#[test]
fn texts_below_a_path_are_kept_and_joined() {
    for (text, root) in [
        ("/g/a//./b/", "/g"),
        ("/g//a/./b/.", "/g/."),
        ("/g/./a", "/g/"),
        ("g/a", "g"),
        ("a//b", ""),
        ("/g/.", "/g"),
        ("/g//", "/g"),
        ("/a/b", "/"),
    ] {
        let std_text = std::path::Path::new(text).strip_prefix(root).unwrap();
        let path = place(text);
        let below = path.text_below(&place(root));
        assert_eq!(below, std_text.to_str().unwrap(), "{text} below {root}");
        let names: Vec<String> = std_text
            .iter()
            .map(|name| name.to_str().unwrap().to_owned())
            .collect();
        for base in ["/data", "/data/", "data", ""] {
            let joined = place(base).joined(&below, &names);
            let expected = std::path::Path::new(base).join(std_text);
            assert_eq!(joined.shown, expected.to_str().unwrap());
            assert_eq!(joined.parts, place(&joined.shown).parts);
        }
    }
}

#[test]
fn drives_take_no_separator() {
    let drive = Place {
        shown: "C:".to_owned(),
        parts: vec![Part::Prefix("C:".to_owned())],
        separator: '\\',
    };
    assert_eq!(drive.child("x").shown, "C:x");
    assert_eq!(drive.child("x").child("y").shown, "C:x\\y");
}

#[test]
fn shown_paths_read_back_as_they_were_joined() {
    let names = vec!["engines".to_owned(), "a".to_owned()];
    for base in ["/data", "data", "a/b"] {
        let joined = place(base).below(&names);
        assert_eq!(place(&joined.shown).parts, joined.parts);
    }
}

#[test]
fn errors_have_messages() {
    let text = |error: Error| error.message();
    assert_eq!(text(Error::InvalidSignature), "catalog signature verification failed");
    assert_eq!(text(Error::UnsupportedPlatform("x".into())), "unsupported platform `x`");
    assert_eq!(
        text(Error::DownloadTooLarge { limit: 5 }),
        "download exceeded its declared or configured size limit (5 bytes)",
    );
    assert_eq!(
        text(Error::ChecksumMismatch {
            path: "p".into(),
            expected: "e".into(),
            actual: "a".into(),
        }),
        "checksum mismatch for p: expected e, got a",
    );
    assert_eq!(text(Error::UnsafeArchiveEntry("../x".into())), "unsafe archive entry `../x`");
    assert_eq!(text(Error::ArchiveLimit("x".into())), "archive exceeds safety limit: x");
    assert_eq!(text(Error::UciValidation("x".into())), "UCI validation failed: x");
    assert_eq!(text(Error::MissingInstall("x".into())), "installed engine is not present: x");
    assert_eq!(text(Error::Cancelled), "operation cancelled");
    assert_eq!(text(Error::io("p", "denied")), "I/O error at p: denied");
    assert_eq!(text(Error::Json("x".into())), "JSON error: x");
    assert_eq!(text(Error::InvalidCatalog("x".into())), "invalid catalog: x");
}
