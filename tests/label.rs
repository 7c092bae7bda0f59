use std::collections::hash_map::DefaultHasher;
use std::hash::{Hash, Hasher};

use dns_label::grammar::{is_ascii_alnum, scan, LabelError, MAX_LEN};
use dns_label::label::{to_lower, to_upper, Label};
use dns_label::owned::OwnedLabel;

fn label(text: &str) -> Label<'_> {
    Label::from_bytes(text.as_bytes())
}

fn hash_of<T: Hash>(value: &T) -> u64 {
    let mut state = DefaultHasher::new();
    value.hash(&mut state);
    state.finish()
}

#[test]
fn alnum_label_validates_whole() {
    for text in ["a", "abc123", "Z9", "x0x0x0", "A1b2C3d4"] {
        let l = Label::try_from_bytes(text.as_bytes()).unwrap();
        assert_eq!(l.as_bytes(), text.as_bytes());
        assert_eq!(l.len(), text.len());
    }
    let longest = [b'q'; 63];
    let l = Label::try_from_bytes(&longest[..]).unwrap();
    assert_eq!(l.len(), MAX_LEN);
    assert_eq!(Label::MAX_LEN, 63);
}

#[test]
fn edge_hyphens_are_stray() {
    for text in ["-abc", "abc-", "-", "--", "a-b-"] {
        for root in [false, true] {
            for whole in [false, true] {
                assert_eq!(
                    Label::try_scan_bytes(text.as_bytes(), root, whole).err(),
                    Some(LabelError::StrayHyphen)
                );
            }
        }
    }
    assert_eq!(scan(b"a-b", true, true), Ok(3));
}

#[test]
fn foreign_byte_is_stray() {
    for text in ["ab.cd", "a b", "caf\u{e9}", "under_score", ".", "abc!"] {
        for root in [false, true] {
            for whole in [false, true] {
                assert_eq!(
                    scan(text.as_bytes(), root, whole),
                    Err(LabelError::StrayHyphen)
                );
            }
        }
    }
    let mut far = vec![b'a'; 62];
    far.push(b'.');
    assert_eq!(scan(&far, true, false), Err(LabelError::StrayHyphen));
}

#[test]
fn foreign_byte_past_window_is_left_over() {
    let mut bytes = vec![b'a'; 63];
    bytes.push(b'.');
    let (l, rest) = Label::try_scan_bytes(&bytes, true, false).unwrap();
    assert_eq!(l.len(), 63);
    assert_eq!(rest, &b"."[..]);
    assert_eq!(
        Label::try_scan_bytes(&bytes, true, true).err(),
        Some(LabelError::LengthMismatch)
    );
}

#[test]
fn empty_is_root() {
    assert_eq!(scan(b"", false, true), Err(LabelError::FoundRoot));
    assert_eq!(scan(b"", false, false), Err(LabelError::FoundRoot));
    let root = Label::try_from_bytes(b"").unwrap();
    assert_eq!(root.len(), 0);
    assert!(root.is_root());
    assert!(root.is_empty());
    let (root, rest) = Label::scan_bytes(b"", true, false);
    assert!(root.is_root());
    assert!(rest.is_empty());
}

#[test]
fn sixty_four_letters_split() {
    let bytes = [b'k'; 64];
    let (l, rest) = Label::scan_bytes(&bytes, false, false);
    assert_eq!(l.len(), 63);
    assert_eq!(l.as_bytes(), &bytes[..63]);
    assert_eq!(rest.len(), 1);
    assert_eq!(
        Label::try_scan_bytes(&bytes, false, true).err(),
        Some(LabelError::LengthMismatch)
    );
    assert_eq!(Label::try_from_bytes(&bytes).err(), Some(LabelError::LengthMismatch));
}

#[test]
fn scan_stops_at_window() {
    let bytes = b"abc.def";
    assert_eq!(scan(bytes, true, false), Err(LabelError::StrayHyphen));
    let (l, rest) = Label::scan_bytes_unchecked(b"abc", false, true);
    assert_eq!(l.as_bytes(), b"abc");
    assert!(rest.is_empty());
}

#[test]
fn comparison_ignores_case() {
    assert!(label("ABC") == label("abc"));
    assert_eq!(hash_of(&label("ABC")), hash_of(&label("abc")));
    assert!(label("abc") < label("abd"));
    assert!(label("ab") < label("abc"));
    assert!(label("ABD") > label("abc"));
    assert!(label("ab") != label("abc"));
    assert!(label("abc") != label("abd"));
    assert_eq!(
        label("Zeta").partial_cmp(&label("zETA")),
        Some(std::cmp::Ordering::Equal)
    );
    assert_eq!(label("").partial_cmp(&label("a")), Some(std::cmp::Ordering::Less));
    assert_eq!(label("ABC").cmp(&label("abc")), std::cmp::Ordering::Equal);
    assert_eq!(label("abd").cmp(&label("ABC")), std::cmp::Ordering::Greater);
    assert_eq!(label("ab").cmp(&label("abc")), std::cmp::Ordering::Less);
    // By raw bytes 'B' would come before 'a'; the lowered bytes decide.
    assert!(label("a") < label("B"));
    assert!(label("Z") > label("y"));
}

#[test]
fn hash_sees_lowered_bytes() {
    assert_ne!(hash_of(&label("abc")), hash_of(&label("abd")));
    assert_eq!(hash_of(&label("MiXeD-CaSe")), hash_of(&label("mixed-case")));
    let a = OwnedLabel::from_label(&label("HOST"));
    let b = OwnedLabel::from_label(&label("host"));
    assert_eq!(hash_of(&a), hash_of(&b));
    assert_eq!(hash_of(&a), hash_of(&label("host")));
}

#[test]
fn owned_round_trip() {
    for text in ["", "a", "my-host", "Example-42"] {
        let l = label(text);
        let owned = OwnedLabel::from_label(&l);
        assert_eq!(owned.len(), text.len());
        assert_eq!(owned.as_label().as_bytes(), l.as_bytes());
        let copied = l.to_owned();
        assert_eq!(copied.as_label().as_bytes(), text.as_bytes());
    }
    let longest = [b'z'; 63];
    let owned = OwnedLabel::from_label(&Label::from_bytes(&longest));
    assert_eq!(owned.as_label().as_bytes(), &longest[..]);
}

#[test]
fn owned_compares_ignoring_case() {
    let a = OwnedLabel::from_label(&label("Alpha"));
    let b = OwnedLabel::from_label(&label("aLPHA"));
    let c = OwnedLabel::from_label(&label("beta"));
    assert!(a == b);
    assert!(a < c);
    assert!(a != c);
}

#[test]
fn recase_round_trip() {
    let mut buf = *b"my-host-42";
    let mut l = Label::try_from_bytes_mut(&mut buf).unwrap();
    l.make_ascii_uppercase();
    assert_eq!(l.as_bytes(), b"MY-HOST-42");
    l.make_ascii_lowercase();
    assert_eq!(l.as_bytes(), b"my-host-42");
    assert_eq!(&buf, b"my-host-42");

    let mut owned = OwnedLabel::from_label(&label("web-01"));
    owned.make_ascii_uppercase();
    assert_eq!(owned.as_label().as_bytes(), b"WEB-01");
    owned.make_ascii_lowercase();
    assert_eq!(owned.as_label().as_bytes(), b"web-01");
}

#[test]
fn mutable_scan_splits_buffer() {
    let mut buf = *b"WWW";
    {
        let (mut l, rest) = Label::scan_bytes_mut(&mut buf, false, false);
        assert_eq!(l.len(), 3);
        assert!(rest.is_empty());
        l.make_ascii_lowercase();
    }
    assert_eq!(&buf, b"www");

    let mut long = [b'A'; 64];
    {
        let (mut l, rest) = Label::try_scan_bytes_mut(&mut long, false, false).unwrap();
        assert_eq!(rest.len(), 1);
        l.make_ascii_lowercase();
        assert!(!l.is_root());
    }
    assert_eq!(&long[..63], &[b'a'; 63][..]);
    assert_eq!(long[63], b'A');

    let mut bad = *b"-x";
    assert_eq!(
        Label::try_from_bytes_mut(&mut bad).err().unwrap(),
        LabelError::StrayHyphen
    );
    let mut empty: [u8; 0] = [];
    assert_eq!(
        Label::try_scan_bytes_mut(&mut empty, false, true).err().unwrap(),
        LabelError::FoundRoot
    );
    let mut ok = *b"Node";
    let l = Label::from_bytes_mut(&mut ok);
    assert_eq!(l.as_bytes(), b"Node");
    let mut ok2 = *b"n0de";
    let l = Label::from_bytes_unchecked_mut(&mut ok2);
    assert_eq!(l.as_bytes(), b"n0de");
    let mut ok3 = *b"abc";
    let (l, _) = Label::scan_bytes_unchecked_mut(&mut ok3, true, true);
    assert_eq!(l.as_bytes(), b"abc");
    let mut ok4 = *b"xyz";
    let l = Label::transmute_bytes_mut(&mut ok4);
    assert_eq!(l.len(), 3);
}

#[test]
fn my_host_example() {
    let (l, rest) = Label::try_scan_bytes(b"my-host", true, true).unwrap();
    assert_eq!(l.as_bytes(), b"my-host");
    assert!(rest.is_empty());
    assert_eq!(l.as_str(), "my-host");
    assert_eq!(label("Web-01").as_str(), "Web-01");
    assert_eq!(label("").as_str(), "");
}

#[test]
fn bad_leading_hyphen_example() {
    assert_eq!(Label::try_from_bytes(b"-bad").err(), Some(LabelError::StrayHyphen));
}

#[test]
fn empty_without_root_example() {
    assert_eq!(
        Label::try_scan_bytes(b"", false, true).err(),
        Some(LabelError::FoundRoot)
    );
}

#[test]
fn unchecked_constructors_view_bytes() {
    assert_eq!(Label::from_bytes_unchecked(b"abc").as_bytes(), b"abc");
    assert_eq!(Label::transmute_bytes(b"a1").len(), 2);
}

#[test]
fn error_messages() {
    assert_eq!(
        LabelError::StrayHyphen.message(),
        "labels cannot have a hypen at their start or end"
    );
    assert_eq!(
        LabelError::LengthMismatch.message(),
        "length of the scanned label differs from its source"
    );
    assert_eq!(
        LabelError::FoundRoot.message(),
        "scanned the root label unexpectedly"
    );
}

#[test]
fn byte_helpers() {
    assert_eq!(to_lower(b'Q'), b'q');
    assert_eq!(to_lower(b'q'), b'q');
    assert_eq!(to_lower(b'-'), b'-');
    assert_eq!(to_upper(b'q'), b'Q');
    assert_eq!(to_upper(b'['), b'[');
    assert!(is_ascii_alnum(b'7'));
    assert!(is_ascii_alnum(b'z'));
    assert!(!is_ascii_alnum(b'-'));
    assert!(!is_ascii_alnum(b'@'));
}
