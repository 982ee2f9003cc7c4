use heic2jpg::names::{extension_of, is_heic, name_is_heic, stem_length, target_name};
use std::path::Path;

const NAMES: [&str; 22] = [
    "a.zip", "a.tar.gz", "noext", ".hidden", ".hidden.txt", "a.", "..", "...", "..a", "a..b", "a\\b.zip",
    "x\\", "a.b\\c", "photo.HEIC", "photo.heic", "höhe.zip", "日本.heic", "a b.c d", ".a.", "a.jpg", "shot.ZIP",
    "-",
];

#[test]
fn heic_extension_is_matched_in_any_case() {
    assert!(is_heic(b"heic"));
    assert!(is_heic(b"HEIC"));
    assert!(is_heic(b"Heic"));
    assert!(is_heic(b"hEiC"));
    assert!(!is_heic(b"png"));
    assert!(!is_heic(b"heif"));
    assert!(!is_heic(b"heic2"));
    assert!(!is_heic(b"hei\xe3"));
    assert!(!is_heic(b""));
}

#[test]
fn names_with_heic_extension_are_kept() {
    assert!(name_is_heic(b"photo.HEIC"));
    assert!(name_is_heic(b"photo.heic"));
    assert!(name_is_heic(b"photo.Heic"));
    assert!(name_is_heic(b"a.b.heic"));
    assert!(name_is_heic("日本.heic".as_bytes()));
    assert!(!name_is_heic(b"photo.png"));
    assert!(!name_is_heic(b"photo"));
    assert!(!name_is_heic(b"heic"));
    assert!(!name_is_heic(b".heic"));
    assert!(!name_is_heic(b"photo.heic.bak"));
    assert!(!name_is_heic(b""));
}

#[test]
fn extension_follows_the_last_dot_of_the_name() {
    assert_eq!(extension_of(b"a.zip"), Some(b"zip".to_vec()));
    assert_eq!(extension_of(b"a.tar.gz"), Some(b"gz".to_vec()));
    assert_eq!(extension_of(b"noext"), None);
    assert_eq!(extension_of(b".hidden"), None);
    assert_eq!(extension_of(b".hidden.txt"), Some(b"txt".to_vec()));
    assert_eq!(extension_of(b"a."), Some(Vec::new()));
    assert_eq!(extension_of(b".."), None);
    assert_eq!(extension_of(b"."), None);
    assert_eq!(extension_of(b""), None);
}

#[test]
fn stem_ends_before_the_extension() {
    assert_eq!(stem_length(b"a.zip"), 1);
    assert_eq!(stem_length(b"a.tar.gz"), 5);
    assert_eq!(stem_length(b"noext"), 5);
    assert_eq!(stem_length(b".hidden"), 7);
    assert_eq!(stem_length(b".."), 2);
    assert_eq!(stem_length(b""), 0);
}

#[test]
fn target_replaces_the_extension_by_jpg() {
    assert_eq!(target_name(b"foo.zip"), b"foo.jpg".to_vec());
    assert_eq!(target_name(b"a.b.zip"), b"a.b.jpg".to_vec());
    assert_eq!(target_name(b"noext"), b"noext.jpg".to_vec());
    assert_eq!(target_name(b".hidden"), b".hidden.jpg".to_vec());
    assert_eq!(target_name(b"b.txt"), b"b.jpg".to_vec());
    assert_eq!(target_name(b"x\\"), b"x\\.jpg".to_vec());
    assert_eq!(target_name("höhe.zip".as_bytes()), "höhe.jpg".as_bytes().to_vec());
    assert_eq!(target_name(b"\xff\xfe.zip"), b"\xff\xfe.jpg".to_vec());
}

#[test]
fn extension_is_that_of_the_standard_library() {
    for name in NAMES {
        if Path::new(name).file_name().map(|found| found.as_encoded_bytes()) != Some(name.as_bytes()) {
            continue;
        }
        let expected = Path::new(name).extension().map(|ext| ext.as_encoded_bytes().to_vec());
        assert_eq!(extension_of(name.as_bytes()), expected, "{}", name);
    }
}

#[test]
fn target_is_that_of_the_standard_library() {
    for name in NAMES {
        if Path::new(name).file_name().map(|found| found.as_encoded_bytes()) != Some(name.as_bytes()) {
            continue;
        }
        if name.starts_with("..") && stem_length(name.as_bytes()) == 1 {
            continue;
        }
        let expected = Path::new(name).with_extension("jpg");
        let expected = expected.file_name().unwrap().as_encoded_bytes().to_vec();
        assert_eq!(target_name(name.as_bytes()), expected, "{}", name);
    }
}

#[test]
fn extension_behind_two_dots_is_replaced_like_any_other() {
    assert_eq!(extension_of(b"..a"), Some(b"a".to_vec()));
    assert_eq!(target_name(b"..a"), b"..jpg".to_vec());
    assert_eq!(target_name(b"..heic"), b"..jpg".to_vec());
}

#[test]
fn target_of_a_target_is_the_target() {
    for name in NAMES {
        let once = target_name(name.as_bytes());
        assert_eq!(target_name(&once), once);
    }
}
