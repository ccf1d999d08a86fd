//! The files of a package, their digest, and the review that is written into a launcher.

use uci_grabber::digest::sha256_text;
use uci_grabber::error::Error;
use uci_grabber::extract::NameCase;
use uci_grabber::package::{
    package_snapshot, portable_relative_path, same_snapshot, FileKind, HashedFile, PackageSnapshot,
    PackageWalk, Visit, INSTALL_RECORD_FILE,
};
use uci_grabber::place::Place;
use uci_grabber::review::{
    embedded_payload_review, payload_review_placeholder, personalize_maia_launcher, verify_payload,
    PAYLOAD_REVIEW_COUNT_LEN, PAYLOAD_REVIEW_DIGEST_LEN, PAYLOAD_REVIEW_LEN,
    PAYLOAD_REVIEW_MARKER_LEN,
};

fn visit(walk: &mut PackageWalk, path: &str, kind: FileKind) -> Result<Visit, Error> {
    walk.visit(&Place::read(path, '/').parts, path, kind)
}

fn hashed(path: &str, contents: &[u8]) -> HashedFile {
    HashedFile {
        path: path.into(),
        length: contents.len() as u64,
        sha256: sha256_text(contents),
    }
}

fn personalized(launcher: &[u8], payload: &PackageSnapshot) -> Vec<u8> {
    let change = personalize_maia_launcher(launcher, payload).unwrap();
    let mut bytes = launcher.to_vec();
    bytes[change.offset..change.offset + change.review.len()].copy_from_slice(&change.review);
    bytes
}

#[test]
fn personalizes_maia_launcher_with_the_exact_payload_snapshot() {
    let placeholder = payload_review_placeholder();
    let mut launcher_bytes = b"reviewed launcher prefix".to_vec();
    launcher_bytes.extend_from_slice(&placeholder);
    launcher_bytes.extend_from_slice(b"reviewed launcher suffix");
    let expected = package_snapshot(&vec![hashed("runtime-file", b"verified payload")]);

    let bytes = personalized(&launcher_bytes, &expected);

    assert!(!bytes.windows(placeholder.len()).any(|value| value == placeholder));
    let marker = &placeholder[..PAYLOAD_REVIEW_MARKER_LEN];
    let offset = bytes.windows(marker.len()).position(|value| value == marker).unwrap();
    let digest_start = offset + PAYLOAD_REVIEW_MARKER_LEN;
    let digest_end = digest_start + PAYLOAD_REVIEW_DIGEST_LEN;
    let files_end = digest_end + PAYLOAD_REVIEW_COUNT_LEN;
    assert_eq!(&bytes[digest_start..digest_end], expected.sha256.as_bytes());
    assert_eq!(
        std::str::from_utf8(&bytes[digest_end..files_end])
            .unwrap()
            .parse::<u64>()
            .unwrap(),
        expected.file_count
    );
    assert_eq!(
        std::str::from_utf8(&bytes[files_end..files_end + PAYLOAD_REVIEW_COUNT_LEN])
            .unwrap()
            .parse::<u64>()
            .unwrap(),
        expected.byte_count
    );
}

#[test]
fn launchers_hold_one_field() {
    let snapshot = package_snapshot(&Vec::new());
    assert_eq!(
        personalize_maia_launcher(b"no field", &snapshot).unwrap_err().message(),
        "reviewed Maia3 launcher must contain exactly one unpersonalized payload field; found 0",
    );
    let mut twice = payload_review_placeholder();
    twice.extend_from_slice(&payload_review_placeholder());
    assert!(personalize_maia_launcher(&twice, &snapshot)
        .unwrap_err()
        .message()
        .ends_with("found 2"));
}

#[test]
fn reviews_read_back_and_accept_their_package() {
    let snapshot = package_snapshot(&vec![hashed("a", b"one"), hashed("b/c", b"two")]);
    let field = personalized(&payload_review_placeholder(), &snapshot);
    assert_eq!(field.len(), PAYLOAD_REVIEW_LEN);
    assert_eq!(embedded_payload_review(&field).unwrap(), snapshot);
    assert!(verify_payload(&field, &snapshot).is_ok());
    let other = package_snapshot(&vec![hashed("a", b"one")]);
    assert_eq!(
        verify_payload(&field, &other).unwrap_err(),
        "the locally assembled Maia3 package has changed since installation",
    );
}

#[test]
fn unpersonalized_and_broken_reviews_are_refused() {
    let field = payload_review_placeholder();
    assert_eq!(
        embedded_payload_review(&field).unwrap_err(),
        "the launcher has not been personalized by UCI Grabber",
    );
    let snapshot = package_snapshot(&Vec::new());
    let good = personalized(&field, &snapshot);
    let mut broken = good.clone();
    broken[0] = b'X';
    assert_eq!(
        embedded_payload_review(&broken).unwrap_err(),
        "the embedded package-review marker is invalid",
    );
    let mut broken = good.clone();
    broken[40] = 0xff;
    assert_eq!(
        embedded_payload_review(&broken).unwrap_err(),
        "the embedded package digest is not UTF-8",
    );
    let mut broken = good.clone();
    broken[100] = b'x';
    assert!(embedded_payload_review(&broken).unwrap_err().starts_with("the embedded file count is invalid"));
    let mut broken = good;
    for digit in &mut broken[116..136] {
        *digit = b'9';
    }
    assert!(embedded_payload_review(&broken).unwrap_err().starts_with("the embedded byte count is invalid"));
}

#[test]
fn packages_are_walked_in_bounds() {
    let mut walk = PackageWalk::new(NameCase::Folded, INSTALL_RECORD_FILE);
    assert_eq!(visit(&mut walk, "runtime", FileKind::Directory).unwrap(), Visit::Enter);
    assert_eq!(
        visit(&mut walk, "runtime/b", FileKind::File).unwrap(),
        Visit::Measure("runtime/b".into()),
    );
    assert_eq!(
        visit(&mut walk, "uci-grabber-install.json", FileKind::File).unwrap(),
        Visit::Skip,
    );
    assert_eq!(
        visit(&mut walk, "Runtime/B", FileKind::File).unwrap_err(),
        Error::UnsafeArchiveEntry("package path collision: `runtime/b` and `Runtime/B`".into()),
    );
    assert_eq!(
        visit(&mut walk, "pipe", FileKind::Other).unwrap_err(),
        Error::UnsafeArchiveEntry("pipe".into()),
    );
    assert!(visit(&mut walk, "../escape", FileKind::File).is_err());
    walk.measure("runtime/b".into(), 2).unwrap();
    walk.measure("a".into(), 1).unwrap();
    assert!(matches!(
        walk.measure("large".into(), 1_073_741_825),
        Err(Error::ArchiveLimit(_)),
    ));
    walk.measure("c".into(), 1_073_741_824).unwrap();
    assert!(matches!(
        walk.measure("d".into(), 1_073_741_824),
        Err(Error::ArchiveLimit(_)),
    ));
    let listed: Vec<(String, u64)> =
        walk.listing().into_iter().map(|file| (file.path, file.length)).collect();
    assert_eq!(
        listed,
        vec![
            ("a".to_owned(), 1),
            ("c".to_owned(), 1_073_741_824),
            ("runtime/b".to_owned(), 2),
        ],
    );
}

#[test]
fn case_tells_files_apart_where_the_file_system_does() {
    let mut walk = PackageWalk::new(NameCase::Distinct, INSTALL_RECORD_FILE);
    visit(&mut walk, "a", FileKind::File).unwrap();
    visit(&mut walk, "A", FileKind::File).unwrap();
    assert!(visit(&mut walk, "a", FileKind::File).is_err());
}

#[test]
fn relative_paths_are_written_with_slashes() {
    let parts = Place::read("a/b", '/').parts;
    assert_eq!(portable_relative_path(&parts, "a/b").unwrap(), "a/b");
    let parts = Place::read("/a", '/').parts;
    assert!(portable_relative_path(&parts, "/a").is_err());
}

#[test]
fn snapshots_tell_packages_apart() {
    let empty = package_snapshot(&Vec::new());
    assert_eq!(
        empty.sha256,
        "e3b0c44298fc1c149afbf4c8996fb92427ae41e4649b934ca495991b7852b855",
    );
    let one = package_snapshot(&vec![hashed("a", b"one")]);
    let mut bytes = vec![1_u8, 0, 0, 0, 0, 0, 0, 0, b'a', 3, 0, 0, 0, 0, 0, 0, 0];
    bytes.extend_from_slice(sha256_text(b"one").as_bytes());
    assert_eq!(one.sha256, sha256_text(&bytes));
    assert_eq!((one.file_count, one.byte_count), (1, 3));
    let renamed = package_snapshot(&vec![hashed("b", b"one")]);
    let changed = package_snapshot(&vec![hashed("a", b"two")]);
    assert!(same_snapshot(&one, &one.clone()));
    assert!(!same_snapshot(&one, &renamed));
    assert!(!same_snapshot(&one, &changed));
}
