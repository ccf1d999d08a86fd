//! Downloads: what may be asked for, what is taken, and how it is checked.

use uci_grabber::digest::{hex_text, sha256_text, Digest};
use uci_grabber::download::{
    check_file_length, configured_limit, independently_verify_download, HttpDownloader, Transfer,
};
use uci_grabber::error::Error;
use uci_grabber::schema::{ArchiveFormat, Artifact, ArtifactKind};

const ABC: &str = "ba7816bf8f01cfea414140de5dae2223b00361a396177a9cb410ff61f20015ad";

fn abc() -> Artifact {
    Artifact {
        kind: ArtifactKind::Other,
        url: "https://example.test/abc".into(),
        byte_count: 3,
        sha256: ABC.into(),
        format: ArchiveFormat::Raw,
        destination: "abc".into(),
    }
}

#[test]
fn digests_of_known_texts() {
    assert_eq!(
        sha256_text(b""),
        "e3b0c44298fc1c149afbf4c8996fb92427ae41e4649b934ca495991b7852b855",
    );
    assert_eq!(sha256_text(b"abc"), ABC);
    let mut digest = Digest::new();
    digest.update(b"a");
    digest.update(b"");
    digest.update(b"bc");
    assert_eq!(digest.finish(), ABC);
    assert_eq!(hex_text(&[0x00, 0x9f, 0xff]), "009fff");
}

#[test]
fn pieces_make_the_whole() {
    let artifact = abc();
    let mut transfer = Transfer::begin(&artifact).unwrap_or_else(|_| unreachable!());
    assert_eq!(transfer.accept(&artifact, b"ab").unwrap(), None);
    assert_eq!(transfer.accept(&artifact, b"c").unwrap(), Some(3));
    transfer.finish(&artifact, "/tmp/abc").unwrap();
    independently_verify_download(&artifact, 3, sha256_text(b"abc"), "/tmp/abc").unwrap();
}

#[test]
fn progress_comes_in_steps() {
    let mut artifact = abc();
    artifact.byte_count = 2_000_000;
    let mut transfer = Transfer::begin(&artifact).unwrap_or_else(|_| unreachable!());
    let piece = vec![0_u8; 524_287];
    assert_eq!(transfer.accept(&artifact, &piece).unwrap(), None);
    assert_eq!(transfer.accept(&artifact, b"x").unwrap(), Some(524_288));
    assert_eq!(transfer.accept(&artifact, &piece).unwrap(), None);
}

#[test]
fn too_much_is_refused() {
    let artifact = abc();
    let mut transfer = Transfer::begin(&artifact).unwrap_or_else(|_| unreachable!());
    assert_eq!(
        transfer.accept(&artifact, b"abcd").unwrap_err(),
        Error::DownloadTooLarge { limit: 3 },
    );
}

#[test]
fn too_little_and_other_bytes_are_refused() {
    let artifact = abc();
    let mut transfer = Transfer::begin(&artifact).unwrap_or_else(|_| unreachable!());
    transfer.accept(&artifact, b"ab").unwrap();
    assert_eq!(
        transfer.finish(&artifact, "/tmp/abc").unwrap_err().message(),
        "download failed for https://example.test/abc: received 2 bytes, recipe declares 3",
    );
    let mut transfer = Transfer::begin(&artifact).unwrap_or_else(|_| unreachable!());
    transfer.accept(&artifact, b"abd").unwrap();
    assert_eq!(
        transfer.finish(&artifact, "/tmp/abc").unwrap_err(),
        Error::ChecksumMismatch {
            path: "/tmp/abc".into(),
            expected: ABC.into(),
            actual: sha256_text(b"abd"),
        },
    );
}

#[test]
fn requests_are_bounded_and_secure() {
    let mut artifact = abc();
    artifact.byte_count = 1_073_741_825;
    assert_eq!(
        Transfer::begin(&artifact).err(),
        Some(Error::DownloadTooLarge { limit: 1_073_741_824 }),
    );
    artifact.kind = ArtifactKind::Model;
    artifact.byte_count = 419_430_401;
    assert_eq!(
        Transfer::begin(&artifact).err(),
        Some(Error::DownloadTooLarge { limit: 419_430_400 }),
    );
    let mut artifact = abc();
    artifact.url = "http://example.test/abc".into();
    assert!(matches!(Transfer::begin(&artifact), Err(Error::Download { .. })));
    assert_eq!(configured_limit(ArtifactKind::Runtime), 1_073_741_824);
}

#[test]
fn announced_lengths_are_compared() {
    let artifact = abc();
    assert!(Transfer::check_announced(&artifact, &None).is_ok());
    assert!(Transfer::check_announced(&artifact, &Some("3".into())).is_ok());
    assert!(Transfer::check_announced(&artifact, &Some("three".into())).is_ok());
    assert_eq!(
        Transfer::check_announced(&artifact, &Some("4".into())).unwrap_err().message(),
        "download failed for https://example.test/abc: server reported 4 bytes, recipe declares 3",
    );
}

#[test]
fn downloads_are_checked_twice() {
    let artifact = abc();
    assert!(check_file_length(&artifact, 3).is_ok());
    assert_eq!(
        check_file_length(&artifact, 2).unwrap_err().message(),
        "download failed for https://example.test/abc: downloader produced 2 bytes, recipe declares 3",
    );
    assert!(independently_verify_download(&artifact, 3, ABC.to_uppercase(), "/tmp/abc").is_ok());
    assert!(matches!(
        independently_verify_download(&artifact, 3, sha256_text(b""), "/tmp/abc"),
        Err(Error::ChecksumMismatch { .. }),
    ));
}

#[test]
fn downloaders_wait_for_a_quarter_of_an_hour() {
    assert_eq!(HttpDownloader::default().timeout_nanos(), 900_000_000_000);
    assert_eq!(HttpDownloader::with_timeout(5).timeout_nanos(), 5);
}
