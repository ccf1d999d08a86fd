//! Extraction: safe names, limits, collisions, and what becomes of the entries of archives.

use uci_grabber::archive::{
    check_copied, check_entry_count, check_global_header, checked_join, copy_raw, materialize,
    resolve_target, set_mode, slashed_text, Materialization, TarEntry, TarKind, TarUnpacking,
    Unpack, ZipEntry, ZipUnpacking,
};
use uci_grabber::error::Error;
use uci_grabber::extract::{
    safe_archive_path, CollisionGuard, ExtractionBudget, NameCase, MAX_ARCHIVE_ENTRIES,
    MAX_EXTRACTED_BYTES,
};
use uci_grabber::place::Place;
use uci_grabber::schema::{ArchiveFormat, Artifact, ArtifactKind};

fn texts(names: &[&str]) -> Vec<String> {
    names.iter().map(|name| (*name).to_owned()).collect()
}

fn place(text: &str) -> Place {
    Place::read(text, '/')
}

fn artifact(destination: &str, byte_count: u64, format: ArchiveFormat) -> Artifact {
    Artifact {
        kind: ArtifactKind::Other,
        url: "https://example.test/artifact".into(),
        byte_count,
        sha256: "00".repeat(32),
        format,
        destination: destination.into(),
    }
}

fn zip_file(name: &str, size: u64) -> ZipEntry {
    ZipEntry { name: name.into(), unix_mode: Some(0o100_644), is_dir: false, is_file: true, size }
}

fn tar_file(path: &str, size: u64) -> TarEntry {
    TarEntry { path: path.into(), kind: TarKind::File, size, mode: 0o755 }
}

fn tar_link(path: &str, target: &str) -> TarEntry {
    TarEntry {
        path: path.into(),
        kind: TarKind::Link { target: target.into() },
        size: 0,
        mode: 0o777,
    }
}

fn raw(artifact: &Artifact, length: u64, root: &Place, budget: &mut ExtractionBudget) -> Result<(), Error> {
    let (destination, how) = materialize(artifact, root)?;
    assert!(matches!(how, Materialization::Copy));
    copy_raw(length, root, &destination, budget)
}

#[test]
fn rejects_parent_and_absolute_paths() {
    assert!(safe_archive_path("../engine").is_err());
    assert!(safe_archive_path("/engine").is_err());
    assert_eq!(safe_archive_path("runtime/engine").unwrap(), texts(&["runtime", "engine"]));
    assert_eq!(slashed_text(&safe_archive_path("runtime/engine").unwrap()), "runtime/engine");
}

#[test]
fn rejects_windows_nonportable_archive_paths() {
    for path in [
        "runtime/engine:stream",
        "runtime/bad<name",
        "runtime/bad>name",
        "runtime/bad\"name",
        "runtime/bad|name",
        "runtime/bad?name",
        "runtime/bad*name",
        "runtime/trailing.",
        "runtime/trailing ",
        "runtime/NUL",
        "runtime/prn.txt",
        "runtime/cOm9.exe",
        "runtime/LPT².log",
        "runtime/CONOUT$.txt",
        "runtime/./engine",
        "runtime//engine",
    ] {
        assert!(safe_archive_path(path).is_err(), "unexpectedly accepted {path}");
    }

    assert_eq!(
        slashed_text(&safe_archive_path("runtime/models/").unwrap()),
        "runtime/models",
    );
}

#[test]
fn rejects_zip_case_fold_collisions() {
    let root = place("/data");
    let mut budget = ExtractionBudget::for_generation();
    let mut unpacking = ZipUnpacking::begin(&root, &root.child("output"), &mut budget).unwrap();
    unpacking.next(&zip_file("Runtime/Engine", 3), &mut budget).unwrap();
    let error = unpacking.next(&zip_file("runtime/engine", 3), &mut budget).unwrap_err();
    assert!(matches!(error, Error::UnsafeArchiveEntry(_)));
}

#[test]
fn rejects_tar_links() {
    let root = place("/data");
    let mut budget = ExtractionBudget::for_generation();
    let mut unpacking = TarUnpacking::begin(&root, &root.child("output"), &mut budget).unwrap();
    unpacking.next(&tar_link("engine", "/outside"), &mut budget).unwrap();
    let error = unpacking.finish(&mut budget).unwrap_err();
    assert!(matches!(error, Error::UnsafeArchiveEntry(_)));
}

#[test]
fn cumulative_budget_rejects_later_artifact_without_large_allocation() {
    let mut budget = ExtractionBudget::with_limits(10, MAX_ARCHIVE_ENTRIES, NameCase::Folded);
    let output = place("/data/output");
    raw(&artifact("first", 6, ArchiveFormat::Raw), 6, &output, &mut budget).unwrap();
    let error = raw(&artifact("second", 5, ArchiveFormat::Raw), 5, &output, &mut budget).unwrap_err();

    assert!(matches!(error, Error::ArchiveLimit(_)));
    assert_eq!(budget.bytes_used(), 6);
}

#[test]
fn cumulative_entry_budget_counts_files_and_implicit_directories() {
    let output = place("/data/output");
    let mut budget = ExtractionBudget::with_limits(MAX_EXTRACTED_BYTES, 2, NameCase::Folded);
    raw(&artifact("first", 1, ArchiveFormat::Raw), 1, &output, &mut budget).unwrap();
    let error = raw(&artifact("nested/second", 1, ArchiveFormat::Raw), 1, &output, &mut budget).unwrap_err();

    assert!(matches!(error, Error::ArchiveLimit(_)));
    assert_eq!(budget.entries_used(), 1);
}

#[test]
fn budgets_count_what_was_accepted() {
    let root = place("/data");
    let mut budget = ExtractionBudget::with_limits(10, 4, NameCase::Folded);
    budget.reserve_path(&root, &place("/data/a/b/c"), false, 6).unwrap();
    assert!(budget.reserve_path(&root, &place("/data/a/d"), false, 5).is_err());
    assert!(budget.reserve_path(&root, &place("/data/a/b"), false, 1).is_err());
    budget.reserve_path(&root, &place("/data/a/b"), true, 0).unwrap();
    budget.reserve_path(&root, &place("/data/a/d"), false, 4).unwrap();
    assert!(budget.reserve_path(&root, &place("/data/e"), true, 0).is_err());
    assert_eq!((budget.bytes_used(), budget.entries_used()), (10, 4));
}

#[test]
fn case_matters_only_where_the_file_system_tells_it_apart() {
    let root = place("/data");
    let mut budget = ExtractionBudget::for_file_system(NameCase::Distinct);
    let mut unpacking = ZipUnpacking::begin(&root, &root.child("output"), &mut budget).unwrap();
    unpacking.next(&zip_file("Runtime/Engine", 3), &mut budget).unwrap();
    unpacking.next(&zip_file("runtime/engine", 3), &mut budget).unwrap();
    let error = unpacking.next(&zip_file("runtime/engine", 3), &mut budget).unwrap_err();
    assert!(matches!(error, Error::UnsafeArchiveEntry(_)));
}

#[test]
fn zip_entries_say_what_they_become() {
    let root = place("/data");
    let mut budget = ExtractionBudget::for_generation();
    let mut unpacking = ZipUnpacking::begin(&root, &root.child("output"), &mut budget).unwrap();
    let directory = ZipEntry {
        name: "runtime/".into(),
        unix_mode: Some(0o040_755),
        is_dir: true,
        is_file: false,
        size: 0,
    };
    match unpacking.next(&directory, &mut budget).unwrap() {
        Unpack::Directory { names } => assert_eq!(names, texts(&["runtime"])),
        _ => panic!("a directory is a directory"),
    }
    match unpacking.next(&zip_file("runtime/engine", 7), &mut budget).unwrap() {
        Unpack::File { names, size, mode } => {
            assert_eq!(names, texts(&["runtime", "engine"]));
            assert_eq!((size, mode), (7, 0o100_644));
        },
        _ => panic!("a file is a file"),
    }
    assert_eq!(budget.bytes_used(), 7);
    let link = ZipEntry {
        name: "runtime/link".into(),
        unix_mode: Some(0o120_777),
        is_dir: false,
        is_file: true,
        size: 4,
    };
    assert!(matches!(unpacking.next(&link, &mut budget), Err(Error::UnsafeArchiveEntry(_))));
    let large = zip_file("runtime/large", 1_073_741_825);
    assert!(matches!(unpacking.next(&large, &mut budget), Err(Error::ArchiveLimit(_))));
}

#[test]
fn relative_tar_links_become_copies_of_their_files() {
    let root = place("/data");
    let mut budget = ExtractionBudget::for_generation();
    let mut unpacking = TarUnpacking::begin(&root, &root.child("output"), &mut budget).unwrap();
    unpacking.next(&tar_file("bin/python3.12", 9), &mut budget).unwrap();
    assert!(matches!(
        unpacking.next(&tar_link("bin/python3", "python3.12"), &mut budget).unwrap(),
        Unpack::Link,
    ));
    unpacking.next(&tar_link("python", "bin/python3"), &mut budget).unwrap();
    let copies = unpacking.finish(&mut budget).unwrap();
    assert_eq!(copies.len(), 2);
    for copy in &copies {
        assert_eq!(copy.source, "bin/python3.12");
        assert_eq!((copy.size, copy.mode), (9, 0o755));
    }
    assert_eq!(budget.bytes_used(), 27);
}

#[test]
fn tar_links_that_lead_nowhere_are_refused() {
    for (path, target) in [("a", "b"), ("a", "a"), ("a", "../a"), ("a", "/etc/passwd"), ("a", "d")] {
        let root = place("/data");
        let mut budget = ExtractionBudget::for_generation();
        let mut unpacking = TarUnpacking::begin(&root, &root.child("output"), &mut budget).unwrap();
        let directory = TarEntry { path: "d".into(), kind: TarKind::Directory, size: 0, mode: 0o755 };
        unpacking.next(&directory, &mut budget).unwrap();
        let refused = match unpacking.next(&tar_link(path, target), &mut budget) {
            Ok(_) => unpacking.finish(&mut budget).is_err(),
            Err(_) => true,
        };
        assert!(refused, "{path} -> {target}");
    }
}

#[test]
fn links_that_turn_in_a_circle_are_refused() {
    let root = place("/data");
    let mut budget = ExtractionBudget::for_generation();
    let mut unpacking = TarUnpacking::begin(&root, &root.child("output"), &mut budget).unwrap();
    unpacking.next(&tar_link("a", "b"), &mut budget).unwrap();
    unpacking.next(&tar_link("b", "a"), &mut budget).unwrap();
    assert!(matches!(unpacking.finish(&mut budget), Err(Error::UnsafeArchiveEntry(_))));
}

#[test]
fn special_tar_entries_are_refused() {
    let root = place("/data");
    let mut budget = ExtractionBudget::for_generation();
    let mut unpacking = TarUnpacking::begin(&root, &root.child("output"), &mut budget).unwrap();
    let device = TarEntry { path: "null".into(), kind: TarKind::Special, size: 0, mode: 0o666 };
    assert!(matches!(unpacking.next(&device, &mut budget), Err(Error::UnsafeArchiveEntry(_))));
}

#[test]
fn global_headers_may_only_hold_comments() {
    assert!(check_global_header("pax_global_header", b"52 comment=4f1d2c3b4a5968778695a4b3c2d1e0f001122334\n").is_ok());
    assert!(check_global_header("pax_global_header", b"").is_err());
    assert!(check_global_header("pax_global_header", b"18 path=elsewhere\n").is_err());
    assert!(check_global_header("pax_global_header", b"99 comment=short\n").is_err());
    let root = place("/data");
    let mut budget = ExtractionBudget::for_generation();
    let mut unpacking = TarUnpacking::begin(&root, &root.child("output"), &mut budget).unwrap();
    let header = TarEntry {
        path: "pax_global_header".into(),
        kind: TarKind::GlobalHeader,
        size: 52,
        mode: 0o644,
    };
    assert!(matches!(unpacking.next(&header, &mut budget), Ok(Unpack::Comment { size: 52 })));
}

#[test]
fn targets_of_links() {
    assert_eq!(resolve_target(&texts(&["bin", "a"]), "b"), Some(texts(&["bin", "b"])));
    assert_eq!(resolve_target(&texts(&["bin", "a"]), "../lib/b"), Some(texts(&["lib", "b"])));
    assert_eq!(resolve_target(&texts(&["bin", "a"]), "../../b"), None);
    assert_eq!(resolve_target(&texts(&["bin", "a"]), "/b"), None);
}

#[test]
fn only_permissions_are_kept_of_a_mode() {
    assert_eq!(set_mode(0o104_755), Some(0o755));
    assert_eq!(set_mode(0), None);
}

#[test]
fn limits_of_archives() {
    assert!(check_entry_count(40_000).is_ok());
    assert!(matches!(check_entry_count(40_001), Err(Error::ArchiveLimit(_))));
    let path = place("/data/output/engine");
    assert!(check_copied(5, 5, &path).is_ok());
    assert!(check_copied(6, 5, &path).is_err());
    assert!(check_copied(4, 5, &path).is_err());
}

#[test]
fn joins_stay_below_their_root() {
    let root = place("/data");
    assert_eq!(checked_join(&root, "runtime/engine").unwrap().shown, "/data/runtime/engine");
    assert!(checked_join(&root, "../engine").is_err());
    assert!(checked_join(&root, "/engine").is_err());
}

#[test]
fn reserved_files_are_neither_replaced_nor_entered() {
    let root = place("/data");
    let mut budget = ExtractionBudget::for_generation();
    budget.reserve_path(&root, &place("/data/a"), false, 1).unwrap();
    assert!(matches!(
        budget.reserve_path(&root, &place("/data/a"), false, 1),
        Err(Error::UnsafeArchiveEntry(_)),
    ));
    assert!(budget.reserve_path(&root, &place("/data/a/b"), false, 1).is_err());
    assert!(budget.reserve_path(&root, &place("/data/d"), true, 0).is_ok());
    assert!(budget.reserve_path(&root, &place("/data/d"), true, 0).is_ok());
    assert!(budget.reserve_path(&root, &place("/elsewhere/b"), false, 1).is_err());
    assert_eq!((budget.bytes_used(), budget.entries_used()), (1, 2));
    assert_eq!(budget.case(), NameCase::Folded);
}

#[test]
fn archives_name_a_path_once() {
    let mut guard = CollisionGuard::new(NameCase::Folded);
    guard.insert("a/b", false).unwrap();
    assert!(guard.insert("A/B", false).is_err());
    assert!(guard.insert("a/b/c", false).is_err());
    guard.insert("a/c", false).unwrap();
}

#[test]
fn formats_are_unpacked_in_their_own_way() {
    let root = place("/data");
    let ways = [
        (ArchiveFormat::Zip, "/data/runtime"),
        (ArchiveFormat::TarGz, "/data/runtime"),
        (ArchiveFormat::TarZst, "/data/runtime"),
    ];
    for (format, shown) in ways {
        let (destination, how) = materialize(&artifact("runtime", 1, format), &root).unwrap();
        assert_eq!(destination.shown, shown);
        assert_eq!(
            matches!(how, Materialization::Unzip),
            format == ArchiveFormat::Zip,
        );
        assert_eq!(
            matches!(how, Materialization::UntarGz),
            format == ArchiveFormat::TarGz,
        );
        assert_eq!(
            matches!(how, Materialization::UntarZst),
            format == ArchiveFormat::TarZst,
        );
    }
    assert!(materialize(&artifact("../runtime", 1, ArchiveFormat::Zip), &root).is_err());
}
