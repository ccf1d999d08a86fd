//! Installations: plans, steps, records and recovery.

use uci_grabber::digest::sha256_text;
use uci_grabber::download::HttpDownloader;
use uci_grabber::error::{check_cancel, Error};
use uci_grabber::extract::NameCase;
use uci_grabber::install::{
    check_executable_file, check_recovered_generation, check_recovered_paths, download_name,
    needs_check, path_names, personalizes, recover_entry, staging_name,
    validate_destination_collisions, validate_staged_paths, InstallOptions, InstallPlan, Installer,
    RecoveryAction, RecoveryReport,
};
use uci_grabber::package::PackageSnapshot;
use uci_grabber::place::{Part, Place};
use uci_grabber::registry::{InstallSource, Integrity, Registry, RegistryStore};
use uci_grabber::schema::{
    ArchiveFormat, Artifact, ArtifactKind, License, Model, Package, Publisher, Recipe,
    RECIPE_SCHEMA,
};
use uci_grabber::staging::{
    check_after_record, check_after_validation, materialize_error, report_progress, InstallPhase,
    StageAction, Staging,
};
use uci_grabber::uci::ValidationTimeouts;

fn place(text: &str) -> Place {
    Place::read(text, '/')
}

fn artifact(destination: &str, byte_count: u64) -> Artifact {
    Artifact {
        kind: ArtifactKind::Runtime,
        url: "https://example.test/engine".into(),
        byte_count,
        sha256: "a".repeat(64),
        format: ArchiveFormat::Raw,
        destination: destination.into(),
    }
}

fn fixture_recipe() -> Recipe {
    Recipe {
        schema: RECIPE_SCHEMA.into(),
        id: "fixture-engine".into(),
        name: "Fixture Engine".into(),
        version: "1.0.0".into(),
        description: "Fixture".into(),
        publisher: Publisher { name: "Fixture".into(), url: "https://example.test".into() },
        license: License {
            spdx: "MIT".into(),
            name: "MIT".into(),
            url: "https://example.test/license".into(),
            source_url: "https://example.test/source".into(),
        },
        homepage: "https://example.test".into(),
        minimum_fisheye_version: "1.7.0".into(),
        models: vec![Model {
            id: "small".into(),
            name: "Small".into(),
            description: "Fixture".into(),
            packages: vec![Package {
                platform: "linux-x86_64".into(),
                artifacts: vec![artifact("engine", 10)],
                executable: "engine".into(),
                working_directory: ".".into(),
            }],
        }],
    }
}

fn installer() -> Installer {
    Installer::new(RegistryStore::new(place("/data")), HttpDownloader::default())
}

fn approved() -> InstallOptions {
    InstallOptions {
        source: InstallSource::UnreviewedRecipe,
        approve_unreviewed: true,
        platform: Some("linux-x86_64".into()),
        validation_timeouts: ValidationTimeouts::default(),
    }
}

fn plan(recipe: &Recipe, model: &str, options: &InstallOptions) -> Result<InstallPlan, Error> {
    installer().plan(recipe, model, options, "linux", "x86_64", b"canonical", NameCase::Folded)
}

fn snapshot() -> PackageSnapshot {
    PackageSnapshot { sha256: "b".repeat(64), file_count: 1, byte_count: 10 }
}

#[test]
fn unreviewed_recipe_requires_explicit_approval() {
    let mut recipe = fixture_recipe();
    recipe.models[0].id = "standard".into();
    let error = plan(&recipe, "standard", &InstallOptions::default()).unwrap_err();
    assert!(error.message().contains("explicit approval"));
}

#[test]
fn plans_say_what_is_installed_where() {
    let plan = plan(&fixture_recipe(), "small", &approved()).unwrap();
    assert_eq!(plan.install_id, "fixture-engine:small:1.0.0:linux-x86_64");
    assert_eq!(
        plan.generation.shown,
        "/data/installs/fixture-engine/small/1.0.0/linux-x86_64",
    );
    assert_eq!((plan.model, plan.package, plan.total_bytes), (0, 0, 10));
    assert_eq!(plan.recipe_sha256, sha256_text(b"canonical"));
    assert_eq!(plan.platform, "linux-x86_64");
}

#[test]
fn plans_fail_in_their_ways() {
    let mut recipe = fixture_recipe();
    recipe.id = "No".into();
    assert!(matches!(plan(&recipe, "small", &approved()), Err(Error::InvalidRecipe(_))));
    let recipe = fixture_recipe();
    assert_eq!(
        plan(&recipe, "large", &approved()).unwrap_err().message(),
        "invalid recipe: unknown model `large`",
    );
    let mut options = approved();
    options.platform = Some("macos-aarch64".into());
    assert_eq!(
        plan(&recipe, "small", &options).unwrap_err(),
        Error::UnsupportedPlatform("macos-aarch64".into()),
    );
    options.platform = None;
    assert!(installer()
        .plan(&recipe, "small", &options, "plan9", "mips", b"", NameCase::Folded)
        .is_err());
    assert!(installer()
        .plan(&recipe, "small", &options, "linux", "x86_64", b"", NameCase::Folded)
        .is_ok());
    options.source = InstallSource::Curated;
    options.approve_unreviewed = false;
    assert!(plan(&recipe, "small", &options).is_ok());
}

#[test]
fn destinations_do_not_collide() {
    let mut package = fixture_recipe().models.remove(0).packages.remove(0);
    package.artifacts.push(artifact("Engine", 1));
    assert!(validate_destination_collisions(&package, NameCase::Folded).is_err());
    assert!(validate_destination_collisions(&package, NameCase::Distinct).is_ok());
    package.artifacts.pop();
    package.artifacts[0].format = ArchiveFormat::Zip;
    assert_eq!(
        validate_destination_collisions(&package, NameCase::Folded).unwrap_err().message(),
        "invalid recipe: archive destination cannot be the executable file",
    );
}

#[test]
fn recorded_texts_keep_the_path_of_the_recipe() {
    let mut recipe = fixture_recipe();
    recipe.models[0].packages[0].executable = "runtime/bin/engine".into();
    recipe.models[0].packages[0].working_directory = "runtime/bin".into();
    let windows = Place {
        shown: "C:\\data".into(),
        parts: vec![Part::Prefix("C:".into()), Part::Root, Part::Normal("data".into())],
        separator: '\\',
    };
    let verbatim = Place {
        shown: "\\\\?\\C:\\data".into(),
        parts: vec![Part::Prefix("\\\\?\\C:".into()), Part::Root, Part::Normal("data".into())],
        separator: '\\',
    };
    let recorded = |root: Place| {
        let plan = Installer::new(RegistryStore::new(root), HttpDownloader::default())
            .plan(&recipe, "small", &approved(), "linux", "x86_64", b"", NameCase::Folded)
            .unwrap();
        let source = InstallSource::UnreviewedRecipe;
        let record = plan.record(&recipe, source, &"c".repeat(64), &snapshot(), 7);
        (record.executable.shown, record.working_directory.shown)
    };
    let (executable, working) = recorded(windows);
    let generation = "data\\installs\\fixture-engine\\small\\1.0.0\\linux-x86_64";
    assert_eq!(executable, format!("C:\\{generation}\\runtime/bin/engine"));
    assert_eq!(working, format!("C:\\{generation}\\runtime/bin"));
    let (executable, working) = recorded(verbatim);
    assert_eq!(executable, format!("\\\\?\\C:\\{generation}\\runtime\\bin\\engine"));
    assert_eq!(working, format!("\\\\?\\C:\\{generation}\\runtime\\bin"));
}

#[test]
fn what_is_installed_is_not_changed() {
    let plan = plan(&fixture_recipe(), "small", &approved()).unwrap();
    let record = plan.record(
        &fixture_recipe(),
        InstallSource::UnreviewedRecipe,
        &"c".repeat(64),
        &snapshot(),
        7,
    );
    assert_eq!(record.name, "Fixture Engine — Small");
    assert_eq!(
        record.executable.shown,
        "/data/installs/fixture-engine/small/1.0.0/linux-x86_64/engine",
    );
    assert!(record.working_directory.same(&record.generation_root));
    assert_eq!(
        record.working_directory.shown,
        "/data/installs/fixture-engine/small/1.0.0/linux-x86_64/",
    );
    assert_eq!((record.package_file_count, record.package_byte_count), (1, 10));
    assert_eq!(record.installed_at_unix, 7);
    let store = RegistryStore::new(place("/data"));
    let registry = store.add(Registry::default(), record.clone());
    assert_eq!(
        plan.check_existing(InstallSource::UnreviewedRecipe, &registry).unwrap(),
        &record,
    );
    assert!(plan
        .check_existing(InstallSource::Curated, &registry)
        .unwrap_err()
        .message()
        .contains("immutable-version conflict"));
    let changed = installer()
        .plan(&fixture_recipe(), "small", &approved(), "linux", "x86_64", b"changed", NameCase::Folded)
        .unwrap();
    assert!(changed
        .check_existing(InstallSource::UnreviewedRecipe, &registry)
        .unwrap_err()
        .message()
        .contains("immutable-version conflict"));
    assert!(plan
        .check_existing(InstallSource::UnreviewedRecipe, &Registry::default())
        .unwrap_err()
        .message()
        .contains("is not registered"));
    assert!(plan.check_integrity(&Integrity::Verified).is_ok());
    assert!(plan.check_integrity(&Integrity::Missing).is_err());

    assert_eq!(plan.course(InstallSource::UnreviewedRecipe, &None).unwrap(), None);
    let present = Some(registry);
    assert_eq!(
        plan.course(InstallSource::UnreviewedRecipe, &present).unwrap(),
        Some(&record),
    );
    assert_eq!(
        changed.course(InstallSource::UnreviewedRecipe, &present).unwrap_err().message(),
        "immutable-version conflict for fixture-engine:small:1.0.0:linux-x86_64: the existing \
         generation was created from different recipe bytes or trust source",
    );
}

#[test]
fn installations_go_through_every_phase() {
    let package = fixture_recipe().models.remove(0).packages.remove(0);
    let mut staging = Staging::begin(&package, false, 10);
    assert_eq!(staging.action(), StageAction::MakeDownloads);
    let mut phases = Vec::new();
    let mut actions = vec![staging.action()];
    while staging.action() != StageAction::Done {
        if let Some(report) = staging.advance(&package, false).unwrap() {
            assert!(report.completed_bytes <= report.total_bytes);
            phases.push(report.phase);
        }
        actions.push(staging.action());
    }
    for expected in [
        InstallPhase::Downloading,
        InstallPhase::Verifying,
        InstallPhase::Extracting,
        InstallPhase::ValidatingUci,
        InstallPhase::Activating,
        InstallPhase::Ready,
    ] {
        assert!(phases.contains(&expected), "missing progress phase {expected:?}");
    }
    assert_eq!(
        actions,
        vec![
            StageAction::MakeDownloads,
            StageAction::Download(0),
            StageAction::Verify(0),
            StageAction::Extract(0),
            StageAction::RemoveDownload(0),
            StageAction::RemoveDownloads,
            StageAction::CheckLayout,
            StageAction::MakeExecutable,
            StageAction::Snapshot,
            StageAction::Validate,
            StageAction::CompareAfterValidation,
            StageAction::HashExecutable,
            StageAction::WriteRecord,
            StageAction::CompareAfterRecord,
            StageAction::SyncTree,
            StageAction::Activate,
            StageAction::SyncParent,
            StageAction::Register,
            StageAction::Done,
        ],
    );
}

#[test]
fn launchers_are_bound_before_the_package_is_measured() {
    let package = fixture_recipe().models.remove(0).packages.remove(0);
    let mut staging = Staging::begin(&package, true, 10);
    while staging.action() != StageAction::Personalize {
        staging.advance(&package, false).unwrap();
    }
    staging.advance(&package, false).unwrap();
    assert_eq!(staging.action(), StageAction::Snapshot);
    assert!(personalizes(InstallSource::Curated, "maia3"));
    assert!(!personalizes(InstallSource::UnreviewedRecipe, "maia3"));
    assert!(!personalizes(InstallSource::Curated, "stockfish"));
}

#[test]
fn installations_can_be_cancelled() {
    let package = fixture_recipe().models.remove(0).packages.remove(0);
    let mut staging = Staging::begin(&package, false, 10);
    assert_eq!(staging.advance(&package, true).unwrap_err(), Error::Cancelled);
    let mut staging = Staging::begin(&package, false, 10);
    while staging.action() != StageAction::SyncTree {
        staging.advance(&package, false).unwrap();
    }
    assert_eq!(staging.advance(&package, true).unwrap_err(), Error::Cancelled);
    assert_eq!(check_cancel(true).unwrap_err(), Error::Cancelled);
    assert!(check_cancel(false).is_ok());
}

#[test]
fn downloads_are_reported_on_the_whole() {
    let mut package = fixture_recipe().models.remove(0).packages.remove(0);
    package.artifacts.push(artifact("second", 5));
    let mut staging = Staging::begin(&package, false, 15);
    while staging.action() != StageAction::Download(1) {
        staging.advance(&package, false).unwrap();
    }
    let report = staging.download_progress(&package.artifacts[1], 3);
    assert_eq!((report.completed_bytes, report.total_bytes), (13, 15));
    assert_eq!(report.phase, InstallPhase::Downloading);
    let report = report_progress(InstallPhase::Verifying, None, 20, 15);
    assert_eq!((report.completed_bytes, report.total_bytes), (15, 15));
}

#[test]
fn packages_may_not_change_under_test() {
    let mut other = snapshot();
    other.file_count = 2;
    assert!(check_after_validation(&snapshot(), &snapshot()).is_ok());
    assert_eq!(
        check_after_validation(&snapshot(), &other).unwrap_err().message(),
        "staged package changed during UCI validation",
    );
    assert!(check_after_record(&snapshot(), &snapshot()).is_ok());
    assert_eq!(
        check_after_record(&snapshot(), &other).unwrap_err().message(),
        "staged package changed after UCI validation",
    );
}

#[test]
fn artifacts_are_named_in_complaints() {
    let error = materialize_error(0, &artifact("engine", 1), &Error::Cancelled);
    assert!(error.message().starts_with("could not materialize artifact "));
    assert!(error.message().ends_with(" at engine: operation cancelled"));
}

#[test]
fn names_of_what_is_made() {
    assert_eq!(staging_name(7, 42), ".staging-7-42");
    assert_eq!(staging_name(7, u128::MAX), ".staging-7-340282366920938463463374607431768211455");
    assert_eq!(download_name(3), "artifact-3.part");
    assert_eq!(path_names("a/b"), vec!["a", "b"]);
    assert_eq!(path_names("."), vec!["."]);
}

#[test]
fn staged_paths_stay_in_their_package() {
    let root = place("/data/staging");
    let executable = place("/data/staging/engine");
    assert!(validate_staged_paths(&root, &executable, &root, true).is_ok());
    assert!(validate_staged_paths(&root, &executable, &root, false).is_err());
    assert!(validate_staged_paths(&root, &place("/bin/sh"), &root, true).is_err());
    assert!(check_executable_file(true, &executable).is_ok());
    assert!(check_executable_file(false, &executable).is_err());
}

#[test]
fn recovery_cleans_up_and_reads_records() {
    let name = |text: &str| Some(text.to_owned());
    assert_eq!(recover_entry(&name(".staging-1-2"), true, false), RecoveryAction::RemoveStaging);
    assert_eq!(recover_entry(&name(".staging-1-2"), false, true), RecoveryAction::Leave);
    assert_eq!(
        recover_entry(&name("uci-grabber-install.json"), false, true),
        RecoveryAction::ReadRecord,
    );
    assert_eq!(recover_entry(&name("engine"), true, false), RecoveryAction::Leave);
    assert_eq!(recover_entry(&None, true, false), RecoveryAction::Leave);
    assert_eq!(
        RecoveryReport::default(),
        RecoveryReport { cleaned_staging: 0, repaired_records: 0 },
    );
}

#[test]
fn recovered_records_lie_where_they_say() {
    let plan = plan(&fixture_recipe(), "small", &approved()).unwrap();
    let record = plan.record(
        &fixture_recipe(),
        InstallSource::UnreviewedRecipe,
        &"c".repeat(64),
        &snapshot(),
        7,
    );
    let installs = place("/data/installs");
    let manifest = plan.generation.child("uci-grabber-install.json");
    assert!(check_recovered_generation(
        &installs,
        &plan.generation,
        &plan.generation,
        &manifest,
        &record,
    )
    .is_ok());
    assert!(check_recovered_generation(&installs, &installs, &installs, &manifest, &record).is_err());
    assert!(check_recovered_generation(
        &installs,
        &plan.generation,
        &place("/data/installs/other"),
        &manifest,
        &record,
    )
    .is_err());
    let paths = |executable: &Place, is_file: bool| {
        check_recovered_paths(&plan.generation, executable, is_file, &plan.generation, true)
    };
    assert!(paths(&record.executable, true).is_ok());
    assert!(paths(&record.executable, false).is_err());
    assert!(paths(&place("/bin/sh"), true).is_err());
    let empty = Registry::default();
    assert!(needs_check(&empty, &record, true));
    assert!(!needs_check(&empty, &record, false));
    let report = RecoveryReport { cleaned_staging: 1, repaired_records: 2 };
    let (known, counted) = installer().recover(empty, record.clone(), &Integrity::Verified, report);
    assert_eq!(known.installs, vec![record.clone()]);
    assert_eq!(counted, RecoveryReport { cleaned_staging: 1, repaired_records: 3 });
    assert!(!needs_check(&known, &record, true));
    let (unchanged, counted) =
        installer().recover(Registry::default(), record, &Integrity::Missing, report);
    assert_eq!((unchanged, counted), (Registry::default(), report));
}

#[test]
fn installers_know_their_store() {
    let installer = Installer::default_store(None, Some(place("/system"))).unwrap_or_else(|_| unreachable!());
    assert_eq!(installer.store().data_root().shown, "/system");
    assert_eq!(installer.downloader(), HttpDownloader::default());
    assert!(Installer::default_store(None, None).is_err());
}
