//! The application and its command line.

use uci_grabber::app::{
    empty_catalog_line, integrity_label, ready_line, record_row, startup_error, FollowUp,
    GrabberApp, JobResult, PostInstallAction, Tab,
};
use uci_grabber::catalog::VerifiedCatalog;
use uci_grabber::cli::{
    check_confirmed, check_launch, check_open, find_install, imported_line, installed_line,
    print_recipes, recovery_line, removed_line, select_recipe, status_line,
};
use uci_grabber::error::Error;
use uci_grabber::install::RecoveryReport;
use uci_grabber::place::Place;
use uci_grabber::registry::{InstallRecord, InstallSource, Integrity, Registry, REGISTRY_SCHEMA};
use uci_grabber::schema::{
    ArchiveFormat, Artifact, ArtifactKind, Catalog, License, Model, Package, Publisher, Recipe,
    CATALOG_SCHEMA, RECIPE_SCHEMA,
};
use uci_grabber::staging::{InstallPhase, InstallProgress};

fn recipe(id: &str, version: &str) -> Recipe {
    Recipe {
        schema: RECIPE_SCHEMA.into(),
        id: id.into(),
        name: "Test Engine".into(),
        version: version.into(),
        description: "Fixture".into(),
        publisher: Publisher { name: "Fixture".into(), url: "https://example.test".into() },
        license: License {
            spdx: "MIT".into(),
            name: "MIT".into(),
            url: "https://example.test/license".into(),
            source_url: "https://example.test/source".into(),
        },
        homepage: "https://example.test/engine".into(),
        minimum_fisheye_version: "1.7.0".into(),
        models: vec![Model {
            id: "small".into(),
            name: "Small".into(),
            description: "The balanced checkpoint".into(),
            packages: vec![Package {
                platform: "linux-x86_64".into(),
                artifacts: vec![Artifact {
                    kind: ArtifactKind::Runtime,
                    url: "https://example.test/engine.zip".into(),
                    byte_count: 42,
                    sha256: "a".repeat(64),
                    format: ArchiveFormat::Zip,
                    destination: "runtime".into(),
                }],
                executable: "runtime/engine".into(),
                working_directory: "runtime".into(),
            }],
        }],
    }
}

fn record(id: &str) -> InstallRecord {
    let generation = Place::read("/data/generation", '/');
    InstallRecord {
        install_id: id.into(),
        recipe_id: "engine".into(),
        recipe_sha256: "c".repeat(64),
        model_id: "small".into(),
        name: "Engine Small".into(),
        version: "1".into(),
        platform: "linux-x86_64".into(),
        executable: generation.child("engine"),
        executable_sha256: "a".repeat(64),
        package_sha256: "b".repeat(64),
        package_file_count: 1,
        package_byte_count: 1,
        working_directory: generation.copy(),
        generation_root: generation,
        source: InstallSource::UnreviewedRecipe,
        installed_at_unix: 1,
        publisher: "Publisher".into(),
        license_spdx: "MIT".into(),
        license_url: "https://example.test/license".into(),
    }
}

fn catalog(recipes: Vec<Recipe>) -> VerifiedCatalog {
    VerifiedCatalog {
        catalog: Catalog {
            schema: CATALOG_SCHEMA.into(),
            generated_at: "2026-07-21T00:00:00Z".into(),
            expires_at: "9999-12-31T23:59:59Z".into(),
            recipes,
        },
        exact_bytes: Vec::new(),
        signature: Vec::new(),
    }
}

fn started(installs: Vec<InstallRecord>, present: &Vec<bool>) -> GrabberApp {
    let cached = Ok(Some(catalog(vec![recipe("engine", "1.0.0")])));
    let (app, refreshing) = GrabberApp::load(
        cached,
        Ok(catalog(Vec::new())),
        RecoveryReport::default(),
        Vec::new(),
        installs,
        present,
    )
    .unwrap_or_else(|_| unreachable!());
    assert!(!refreshing);
    app
}

#[test]
fn the_application_starts_with_what_it_has() {
    let app = started(vec![record("a"), record("b")], &vec![true, false]);
    assert_eq!(app.status, "Loaded verified catalog cache.");
    assert_eq!(app.integrity_of("a"), "Not checked");
    assert_eq!(app.integrity_of("b"), "Missing");
    assert!(!app.busy);

    let load = |cached, recovery| {
        GrabberApp::load(cached, Ok(catalog(Vec::new())), recovery, Vec::new(), Vec::new(), &Vec::new())
            .unwrap_or_else(|_| unreachable!())
    };
    let (app, refreshing) = load(Ok(None), RecoveryReport::default());
    assert!(refreshing && app.busy && app.catalog_refreshing);
    assert_eq!(
        app.status,
        "No verified catalog cache yet. Downloading the latest signed catalog…",
    );
    assert_eq!(app.job_label.as_deref(), Some("Refreshing signed catalog…"));
    let (app, _) = load(Err(Error::InvalidSignature), RecoveryReport::default());
    assert_eq!(
        app.status,
        "Ignored invalid catalog cache: catalog signature verification failed Downloading the latest signed catalog…",
    );
    let recovery = RecoveryReport { cleaned_staging: 1, repaired_records: 2 };
    let (app, _) = load(Ok(None), recovery);
    assert_eq!(
        app.status,
        "Recovered 1 interrupted staging directory and 2 registry records. Downloading the latest signed catalog…",
    );
    let failed = GrabberApp::load(
        Ok(None),
        Err(Error::InvalidSignature),
        RecoveryReport::default(),
        Vec::new(),
        Vec::new(),
        &Vec::new(),
    );
    assert_eq!(failed.err(), Some(Error::InvalidSignature));
}

#[test]
fn one_thing_is_done_at_a_time() {
    let mut app = started(Vec::new(), &Vec::new());
    let engine = recipe("engine", "1.0.0");
    assert_eq!(app.start_install(&engine, PostInstallAction::OpenInFishEye), Some(false));
    assert_eq!(app.status, "Installing Test Engine…");
    assert!(!app.start_refresh());
    assert!(!app.start_import());
    assert_eq!(app.start_install(&engine, PostInstallAction::ShowReady), None);
    assert!(app.cancel());
    assert_eq!(app.status, "Cancelling install…");
    let progress = InstallProgress {
        phase: InstallPhase::Downloading,
        artifact_kind: None,
        completed_bytes: 1,
        total_bytes: 2,
    };
    assert!(matches!(app.poll_job(JobResult::InstallProgress(progress)), FollowUp::Nothing));
    assert_eq!(app.install_progress, Some(progress));
    match app.poll_job(JobResult::Installed(Ok(record("a")))) {
        FollowUp::Installed { record, open } => {
            assert_eq!(record.install_id, "a");
            assert!(open);
            app.engine_ready(&record);
        },
        _ => panic!("an engine was installed"),
    }
    assert_eq!(
        app.status,
        "UCI engine ready: Engine Small. Use the executable path in any compatible chess GUI.",
    );
    assert_eq!(app.tab, Tab::Installed);
    assert_eq!(app.recent_install.as_deref(), Some("a"));
    assert!(!app.busy && !app.cancel());
}

#[test]
fn the_engine_that_was_installed_last_is_shown() {
    let mut app = started(vec![record("a"), record("b")], &vec![true, true]);
    assert_eq!(app.recent(), None);
    app.poll_job(JobResult::Installed(Ok(record("b"))));
    assert_eq!(app.recent().map(|found| found.install_id.as_str()), Some("b"));
    app.poll_job(JobResult::Installed(Ok(record("c"))));
    assert_eq!(app.recent(), None);

    assert_eq!(
        ready_line(&record("a")),
        "Engine Small (small) passed checksum and UCI validation.",
    );
    let row = record_row(&record("a"), "verified");
    assert_eq!(row.heading, "Engine Small · small · 1");
    assert_eq!(row.integrity, "Integrity: verified");
    assert_eq!(row.details, "Unreviewed  •  linux-x86_64  •  Publisher  •  MIT");
    assert_eq!(row.path, "/data/generation/engine");
    assert_eq!(
        empty_catalog_line(true),
        "Loading and verifying the latest curated catalogue…",
    );
    assert_eq!(
        empty_catalog_line(false),
        "No curated engines are published in this signed catalog yet. You can import a data-only \
         recipe in Custom Recipes.",
    );
}

#[test]
fn failures_are_told_and_leave_the_rest() {
    let mut app = started(Vec::new(), &Vec::new());
    assert!(app.start_refresh());
    app.poll_job(JobResult::Refreshed(Err(Error::Cancelled)));
    assert_eq!(app.status, "Catalog refresh failed; kept previous catalog: operation cancelled");
    assert_eq!(app.catalog.catalog.recipes.len(), 1);
    app.poll_job(JobResult::Refreshed(Ok(catalog(Vec::new()))));
    assert_eq!(app.status, "Verified catalog refreshed (0 recipes).");
    assert!(app.catalog.catalog.recipes.is_empty());
    app.poll_job(JobResult::Installed(Err(Error::Cancelled)));
    assert_eq!(app.status, "Install failed: operation cancelled");
    app.poll_job(JobResult::Imported(Err(Error::Cancelled)));
    assert_eq!(app.status, "Recipe import failed: operation cancelled");
    app.reload_installs(Err(Error::Cancelled));
    assert_eq!(app.status, "Could not reload installs: operation cancelled");
    app.reload_custom(Err(Error::Cancelled));
    assert_eq!(app.status, "Could not reload custom recipes: operation cancelled");
    app.reload_installs(Ok((vec![record("a")], vec![false])));
    assert_eq!(app.integrity_of("a"), "Missing");
    app.reload_custom(Ok(vec![recipe("engine", "1.0.0")]));
    assert_eq!(app.custom_recipes.len(), 1);
}

#[test]
fn approval_is_given_and_taken_back() {
    let mut app = started(Vec::new(), &Vec::new());
    let engine = recipe("engine", "1.0.0");
    let model = &engine.models[0];
    let unreviewed = InstallSource::UnreviewedRecipe;
    assert!(!app.model_row(&engine, model, unreviewed, "linux-x86_64").enabled);
    assert!(app.model_row(&engine, model, InstallSource::Curated, "linux-x86_64").enabled);
    app.set_approval(&engine, true);
    assert!(app.approves(&engine) && !app.approves(&recipe("engine", "1.0.1")));
    let row = app.model_row(&engine, model, unreviewed, "linux-x86_64");
    assert!(row.enabled);
    assert_eq!(row.guidance.as_deref(), Some("Recommended"));
    assert_eq!(row.sizes.as_deref(), Some("42 B total download"));
    let row = app.model_row(&engine, model, unreviewed, "macos-aarch64");
    assert!(!row.enabled);
    assert_eq!(row.unavailable.as_deref(), Some("Not available for macos-aarch64"));
    assert!(matches!(
        app.poll_job(JobResult::Imported(Ok(recipe("engine", "1.0.0")))),
        FollowUp::ReloadCustom,
    ));
    assert_eq!(app.status, "Imported unreviewed recipe Test Engine.");
    assert!(!app.approves(&engine));
    app.set_approval(&engine, true);
    app.set_approval(&engine, false);
    assert!(!app.approves(&engine));
}

#[test]
fn recipes_are_shown() {
    let app = started(Vec::new(), &Vec::new());
    let cards = app.catalog_ui("linux-x86_64").unwrap();
    assert_eq!(cards.len(), 1);
    assert_eq!(cards[0].heading, "Test Engine 1.0.0");
    assert_eq!(cards[0].approved, None);
    assert_eq!(cards[0].packages[0].heading, "Small · linux-x86_64");
    assert_eq!(cards[0].packages[0].artifacts[0].label, "Runtime · 42 B · runtime");
    assert!(cards[0].models[0].enabled);
    assert!(app.catalog_ui("macos-aarch64").unwrap()[0].packages.is_empty());
    assert_eq!(app.custom_ui("linux-x86_64").unwrap_err(), "No custom recipes imported.");
    let mut app = app;
    app.reload_custom(Ok(vec![recipe("engine", "1.0.0")]));
    assert_eq!(app.custom_ui("linux-x86_64").unwrap()[0].approved, Some(false));
    app.poll_job(JobResult::Refreshed(Ok(catalog(Vec::new()))));
    assert!(app.catalog_ui("linux-x86_64").unwrap_err().starts_with("No curated engines"));
    app.start_refresh();
    assert!(app.catalog_ui("linux-x86_64").unwrap_err().starts_with("Loading and verifying"));
}

#[test]
fn installations_are_shown() {
    let mut app = started(vec![record("a"), record("b")], &vec![true, true]);
    app.recent_install = Some("b".into());
    app.confirm_remove = Some("a".into());
    let (ready, cards) = app.installed_ui().unwrap();
    assert_eq!(
        ready.as_deref(),
        Some("Engine Small (small) passed checksum and UCI validation."),
    );
    assert_eq!(cards[0].row.heading, "Engine Small · small · 1");
    assert_eq!(cards[0].row.integrity, "Integrity: Not checked");
    assert_eq!(cards[0].row.details, "Unreviewed  •  linux-x86_64  •  Publisher  •  MIT");
    assert_eq!(cards[0].row.path, "/data/generation/engine");
    assert!(cards[0].confirming && !cards[1].confirming);
    app.removed("b", &Ok(true));
    assert_eq!(app.status, "Removed immutable install generation.");
    assert_eq!((app.recent_install.as_deref(), app.confirm_remove.as_deref()), (None, None));
    app.removed("b", &Ok(false));
    assert_eq!(app.status, "Install was already absent.");
    app.removed("b", &Err(Error::Cancelled));
    assert_eq!(app.status, "Remove failed: operation cancelled");
    app.reload_installs(Ok((Vec::new(), Vec::new())));
    assert_eq!(app.installed_ui().unwrap_err(), "No UCI packages installed.");
}

#[test]
fn only_verified_engines_are_handed_over() {
    let mut app = started(vec![record("a")], &vec![true]);
    assert!(app.open_record_in_fisheye(&Ok(Integrity::Verified)));
    assert!(!app.open_record_in_fisheye(&Ok(Integrity::Missing)));
    assert!(app.status.starts_with("Refused FishEye handoff"));
    assert!(!app.open_record_in_fisheye(&Err(Error::Cancelled)));
    assert_eq!(app.status, "Integrity check failed: operation cancelled");
    app.open_verified_record_in_fisheye(&Ok(()));
    assert!(app.status.starts_with("Opened FishEye's external-engine review."));
    app.open_verified_record_in_fisheye(&Err(Error::Cancelled));
    assert!(app.status.contains("could not be opened: operation cancelled."));
    app.fisheye_not_chosen(&Error::Cancelled);
    assert!(app.status.contains("FishEye was not found (operation cancelled)"));
    app.path_copied();
    assert_eq!(app.status, "Engine path copied for use in any chess GUI.");
    app.folder_opened(&Ok(()));
    assert_eq!(app.status, "Opened the portable UCI package folder.");
    app.folder_opened(&Err(Error::Cancelled));
    assert_eq!(app.status, "Could not open package folder: operation cancelled");
    let changed = Ok(Integrity::Changed { expected: "a".into(), actual: "b".into() });
    app.integrity_checked("a", &changed);
    assert_eq!(app.integrity_of("a"), "Changed — do not launch");
    assert_eq!(integrity_label(&Ok(Integrity::Verified)), "Verified");
    assert_eq!(integrity_label(&Err(Error::Cancelled)), "Check failed: operation cancelled");
    assert_eq!(startup_error("no"), "UCI Grabber could not start:\n\nno");
}

#[test]
fn addresses_are_imported_over_https() {
    let mut app = started(Vec::new(), &Vec::new());
    assert!(!app.may_import());
    app.custom_url = "http://example.test/a.json".into();
    assert!(!app.may_import());
    app.custom_url = "https://example.test/a.json".into();
    assert!(app.may_import());
    assert!(app.start_import());
    assert_eq!(app.status, "Importing and validating unreviewed recipe…");
    assert!(!app.may_import());
}

#[test]
fn commands_find_their_recipe() {
    let curated = || vec![recipe("engine", "1.0.0")];
    let custom = || Ok(vec![recipe("engine", "2.0.0"), recipe("own", "1.0.0"), recipe("own", "2.0.0")]);
    let (found, source) = select_recipe(curated(), custom(), "engine", &Some("2.0.0".into())).unwrap();
    assert_eq!((found.version.as_str(), source), ("1.0.0", InstallSource::Curated));
    let failed = select_recipe(curated(), Err(Error::Cancelled), "engine", &None).unwrap();
    assert_eq!(failed.1, InstallSource::Curated);
    let (found, source) = select_recipe(curated(), custom(), "own", &Some("2.0.0".into())).unwrap();
    assert_eq!((found.version.as_str(), source), ("2.0.0", InstallSource::UnreviewedRecipe));
    assert_eq!(
        select_recipe(curated(), custom(), "own", &None).unwrap_err().message(),
        "invalid recipe: multiple versions of `own` are imported; select one with --version",
    );
    assert_eq!(
        select_recipe(curated(), custom(), "other", &None).unwrap_err().message(),
        "invalid recipe: unknown recipe `other`",
    );
    assert_eq!(
        select_recipe(curated(), Err(Error::Cancelled), "own", &None).unwrap_err(),
        Error::Cancelled,
    );
}

#[test]
fn commands_print_lines() {
    let mut engine = recipe("engine", "1.0.0");
    assert_eq!(print_recipes(&Vec::new()), vec!["  (none)"]);
    assert_eq!(imported_line(&engine), "Imported unreviewed recipe Test Engine 1.0.0 (1 model).");
    let mut second = recipe("engine", "1.0.0").models.remove(0);
    second.id = "large".into();
    engine.models.push(second);
    assert_eq!(
        print_recipes(&vec![engine.clone()]),
        vec!["  engine  Test Engine 1.0.0  models: small, large"],
    );
    assert_eq!(imported_line(&engine), "Imported unreviewed recipe Test Engine 1.0.0 (2 models).");
    assert_eq!(installed_line(&record("a")), "Installed and UCI-validated Engine Small.");
    assert_eq!(
        recovery_line(RecoveryReport { cleaned_staging: 2, repaired_records: 1 }),
        "Recovery: cleaned 2 staging directories, repaired 1 record.",
    );
    assert_eq!(
        status_line(&record("a"), &Integrity::Verified),
        "a  Engine Small 1  Unreviewed  verified\n  /data/generation/engine",
    );
    let changed = Integrity::Changed { expected: "x".into(), actual: "y".into() };
    assert!(status_line(&record("a"), &changed).contains("  changed (y)\n"));
    assert!(status_line(&record("a"), &Integrity::Missing).contains("  missing\n"));
    assert_eq!(removed_line("a", true), "Removed a.");
    assert_eq!(removed_line("a", false), "Install a was not present.");
}

#[test]
fn commands_are_checked() {
    assert!(check_launch(true, true).is_ok());
    assert!(check_launch(false, false).is_ok());
    assert_eq!(
        check_launch(false, true).unwrap_err().message(),
        "--data-dir requires a CLI subcommand and is not silently applied to the GUI",
    );
    assert!(check_confirmed(true).is_ok());
    assert!(check_confirmed(false).unwrap_err().message().starts_with("removal requires --confirm"));
    assert!(check_open(&Integrity::Verified).is_ok());
    assert_eq!(
        check_open(&Integrity::Missing).unwrap_err().message(),
        "refusing to hand off a missing or changed executable",
    );
    let registry = Registry { schema: REGISTRY_SCHEMA.into(), installs: vec![record("a")] };
    assert_eq!(find_install(&registry, "a").unwrap().name, "Engine Small");
    assert_eq!(find_install(&registry, "b").unwrap_err().message(), "unknown install `b`");
}
