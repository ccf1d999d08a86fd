//! What is shown of sizes, progress, models and artifacts.

use uci_grabber::display::{
    artifact_row, download_sizes, fisheye_line, format_bytes, format_tenths,
    hugging_face_model_card_url, model_guidance, package_heading, progress_permille, progress_text,
    publisher_line, recipe_heading, KIB,
};
use uci_grabber::schema::{
    ArchiveFormat, Artifact, ArtifactKind, License, Model, Package, Publisher, Recipe,
    RECIPE_SCHEMA,
};
use uci_grabber::staging::{InstallPhase, InstallProgress};

fn model(description: &str) -> Model {
    Model {
        id: "fixture".into(),
        name: "Fixture".into(),
        description: description.into(),
        packages: Vec::new(),
    }
}

fn progress_fraction(progress: InstallProgress) -> f32 {
    f32::from(progress_permille(progress)) / 1000.0
}

#[test]
fn maia_descriptions_produce_clear_choice_guidance() {
    assert_eq!(
        model_guidance(&model("The balanced checkpoint for general use.")),
        Some("Recommended")
    );
    assert_eq!(
        model_guidance(&model("The smallest and fastest checkpoint.")),
        Some("Smallest & fastest")
    );
    assert_eq!(
        model_guidance(&model("The largest checkpoint.")),
        Some("Largest")
    );
    assert_eq!(model_guidance(&model("A specialist checkpoint.")), None);
}

#[test]
fn byte_sizes_are_human_readable() {
    assert_eq!(format_bytes(20_968_049), "20.0 MiB");
    assert_eq!(format_bytes(91_799_307), "87.5 MiB");
    assert_eq!(format_bytes(315_651_851), "301.0 MiB");
}

#[test]
fn pinned_checkpoint_links_expose_the_matching_model_card() {
    assert_eq!(
        hugging_face_model_card_url(
            "https://huggingface.co/UofTCSSLab/Maia3-5M/resolve/\
b6559de2398d7140b985f28fd2c19fb5e47ddabe/maia3-5m.pt"
        )
        .as_deref(),
        Some(
            "https://huggingface.co/UofTCSSLab/Maia3-5M/blob/\
b6559de2398d7140b985f28fd2c19fb5e47ddabe/README.md"
        )
    );
    assert!(hugging_face_model_card_url("https://example.test/model.pt").is_none());
}

#[test]
fn install_progress_is_bounded_and_descriptive() {
    let progress = InstallProgress {
        phase: InstallPhase::Downloading,
        artifact_kind: Some(ArtifactKind::Model),
        completed_bytes: 25,
        total_bytes: 100,
    };
    assert!((progress_fraction(progress) - 0.25).abs() < f32::EPSILON);
    assert_eq!(
        progress_text(progress),
        "Downloading model • overall 25 B / 100 B"
    );
}

#[test]
fn sizes_of_every_unit() {
    assert_eq!(format_bytes(0), "0 B");
    assert_eq!(format_bytes(1_023), "1023 B");
    assert_eq!(format_bytes(1_024), "1.0 KiB");
    assert_eq!(format_bytes(1_073_741_824), "1.0 GiB");
    assert_eq!(format_bytes(u64::MAX), "1717986918.3 GiB");
    assert_eq!(format_tenths(1_075, KIB, "KiB"), "1.0 KiB");
    assert_eq!(format_tenths(1_076, KIB, "KiB"), "1.1 KiB");
    assert_eq!(format_tenths(1_076, 0, "B"), "0.0 B");
}

#[test]
fn progress_in_every_phase() {
    let text = |phase: InstallPhase, kind: Option<ArtifactKind>| {
        progress_text(InstallProgress {
            phase,
            artifact_kind: kind,
            completed_bytes: 0,
            total_bytes: 0,
        })
    };
    assert_eq!(
        text(InstallPhase::Downloading, Some(ArtifactKind::Runtime)),
        "Downloading runtime • overall 0 B / 0 B",
    );
    assert_eq!(text(InstallPhase::Downloading, None), "Downloading package • overall 0 B / 0 B");
    assert_eq!(text(InstallPhase::Verifying, None), "Verifying checksum");
    assert_eq!(text(InstallPhase::Extracting, None), "Preparing portable package");
    assert_eq!(text(InstallPhase::ValidatingUci, None), "Testing UCI compatibility");
    assert_eq!(text(InstallPhase::Activating, None), "Saving portable package");
    assert_eq!(text(InstallPhase::Ready, None), "UCI engine ready");
}

#[test]
fn progress_never_leaves_its_bounds() {
    let share = |completed_bytes: u64, total_bytes: u64| {
        progress_permille(InstallProgress {
            phase: InstallPhase::Downloading,
            artifact_kind: None,
            completed_bytes,
            total_bytes,
        })
    };
    assert_eq!(share(5, 0), 0);
    assert_eq!(share(200, 100), 1_000);
    assert_eq!(share(u64::MAX, u64::MAX), 1);
    assert_eq!(share(999, 1_000), 999);
}

#[test]
fn unpinned_checkpoints_have_no_card() {
    for url in [
        "https://huggingface.co/UofTCSSLab/Maia3-5M/resolve/main/maia3-5m.pt",
        "https://huggingface.co/Maia3-5M/resolve/b6559de2398d7140b985f28fd2c19fb5e47ddabe/a.pt",
        "https://huggingface.co/a/b/resolve/b6559de2398d7140b985f28fd2c19fb5e47ddabe/",
        "https://huggingface.co/a/b/resolve/b6559de2398d7140b985f28fd2c19fb5e47ddabe/c/d",
        "https://huggingface.co/a/b/resolve/z6559de2398d7140b985f28fd2c19fb5e47ddabe/c",
    ] {
        assert!(hugging_face_model_card_url(url).is_none(), "{url}");
    }
}

#[test]
fn packages_and_artifacts_are_described() {
    let runtime = Artifact {
        kind: ArtifactKind::Runtime,
        url: "https://example.test/engine.zip".into(),
        byte_count: 2_048,
        sha256: "a".repeat(64),
        format: ArchiveFormat::Zip,
        destination: "runtime".into(),
    };
    let checkpoint = Artifact {
        kind: ArtifactKind::Model,
        url: "https://huggingface.co/a/b/resolve/b6559de2398d7140b985f28fd2c19fb5e47ddabe/c.pt".into(),
        byte_count: 1_024,
        sha256: "b".repeat(64),
        format: ArchiveFormat::Raw,
        destination: "weights/c.pt".into(),
    };
    let row = artifact_row(&runtime);
    assert_eq!(row.label, "Runtime · 2.0 KiB · runtime");
    assert_eq!(row.digest, format!("SHA-256  {}", "a".repeat(64)));
    assert_eq!(row.model_card, None);
    let row = artifact_row(&checkpoint);
    assert_eq!(row.label, "Checkpoint · 1.0 KiB · weights/c.pt");
    assert_eq!(
        row.model_card.as_deref(),
        Some("https://huggingface.co/a/b/blob/b6559de2398d7140b985f28fd2c19fb5e47ddabe/README.md"),
    );
    let mut package = Package {
        platform: "linux-x86_64".into(),
        artifacts: vec![runtime],
        executable: "runtime/engine".into(),
        working_directory: "runtime".into(),
    };
    assert_eq!(download_sizes(&package), "2.0 KiB total download");
    package.artifacts.push(checkpoint);
    assert_eq!(download_sizes(&package), "1.0 KiB model • 3.0 KiB total download");
    assert_eq!(package_heading(&model(""), &package), "Fixture · linux-x86_64");
}

#[test]
fn recipes_are_described() {
    let recipe = Recipe {
        schema: RECIPE_SCHEMA.into(),
        id: "test-engine".into(),
        name: "Test Engine".into(),
        version: "1.0.0".into(),
        description: "Fixture".into(),
        publisher: Publisher { name: "Fixture".into(), url: "https://example.test".into() },
        license: License {
            spdx: "MIT".into(),
            name: "MIT License".into(),
            url: "https://example.test/license".into(),
            source_url: "https://example.test/source".into(),
        },
        homepage: "https://example.test/engine".into(),
        minimum_fisheye_version: "1.7.0".into(),
        models: Vec::new(),
    };
    assert_eq!(recipe_heading(&recipe), "Test Engine 1.0.0");
    assert_eq!(publisher_line(&recipe), "Publisher: Fixture  •  License: MIT License (MIT)");
    assert_eq!(
        fisheye_line(&recipe),
        "Optional FishEye integration: version 1.7.0 or newer",
    );
}
