//! The registry of installations, and the recipes that were imported.

use uci_grabber::error::Error;
use uci_grabber::package::PackageSnapshot;
use uci_grabber::place::Place;
use uci_grabber::recipes::{same_bytes, CustomRecipeStore, ImportSource, Keeping, Stored};
use uci_grabber::registry::{
    marker_places, portable_data_root, safe_relative_path, single_path_component, Finding,
    InstallRecord, InstallSource, Integrity, Registry, RegistryDocument, RegistryStore,
    PORTABLE_DATA_DIRECTORY, PORTABLE_MARKER, REGISTRY_SCHEMA,
};
use uci_grabber::schema::{
    ArchiveFormat, Artifact, ArtifactKind, License, Model, Package, Publisher, Recipe,
    RECIPE_SCHEMA,
};

fn place(text: &str) -> Place {
    Place::read(text, '/')
}

fn record(generation: &Place) -> InstallRecord {
    InstallRecord {
        install_id: "engine:small:1:linux-x86_64".into(),
        recipe_id: "engine".into(),
        recipe_sha256: "c".repeat(64),
        model_id: "small".into(),
        name: "Engine Small".into(),
        version: "1".into(),
        platform: "linux-x86_64".into(),
        generation_root: generation.copy(),
        executable: generation.child("engine"),
        executable_sha256: "a".repeat(64),
        package_sha256: "b".repeat(64),
        package_file_count: 1,
        package_byte_count: 1,
        working_directory: generation.copy(),
        source: InstallSource::UnreviewedRecipe,
        installed_at_unix: 1,
        publisher: "Publisher".into(),
        license_spdx: "MIT".into(),
        license_url: "https://example.test/license".into(),
    }
}

fn kept(registry: Registry) -> Option<RegistryDocument> {
    Some(RegistryDocument { length: 1, parsed: Ok(registry) })
}

fn recipe(id: &str, version: &str) -> Recipe {
    Recipe {
        schema: RECIPE_SCHEMA.into(),
        id: id.into(),
        name: "Test Engine".into(),
        version: version.into(),
        description: "Fixture".into(),
        publisher: Publisher { name: "Fixture".into(), url: "https://example.test".into() },
        license: License {
            spdx: "MIT".into(),
            name: "MIT".into(),
            url: "https://example.test/license".into(),
            source_url: "https://example.test/source".into(),
        },
        homepage: "https://example.test/engine".into(),
        minimum_fisheye_version: "1.7.0".into(),
        models: vec![Model {
            id: "small".into(),
            name: "Small".into(),
            description: "Small fixture".into(),
            packages: vec![Package {
                platform: "linux-x86_64".into(),
                artifacts: vec![Artifact {
                    kind: ArtifactKind::Runtime,
                    url: "https://example.test/engine.zip".into(),
                    byte_count: 42,
                    sha256: "a".repeat(64),
                    format: ArchiveFormat::Zip,
                    destination: "runtime".into(),
                }],
                executable: "runtime/engine".into(),
                working_directory: "runtime".into(),
            }],
        }],
    }
}

#[test]
fn portable_marker_keeps_mutable_data_beside_the_executable() {
    let executable = place("/bundle/uci-grabber.exe");
    assert_eq!(
        portable_data_root(&executable, true, false),
        Some(place("/bundle").child(PORTABLE_DATA_DIRECTORY)),
    );
}

#[test]
fn macos_portable_data_stays_outside_the_app_bundle() {
    let executable = place("/bundle/UCI Grabber.app/Contents/MacOS/uci-grabber");
    assert_eq!(
        portable_data_root(&executable, false, true),
        Some(place("/bundle").child(PORTABLE_DATA_DIRECTORY)),
    );
}

#[test]
fn source_build_without_marker_uses_the_platform_default() {
    let executable = place("/bundle/uci-grabber");
    assert_eq!(portable_data_root(&executable, false, false), None);
}

#[test]
fn markers_are_looked_for_beside_and_in_the_bundle() {
    let (beside, inside) = marker_places(&place("/bundle/UCI Grabber.app/Contents/MacOS/uci-grabber"));
    assert_eq!(
        beside.unwrap().shown,
        format!("/bundle/UCI Grabber.app/Contents/MacOS/{PORTABLE_MARKER}"),
    );
    assert_eq!(
        inside.unwrap().shown,
        format!("/bundle/UCI Grabber.app/Contents/Resources/{PORTABLE_MARKER}"),
    );
    let (beside, inside) = marker_places(&place("/uci-grabber"));
    assert_eq!(beside.unwrap().shown, format!("/{PORTABLE_MARKER}"));
    assert_eq!(inside, None);
}

#[test]
fn registry_round_trip_and_forget() {
    let store = RegistryStore::new(place("/data"));
    let record = record(&place("/data/generation"));
    let registry = store.add(store.load(None).unwrap(), record.clone());
    store.save(&registry).unwrap();
    assert_eq!(store.load(kept(registry.clone())).unwrap().installs, vec![record]);
    let (registry, forgotten) = store.forget(registry, "engine:small:1:linux-x86_64");
    assert!(forgotten);
    assert!(store.load(kept(registry)).unwrap().installs.is_empty());
}

#[test]
fn explicit_remove_forgets_an_already_missing_generation() {
    let store = RegistryStore::new(place("/data"));
    let generation = place("/data/installs/engine/small/1/linux-x86_64");
    let registry = store.add(Registry::default(), record(&generation));
    let removal = store
        .remove(registry, "engine:small:1:linux-x86_64", &None)
        .unwrap_or_else(|_| unreachable!());
    assert!(removal.removed && !removal.delete);
    assert!(store.load(kept(removal.registry)).unwrap().installs.is_empty());
}

#[test]
fn adding_replaces_and_sorts() {
    let store = RegistryStore::new(place("/data"));
    let mut first = record(&place("/data/generation"));
    first.name = "B".into();
    let mut second = record(&place("/data/generation"));
    second.install_id = "other".into();
    second.name = "A".into();
    let registry = store.add(Registry::default(), first.clone());
    let registry = store.add(registry, second);
    let names: Vec<&str> = registry.installs.iter().map(|record| record.name.as_str()).collect();
    assert_eq!(names, vec!["A", "B"]);
    first.name = "0".into();
    let registry = store.add(registry, first);
    let names: Vec<&str> = registry.installs.iter().map(|record| record.name.as_str()).collect();
    assert_eq!(names, vec!["0", "A"]);
    let (registry, forgotten) = store.forget(registry, "nobody");
    assert!(!forgotten);
    assert_eq!(registry.installs.len(), 2);
}

#[test]
fn registries_are_checked_when_they_are_read_and_written() {
    let store = RegistryStore::new(place("/data"));
    assert_eq!(store.load(None).unwrap(), Registry::default());
    assert_eq!(Registry::default().schema, REGISTRY_SCHEMA);
    let large = Some(RegistryDocument { length: 8_388_609, parsed: Ok(Registry::default()) });
    assert_eq!(
        store.load(large).unwrap_err().message(),
        "registry exceeds 8 MiB safety limit",
    );
    let broken = Some(RegistryDocument { length: 1, parsed: Err("expected value".into()) });
    assert_eq!(store.load(broken).unwrap_err(), Error::Json("expected value".into()));
    let other = Registry { schema: "other".into(), installs: Vec::new() };
    assert_eq!(
        store.load(kept(other.clone())).unwrap_err().message(),
        "unsupported registry schema `other`",
    );
    assert_eq!(
        store.save(&other).unwrap_err().message(),
        "refusing to write invalid registry schema",
    );
}

#[test]
fn portable_records_follow_their_store() {
    let store = RegistryStore::new_portable(place("/moved/UCI-Grabber-Data"));
    let old = place("/original/UCI-Grabber-Data/installs/engine/small/1/linux-x86_64");
    let registry = store.load(kept(Registry {
        schema: REGISTRY_SCHEMA.into(),
        installs: vec![record(&old)],
    })).unwrap();
    let moved = &registry.installs[0];
    assert!(moved.generation_root.starts_with(&place("/moved")));
    assert_eq!(
        moved.generation_root.shown,
        "/moved/UCI-Grabber-Data/installs/engine/small/1/linux-x86_64",
    );
    assert!(moved.working_directory.same(&moved.generation_root));
    assert_eq!(
        moved.executable.shown,
        "/moved/UCI-Grabber-Data/installs/engine/small/1/linux-x86_64/engine",
    );
    let mut again = moved.clone();
    store.rebase_portable_record(&mut again).unwrap();
    assert_eq!(&again, moved);
}

#[test]
fn portable_records_have_single_names() {
    let store = RegistryStore::new_portable(place("/moved"));
    let old = place("/original/installs/engine/small/1/linux-x86_64");
    for id in ["", ".", "..", "a/b", "/a", "../1", "a/.."] {
        let mut records = [record(&old), record(&old), record(&old), record(&old)];
        records[0].recipe_id = id.into();
        records[1].model_id = id.into();
        records[2].version = id.into();
        records[3].platform = id.into();
        for (odd, label) in records.iter_mut().zip(["recipe", "model", "version", "platform"]) {
            let before = odd.clone();
            assert_eq!(
                store.rebase_portable_record(odd).unwrap_err().message(),
                format!("portable registry {label} is not a safe path component"),
            );
            assert_eq!(odd, &before);
        }
    }
}

#[test]
fn moved_records_keep_their_texts() {
    let store = RegistryStore::new_portable(place("/moved"));
    let old = place("/original/installs/engine/small/1/linux-x86_64");
    let mut odd = record(&old);
    odd.recipe_id = "engine/.".into();
    odd.platform = "linux-x86_64/".into();
    odd.executable = place("/original/installs//engine/small/1/linux-x86_64//bin/.//run/./");
    odd.working_directory = place("/original/installs/engine/small/1/linux-x86_64/.");
    store.rebase_portable_record(&mut odd).unwrap();
    assert_eq!(odd.generation_root.shown, "/moved/installs/engine/./small/1/linux-x86_64/");
    assert_eq!(odd.executable.shown, "/moved/installs/engine/./small/1/linux-x86_64/bin/.//run");
    assert_eq!(odd.working_directory.shown, "/moved/installs/engine/./small/1/linux-x86_64/");
    for moved in [&odd.generation_root, &odd.executable, &odd.working_directory] {
        assert_eq!(place(&moved.shown).parts, moved.parts);
    }
}

#[test]
fn what_was_loaded_and_saved_loads_as_it_was() {
    let store = RegistryStore::new_portable(place("/moved"));
    let old = place("/original/installs/engine/small/1/linux-x86_64");
    let mut other = record(&old);
    other.install_id = "other".into();
    let document = kept(Registry {
        schema: REGISTRY_SCHEMA.into(),
        installs: vec![record(&old), other],
    });
    let loaded = store.load(document).unwrap();
    assert_eq!(store.load(kept(loaded.clone())).unwrap(), loaded);
    let (left, found) = store.forget(loaded, "other");
    assert!(found);
    let again = store.load(kept(left.clone())).unwrap();
    assert_eq!(again, left);
    assert!(!store.forget(again, "other").1);
}

#[test]
fn loading_stops_at_the_first_record_that_does_not_move() {
    let store = RegistryStore::new_portable(place("/moved"));
    let old = place("/original/installs/engine/small/1/linux-x86_64");
    let mut second = record(&old);
    second.version = "..".into();
    let mut third = record(&old);
    third.recipe_id = "..".into();
    let document = kept(Registry {
        schema: REGISTRY_SCHEMA.into(),
        installs: vec![record(&old), second, third],
    });
    assert_eq!(
        store.load(document).unwrap_err().message(),
        "portable registry version is not a safe path component",
    );
}

#[test]
fn adding_a_record_twice_is_adding_it_once() {
    let store = RegistryStore::new(place("/data"));
    let mut other = record(&place("/data/installs/other"));
    other.install_id = "other".into();
    let registry = store.add(Registry::default(), other);
    let own = record(&place("/data/installs/own"));
    let once = store.add(registry, own.clone());
    assert_eq!(store.add(once.clone(), own), once);
}

#[test]
fn portable_records_may_not_leave_their_generation() {
    let store = RegistryStore::new_portable(place("/moved"));
    let old = place("/original/installs/engine/small/1/linux-x86_64");
    let mut escaped = record(&old);
    escaped.executable = place("/bin/sh");
    assert_eq!(
        store.rebase_portable_record(&mut escaped).unwrap_err().message(),
        "portable registry executable escaped its generation",
    );
    let mut escaped = record(&old);
    escaped.working_directory = place("/bin");
    assert!(store.rebase_portable_record(&mut escaped).is_err());
    let mut odd = record(&old);
    odd.version = "../1".into();
    assert_eq!(
        store.rebase_portable_record(&mut odd).unwrap_err().message(),
        "portable registry version is not a safe path component",
    );
    let fixed = RegistryStore::new(place("/moved"));
    let mut untouched = record(&old);
    fixed.rebase_portable_record(&mut untouched).unwrap();
    assert_eq!(untouched, record(&old));
}

#[test]
fn only_generations_may_be_removed() {
    let installs = place("/data/installs");
    let generation = place("/data/installs/engine/small/1/linux-x86_64");
    let store = RegistryStore::new(place("/data"));
    let registry = store.add(Registry::default(), record(&generation));
    let found = Some((generation, installs.copy()));
    let removal = store
        .remove(registry.clone(), "engine:small:1:linux-x86_64", &found)
        .unwrap_or_else(|_| unreachable!());
    assert!(removal.removed && removal.delete && removal.registry.installs.is_empty());
    let outside = Some((place("/elsewhere"), installs.copy()));
    assert_eq!(
        store.remove(registry.clone(), "engine:small:1:linux-x86_64", &outside).err(),
        Some(Error::Other("refusing to remove path outside install generations: /elsewhere".into())),
    );
    let removal = store
        .remove(registry.clone(), "nobody", &outside)
        .unwrap_or_else(|_| unreachable!());
    assert!(!removal.removed && !removal.delete);
    assert_eq!(removal.registry, registry);
    assert!(RegistryStore::check_removal(&place("/data/installs/a/b/c/d"), &installs).is_ok());
    for path in ["/data/installs", "/data", "/elsewhere/a/b/c/d"] {
        assert!(RegistryStore::check_removal(&place(path), &installs).is_err(), "{path}");
    }
}

#[test]
fn integrity_is_judged_by_what_is_found() {
    let record = record(&place("/data/generation"));
    let verdict = |finding: Finding| RegistryStore::integrity(&record, &finding);
    assert_eq!(verdict(Finding::Absent), Some(Integrity::Missing));
    assert!(matches!(verdict(Finding::Escaped), Some(Integrity::Changed { .. })));
    assert_eq!(verdict(Finding::Executable { sha256: "a".repeat(64) }), None);
    assert_eq!(
        verdict(Finding::Executable { sha256: "d".repeat(64) }),
        Some(Integrity::Changed { expected: "a".repeat(64), actual: "d".repeat(64) }),
    );
    let snapshot = |file_count: u64| PackageSnapshot {
        sha256: "b".repeat(64),
        file_count,
        byte_count: 1,
    };
    assert_eq!(verdict(Finding::Package { snapshot: snapshot(1) }), Some(Integrity::Verified));
    assert!(matches!(
        verdict(Finding::Package { snapshot: snapshot(2) }),
        Some(Integrity::Changed { .. }),
    ));
}

#[test]
fn stores_open_where_they_may() {
    let portable = RegistryStore::open_default(Some(place("/portable")), Some(place("/system"))).unwrap();
    assert_eq!(portable.data_root().shown, "/portable");
    let system = RegistryStore::open_default(None, Some(place("/system"))).unwrap();
    assert_eq!(system.data_root().shown, "/system");
    assert!(RegistryStore::open_default(None, None).is_err());
    assert_eq!(system.installs_dir().shown, "/system/installs");
    assert_eq!(system.cache_dir().shown, "/system/catalog-cache");
    assert_eq!(system.registry_path().shown, "/system/registry.json");
    assert_eq!(
        system.generation("engine", "small", "1.0.0", "linux-x86_64").shown,
        "/system/installs/engine/small/1.0.0/linux-x86_64",
    );
    assert_eq!(
        portable.not_writable("denied").message(),
        "portable data folder /portable is not writable: denied; extract or move UCI Grabber to a writable folder",
    );
    assert_eq!(
        system.not_writable("denied").message(),
        "application data folder /system is not writable: denied",
    );
    assert_eq!(system.copy(), system);
}

#[test]
fn components_and_relative_paths() {
    assert_eq!(single_path_component("engine"), Some("engine".into()));
    assert_eq!(single_path_component("a/b"), None);
    assert_eq!(single_path_component(".."), None);
    assert_eq!(single_path_component(""), None);
    assert_eq!(
        safe_relative_path(&place("a/b").parts, false),
        Some(vec!["a".to_owned(), "b".to_owned()]),
    );
    assert_eq!(safe_relative_path(&place("").parts, true), Some(Vec::new()));
    assert_eq!(safe_relative_path(&place("").parts, false), None);
    assert_eq!(safe_relative_path(&place("../a").parts, false), None);
}

#[test]
fn sources_have_names() {
    assert_eq!(InstallSource::Curated.label(), "Curated");
    assert_eq!(InstallSource::UnreviewedRecipe.label(), "Unreviewed");
}

#[test]
fn rejects_changed_same_version_import_and_preserves_original() {
    let store = CustomRecipeStore::new(place("/data/store"));
    let original = store.import(b"original", Ok(recipe("engine", "1.0.0"))).unwrap();
    let mut changed = original.clone();
    changed.description = "Different package description".into();
    assert_eq!(store.save(&original, b"original", Stored::Nothing).unwrap(), Keeping::Write);
    let stored = || Stored::Manifest {
        length: 8,
        parsed: Ok(recipe("engine", "1.0.0")),
        canonical: b"original".to_vec(),
    };
    assert_eq!(store.save(&original, b"original", stored()).unwrap(), Keeping::Present);
    assert_eq!(store.recipe_path(&original).shown, "/data/store/engine/1.0.0.json");
    let error = store.save(&changed, b"changed", stored()).unwrap_err();
    assert!(error.message().contains("immutable"));
    assert_eq!(store.load_all(vec![original.clone()]), vec![original]);
}

#[test]
fn stored_recipes_are_regular_valid_manifests() {
    let store = CustomRecipeStore::new(place("/data/store"));
    let wanted = recipe("engine", "1.0.0");
    assert_eq!(
        store.save(&wanted, b"x", Stored::NotRegular).unwrap_err().message(),
        "invalid recipe: custom recipe engine 1.0.0 is not a regular immutable manifest",
    );
    let broken = Stored::Manifest { length: 1, parsed: Err("no".into()), canonical: Vec::new() };
    assert!(store.save(&wanted, b"x", broken).is_err());
    let large = Stored::Manifest {
        length: 524_289,
        parsed: Ok(recipe("engine", "1.0.0")),
        canonical: b"x".to_vec(),
    };
    assert!(store.save(&wanted, b"x", large).is_err());
    assert_eq!(store.directory().shown, "/data/store");
    assert_eq!(store.recipe_directory(&wanted).shown, "/data/store/engine");
    assert!(same_bytes(b"ab", b"ab"));
    assert!(!same_bytes(b"ab", b"abc"));
}

#[test]
fn imported_recipes_are_sorted() {
    let store = CustomRecipeStore::new(place("/data/store"));
    let mut other = recipe("c", "1.0.0");
    other.name = "Another Engine".into();
    let sorted = store.load_all(vec![
        recipe("b", "1.0.0"),
        recipe("a", "2.0.0"),
        recipe("a", "1.0.0"),
        other,
    ]);
    let keys: Vec<(&str, &str)> =
        sorted.iter().map(|recipe| (recipe.id.as_str(), recipe.version.as_str())).collect();
    assert_eq!(
        keys,
        vec![("c", "1.0.0"), ("b", "1.0.0"), ("a", "1.0.0"), ("a", "2.0.0")],
    );
    assert_eq!(CustomRecipeStore::source_kind("https://example.test/a.json"), ImportSource::Address);
    assert_eq!(CustomRecipeStore::source_kind("a.json"), ImportSource::File);
}
