//! The launcher of the Maia3 package, and handing engines over to FishEye.

use uci_grabber::error::Error;
use uci_grabber::handoff::{
    candidate_places, executable_name, find_fisheye, launch_error, open_in_fisheye, reveal_error,
    reveal_path, Candidate, System,
};
use uci_grabber::launcher::{
    check_arguments, checkpoint_path, find_model, installation_layout, models_directory,
    python_path, regular_file, run, Checkpoint,
};
use uci_grabber::place::Place;

fn place(text: &str) -> Place {
    Place::read(text, '/')
}

fn candidate(text: &str, is_file: bool) -> Candidate {
    Candidate { place: place(text), is_file }
}

#[test]
fn selects_exactly_one_regular_checkpoint() {
    let models = place("/package/launcher/models");
    let found = vec![Checkpoint::Absent, Checkpoint::Regular, Checkpoint::Absent];
    assert_eq!(find_model(&models, &found).unwrap(), "maia3-23m");
    assert_eq!(checkpoint_path(&models, 1).shown, "/package/launcher/models/maia3-23m.pt");
}

#[test]
fn rejects_zero_or_multiple_checkpoints() {
    let models = place("/package/launcher/models");
    let none = vec![Checkpoint::Absent, Checkpoint::Absent, Checkpoint::Absent];
    assert!(find_model(&models, &none).is_err());
    let two = vec![Checkpoint::Regular, Checkpoint::Absent, Checkpoint::Regular];
    assert!(find_model(&models, &two).is_err());
}

#[test]
fn derives_install_root_only_from_exact_launcher_directory() {
    let executable = place("package/launcher/maia3-launcher");
    let (launcher, root) = installation_layout(&executable).unwrap();
    assert!(launcher.same(&place("package/launcher")));
    assert!(root.same(&place("package")));
    assert!(installation_layout(&place("package/maia3-launcher")).is_err());
    assert!(installation_layout(&place("maia3-launcher")).is_err());
}

#[test]
fn rejects_checkpoint_symlinks() {
    let models = place("/package/launcher/models");
    let link = vec![Checkpoint::Irregular, Checkpoint::Absent, Checkpoint::Absent];
    assert_eq!(
        find_model(&models, &link).unwrap_err(),
        "Maia3 checkpoint is not a regular file: `/package/launcher/models/maia3-5m.pt`",
    );
    let unreadable = vec![
        Checkpoint::Absent,
        Checkpoint::Absent,
        Checkpoint::Unreadable("permission denied".into()),
    ];
    assert_eq!(
        find_model(&models, &unreadable).unwrap_err(),
        "could not inspect Maia3 checkpoint `/package/launcher/models/maia3-79m.pt`: permission denied",
    );
}

#[test]
fn launchers_run_the_packaged_python_offline() {
    let launcher = place("/package/launcher");
    let root = place("/package");
    let plan = run(&launcher, &root, "maia3-5m", false);
    assert_eq!(plan.program.shown, "/package/python-runtime/python/bin/python3.12");
    assert_eq!(
        plan.arguments,
        vec!["-I", "-B", "-u", "/package/launcher/maia3_entry.py"],
    );
    assert_eq!(plan.environment[0..4], ["UCI_GRABBER_MODEL", "maia3-5m", "UCI_GRABBER_INSTALL_ROOT", "/package"]);
    assert_eq!(plan.environment.len(), 18);
    assert_eq!(plan.removed, vec!["PYTHONHOME", "PYTHONPATH"]);
    assert_eq!(
        python_path(&root, true).shown,
        "/package/python-runtime/python/python.exe",
    );
}

#[test]
fn launchers_check_what_they_need() {
    assert!(check_arguments(1).is_ok());
    assert_eq!(
        check_arguments(2).unwrap_err(),
        "the packaged Maia3 launcher does not accept arguments",
    );
    let python = place("/package/python");
    assert!(regular_file(&python, "packaged Python", &Ok(true)).is_ok());
    assert_eq!(
        regular_file(&python, "packaged Python", &Ok(false)).unwrap_err(),
        "packaged Python is not a regular file: `/package/python`",
    );
    assert_eq!(
        regular_file(&python, "packaged Python", &Err("gone".into())).unwrap_err(),
        "packaged Python is unavailable at `/package/python`: gone",
    );
    assert!(models_directory(&python, &Ok(true)).is_ok());
    assert!(models_directory(&python, &Ok(false)).is_err());
    assert!(models_directory(&python, &Err("gone".into())).is_err());
}

#[test]
fn explicit_missing_fisheye_is_rejected() {
    let explicit = Some(candidate("/definitely/missing/fisheye", false));
    assert!(find_fisheye(&explicit, &Vec::new()).is_err());
    assert!(find_fisheye(&explicit, &vec![candidate("/usr/bin/fisheye", true)]).is_err());
}

#[test]
fn handoff_uses_exact_fisheye_cli_contract() {
    let engine = place("/tmp/engine with spaces");
    let arguments = open_in_fisheye(&engine, true).unwrap();
    assert_eq!(
        format!("{}\n", arguments.join("\n")),
        format!("gui\n--add-external-engine\n{}\n", engine.shown),
    );
    assert_eq!(
        open_in_fisheye(&engine, false).unwrap_err(),
        Error::MissingInstall("/tmp/engine with spaces".into()),
    );
}

#[test]
fn the_first_fisheye_that_is_there_is_taken() {
    let candidates = vec![candidate("/a/fisheye", false), candidate("/b/fisheye", true), candidate("/c/fisheye", true)];
    assert_eq!(find_fisheye(&None, &candidates).unwrap().shown, "/b/fisheye");
    assert_eq!(
        find_fisheye(&None, &Vec::new()).unwrap_err().message(),
        "FishEye was not found; use --fisheye, set FISHEYE_PATH, or copy the engine path",
    );
    let explicit = Some(candidate("/d/fisheye", true));
    assert_eq!(find_fisheye(&explicit, &candidates).unwrap().shown, "/d/fisheye");
}

#[test]
fn fisheye_is_looked_for_in_turn() {
    let places = candidate_places(
        Some(place("/variable/fisheye")),
        &Some(place("/app/uci-grabber")),
        &vec![place("/bin"), place("/usr/bin")],
        System::Other,
    );
    let shown: Vec<String> = places.into_iter().map(|place| place.shown).collect();
    assert_eq!(
        shown,
        vec!["/variable/fisheye", "/app/fisheye", "/bin/fisheye", "/usr/bin/fisheye"],
    );
    assert_eq!(executable_name(System::Windows), "fisheye.exe");
    assert_eq!(executable_name(System::MacOs), "fisheye");
}

#[test]
fn folders_are_shown_by_the_system() {
    let engine = place("/data/engine");
    assert_eq!(
        reveal_path(&engine, true, System::Windows).unwrap(),
        vec!["explorer.exe", "/select,", "/data/engine"],
    );
    assert_eq!(
        reveal_path(&engine, true, System::MacOs).unwrap(),
        vec!["open", "-R", "/data/engine"],
    );
    assert_eq!(reveal_path(&engine, true, System::Other).unwrap(), vec!["xdg-open", "/data"]);
    assert_eq!(
        reveal_path(&engine, false, System::Other).unwrap_err(),
        Error::MissingInstall("/data/engine".into()),
    );
    assert_eq!(
        reveal_error(&engine, "denied").message(),
        "could not reveal /data/engine: denied",
    );
    assert_eq!(
        launch_error(&engine, "denied").message(),
        "could not launch FishEye at /data/engine: denied",
    );
}
