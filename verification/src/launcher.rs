//! The launcher of the Maia3 package: what it must find, and how it starts Python.

use vstd::prelude::*;
use crate::place::{normal_parts, texts_view, Place, PlaceView};
use crate::text::{join2, join3, join4, join5, same_text};

verus! {

/// What is found where a checkpoint may be.
#[derive(Clone, Debug, PartialEq, Eq)]
pub enum Checkpoint {
    Absent,
    Regular,
    /// Something that is not a regular file.
    Irregular,
    /// It could not be looked at, for this reason.
    Unreadable(String),
}

/// A [`Checkpoint`] with its text as a sequence of characters.
pub enum CheckpointView {
    Absent,
    Regular,
    Irregular,
    Unreadable(Seq<char>),
}

impl View for Checkpoint {
    type V = CheckpointView;

    open spec fn view(&self) -> CheckpointView {
        match *self {
            Checkpoint::Absent => CheckpointView::Absent,
            Checkpoint::Regular => CheckpointView::Regular,
            Checkpoint::Irregular => CheckpointView::Irregular,
            Checkpoint::Unreadable(reason) => CheckpointView::Unreadable(reason@),
        }
    }
}

/// The names of the three models.
pub open spec fn model_name(i: int) -> Seq<char> {
    if i == 0 {
        "maia3-5m"@
    } else if i == 1 {
        "maia3-23m"@
    } else {
        "maia3-79m"@
    }
}

/// The name of a model.
pub fn model_text(i: usize) -> (name: &'static str)
    ensures
        name@ == model_name(i as int),
{
    if i == 0 {
        "maia3-5m"
    } else if i == 1 {
        "maia3-23m"
    } else {
        "maia3-79m"
    }
}

/// The file of a model.
pub open spec fn checkpoint_place(models: PlaceView, i: int) -> PlaceView {
    models.below(seq![model_name(i) + ".pt"@])
}

/// The file of a model in the directory of the models.
pub fn checkpoint_path(models: &Place, i: usize) -> (place: Place)
    ensures
        place@ == checkpoint_place(models@, i as int),
{
    models.child(join2(model_text(i), ".pt").as_str())
}

/// The complaint about anything but one model.
pub open spec fn model_count_complaint() -> Seq<char> {
    "Maia3 launcher requires exactly one 5M, 23M, or 79M checkpoint"@
}

/// The model that is chosen, from position `i` on and given what was chosen before, or the
/// complaint.
pub open spec fn choose_model(
    models: PlaceView,
    found: Seq<CheckpointView>,
    i: int,
    chosen: Option<int>,
) -> Result<int, Seq<char>>
    decreases found.len() - i,
{
    if i >= found.len() {
        match chosen {
            Some(model) => Ok(model),
            None => Err(model_count_complaint()),
        }
    } else {
        match found[i] {
            CheckpointView::Absent => choose_model(models, found, i + 1, chosen),
            CheckpointView::Regular => if chosen is Some {
                Err(model_count_complaint())
            } else {
                choose_model(models, found, i + 1, Some(i))
            },
            CheckpointView::Irregular => Err(
                "Maia3 checkpoint is not a regular file: `"@ + checkpoint_place(models, i).shown
                    + "`"@,
            ),
            CheckpointView::Unreadable(reason) => Err(
                "could not inspect Maia3 checkpoint `"@ + checkpoint_place(models, i).shown
                    + "`: "@ + reason,
            ),
        }
    }
}

/// What was found of the checkpoints.
pub open spec fn checkpoints_view(found: Seq<Checkpoint>) -> Seq<CheckpointView> {
    found.map_values(|checkpoint: Checkpoint| checkpoint@)
}

/// Finds the one model that is there, by what was found of each of the three.
pub fn find_model(models: &Place, found: &Vec<Checkpoint>) -> (outcome: Result<
    &'static str,
    String,
>)
    requires
        found@.len() == 3,
    ensures
        match choose_model(models@, checkpoints_view(found@), 0, None) {
            Ok(model) => outcome matches Ok(name) && name@ == model_name(model),
            Err(complaint) => outcome matches Err(message) && message@ == complaint,
        },
{
    let ghost all = checkpoints_view(found@);
    let mut chosen: Option<usize> = None;
    for i in 0..found.len()
        invariant
            all == checkpoints_view(found@),
            choose_model(models@, all, 0, None) == choose_model(
                models@,
                all,
                i as int,
                match chosen {
                    Some(model) => Some(model as int),
                    None => None,
                },
            ),
    {
        assert(all[i as int] == found@[i as int]@);
        match &found[i] {
            Checkpoint::Absent => {},
            Checkpoint::Regular => {
                if chosen.is_some() {
                    return Err(
                        "Maia3 launcher requires exactly one 5M, 23M, or 79M checkpoint".to_owned(),
                    );
                }
                chosen = Some(i);
            },
            Checkpoint::Irregular => {
                return Err(
                    join3(
                        "Maia3 checkpoint is not a regular file: `",
                        checkpoint_path(models, i).shown.as_str(),
                        "`",
                    ),
                );
            },
            Checkpoint::Unreadable(reason) => {
                return Err(
                    join4(
                        "could not inspect Maia3 checkpoint `",
                        checkpoint_path(models, i).shown.as_str(),
                        "`: ",
                        reason.as_str(),
                    ),
                );
            },
        }
    }
    match chosen {
        Some(model) => Ok(model_text(model)),
        None => Err("Maia3 launcher requires exactly one 5M, 23M, or 79M checkpoint".to_owned()),
    }
}

/// A model is chosen if and only if it alone is there, as a regular file.
pub proof fn one_model_is_chosen(models: PlaceView, found: Seq<CheckpointView>, model: int)
    requires
        found.len() == 3,
    ensures
        choose_model(models, found, 0, None) == Ok::<int, Seq<char>>(model) <==> {
            &&& 0 <= model < 3
            &&& found[model] is Regular
            &&& forall|i: int| 0 <= i < 3 && i != model ==> (#[trigger] found[i]) is Absent
        },
{
    reveal_with_fuel(choose_model, 4);
    let first = found[0];
    let second = found[1];
    let third = found[2];
}

/// Where a launcher and its package are, by where its executable is.
pub open spec fn layout(executable: PlaceView) -> Result<(PlaceView, PlaceView), Seq<char>> {
    match executable.parent() {
        None => Err("the Maia3 launcher has no parent directory"@),
        Some(launcher) => if launcher.file_name() != Some("launcher"@) {
            Err("the Maia3 launcher must be installed in the `launcher` directory"@)
        } else {
            match launcher.parent() {
                None => Err("the Maia3 launcher directory has no install root"@),
                Some(root) => Ok((launcher, root)),
            }
        },
    }
}

/// The directory of a launcher and that of its package.
pub fn installation_layout(executable: &Place) -> (outcome: Result<(Place, Place), String>)
    ensures
        match layout(executable@) {
            Ok((launcher, root)) => outcome matches Ok(found) && found.0@ == launcher && found.1@
                == root,
            Err(complaint) => outcome matches Err(message) && message@ == complaint,
        },
{
    let launcher = match executable.parent() {
        Some(launcher) => launcher,
        None => {
            return Err("the Maia3 launcher has no parent directory".to_owned());
        },
    };
    let named = match launcher.file_name() {
        Some(name) => same_text(name.as_str(), "launcher"),
        None => false,
    };
    if !named {
        return Err(
            "the Maia3 launcher must be installed in the `launcher` directory".to_owned(),
        );
    }
    match launcher.parent() {
        Some(root) => Ok((launcher, root)),
        None => Err("the Maia3 launcher directory has no install root".to_owned()),
    }
}

/// Where Python is in a package.
pub open spec fn python_place(root: PlaceView, windows: bool) -> PlaceView {
    if windows {
        root.below(seq!["python-runtime"@, "python"@, "python.exe"@])
    } else {
        root.below(seq!["python-runtime"@, "python"@, "bin"@, "python3.12"@])
    }
}

/// Where Python is in a package.
pub fn python_path(root: &Place, windows: bool) -> (place: Place)
    ensures
        place@ == python_place(root@, windows),
{
    let mut names: Vec<String> = Vec::new();
    names.push("python-runtime".to_owned());
    names.push("python".to_owned());
    if windows {
        names.push("python.exe".to_owned());
        assert(texts_view(names@) =~= seq!["python-runtime"@, "python"@, "python.exe"@]);
    } else {
        names.push("bin".to_owned());
        names.push("python3.12".to_owned());
        assert(texts_view(names@) =~= seq!["python-runtime"@, "python"@, "bin"@, "python3.12"@]);
    }
    root.below(&names)
}

/// Checks that a launcher was started without arguments.
pub fn check_arguments(count: usize) -> (outcome: Result<(), String>)
    ensures
        outcome is Ok <==> count == 1,
        outcome matches Err(message) ==> message@
            == "the packaged Maia3 launcher does not accept arguments"@,
{
    if count == 1 {
        Ok(())
    } else {
        Err("the packaged Maia3 launcher does not accept arguments".to_owned())
    }
}

/// The complaint about a file that must be there, by what is found.
pub open spec fn file_complaint(
    place: PlaceView,
    description: Seq<char>,
    found: Result<bool, Seq<char>>,
) -> Option<Seq<char>> {
    match found {
        Err(reason) => Some(description + " is unavailable at `"@ + place.shown + "`: "@ + reason),
        Ok(true) => None,
        Ok(false) => Some(description + " is not a regular file: `"@ + place.shown + "`"@),
    }
}

/// Whether a look at something came to the same.
pub open spec fn found_view(found: Result<bool, String>) -> Result<bool, Seq<char>> {
    match found {
        Ok(answer) => Ok(answer),
        Err(reason) => Err(reason@),
    }
}

/// Checks a file that must be there, by whether it was found to be a regular file.
pub fn regular_file(place: &Place, description: &str, found: &Result<bool, String>) -> (outcome:
    Result<(), String>)
    ensures
        match file_complaint(place@, description@, found_view(*found)) {
            None => outcome is Ok,
            Some(complaint) => outcome matches Err(message) && message@ == complaint,
        },
{
    match found {
        Err(reason) => Err(
            join5(
                description,
                " is unavailable at `",
                place.shown.as_str(),
                "`: ",
                reason.as_str(),
            ),
        ),
        Ok(regular) => if *regular {
            Ok(())
        } else {
            Err(join4(description, " is not a regular file: `", place.shown.as_str(), "`"))
        },
    }
}

/// Checks the directory of the models, by whether it was found to be a directory.
pub fn models_directory(place: &Place, found: &Result<bool, String>) -> (outcome: Result<
    (),
    String,
>)
    ensures
        match found_view(*found) {
            Ok(true) => outcome is Ok,
            Ok(false) => outcome matches Err(message) && message@
                == "Maia3 models path is not a directory: `"@ + place@.shown + "`"@,
            Err(reason) => outcome matches Err(message) && message@
                == "Maia3 models directory is unavailable at `"@ + place@.shown + "`: "@ + reason,
        },
{
    match found {
        Err(reason) => Err(
            join4(
                "Maia3 models directory is unavailable at `",
                place.shown.as_str(),
                "`: ",
                reason.as_str(),
            ),
        ),
        Ok(directory) => if *directory {
            Ok(())
        } else {
            Err(join3("Maia3 models path is not a directory: `", place.shown.as_str(), "`"))
        },
    }
}

/// How Python is started.
#[derive(Debug, PartialEq, Eq)]
pub struct LaunchPlan {
    pub program: Place,
    pub arguments: Vec<String>,
    /// The variables that are set, each name before its value.
    pub environment: Vec<String>,
    /// The variables that are taken away.
    pub removed: Vec<String>,
}

/// The arguments of Python.
pub open spec fn launch_arguments(entry_point: PlaceView) -> Seq<Seq<char>> {
    seq!["-I"@, "-B"@, "-u"@, entry_point.shown]
}

/// The variables that are set for Python, each name before its value.
pub open spec fn launch_environment(model: Seq<char>, root: PlaceView) -> Seq<Seq<char>> {
    seq![
        "UCI_GRABBER_MODEL"@,
        model,
        "UCI_GRABBER_INSTALL_ROOT"@,
        root.shown,
        "HF_HUB_OFFLINE"@,
        "1"@,
        "HF_HUB_DISABLE_TELEMETRY"@,
        "1"@,
        "TRANSFORMERS_OFFLINE"@,
        "1"@,
        "PYTHONDONTWRITEBYTECODE"@,
        "1"@,
        "PYTHONNOUSERSITE"@,
        "1"@,
        "PIP_NO_INDEX"@,
        "1"@,
        "CUDA_VISIBLE_DEVICES"@,
        ""@,
    ]
}

/// Plans how Python is started for a model: isolated, offline and on the processor alone.
pub fn run(launcher: &Place, root: &Place, model: &str, windows: bool) -> (plan: LaunchPlan)
    ensures
        plan.program@ == python_place(root@, windows),
        texts_view(plan.arguments@) == launch_arguments(
            launcher@.below(seq!["maia3_entry.py"@]),
        ),
        texts_view(plan.environment@) == launch_environment(model@, root@),
        texts_view(plan.removed@) == seq!["PYTHONHOME"@, "PYTHONPATH"@],
{
    let entry_point = launcher.child("maia3_entry.py");
    let mut arguments: Vec<String> = Vec::new();
    arguments.push("-I".to_owned());
    arguments.push("-B".to_owned());
    arguments.push("-u".to_owned());
    arguments.push(entry_point.shown.clone());
    assert(texts_view(arguments@) =~= launch_arguments(entry_point@));
    let mut environment: Vec<String> = Vec::new();
    environment.push("UCI_GRABBER_MODEL".to_owned());
    environment.push(model.to_owned());
    environment.push("UCI_GRABBER_INSTALL_ROOT".to_owned());
    environment.push(root.shown.clone());
    environment.push("HF_HUB_OFFLINE".to_owned());
    environment.push("1".to_owned());
    environment.push("HF_HUB_DISABLE_TELEMETRY".to_owned());
    environment.push("1".to_owned());
    environment.push("TRANSFORMERS_OFFLINE".to_owned());
    environment.push("1".to_owned());
    environment.push("PYTHONDONTWRITEBYTECODE".to_owned());
    environment.push("1".to_owned());
    environment.push("PYTHONNOUSERSITE".to_owned());
    environment.push("1".to_owned());
    environment.push("PIP_NO_INDEX".to_owned());
    environment.push("1".to_owned());
    environment.push("CUDA_VISIBLE_DEVICES".to_owned());
    environment.push("".to_owned());
    assert(texts_view(environment@) =~= launch_environment(model@, root@));
    let mut removed: Vec<String> = Vec::new();
    removed.push("PYTHONHOME".to_owned());
    removed.push("PYTHONPATH".to_owned());
    assert(texts_view(removed@) =~= seq!["PYTHONHOME"@, "PYTHONPATH"@]);
    LaunchPlan { program: python_path(root, windows), arguments, environment, removed }
}

/// The checkpoint of each of the three models lies in the directory of the models, by its name.
pub proof fn checkpoints_are_named_after_their_model(models: PlaceView, i: int)
    requires
        0 <= i < 3,
    ensures
        model_name(i) == if i == 0 {
            "maia3-5m"@
        } else if i == 1 {
            "maia3-23m"@
        } else {
            "maia3-79m"@
        },
        checkpoint_place(models, i).parts == models.parts.push(
            crate::place::PartView::Normal(model_name(i) + seq!['.', 'p', 't']),
        ),
{
    reveal_strlit(".pt");
    assert(".pt"@ =~= seq!['.', 'p', 't']);
    assert(checkpoint_place(models, i).parts =~= models.parts.push(
        crate::place::PartView::Normal(model_name(i) + ".pt"@),
    ));
}

/// The launcher lies in a directory `launcher` of its package, and is taken for one nowhere else.
pub proof fn launchers_lie_in_their_directory(
    executable: PlaceView,
    root: Seq<crate::place::PartView>,
    directory: Seq<char>,
    name: Seq<char>,
)
    requires
        executable.parts == root + seq![
            crate::place::PartView::Normal(directory),
            crate::place::PartView::Normal(name),
        ],
    ensures
        directory == "launcher"@ ==> (layout(executable) matches Ok((launcher, package))
            && package.parts == root && launcher.parts == root.push(
            crate::place::PartView::Normal(directory),
        )),
        directory != "launcher"@ ==> layout(executable) is Err,
{
    let parts = executable.parts;
    assert(parts.last() == crate::place::PartView::Normal(name));
    assert(parts.drop_last() =~= root.push(crate::place::PartView::Normal(directory)));
    assert(parts.drop_last().drop_last() =~= root);
}

/// Python lies in the package, at the place that the system asks for.
pub proof fn python_lies_in_the_package(root: PlaceView, windows: bool)
    ensures
        python_place(root, windows).parts == root.parts + normal_parts(
            if windows {
                seq!["python-runtime"@, "python"@, "python.exe"@]
            } else {
                seq!["python-runtime"@, "python"@, "bin"@, "python3.12"@]
            },
        ),
{
}

/// A file is fine if and only if it could be looked at and is a regular one.
pub proof fn only_regular_files_are_fine(
    place: PlaceView,
    description: Seq<char>,
    found: Result<bool, Seq<char>>,
)
    ensures
        file_complaint(place, description, found) is None <==> found == Ok::<bool, Seq<char>>(true),
{
}

/// Python is started isolated, without writing bytecode and without buffers, on the entry point,
/// with the model and the package that it is for, offline, and without a graphics card.
pub proof fn models_run_offline(model: Seq<char>, root: PlaceView, entry_point: PlaceView)
    ensures
        launch_arguments(entry_point).len() == 4,
        launch_arguments(entry_point)[0] == "-I"@,
        launch_arguments(entry_point)[1] == "-B"@,
        launch_arguments(entry_point)[2] == "-u"@,
        launch_arguments(entry_point)[3] == entry_point.shown,
        ({
            let set = launch_environment(model, root);
            &&& set.len() == 18
            &&& set[0] == "UCI_GRABBER_MODEL"@ && set[1] == model
            &&& set[2] == "UCI_GRABBER_INSTALL_ROOT"@ && set[3] == root.shown
            &&& set[4] == "HF_HUB_OFFLINE"@ && set[5] == "1"@
            &&& set[6] == "HF_HUB_DISABLE_TELEMETRY"@ && set[7] == "1"@
            &&& set[8] == "TRANSFORMERS_OFFLINE"@ && set[9] == "1"@
            &&& set[10] == "PYTHONDONTWRITEBYTECODE"@ && set[11] == "1"@
            &&& set[12] == "PYTHONNOUSERSITE"@ && set[13] == "1"@
            &&& set[14] == "PIP_NO_INDEX"@ && set[15] == "1"@
            &&& set[16] == "CUDA_VISIBLE_DEVICES"@ && set[17] == ""@
        }),
{
}

} // verus!
