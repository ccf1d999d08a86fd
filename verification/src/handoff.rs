//! Handing an engine over to FishEye.

use vstd::prelude::*;
use crate::error::{fails_with, Error, ErrorView};
use crate::place::{texts_view, Place, PlaceView};
use crate::text::{join2, join4};

verus! {

/// The operating systems that differ in how programs are named and files are shown.
#[derive(Clone, Copy, Debug, PartialEq, Eq, Structural)]
pub enum System {
    Windows,
    MacOs,
    Other,
}

/// A place where FishEye may be, and whether a file is there.
pub struct Candidate {
    pub place: Place,
    pub is_file: bool,
}

/// The name of FishEye's executable.
pub open spec fn fisheye_name(system: System) -> Seq<char> {
    match system {
        System::Windows => "fisheye.exe"@,
        _ => "fisheye"@,
    }
}

/// The name of FishEye's executable.
pub fn executable_name(system: System) -> (name: &'static str)
    ensures
        name@ == fisheye_name(system),
{
    match system {
        System::Windows => "fisheye.exe",
        _ => "fisheye",
    }
}

/// The places of a list.
pub open spec fn places_view(places: Seq<Place>) -> Seq<PlaceView> {
    places.map_values(|place: Place| place@)
}

/// A place that may be there as a list.
pub open spec fn one_place(place: Option<PlaceView>) -> Seq<PlaceView> {
    match place {
        Some(place) => seq![place],
        None => Seq::empty(),
    }
}

/// The place that may be there.
pub open spec fn optional_place(place: Option<Place>) -> Option<PlaceView> {
    match place {
        Some(place) => Some(place@),
        None => None,
    }
}

/// FishEye beside an executable.
pub open spec fn beside(executable: Option<PlaceView>, system: System) -> Option<PlaceView> {
    match executable {
        None => None,
        Some(executable) => match executable.parent() {
            None => None,
            Some(directory) => Some(directory.below(seq![fisheye_name(system)])),
        },
    }
}

/// Where FishEye is looked for, in this order: where a variable says, beside the application, and
/// in the directories of the search path.
pub open spec fn fisheye_places(
    variable: Option<PlaceView>,
    application: Option<PlaceView>,
    search: Seq<PlaceView>,
    system: System,
) -> Seq<PlaceView> {
    one_place(variable) + one_place(beside(application, system)) + search.map_values(
        |directory: PlaceView| directory.below(seq![fisheye_name(system)]),
    )
}

/// Where FishEye is looked for.
pub fn candidate_places(
    variable: Option<Place>,
    application: &Option<Place>,
    search: &Vec<Place>,
    system: System,
) -> (places: Vec<Place>)
    ensures
        places_view(places@) == fisheye_places(
            optional_place(variable),
            optional_place(*application),
            places_view(search@),
            system,
        ),
{
    let ghost first = one_place(optional_place(variable));
    let ghost second = one_place(beside(optional_place(*application), system));
    let mut places: Vec<Place> = Vec::new();
    match variable {
        Some(place) => {
            places.push(place);
        },
        None => {},
    }
    assert(places_view(places@) =~= first);
    match application {
        Some(executable) => match executable.parent() {
            Some(directory) => {
                places.push(directory.child(executable_name(system)));
            },
            None => {},
        },
        None => {},
    }
    assert(places_view(places@) =~= first + second);
    let ghost named = places_view(search@).map_values(
        |directory: PlaceView| directory.below(seq![fisheye_name(system)]),
    );
    let ghost start = places_view(places@);
    assert(start + named.take(0) =~= start);
    for i in 0..search.len()
        invariant
            named == places_view(search@).map_values(
                |directory: PlaceView| directory.below(seq![fisheye_name(system)]),
            ),
            places_view(places@) == start + named.take(i as int),
    {
        let place = search[i].child(executable_name(system));
        let ghost before = places@;
        places.push(place);
        proof {
            assert(named[i as int] == place@);
            assert(places_view(places@) =~= places_view(before).push(place@));
            assert(named.take(i + 1) =~= named.take(i as int).push(place@));
            assert(places_view(places@) =~= start + named.take(i + 1));
        }
    }
    assert(named.take(search@.len() as int) =~= named);
    places
}

/// The first position from `i` on at which there is a file, or the number of candidates.
pub open spec fn first_file(candidates: Seq<Candidate>, i: int) -> int
    decreases candidates.len() - i,
{
    if i >= candidates.len() {
        candidates.len() as int
    } else if candidates[i].is_file {
        i
    } else {
        first_file(candidates, i + 1)
    }
}

/// Finds FishEye: where the user says, and nowhere else; or in the first of the places where it is
/// looked for.
pub fn find_fisheye(explicit: &Option<Candidate>, candidates: &Vec<Candidate>) -> (outcome: Result<
    Place,
    Error,
>)
    ensures
        match *explicit {
            Some(candidate) => if candidate.is_file {
                outcome matches Ok(place) && place@ == candidate.place@
            } else {
                fails_with(
                    outcome,
                    ErrorView::Other(
                        "FishEye executable was not found at "@ + candidate.place@.shown,
                    ),
                )
            },
            None => if first_file(candidates@, 0) < candidates@.len() {
                outcome matches Ok(place) && place@ == candidates@[first_file(
                    candidates@,
                    0,
                )].place@
            } else {
                fails_with(
                    outcome,
                    ErrorView::Other(
                        "FishEye was not found; use --fisheye, set FISHEYE_PATH, or copy the engine path"@,
                    ),
                )
            },
        },
{
    match explicit {
        Some(candidate) => {
            return if candidate.is_file {
                Ok(candidate.place.copy())
            } else {
                Err(
                    Error::Other(
                        join2(
                            "FishEye executable was not found at ",
                            candidate.place.shown.as_str(),
                        ),
                    ),
                )
            };
        },
        None => {},
    }
    for i in 0..candidates.len()
        invariant
            explicit is None,
            first_file(candidates@, 0) == first_file(candidates@, i as int),
    {
        if candidates[i].is_file {
            return Ok(candidates[i].place.copy());
        }
    }
    Err(
        Error::Other(
            "FishEye was not found; use --fisheye, set FISHEYE_PATH, or copy the engine path".to_owned(),
        ),
    )
}

/// The arguments with which FishEye is started for an engine, which must be there.
pub fn open_in_fisheye(engine: &Place, is_file: bool) -> (outcome: Result<Vec<String>, Error>)
    ensures
        if is_file {
            outcome matches Ok(arguments) && texts_view(arguments@) == seq![
                "gui"@,
                "--add-external-engine"@,
                engine@.shown,
            ]
        } else {
            fails_with(outcome, ErrorView::MissingInstall(engine@.shown))
        },
{
    if !is_file {
        return Err(Error::MissingInstall(engine.shown.clone()));
    }
    let mut arguments: Vec<String> = Vec::new();
    arguments.push("gui".to_owned());
    arguments.push("--add-external-engine".to_owned());
    arguments.push(engine.shown.clone());
    assert(texts_view(arguments@) =~= seq![
        "gui"@,
        "--add-external-engine"@,
        engine@.shown,
    ]);
    Ok(arguments)
}

/// The error of a FishEye that could not be started.
pub fn launch_error(fisheye: &Place, source: &str) -> (error: Error)
    ensures
        error@ == ErrorView::Other(
            "could not launch FishEye at "@ + fisheye@.shown + ": "@ + source@,
        ),
{
    Error::Other(join4("could not launch FishEye at ", fisheye.shown.as_str(), ": ", source))
}

/// The program that shows a path, and its arguments.
pub open spec fn revealer(path: PlaceView, system: System) -> Seq<Seq<char>> {
    match system {
        System::Windows => seq!["explorer.exe"@, "/select,"@, path.shown],
        System::MacOs => seq!["open"@, "-R"@, path.shown],
        System::Other => seq![
            "xdg-open"@,
            match path.parent() {
                Some(parent) => parent.shown,
                None => path.shown,
            },
        ],
    }
}

/// The program that shows a path, which must be there, and its arguments.
pub fn reveal_path(path: &Place, is_there: bool, system: System) -> (outcome: Result<Vec<String>, Error>)
    ensures
        if is_there {
            outcome matches Ok(command) && texts_view(command@) == revealer(path@, system)
        } else {
            fails_with(outcome, ErrorView::MissingInstall(path@.shown))
        },
{
    if !is_there {
        return Err(Error::MissingInstall(path.shown.clone()));
    }
    let mut command: Vec<String> = Vec::new();
    match system {
        System::Windows => {
            command.push("explorer.exe".to_owned());
            command.push("/select,".to_owned());
            command.push(path.shown.clone());
        },
        System::MacOs => {
            command.push("open".to_owned());
            command.push("-R".to_owned());
            command.push(path.shown.clone());
        },
        System::Other => {
            command.push("xdg-open".to_owned());
            command.push(
                match path.parent() {
                    Some(parent) => parent.shown,
                    None => path.shown.clone(),
                },
            );
        },
    }
    assert(texts_view(command@) =~= revealer(path@, system));
    Ok(command)
}

/// The error of a path that could not be shown.
pub fn reveal_error(path: &Place, source: &str) -> (error: Error)
    ensures
        error@ == ErrorView::Other("could not reveal "@ + path@.shown + ": "@ + source@),
{
    Error::Other(join4("could not reveal ", path.shown.as_str(), ": ", source))
}

proof fn lemma_first_file(candidates: Seq<Candidate>, from: int)
    requires
        0 <= from <= candidates.len(),
    ensures
        ({
            let at = first_file(candidates, from);
            &&& from <= at <= candidates.len()
            &&& at < candidates.len() ==> candidates[at].is_file
            &&& forall|i: int| from <= i < at ==> !(#[trigger] candidates[i]).is_file
        }),
    decreases candidates.len() - from,
{
    if from < candidates.len() && !candidates[from].is_file {
        lemma_first_file(candidates, from + 1);
    }
}

/// FishEye is the first of the places where it is looked for at which there is a file.
pub proof fn the_first_file_is_taken(candidates: Seq<Candidate>)
    ensures
        ({
            let at = first_file(candidates, 0);
            &&& 0 <= at <= candidates.len()
            &&& at < candidates.len() ==> candidates[at].is_file
            &&& forall|i: int| 0 <= i < at ==> !(#[trigger] candidates[i]).is_file
        }),
{
    lemma_first_file(candidates, 0);
}

/// FishEye is looked for where the variable says, then beside the application, then in the
/// directories of the search path in their order, under the name that it has on the system.
pub proof fn fisheye_is_looked_for_in_this_order(
    variable: PlaceView,
    application: PlaceView,
    directory: PlaceView,
    search: Seq<PlaceView>,
    system: System,
    i: int,
)
    requires
        application.parent() == Some(directory),
        0 <= i < search.len(),
    ensures
        fisheye_name(System::Windows) == "fisheye.exe"@,
        system != System::Windows ==> fisheye_name(system) == "fisheye"@,
        ({
            let places = fisheye_places(Some(variable), Some(application), search, system);
            &&& places.len() == 2 + search.len()
            &&& places[0] == variable
            &&& places[1] == directory.below(seq![fisheye_name(system)])
            &&& places[2 + i] == search[i].below(seq![fisheye_name(system)])
        }),
        fisheye_places(None, None, search, system).len() == search.len(),
        fisheye_places(None, None, search, system)[i] == search[i].below(
            seq![fisheye_name(system)],
        ),
        fisheye_places(Some(variable), None, search, system)[0] == variable,
        fisheye_places(None, Some(application), search, system)[0] == directory.below(
            seq![fisheye_name(system)],
        ),
{
}

/// A path is shown by the program of the system: the path itself where the program can select it,
/// and the directory that holds it elsewhere.
pub proof fn paths_are_shown_by_their_system(path: PlaceView, parent: PlaceView)
    requires
        path.parent() == Some(parent),
    ensures
        revealer(path, System::Windows) == seq!["explorer.exe"@, "/select,"@, path.shown],
        revealer(path, System::MacOs) == seq!["open"@, "-R"@, path.shown],
        revealer(path, System::Other) == seq!["xdg-open"@, parent.shown],
{
}

} // verus!
