//! The command line: which recipe a command is about, and what is printed.

use vstd::prelude::*;
use crate::app::ending;
use crate::error::{fails_with, settles, Error, ErrorView};
use crate::install::RecoveryReport;
use crate::registry::{
    InstallRecord, InstallSource, Integrity, IntegrityView, Registry, RegistryStore,
};
use crate::schema::{Model, Recipe};
use crate::text::{decimal, decimal_text, join2, join3, join4, join5, same_text};
use crate::web::optional;

verus! {

/// Whether the application may start: a directory for its data is only for commands.
pub fn check_launch(has_command: bool, has_data_directory: bool) -> (outcome: Result<(), Error>)
    ensures
        settles(
            outcome,
            if !has_command && has_data_directory {
                Some(
                    ErrorView::Other(
                        "--data-dir requires a CLI subcommand and is not silently applied to the GUI"@,
                    ),
                )
            } else {
                None
            },
        ),
{
    if !has_command && has_data_directory {
        return Err(
            Error::Other(
                "--data-dir requires a CLI subcommand and is not silently applied to the GUI".to_owned(),
            ),
        );
    }
    Ok(())
}

/// The first recipe of an identifier, from a position on; the number of recipes where there is
/// none.
pub open spec fn recipe_at(recipes: Seq<Recipe>, id: Seq<char>, i: int) -> int
    decreases recipes.len() - i,
{
    if i >= recipes.len() {
        recipes.len() as int
    } else if recipes[i].id@ == id {
        i
    } else {
        recipe_at(recipes, id, i + 1)
    }
}

/// Whether a recipe has an identifier and, where one is given, a version.
pub open spec fn is_asked_for(id: Seq<char>, version: Option<Seq<char>>) -> spec_fn(Recipe) -> bool {
    |recipe: Recipe|
        recipe.id@ == id && match version {
            Some(version) => recipe.version@ == version,
            None => true,
        }
}

/// The recipe that a command is about.
pub open spec fn selected(
    curated: Seq<Recipe>,
    custom: Result<Seq<Recipe>, ErrorView>,
    id: Seq<char>,
    version: Option<Seq<char>>,
) -> Result<(Recipe, InstallSource), ErrorView> {
    let at = recipe_at(curated, id, 0);
    if at < curated.len() {
        Ok((curated[at], InstallSource::Curated))
    } else {
        match custom {
            Err(error) => Err(error),
            Ok(recipes) => {
                let found = recipes.filter(is_asked_for(id, version));
                if found.len() > 1 {
                    Err(
                        ErrorView::InvalidRecipe(
                            "multiple versions of `"@ + id
                                + "` are imported; select one with --version"@,
                        ),
                    )
                } else if found.len() == 0 {
                    Err(ErrorView::InvalidRecipe("unknown recipe `"@ + id + "`"@))
                } else {
                    Ok((found[0], InstallSource::UnreviewedRecipe))
                }
            },
        }
    }
}

fn find_recipe(recipes: &Vec<Recipe>, id: &str) -> (at: usize)
    ensures
        at == recipe_at(recipes@, id@, 0),
        at <= recipes@.len(),
{
    let mut i: usize = 0;
    while i < recipes.len()
        invariant
            0 <= i <= recipes@.len(),
            recipe_at(recipes@, id@, 0) == recipe_at(recipes@, id@, i as int),
        decreases recipes@.len() - i,
    {
        if same_text(recipes[i].id.as_str(), id) {
            return i;
        }
        i += 1;
    }
    i
}

/// The positions of the recipes that are asked for: how many there are, and the last.
fn count_asked_for(recipes: &Vec<Recipe>, id: &str, version: &Option<String>) -> (found: (usize, usize))
    ensures
        ({
            let asked = recipes@.filter(is_asked_for(id@, optional(*version)));
            &&& found.0 == asked.len()
            &&& found.0 > 0 ==> found.1 < recipes@.len() && recipes@[found.1 as int]
                == asked.last()
        }),
{
    let ghost asked_for = is_asked_for(id@, optional(*version));
    let mut count: usize = 0;
    let mut last: usize = 0;
    assert(recipes@.take(0).filter(asked_for).len() == 0) by {
        reveal(Seq::filter);
    }
    for i in 0..recipes.len()
        invariant
            asked_for == is_asked_for(id@, optional(*version)),
            count <= i,
            count == recipes@.take(i as int).filter(asked_for).len(),
            count > 0 ==> last < i && recipes@[last as int] == recipes@.take(i as int).filter(
                asked_for,
            ).last(),
    {
        let same_version = match version {
            Some(version) => same_text(recipes[i].version.as_str(), version.as_str()),
            None => true,
        };
        proof {
            reveal(Seq::filter);
            assert(recipes@.take(i + 1).drop_last() =~= recipes@.take(i as int));
            assert(recipes@.take(i + 1).last() == recipes@[i as int]);
        }
        if same_version && same_text(recipes[i].id.as_str(), id) {
            count += 1;
            last = i;
        }
    }
    assert(recipes@.take(recipes@.len() as int) =~= recipes@);
    (count, last)
}

/// What was loaded, or why it could not be.
pub open spec fn loaded(recipes: Result<Vec<Recipe>, Error>) -> Result<Seq<Recipe>, ErrorView> {
    match recipes {
        Ok(recipes) => Ok(recipes@),
        Err(error) => Err(error@),
    }
}

/// The recipe that a command is about: the curated one of the identifier, or else the only
/// imported one of the identifier and, where one is given, the version.
pub fn select_recipe(
    curated: Vec<Recipe>,
    custom: Result<Vec<Recipe>, Error>,
    id: &str,
    version: &Option<String>,
) -> (outcome: Result<(Recipe, InstallSource), Error>)
    ensures
        match selected(curated@, loaded(custom), id@, optional(*version)) {
            Ok(selection) => outcome == Ok::<(Recipe, InstallSource), Error>(selection),
            Err(error) => fails_with(outcome, error),
        },
{
    let mut curated = curated;
    let at = find_recipe(&curated, id);
    if at < curated.len() {
        return Ok((curated.remove(at), InstallSource::Curated));
    }
    let mut custom = match custom {
        Ok(recipes) => recipes,
        Err(error) => {
            return Err(error);
        },
    };
    let (count, last) = count_asked_for(&custom, id, version);
    if count > 1 {
        return Err(
            Error::InvalidRecipe(
                join3(
                    "multiple versions of `",
                    id,
                    "` are imported; select one with --version",
                ),
            ),
        );
    }
    if count == 0 {
        return Err(Error::InvalidRecipe(join3("unknown recipe `", id, "`")));
    }
    Ok((custom.remove(last), InstallSource::UnreviewedRecipe))
}

/// The identifiers of the first `count` models, set apart by commas.
pub open spec fn model_ids(models: Seq<Model>, count: int) -> Seq<char>
    decreases count,
{
    if count <= 0 {
        Seq::empty()
    } else if count == 1 {
        models[0].id@
    } else {
        model_ids(models, count - 1) + ", "@ + models[count - 1].id@
    }
}

/// What is printed of a recipe.
pub open spec fn recipe_text(recipe: Recipe) -> Seq<char> {
    "  "@ + recipe.id@ + "  "@ + recipe.name@ + " "@ + recipe.version@ + "  models: "@ + model_ids(
        recipe.models@,
        recipe.models@.len() as int,
    )
}

/// What is printed of a recipe.
pub fn recipe_line(recipe: &Recipe) -> (text: String)
    ensures
        text@ == recipe_text(*recipe),
{
    let mut models = String::new();
    assert(models@ =~= Seq::empty());
    for i in 0..recipe.models.len()
        invariant
            models@ == model_ids(recipe.models@, i as int),
    {
        if i == 0 {
            models = recipe.models[i].id.clone();
        } else {
            models = join3(models.as_str(), ", ", recipe.models[i].id.as_str());
        }
    }
    let head = join5("  ", recipe.id.as_str(), "  ", recipe.name.as_str(), " ");
    join4(head.as_str(), recipe.version.as_str(), "  models: ", models.as_str())
}

/// What is printed of recipes: a line for each, or that there are none.
pub fn print_recipes(recipes: &Vec<Recipe>) -> (lines: Vec<String>)
    ensures
        recipes@.len() == 0 ==> lines@.len() == 1 && lines@[0]@ == "  (none)"@,
        recipes@.len() > 0 ==> lines@.len() == recipes@.len() && forall|i: int|
            0 <= i < lines@.len() ==> (#[trigger] lines@[i])@ == recipe_text(recipes@[i]),
{
    let mut lines: Vec<String> = Vec::new();
    if recipes.len() == 0 {
        lines.push("  (none)".to_owned());
        return lines;
    }
    for i in 0..recipes.len()
        invariant
            lines@.len() == i,
            forall|j: int| 0 <= j < i ==> (#[trigger] lines@[j])@ == recipe_text(recipes@[j]),
    {
        lines.push(recipe_line(&recipes[i]));
    }
    lines
}

/// What is printed of a recipe that was imported.
pub fn imported_line(recipe: &Recipe) -> (text: String)
    ensures
        text@ == "Imported unreviewed recipe "@ + recipe.name@ + " "@ + recipe.version@ + " ("@
            + decimal(recipe.models@.len()) + " model"@ + ending(
            recipe.models.len(),
            ""@,
            "s"@,
        ) + ")."@,
{
    let plural = if recipe.models.len() == 1 {
        ""
    } else {
        "s"
    };
    let head = join5(
        "Imported unreviewed recipe ",
        recipe.name.as_str(),
        " ",
        recipe.version.as_str(),
        " (",
    );
    join5(
        head.as_str(),
        decimal_text(recipe.models.len() as u64).as_str(),
        " model",
        plural,
        ").",
    )
}

/// What is printed of an engine that was installed.
pub fn installed_line(record: &InstallRecord) -> (text: String)
    ensures
        text@ == "Installed and UCI-validated "@ + record.name@ + "."@,
{
    join3("Installed and UCI-validated ", record.name.as_str(), ".")
}

/// What is printed of a recovery.
pub fn recovery_line(report: RecoveryReport) -> (text: String)
    ensures
        text@ == "Recovery: cleaned "@ + decimal(report.cleaned_staging as nat)
            + " staging director"@ + ending(report.cleaned_staging, "y"@, "ies"@)
            + ", repaired "@ + decimal(report.repaired_records as nat) + " record"@ + ending(
            report.repaired_records,
            ""@,
            "s"@,
        ) + "."@,
{
    let directories = if report.cleaned_staging == 1 {
        "y"
    } else {
        "ies"
    };
    let records = if report.repaired_records == 1 {
        ""
    } else {
        "s"
    };
    let head = join5(
        "Recovery: cleaned ",
        decimal_text(report.cleaned_staging as u64).as_str(),
        " staging director",
        directories,
        ", repaired ",
    );
    join4(
        head.as_str(),
        decimal_text(report.repaired_records as u64).as_str(),
        " record",
        join2(records, ".").as_str(),
    )
}

/// What is printed of the integrity of an installation.
pub open spec fn integrity_text(integrity: IntegrityView) -> Seq<char> {
    match integrity {
        IntegrityView::Verified => "verified"@,
        IntegrityView::Missing => "missing"@,
        IntegrityView::Changed { actual, .. } => "changed ("@ + actual + ")"@,
    }
}

/// What is printed of an installation.
pub fn status_line(record: &InstallRecord, integrity: &Integrity) -> (text: String)
    ensures
        text@ == record.install_id@ + "  "@ + record.name@ + " "@ + record.version@ + "  "@
            + record.source.name() + "  "@ + integrity_text(integrity@) + "\n  "@
            + record.executable@.shown,
{
    let state = match integrity {
        Integrity::Verified => "verified".to_owned(),
        Integrity::Missing => "missing".to_owned(),
        Integrity::Changed { actual, .. } => join3("changed (", actual.as_str(), ")"),
    };
    let head = join5(
        record.install_id.as_str(),
        "  ",
        record.name.as_str(),
        " ",
        record.version.as_str(),
    );
    let middle = join5(head.as_str(), "  ", record.source.label(), "  ", state.as_str());
    join3(middle.as_str(), "\n  ", record.executable.shown.as_str())
}

/// The installation that is to be handed over.
pub fn find_install<'a>(registry: &'a Registry, install_id: &str) -> (outcome: Result<
    &'a InstallRecord,
    Error,
>)
    ensures
        match outcome {
            Ok(record) => record.install_id@ == install_id@ && exists|i: int|
                0 <= i < registry.installs@.len() && #[trigger] registry.installs@[i] == *record && (
                forall|j: int|
                    0 <= j < i ==> (#[trigger] registry.installs@[j]).install_id@ != install_id@),
            Err(error) => error@ == ErrorView::Other("unknown install `"@ + install_id@ + "`"@) && (
            forall|i: int|
                0 <= i < registry.installs@.len() ==> (
                #[trigger] registry.installs@[i]).install_id@ != install_id@),
        },
{
    match RegistryStore::find(registry, install_id) {
        Some(record) => Ok(record),
        None => Err(Error::Other(join3("unknown install `", install_id, "`"))),
    }
}

/// Whether an installation may be handed over: where it is as it was installed.
pub fn check_open(integrity: &Integrity) -> (outcome: Result<(), Error>)
    ensures
        settles(
            outcome,
            if integrity@ is Verified {
                None
            } else {
                Some(
                    ErrorView::Other("refusing to hand off a missing or changed executable"@),
                )
            },
        ),
{
    match integrity {
        Integrity::Verified => Ok(()),
        _ => Err(
            Error::Other("refusing to hand off a missing or changed executable".to_owned()),
        ),
    }
}

/// Whether an installation may be removed: where that was confirmed.
pub fn check_confirmed(confirmed: bool) -> (outcome: Result<(), Error>)
    ensures
        settles(
            outcome,
            if confirmed {
                None
            } else {
                Some(
                    ErrorView::Other(
                        "removal requires --confirm; this deletes exactly one immutable generation"@,
                    ),
                )
            },
        ),
{
    if !confirmed {
        return Err(
            Error::Other(
                "removal requires --confirm; this deletes exactly one immutable generation".to_owned(),
            ),
        );
    }
    Ok(())
}

/// What is printed of a removal.
pub fn removed_line(install_id: &str, removed: bool) -> (text: String)
    ensures
        text@ == if removed {
            "Removed "@ + install_id@ + "."@
        } else {
            "Install "@ + install_id@ + " was not present."@
        },
{
    if removed {
        join3("Removed ", install_id, ".")
    } else {
        join3("Install ", install_id, " was not present.")
    }
}

/// A curated recipe comes before the imported ones of its identifier, whatever they are.
pub proof fn curated_recipes_come_first(
    curated: Seq<Recipe>,
    custom: Result<Seq<Recipe>, ErrorView>,
    i: int,
    version: Option<Seq<char>>,
)
    requires
        0 <= i < curated.len(),
    ensures
        selected(curated, custom, curated[i].id@, version) matches Ok((recipe, source)) && recipe.id@
            == curated[i].id@ && source == InstallSource::Curated,
{
    lemma_recipe_at(curated, curated[i].id@, 0, i);
}

/// A recipe that is taken as curated is one of the curated catalog, and one that is taken as
/// unreviewed is an imported one that the catalog has no recipe of its identifier for; either way it
/// is a recipe that was asked for.
pub proof fn sources_are_told_truly(
    curated: Seq<Recipe>,
    custom: Result<Seq<Recipe>, ErrorView>,
    id: Seq<char>,
    version: Option<Seq<char>>,
)
    ensures
        selected(curated, custom, id, version) matches Ok((recipe, source)) ==> {
            &&& recipe.id@ == id
            &&& match source {
                InstallSource::Curated => curated.contains(recipe),
                InstallSource::UnreviewedRecipe => {
                    &&& custom matches Ok(imported) && imported.contains(recipe)
                    &&& version matches Some(version) ==> recipe.version@ == version
                    &&& forall|i: int| 0 <= i < curated.len() ==> (#[trigger] curated[i]).id@ != id
                },
            }
        },
{
    let at = recipe_at(curated, id, 0);
    assert forall|i: int| 0 <= i < curated.len() && (#[trigger] curated[i]).id@ == id implies 0
        <= at < curated.len() && curated[at].id@ == id by {
        lemma_recipe_at(curated, id, 0, i);
    }
    lemma_recipe_found(curated, id, 0);
    match custom {
        Ok(imported) => {
            if imported.filter(is_asked_for(id, version)).len() > 0 {
                lemma_asked_for(imported, id, version, 0);
            }
        },
        Err(_) => {},
    }
}

proof fn lemma_asked_for(recipes: Seq<Recipe>, id: Seq<char>, version: Option<Seq<char>>, i: int)
    requires
        0 <= i < recipes.filter(is_asked_for(id, version)).len(),
    ensures
        recipes.contains(recipes.filter(is_asked_for(id, version))[i]),
        is_asked_for(id, version)(recipes.filter(is_asked_for(id, version))[i]),
    decreases recipes.len(),
{
    reveal(Seq::filter);
    let asked_for = is_asked_for(id, version);
    let front = recipes.drop_last();
    if i < front.filter(asked_for).len() {
        lemma_asked_for(front, id, version, i);
        let at = choose|at: int| 0 <= at < front.len() && front[at] == front.filter(asked_for)[i];
        assert(recipes[at] == front[at]);
    } else {
        assert(recipes.contains(recipes[recipes.len() - 1]));
    }
}

proof fn lemma_recipe_found(recipes: Seq<Recipe>, id: Seq<char>, from: int)
    requires
        0 <= from,
    ensures
        recipe_at(recipes, id, from) < recipes.len() ==> 0 <= recipe_at(recipes, id, from)
            && recipes[recipe_at(recipes, id, from)].id@ == id,
    decreases recipes.len() - from,
{
    if from < recipes.len() && recipes[from].id@ != id {
        lemma_recipe_found(recipes, id, from + 1);
    }
}

proof fn lemma_recipe_at(recipes: Seq<Recipe>, id: Seq<char>, from: int, i: int)
    requires
        0 <= from <= i < recipes.len(),
        recipes[i].id@ == id,
    ensures
        recipe_at(recipes, id, from) <= i,
        recipe_at(recipes, id, from) >= from,
        recipes[recipe_at(recipes, id, from)].id@ == id,
    decreases i - from,
{
    if recipes[from].id@ != id {
        lemma_recipe_at(recipes, id, from + 1, i);
    }
}

proof fn lemma_matches(recipes: Seq<Recipe>, keep: spec_fn(Recipe) -> bool)
    ensures
        recipes.filter(keep).len() == 0 <==> forall|i: int|
            0 <= i < recipes.len() ==> !keep(#[trigger] recipes[i]),
        recipes.filter(keep).len() <= 1 <==> forall|i: int, j: int|
            0 <= i < j < recipes.len() ==> !(keep(#[trigger] recipes[i]) && keep(
                #[trigger] recipes[j],
            )),
    decreases recipes.len(),
{
    reveal(Seq::filter);
    if recipes.len() > 0 {
        let front = recipes.drop_last();
        let last = recipes.len() - 1;
        lemma_matches(front, keep);
        assert forall|i: int| 0 <= i < last implies front[i] == recipes[i] by {}
        if front.filter(keep).len() > 0 {
            let i = choose|i: int| 0 <= i < front.len() && keep(#[trigger] front[i]);
            assert(keep(recipes[i]));
            if keep(recipes[last]) {
                assert(keep(recipes[i]) && keep(recipes[last]));
            }
        }
        if front.filter(keep).len() > 1 {
            let (i, j) = choose|i: int, j: int|
                0 <= i < j < front.len() && keep(#[trigger] front[i]) && keep(#[trigger] front[j]);
            assert(keep(recipes[i]) && keep(recipes[j]));
        }
    }
}

/// A recipe that is not curated is the only imported one with that identifier, and that version
/// where one is asked for; where there is none or more than one, none is taken.
pub proof fn imported_recipes_are_taken_where_one_fits(
    curated: Seq<Recipe>,
    imported: Seq<Recipe>,
    id: Seq<char>,
    version: Option<Seq<char>>,
    i: int,
    j: int,
)
    requires
        forall|k: int| 0 <= k < curated.len() ==> (#[trigger] curated[k]).id@ != id,
        0 <= i < imported.len(),
        0 <= j < imported.len(),
    ensures
        ({
            let fits = |recipe: Recipe|
                recipe.id@ == id && (version matches Some(version) ==> recipe.version@ == version);
            &&& (forall|k: int|
                0 <= k < imported.len() ==> (fits(#[trigger] imported[k]) <==> k == i)) ==> selected(
                curated,
                Ok(imported),
                id,
                version,
            ) == Ok::<(Recipe, InstallSource), ErrorView>(
                (imported[i], InstallSource::UnreviewedRecipe),
            )
            &&& i != j && fits(imported[i]) && fits(imported[j]) ==> selected(
                curated,
                Ok(imported),
                id,
                version,
            ) is Err
            &&& (forall|k: int| 0 <= k < imported.len() ==> !fits(#[trigger] imported[k]))
                ==> selected(curated, Ok(imported), id, version) is Err
        }),
{
    let keep = is_asked_for(id, version);
    let fits = |recipe: Recipe|
        recipe.id@ == id && (version matches Some(version) ==> recipe.version@ == version);
    assert forall|k: int| 0 <= k < imported.len() implies fits(#[trigger] imported[k]) == keep(
        imported[k],
    ) by {}
    lemma_recipe_found(curated, id, 0);
    lemma_matches(imported, keep);
    if forall|k: int| 0 <= k < imported.len() ==> (fits(#[trigger] imported[k]) <==> k == i) {
        assert(keep(imported[i]));
        assert(imported.filter(keep).len() == 1);
        lemma_asked_for(imported, id, version, 0);
        let found = imported.filter(keep)[0];
        let at = choose|at: int| 0 <= at < imported.len() && imported[at] == found;
        assert(fits(imported[at]));
    }
    if i != j && fits(imported[i]) && fits(imported[j]) {
        if i < j {
            assert(keep(imported[i]) && keep(imported[j]));
        } else {
            assert(keep(imported[j]) && keep(imported[i]));
        }
    }
}

/// The identifiers of models are listed in their order with a comma and a space between them.
pub proof fn models_are_listed_with_commas(models: Seq<Model>, count: int)
    requires
        1 <= count < models.len(),
    ensures
        model_ids(models, 0) == Seq::<char>::empty(),
        model_ids(models, 1) == models[0].id@,
        model_ids(models, count + 1) == model_ids(models, count) + seq![',', ' ']
            + models[count].id@,
{
    reveal_strlit(", ");
    assert(", "@ =~= seq![',', ' ']);
}

/// An installation is said to be verified, missing, or changed to what was found.
pub proof fn integrity_is_said_in_words(integrity: IntegrityView)
    ensures
        integrity is Verified ==> integrity_text(integrity) == "verified"@,
        integrity is Missing ==> integrity_text(integrity) == "missing"@,
        integrity matches IntegrityView::Changed { actual, .. } ==> integrity_text(integrity)
            == "changed ("@ + actual + ")"@,
{
}

} // verus!
