//! The application: what it shows, what it is at, and what it does upon what happens.

use vstd::prelude::*;
use crate::catalog::VerifiedCatalog;
use crate::choice::TextSet;
use crate::display::{download_sizes, download_text, guidance, model_guidance};
use crate::error::{fails_with, Error, ErrorView};
use crate::extract::spellings;
use crate::install::{find_package, package_at, RecoveryReport};
use crate::order::TextMap;
use crate::registry::{InstallRecord, InstallSource, Integrity, IntegrityView};
use crate::schema::{Model, Recipe};
use crate::staging::InstallProgress;
use crate::text::{
    begins_with, decimal, decimal_text, join2, join3, join4, join5, joined_texts_fall_apart_again,
    joined_with, same_text, text_starts_with,
};
use crate::web::optional;

verus! {

/// The three views of the application.
#[derive(Clone, Copy, Debug, PartialEq, Eq, Structural)]
pub enum Tab {
    Catalog,
    Installed,
    Custom,
}

/// What is done once an engine is installed.
#[derive(Clone, Copy, Debug, PartialEq, Eq, Structural)]
pub enum PostInstallAction {
    ShowReady,
    OpenInFishEye,
}

/// What comes from work in the background.
pub enum JobResult {
    Installed(Result<InstallRecord, Error>),
    InstallProgress(InstallProgress),
    Refreshed(Result<VerifiedCatalog, Error>),
    Imported(Result<Recipe, Error>),
}

/// What is to be done after work in the background.
pub enum FollowUp {
    Nothing,
    /// Load the installations again, then say that the engine is ready; and hand it over to
    /// FishEye where that was asked for.
    Installed { record: InstallRecord, open: bool },
    /// Load the imported recipes again.
    ReloadCustom,
}

/// The state of the application.
pub struct GrabberApp {
    pub catalog: VerifiedCatalog,
    pub custom_recipes: Vec<Recipe>,
    pub installs: Vec<InstallRecord>,
    pub integrity: TextMap<String>,
    pub tab: Tab,
    pub status: String,
    pub custom_url: String,
    pub approved_unreviewed: TextSet,
    pub confirm_remove: Option<String>,
    pub recent_install: Option<String>,
    /// Whether work goes on in the background.
    pub busy: bool,
    pub job_label: Option<String>,
    /// Whether that work can be cancelled.
    pub cancellable: bool,
    pub install_progress: Option<InstallProgress>,
    pub catalog_refreshing: bool,
    pub post_install_action: PostInstallAction,
}

/// A [`GrabberApp`] with its texts and collections as mathematical ones.
#[verifier::ext_equal]
pub struct AppView {
    pub catalog: VerifiedCatalog,
    pub custom_recipes: Seq<Recipe>,
    pub installs: Seq<InstallRecord>,
    pub integrity: Map<Seq<char>, Seq<char>>,
    pub tab: Tab,
    pub status: Seq<char>,
    pub custom_url: Seq<char>,
    pub approved: Set<Seq<char>>,
    pub confirm_remove: Option<Seq<char>>,
    pub recent_install: Option<Seq<char>>,
    pub busy: bool,
    pub job_label: Option<Seq<char>>,
    pub cancellable: bool,
    pub install_progress: Option<InstallProgress>,
    pub catalog_refreshing: bool,
    pub post_install_action: PostInstallAction,
}

impl View for GrabberApp {
    type V = AppView;

    open spec fn view(&self) -> AppView {
        AppView {
            catalog: self.catalog,
            custom_recipes: self.custom_recipes@,
            installs: self.installs@,
            integrity: spellings(self.integrity@),
            tab: self.tab,
            status: self.status@,
            custom_url: self.custom_url@,
            approved: self.approved_unreviewed@,
            confirm_remove: optional(self.confirm_remove),
            recent_install: optional(self.recent_install),
            busy: self.busy,
            job_label: optional(self.job_label),
            cancellable: self.cancellable,
            install_progress: self.install_progress,
            catalog_refreshing: self.catalog_refreshing,
            post_install_action: self.post_install_action,
        }
    }
}

/// What stands for a recipe that the user approves.
pub open spec fn approval_key(recipe: Recipe) -> Seq<char> {
    recipe.id@ + ":"@ + recipe.version@
}

fn approval_text(recipe: &Recipe) -> (key: String)
    ensures
        key@ == approval_key(*recipe),
{
    join3(recipe.id.as_str(), ":", recipe.version.as_str())
}

/// What is said of the first `count` installations, by whether their executables are there.
pub open spec fn first_labels(
    installs: Seq<InstallRecord>,
    present: Seq<bool>,
    count: int,
) -> Map<Seq<char>, Seq<char>>
    decreases count,
{
    if count <= 0 {
        Map::empty()
    } else {
        first_labels(installs, present, count - 1).insert(
            installs[count - 1].install_id@,
            if present[count - 1] {
                "Not checked"@
            } else {
                "Missing"@
            },
        )
    }
}

/// What is said of installations before they are checked.
pub fn integrity_labels(installs: &Vec<InstallRecord>, present: &Vec<bool>) -> (labels: TextMap<
    String,
>)
    requires
        installs@.len() == present@.len(),
    ensures
        labels.wf(),
        spellings(labels@) == first_labels(installs@, present@, installs@.len() as int),
{
    let mut labels: TextMap<String> = TextMap::new();
    assert(spellings(labels@) =~= Map::empty());
    for i in 0..installs.len()
        invariant
            installs@.len() == present@.len(),
            labels.wf(),
            spellings(labels@) == first_labels(installs@, present@, i as int),
    {
        let label = if present[i] {
            "Not checked".to_owned()
        } else {
            "Missing".to_owned()
        };
        let ghost before = labels@;
        labels.insert(installs[i].install_id.clone(), label);
        assert(spellings(labels@) =~= spellings(before).insert(
            installs@[i as int].install_id@,
            label@,
        ));
    }
    labels
}

/// What is said of an installation that was checked.
pub open spec fn checked_label(outcome: Result<IntegrityView, ErrorView>) -> Seq<char> {
    match outcome {
        Ok(IntegrityView::Verified) => "Verified"@,
        Ok(IntegrityView::Missing) => "Missing"@,
        Ok(IntegrityView::Changed { .. }) => "Changed — do not launch"@,
        Err(error) => "Check failed: "@ + error.message(),
    }
}

/// The outcome of a check.
pub open spec fn check_view(outcome: Result<Integrity, Error>) -> Result<IntegrityView, ErrorView> {
    match outcome {
        Ok(integrity) => Ok(integrity@),
        Err(error) => Err(error@),
    }
}

/// What is said of an installation that was checked.
pub fn integrity_label(outcome: &Result<Integrity, Error>) -> (label: String)
    ensures
        label@ == checked_label(check_view(*outcome)),
{
    match outcome {
        Ok(Integrity::Verified) => "Verified".to_owned(),
        Ok(Integrity::Missing) => "Missing".to_owned(),
        Ok(Integrity::Changed { .. }) => "Changed — do not launch".to_owned(),
        Err(error) => join2("Check failed: ", error.message().as_str()),
    }
}

/// The ending of a noun by how many there are.
pub open spec fn ending(count: usize, one: Seq<char>, many: Seq<char>) -> Seq<char> {
    if count == 1 {
        one
    } else {
        many
    }
}

/// What is said of a recovery at the start.
pub open spec fn recovered_text(report: RecoveryReport) -> Seq<char> {
    "Recovered "@ + decimal(report.cleaned_staging as nat) + " interrupted staging director"@
        + ending(report.cleaned_staging, "y"@, "ies"@) + " and "@ + decimal(
        report.repaired_records as nat,
    ) + " registry record"@ + ending(report.repaired_records, ""@, "s"@) + "."@
}

fn recovered_message(report: RecoveryReport) -> (text: String)
    ensures
        text@ == recovered_text(report),
{
    let directories = if report.cleaned_staging == 1 {
        "y"
    } else {
        "ies"
    };
    let records = if report.repaired_records == 1 {
        ""
    } else {
        "s"
    };
    let head = join5(
        "Recovered ",
        decimal_text(report.cleaned_staging as u64).as_str(),
        " interrupted staging director",
        directories,
        " and ",
    );
    join5(
        head.as_str(),
        decimal_text(report.repaired_records as u64).as_str(),
        " registry record",
        records,
        ".",
    )
}

/// What is known of the catalog when the application starts: the catalog, what is said of it, and
/// whether it is fetched.
pub open spec fn first_catalog(
    cached: Result<Option<VerifiedCatalog>, Error>,
    bundled: Result<VerifiedCatalog, Error>,
) -> Result<(VerifiedCatalog, Seq<char>, bool), ErrorView> {
    match cached {
        Ok(Some(catalog)) => Ok((catalog, "Loaded verified catalog cache."@, false)),
        Ok(None) => match bundled {
            Ok(catalog) => Ok((catalog, "No verified catalog cache yet."@, true)),
            Err(error) => Err(error@),
        },
        Err(problem) => match bundled {
            Ok(catalog) => Ok(
                (catalog, "Ignored invalid catalog cache: "@ + problem@.message(), true),
            ),
            Err(error) => Err(error@),
        },
    }
}

/// What is said when the application starts.
pub open spec fn first_status(said: Seq<char>, recovery: RecoveryReport, refreshing: bool) -> Seq<
    char,
> {
    let said = if recovery.cleaned_staging > 0 || recovery.repaired_records > 0 {
        recovered_text(recovery)
    } else {
        said
    };
    if refreshing {
        said + " Downloading the latest signed catalog…"@
    } else {
        said
    }
}

/// The label of fetching the catalog.
pub open spec fn refresh_label() -> Seq<char> {
    "Refreshing signed catalog…"@
}

impl AppView {
    /// The application when it starts.
    pub open spec fn fresh(
        catalog: VerifiedCatalog,
        custom_recipes: Seq<Recipe>,
        installs: Seq<InstallRecord>,
        present: Seq<bool>,
        status: Seq<char>,
        refreshing: bool,
    ) -> AppView {
        AppView {
            catalog,
            custom_recipes,
            installs,
            integrity: first_labels(installs, present, installs.len() as int),
            tab: Tab::Catalog,
            status,
            custom_url: Seq::empty(),
            approved: Set::empty(),
            confirm_remove: None,
            recent_install: None,
            busy: refreshing,
            job_label: if refreshing {
                Some(refresh_label())
            } else {
                None
            },
            cancellable: false,
            install_progress: None,
            catalog_refreshing: refreshing,
            post_install_action: PostInstallAction::ShowReady,
        }
    }

    /// The application once fetching the catalog has begun; as it is, while work goes on.
    pub open spec fn refresh(self) -> AppView {
        if self.busy {
            self
        } else {
            AppView {
                busy: true,
                job_label: Some(refresh_label()),
                cancellable: false,
                catalog_refreshing: true,
                status: refresh_label(),
                ..self
            }
        }
    }

    /// The application once an import has begun.
    pub open spec fn import(self) -> AppView {
        if self.busy {
            self
        } else {
            AppView {
                busy: true,
                job_label: Some("Importing unreviewed recipe…"@),
                cancellable: false,
                status: "Importing and validating unreviewed recipe…"@,
                ..self
            }
        }
    }

    /// The application once an installation has begun.
    pub open spec fn install(self, recipe: Recipe, action: PostInstallAction) -> AppView {
        let label = "Installing "@ + recipe.name@ + "…"@;
        if self.busy {
            self
        } else {
            AppView {
                busy: true,
                job_label: Some(label),
                cancellable: true,
                install_progress: None,
                post_install_action: action,
                status: label,
                ..self
            }
        }
    }

    /// The application once work in the background is over.
    pub open spec fn idle(self) -> AppView {
        AppView {
            busy: false,
            job_label: None,
            cancellable: false,
            install_progress: None,
            post_install_action: PostInstallAction::ShowReady,
            ..self
        }
    }

    /// The application once something came from work in the background.
    pub open spec fn receive(self, result: JobResult) -> AppView {
        match result {
            JobResult::InstallProgress(progress) => AppView {
                install_progress: Some(progress),
                ..self
            },
            JobResult::Installed(Ok(record)) => AppView {
                recent_install: Some(record.install_id@),
                tab: Tab::Installed,
                ..self.idle()
            },
            JobResult::Installed(Err(error)) => AppView {
                status: "Install failed: "@ + error@.message(),
                ..self.idle()
            },
            JobResult::Refreshed(Ok(catalog)) => AppView {
                catalog_refreshing: false,
                catalog,
                status: "Verified catalog refreshed ("@ + decimal(catalog.catalog.recipes@.len())
                    + " recipes)."@,
                ..self.idle()
            },
            JobResult::Refreshed(Err(error)) => AppView {
                catalog_refreshing: false,
                status: "Catalog refresh failed; kept previous catalog: "@ + error@.message(),
                ..self.idle()
            },
            JobResult::Imported(Ok(recipe)) => AppView {
                approved: self.approved.remove(approval_key(recipe)),
                status: "Imported unreviewed recipe "@ + recipe.name@ + "."@,
                ..self.idle()
            },
            JobResult::Imported(Err(error)) => AppView {
                status: "Recipe import failed: "@ + error@.message(),
                ..self.idle()
            },
        }
    }
}

/// What is to be done after something came from work in the background.
pub open spec fn follows(result: JobResult, action: PostInstallAction, follow: FollowUp) -> bool {
    match result {
        JobResult::Installed(Ok(record)) => follow == (FollowUp::Installed {
            record,
            open: action == PostInstallAction::OpenInFishEye,
        }),
        JobResult::Imported(Ok(_)) => follow is ReloadCustom,
        _ => follow is Nothing,
    }
}

impl GrabberApp {
    pub open spec fn wf(&self) -> bool {
        self.integrity.wf() && self.approved_unreviewed.wf()
    }

    /// The application when it starts, and whether the catalog is to be fetched: with the catalog
    /// of the cache, or else the one that comes with the application.
    pub fn load(
        cached: Result<Option<VerifiedCatalog>, Error>,
        bundled: Result<VerifiedCatalog, Error>,
        recovery: RecoveryReport,
        custom_recipes: Vec<Recipe>,
        installs: Vec<InstallRecord>,
        present: &Vec<bool>,
    ) -> (outcome: Result<(GrabberApp, bool), Error>)
        requires
            installs@.len() == present@.len(),
        ensures
            match first_catalog(cached, bundled) {
                Err(error) => fails_with(outcome, error),
                Ok((catalog, said, refreshing)) => outcome matches Ok((app, fetch)) && {
                    &&& app.wf()
                    &&& fetch == refreshing
                    &&& app@ == AppView::fresh(
                        catalog,
                        custom_recipes@,
                        installs@,
                        present@,
                        first_status(said, recovery, refreshing),
                        refreshing,
                    )
                },
            },
    {
        let (catalog, said, refreshing) = match cached {
            Ok(Some(catalog)) => (catalog, "Loaded verified catalog cache.".to_owned(), false),
            Ok(None) => match bundled {
                Ok(catalog) => (catalog, "No verified catalog cache yet.".to_owned(), true),
                Err(error) => {
                    return Err(error);
                },
            },
            Err(problem) => match bundled {
                Ok(catalog) => (
                    catalog,
                    join2("Ignored invalid catalog cache: ", problem.message().as_str()),
                    true,
                ),
                Err(error) => {
                    return Err(error);
                },
            },
        };
        let mut status = said;
        if recovery.cleaned_staging > 0 || recovery.repaired_records > 0 {
            status = recovered_message(recovery);
        }
        let integrity = integrity_labels(&installs, present);
        let mut app = GrabberApp {
            catalog,
            custom_recipes,
            installs,
            integrity,
            tab: Tab::Catalog,
            status,
            custom_url: String::new(),
            approved_unreviewed: TextSet::new(),
            confirm_remove: None,
            recent_install: None,
            busy: false,
            job_label: None,
            cancellable: false,
            install_progress: None,
            catalog_refreshing: false,
            post_install_action: PostInstallAction::ShowReady,
        };
        if refreshing {
            let launch_status = app.status.clone();
            app.start_refresh();
            app.status = join2(
                launch_status.as_str(),
                " Downloading the latest signed catalog…",
            );
        }
        assert(app@.custom_url =~= Seq::empty());
        Ok((app, refreshing))
    }

    /// Takes in the installations that were loaded again, with whether their executables are there.
    pub fn reload_installs(&mut self, outcome: Result<(Vec<InstallRecord>, Vec<bool>), Error>)
        requires
            old(self).wf(),
            outcome matches Ok((installs, present)) ==> installs@.len() == present@.len(),
        ensures
            final(self).wf(),
            final(self)@ == match outcome {
                Ok((installs, present)) => AppView {
                    installs: installs@,
                    integrity: first_labels(installs@, present@, installs@.len() as int),
                    ..old(self)@
                },
                Err(error) => AppView {
                    status: "Could not reload installs: "@ + error@.message(),
                    ..old(self)@
                },
            },
    {
        match outcome {
            Ok((installs, present)) => {
                self.integrity = integrity_labels(&installs, &present);
                self.installs = installs;
            },
            Err(error) => {
                self.status = join2("Could not reload installs: ", error.message().as_str());
            },
        }
    }

    /// Takes in the imported recipes that were loaded again.
    pub fn reload_custom(&mut self, outcome: Result<Vec<Recipe>, Error>)
        requires
            old(self).wf(),
        ensures
            final(self).wf(),
            final(self)@ == match outcome {
                Ok(recipes) => AppView { custom_recipes: recipes@, ..old(self)@ },
                Err(error) => AppView {
                    status: "Could not reload custom recipes: "@ + error@.message(),
                    ..old(self)@
                },
            },
    {
        match outcome {
            Ok(recipes) => {
                self.custom_recipes = recipes;
            },
            Err(error) => {
                self.status = join2("Could not reload custom recipes: ", error.message().as_str());
            },
        }
    }

    /// Begins an installation, unless work goes on; whether the user approved the recipe.
    pub fn start_install(&mut self, recipe: &Recipe, action: PostInstallAction) -> (approved:
        Option<bool>)
        requires
            old(self).wf(),
        ensures
            final(self).wf(),
            final(self)@ == old(self)@.install(*recipe, action),
            approved == if old(self)@.busy {
                None
            } else {
                Some(old(self)@.approved.contains(approval_key(*recipe)))
            },
    {
        if self.busy {
            return None;
        }
        let approved = self.approved_unreviewed.contains(approval_text(recipe).as_str());
        let label = join3("Installing ", recipe.name.as_str(), "…");
        self.busy = true;
        self.job_label = Some(label.clone());
        self.cancellable = true;
        self.install_progress = None;
        self.post_install_action = action;
        self.status = label;
        Some(approved)
    }

    /// Begins to fetch the catalog, unless work goes on; whether it began.
    pub fn start_refresh(&mut self) -> (begun: bool)
        requires
            old(self).wf(),
        ensures
            final(self).wf(),
            final(self)@ == old(self)@.refresh(),
            begun == !old(self)@.busy,
    {
        if self.busy {
            return false;
        }
        self.busy = true;
        self.job_label = Some("Refreshing signed catalog…".to_owned());
        self.cancellable = false;
        self.catalog_refreshing = true;
        self.status = "Refreshing signed catalog…".to_owned();
        true
    }

    /// Begins an import, unless work goes on; whether it began.
    pub fn start_import(&mut self) -> (begun: bool)
        requires
            old(self).wf(),
        ensures
            final(self).wf(),
            final(self)@ == old(self)@.import(),
            begun == !old(self)@.busy,
    {
        if self.busy {
            return false;
        }
        self.busy = true;
        self.job_label = Some("Importing unreviewed recipe…".to_owned());
        self.cancellable = false;
        self.status = "Importing and validating unreviewed recipe…".to_owned();
        true
    }

    /// Takes in what came from work in the background.
    pub fn poll_job(&mut self, result: JobResult) -> (follow: FollowUp)
        requires
            old(self).wf(),
        ensures
            final(self).wf(),
            final(self)@ == old(self)@.receive(result),
            follows(result, old(self)@.post_install_action, follow),
    {
        let result = match result {
            JobResult::InstallProgress(progress) => {
                self.install_progress = Some(progress);
                return FollowUp::Nothing;
            },
            other => other,
        };
        let action = self.post_install_action;
        self.busy = false;
        self.job_label = None;
        self.cancellable = false;
        self.install_progress = None;
        self.post_install_action = PostInstallAction::ShowReady;
        match result {
            JobResult::Installed(Ok(record)) => {
                self.recent_install = Some(record.install_id.clone());
                self.tab = Tab::Installed;
                FollowUp::Installed { record, open: action == PostInstallAction::OpenInFishEye }
            },
            JobResult::Installed(Err(error)) => {
                self.status = join2("Install failed: ", error.message().as_str());
                FollowUp::Nothing
            },
            JobResult::Refreshed(Ok(catalog)) => {
                self.catalog_refreshing = false;
                self.status = join3(
                    "Verified catalog refreshed (",
                    decimal_text(catalog.catalog.recipes.len() as u64).as_str(),
                    " recipes).",
                );
                self.catalog = catalog;
                FollowUp::Nothing
            },
            JobResult::Refreshed(Err(error)) => {
                self.catalog_refreshing = false;
                self.status = join2(
                    "Catalog refresh failed; kept previous catalog: ",
                    error.message().as_str(),
                );
                FollowUp::Nothing
            },
            JobResult::Imported(Ok(recipe)) => {
                self.approved_unreviewed.remove(approval_text(&recipe));
                self.status = join3("Imported unreviewed recipe ", recipe.name.as_str(), ".");
                FollowUp::ReloadCustom
            },
            JobResult::Imported(Err(error)) => {
                self.status = join2("Recipe import failed: ", error.message().as_str());
                FollowUp::Nothing
            },
            JobResult::InstallProgress(_) => FollowUp::Nothing,
        }
    }
}

/// What is said when the package of an installation is not as it was.
pub open spec fn refused_handoff() -> Seq<char> {
    "Refused FishEye handoff because the UCI package is missing or changed. Copy path and Open folder remain available for inspection."@
}

impl GrabberApp {
    /// Says that an engine is installed.
    pub fn engine_ready(&mut self, record: &InstallRecord)
        requires
            old(self).wf(),
        ensures
            final(self).wf(),
            final(self)@ == (AppView {
                status: "UCI engine ready: "@ + record.name@
                    + ". Use the executable path in any compatible chess GUI."@,
                ..old(self)@
            }),
    {
        self.status = join3(
            "UCI engine ready: ",
            record.name.as_str(),
            ". Use the executable path in any compatible chess GUI.",
        );
    }

    /// Whether an installation that was checked may be handed over to FishEye; what is said where
    /// it may not.
    pub fn open_record_in_fisheye(&mut self, outcome: &Result<Integrity, Error>) -> (allowed: bool)
        requires
            old(self).wf(),
        ensures
            final(self).wf(),
            allowed == (outcome matches Ok(Integrity::Verified)),
            final(self)@ == match *outcome {
                Ok(Integrity::Verified) => old(self)@,
                Ok(_) => AppView { status: refused_handoff(), ..old(self)@ },
                Err(error) => AppView {
                    status: "Integrity check failed: "@ + error@.message(),
                    ..old(self)@
                },
            },
    {
        match outcome {
            Ok(Integrity::Verified) => true,
            Ok(_) => {
                self.status =
                "Refused FishEye handoff because the UCI package is missing or changed. Copy path and Open folder remain available for inspection.".to_owned();
                false
            },
            Err(error) => {
                self.status = join2("Integrity check failed: ", error.message().as_str());
                false
            },
        }
    }

    /// Says that FishEye was neither found nor chosen.
    pub fn fisheye_not_chosen(&mut self, discovery: &Error)
        requires
            old(self).wf(),
        ensures
            final(self).wf(),
            final(self)@ == (AppView {
                status: "UCI engine ready. FishEye was not found ("@ + discovery@.message()
                    + ") and no executable was selected; use Copy engine path for any chess GUI."@,
                ..old(self)@
            }),
    {
        self.status = join3(
            "UCI engine ready. FishEye was not found (",
            discovery.message().as_str(),
            ") and no executable was selected; use Copy engine path for any chess GUI.",
        );
    }

    /// Says how handing an engine over to FishEye went.
    pub fn open_verified_record_in_fisheye(&mut self, outcome: &Result<(), Error>)
        requires
            old(self).wf(),
        ensures
            final(self).wf(),
            final(self)@ == (AppView {
                status: match *outcome {
                    Ok(()) => {
                        "Opened FishEye's external-engine review. FishEye will test the UCI engine and ask before saving it."@
                    },
                    Err(error) => "UCI engine ready, but FishEye could not be opened: "@
                        + error@.message()
                        + ". Use Copy engine path or Open folder instead."@,
                },
                ..old(self)@
            }),
    {
        match outcome {
            Ok(()) => {
                self.status =
                "Opened FishEye's external-engine review. FishEye will test the UCI engine and ask before saving it.".to_owned();
            },
            Err(error) => {
                self.status = join3(
                    "UCI engine ready, but FishEye could not be opened: ",
                    error.message().as_str(),
                    ". Use Copy engine path or Open folder instead.",
                );
            },
        }
    }

    /// Takes in whether the user approves an unreviewed recipe.
    pub fn set_approval(&mut self, recipe: &Recipe, approved: bool)
        requires
            old(self).wf(),
        ensures
            final(self).wf(),
            final(self)@ == (AppView {
                approved: if approved {
                    old(self)@.approved.insert(approval_key(*recipe))
                } else {
                    old(self)@.approved.remove(approval_key(*recipe))
                },
                ..old(self)@
            }),
    {
        if approved {
            self.approved_unreviewed.insert(approval_text(recipe));
        } else {
            self.approved_unreviewed.remove(approval_text(recipe));
        }
    }

    /// Whether the user approved a recipe.
    pub fn approves(&self, recipe: &Recipe) -> (answer: bool)
        requires
            self.wf(),
        ensures
            answer == self@.approved.contains(approval_key(*recipe)),
    {
        self.approved_unreviewed.contains(approval_text(recipe).as_str())
    }

    /// Says that a path was copied.
    pub fn path_copied(&mut self)
        requires
            old(self).wf(),
        ensures
            final(self).wf(),
            final(self)@ == (AppView {
                status: "Engine path copied for use in any chess GUI."@,
                ..old(self)@
            }),
    {
        self.status = "Engine path copied for use in any chess GUI.".to_owned();
    }

    /// Says how showing the folder of a package went.
    pub fn folder_opened(&mut self, outcome: &Result<(), Error>)
        requires
            old(self).wf(),
        ensures
            final(self).wf(),
            final(self)@ == (AppView {
                status: match *outcome {
                    Ok(()) => "Opened the portable UCI package folder."@,
                    Err(error) => "Could not open package folder: "@ + error@.message(),
                },
                ..old(self)@
            }),
    {
        match outcome {
            Ok(()) => {
                self.status = "Opened the portable UCI package folder.".to_owned();
            },
            Err(error) => {
                self.status = join2("Could not open package folder: ", error.message().as_str());
            },
        }
    }

    /// Takes in what a check of an installation found.
    pub fn integrity_checked(&mut self, install_id: &str, outcome: &Result<Integrity, Error>)
        requires
            old(self).wf(),
        ensures
            final(self).wf(),
            final(self)@ == (AppView {
                integrity: old(self)@.integrity.insert(
                    install_id@,
                    checked_label(check_view(*outcome)),
                ),
                ..old(self)@
            }),
    {
        let ghost before = self.integrity@;
        let label = integrity_label(outcome);
        self.integrity.insert(install_id.to_owned(), label);
        assert(spellings(self.integrity@) =~= spellings(before).insert(install_id@, label@));
    }

    /// Takes in how removing an installation went.
    pub fn removed(&mut self, install_id: &str, outcome: &Result<bool, Error>)
        requires
            old(self).wf(),
        ensures
            final(self).wf(),
            final(self)@ == (AppView {
                status: match *outcome {
                    Ok(true) => "Removed immutable install generation."@,
                    Ok(false) => "Install was already absent."@,
                    Err(error) => "Remove failed: "@ + error@.message(),
                },
                recent_install: if old(self)@.recent_install == Some(install_id@) {
                    None
                } else {
                    old(self)@.recent_install
                },
                confirm_remove: None,
                ..old(self)@
            }),
    {
        match outcome {
            Ok(true) => {
                self.status = "Removed immutable install generation.".to_owned();
            },
            Ok(false) => {
                self.status = "Install was already absent.".to_owned();
            },
            Err(error) => {
                self.status = join2("Remove failed: ", error.message().as_str());
            },
        }
        let dismissed = match &self.recent_install {
            Some(recent) => same_text(recent.as_str(), install_id),
            None => false,
        };
        if dismissed {
            self.recent_install = None;
        }
        self.confirm_remove = None;
    }

    /// Says that an installation is being cancelled, where it can be; whether it can.
    pub fn cancel(&mut self) -> (cancelled: bool)
        requires
            old(self).wf(),
        ensures
            final(self).wf(),
            cancelled == old(self)@.cancellable,
            final(self)@ == if old(self)@.cancellable {
                AppView { status: "Cancelling install…"@, ..old(self)@ }
            } else {
                old(self)@
            },
    {
        if !self.cancellable {
            return false;
        }
        self.status = "Cancelling install…".to_owned();
        true
    }

    /// Whether the address that was typed may be imported.
    pub fn may_import(&self) -> (answer: bool)
        requires
            self.wf(),
        ensures
            answer == (!self@.busy && begins_with(self@.custom_url, "https://"@)),
    {
        !self.busy && text_starts_with(self.custom_url.as_str(), "https://")
    }

    /// The installation that was made last, among those that are there.
    pub fn recent(&self) -> (found: Option<&InstallRecord>)
        requires
            self.wf(),
        ensures
            match found {
                Some(record) => self@.recent_install == Some(record.install_id@) && exists|i: int|
                    0 <= i < self@.installs.len() && #[trigger] self@.installs[i] == *record && (
                    forall|j: int|
                        0 <= j < i ==> (#[trigger] self@.installs[j]).install_id@
                            != record.install_id@),
                None => self@.recent_install matches Some(id) ==> forall|i: int|
                    0 <= i < self@.installs.len() ==> (#[trigger] self@.installs[i]).install_id@
                        != id,
            },
    {
        let id = match &self.recent_install {
            Some(id) => id,
            None => {
                return None;
            },
        };
        for i in 0..self.installs.len()
            invariant
                self.recent_install == Some(*id),
                forall|j: int| 0 <= j < i ==> (#[trigger] self.installs@[j]).install_id@ != id@,
        {
            if same_text(self.installs[i].install_id.as_str(), id.as_str()) {
                assert(self@.installs[i as int] == self.installs@[i as int]);
                return Some(&self.installs[i]);
            }
        }
        None
    }

    /// What is known of the integrity of an installation.
    pub fn integrity_of(&self, install_id: &str) -> (label: String)
        requires
            self.wf(),
        ensures
            label@ == if self@.integrity.contains_key(install_id@) {
                self@.integrity[install_id@]
            } else {
                "Not checked"@
            },
    {
        match self.integrity.get(install_id) {
            Some(label) => label.clone(),
            None => "Not checked".to_owned(),
        }
    }

    /// What is shown of a model of a recipe on a platform.
    pub fn model_row(
        &self,
        recipe: &Recipe,
        model: &Model,
        source: InstallSource,
        platform: &str,
    ) -> (row: ModelRow)
        requires
            self.wf(),
        ensures
            row.view() == self@.model_row(*recipe, *model, source, platform@),
    {
        let at = find_package(&model.packages, platform);
        let advice = match model_guidance(model) {
            Some(text) => Some(text.to_owned()),
            None => None,
        };
        let allowed = match source {
            InstallSource::Curated => true,
            InstallSource::UnreviewedRecipe => self.approves(recipe),
        };
        if at < model.packages.len() {
            ModelRow {
                guidance: advice,
                sizes: Some(download_sizes(&model.packages[at])),
                enabled: !self.busy && allowed,
                unavailable: None,
            }
        } else {
            ModelRow {
                guidance: advice,
                sizes: None,
                enabled: false,
                unavailable: Some(join2("Not available for ", platform)),
            }
        }
    }
}

/// What is shown of a model.
#[derive(Debug, PartialEq, Eq)]
pub struct ModelRow {
    pub guidance: Option<String>,
    pub sizes: Option<String>,
    /// Whether it can be installed.
    pub enabled: bool,
    pub unavailable: Option<String>,
}

/// A [`ModelRow`] with its texts as sequences of characters.
pub struct ModelRowView {
    pub guidance: Option<Seq<char>>,
    pub sizes: Option<Seq<char>>,
    pub enabled: bool,
    pub unavailable: Option<Seq<char>>,
}

impl View for ModelRow {
    type V = ModelRowView;

    open spec fn view(&self) -> ModelRowView {
        ModelRowView {
            guidance: optional(self.guidance),
            sizes: optional(self.sizes),
            enabled: self.enabled,
            unavailable: optional(self.unavailable),
        }
    }
}

impl AppView {
    /// What is shown of a model of a recipe on a platform: it can be installed where there is a
    /// package for the platform, no work goes on, and the recipe is curated or approved.
    pub open spec fn model_row(
        self,
        recipe: Recipe,
        model: Model,
        source: InstallSource,
        platform: Seq<char>,
    ) -> ModelRowView {
        let at = package_at(model.packages@, platform, 0);
        let supported = at < model.packages@.len();
        ModelRowView {
            guidance: guidance(model.description@),
            sizes: if supported {
                Some(download_text(model.packages@[at]))
            } else {
                None
            },
            enabled: supported && !self.busy && (source == InstallSource::Curated
                || self.approved.contains(approval_key(recipe))),
            unavailable: if supported {
                None
            } else {
                Some("Not available for "@ + platform)
            },
        }
    }
}

/// What is shown of an installation.
#[derive(Debug, PartialEq, Eq)]
pub struct RecordRow {
    pub heading: String,
    pub integrity: String,
    pub details: String,
    pub path: String,
}

/// What is shown of an installation, given what is known of its integrity.
pub fn record_row(record: &InstallRecord, integrity: &str) -> (row: RecordRow)
    ensures
        row.heading@ == record.name@ + " · "@ + record.model_id@ + " · "@ + record.version@,
        row.integrity@ == "Integrity: "@ + integrity@,
        row.details@ == record.source.name() + "  •  "@ + record.platform@ + "  •  "@
            + record.publisher@ + "  •  "@ + record.license_spdx@,
        row.path@ == record.executable@.shown,
{
    let origin = join4(record.source.label(), "  •  ", record.platform.as_str(), "  •  ");
    RecordRow {
        heading: join5(
            record.name.as_str(),
            " · ",
            record.model_id.as_str(),
            " · ",
            record.version.as_str(),
        ),
        integrity: join2("Integrity: ", integrity),
        details: join4(
            origin.as_str(),
            record.publisher.as_str(),
            "  •  ",
            record.license_spdx.as_str(),
        ),
        path: record.executable.shown.clone(),
    }
}

/// What is shown of the installation that was made last.
pub fn ready_line(record: &InstallRecord) -> (text: String)
    ensures
        text@ == record.name@ + " ("@ + record.model_id@
            + ") passed checksum and UCI validation."@,
{
    join4(
        record.name.as_str(),
        " (",
        record.model_id.as_str(),
        ") passed checksum and UCI validation.",
    )
}

/// What is shown in place of curated recipes where there are none.
pub fn empty_catalog_line(refreshing: bool) -> (text: &'static str)
    ensures
        text@ == if refreshing {
            "Loading and verifying the latest curated catalogue…"@
        } else {
            "No curated engines are published in this signed catalog yet. You can import a data-only recipe in Custom Recipes."@
        },
{
    if refreshing {
        "Loading and verifying the latest curated catalogue…"
    } else {
        "No curated engines are published in this signed catalog yet. You can import a data-only recipe in Custom Recipes."
    }
}

/// What is shown where the application cannot start.
pub fn startup_error(message: &str) -> (text: String)
    ensures
        text@ == "UCI Grabber could not start:\n\n"@ + message@,
{
    join2("UCI Grabber could not start:\n\n", message)
}

/// An unreviewed recipe cannot be installed from its row before the user approves it.
pub proof fn unapproved_recipes_cannot_be_installed(
    app: AppView,
    recipe: Recipe,
    model: Model,
    platform: Seq<char>,
)
    requires
        !app.approved.contains(approval_key(recipe)),
    ensures
        !app.model_row(recipe, model, InstallSource::UnreviewedRecipe, platform).enabled,
{
}

/// Fetching a catalog that fails leaves the one that is there.
pub proof fn failed_refreshes_keep_the_catalog(app: AppView, error: Error)
    ensures
        app.receive(JobResult::Refreshed(Err(error))).catalog == app.catalog,
{
}

/// While work goes on no other begins.
pub proof fn one_job_at_a_time(app: AppView, recipe: Recipe, action: PostInstallAction)
    requires
        app.busy,
    ensures
        app.install(recipe, action) == app,
        app.refresh() == app,
        app.import() == app,
{
}

/// A recipe that is imported must be approved anew.
pub proof fn imports_take_approval_back(app: AppView, recipe: Recipe)
    ensures
        !app.receive(JobResult::Imported(Ok(recipe))).approved.contains(approval_key(recipe)),
{
}

/// A job that has ended leaves the application free for the next: nothing goes on, nothing can be
/// cancelled, and what was to follow an installation is forgotten. Progress changes nothing but
/// what is shown of it.
pub proof fn ended_jobs_leave_the_application_free(app: AppView, result: JobResult)
    ensures
        !(result is InstallProgress) ==> {
            let after = app.receive(result);
            &&& !after.busy
            &&& after.job_label is None
            &&& !after.cancellable
            &&& after.install_progress is None
            &&& after.post_install_action == PostInstallAction::ShowReady
        },
        result matches JobResult::InstallProgress(progress) ==> app.receive(result) == (AppView {
            install_progress: Some(progress),
            ..app
        }),
        app.receive(result).custom_recipes == app.custom_recipes,
        app.receive(result).installs == app.installs,
        app.receive(result).integrity == app.integrity,
        app.receive(result).custom_url == app.custom_url,
        app.receive(result).confirm_remove == app.confirm_remove,
{
}

/// An installation that was made is the recent one and its tab is opened; one that failed changes
/// what is said alone.
pub proof fn installations_are_shown_when_made(app: AppView, record: InstallRecord, error: Error)
    ensures
        ({
            let after = app.receive(JobResult::Installed(Ok(record)));
            &&& after.recent_install == Some(record.install_id@)
            &&& after.tab == Tab::Installed
            &&& after.catalog == app.catalog && after.approved == app.approved
        }),
        ({
            let after = app.receive(JobResult::Installed(Err(error)));
            &&& after.recent_install == app.recent_install && after.tab == app.tab
            &&& after.catalog == app.catalog && after.approved == app.approved
            &&& after.status == "Install failed: "@ + error@.message()
        }),
{
}

/// A catalog that was fetched takes the place of the one before; one that could not be fetched
/// changes what is said alone.
pub proof fn fetched_catalogs_are_used(app: AppView, catalog: VerifiedCatalog, error: Error)
    ensures
        ({
            let after = app.receive(JobResult::Refreshed(Ok(catalog)));
            &&& after.catalog == catalog && !after.catalog_refreshing
            &&& after.tab == app.tab && after.approved == app.approved
        }),
        ({
            let after = app.receive(JobResult::Refreshed(Err(error)));
            &&& after.catalog == app.catalog && !after.catalog_refreshing
            &&& after.tab == app.tab && after.approved == app.approved
            &&& after.status == "Catalog refresh failed; kept previous catalog: "@
                + error@.message()
        }),
{
}

/// An import takes the approval of that version of that recipe back and of no other; one that
/// failed changes what is said alone.
pub proof fn imports_keep_other_approvals(
    app: AppView,
    recipe: Recipe,
    error: Error,
    other: Seq<char>,
)
    ensures
        ({
            let after = app.receive(JobResult::Imported(Ok(recipe)));
            &&& other != approval_key(recipe) ==> (after.approved.contains(other)
                <==> app.approved.contains(other))
            &&& after.tab == app.tab && after.catalog == app.catalog
        }),
        ({
            let after = app.receive(JobResult::Imported(Err(error)));
            &&& after.approved == app.approved && after.tab == app.tab && after.catalog
                == app.catalog
            &&& after.status == "Recipe import failed: "@ + error@.message()
        }),
{
}

/// A job that is begun while none goes on keeps the application busy until it ends; an
/// installation, and nothing else, can be cancelled.
pub proof fn begun_jobs_keep_the_application_busy(
    app: AppView,
    recipe: Recipe,
    action: PostInstallAction,
)
    requires
        !app.busy,
    ensures
        app.install(recipe, action).busy && app.install(recipe, action).cancellable,
        app.install(recipe, action).post_install_action == action,
        app.install(recipe, action).install_progress is None,
        app.install(recipe, action).job_label == Some("Installing "@ + recipe.name@ + "…"@),
        app.refresh().busy && !app.refresh().cancellable && app.refresh().catalog_refreshing,
        app.import().busy && !app.import().cancellable,
        app.install(recipe, action).catalog == app.catalog && app.refresh().catalog == app.catalog
            && app.import().catalog == app.catalog,
        app.install(recipe, action).approved == app.approved && app.refresh().approved
            == app.approved && app.import().approved == app.approved,
{
}

/// What follows an installation is that it is entered, and handed over where that was asked for;
/// what follows an import is that the recipes are loaded again; nothing follows anything else.
pub proof fn only_successes_are_followed_up(
    record: InstallRecord,
    recipe: Recipe,
    error: Error,
    action: PostInstallAction,
    follow: FollowUp,
)
    ensures
        follows(JobResult::Installed(Ok(record)), action, follow) <==> follow == (
        FollowUp::Installed { record, open: action == PostInstallAction::OpenInFishEye }),
        follows(JobResult::Imported(Ok(recipe)), action, follow) <==> follow
            == FollowUp::ReloadCustom,
        follows(JobResult::Installed(Err(error)), action, follow) <==> follow == FollowUp::Nothing,
        follows(JobResult::Imported(Err(error)), action, follow) <==> follow == FollowUp::Nothing,
        follows(JobResult::Refreshed(Err(error)), action, follow) <==> follow == FollowUp::Nothing,
{
}

/// Approval is of one version of one recipe, neither of which holds a colon.
pub proof fn approval_is_of_one_version(left: Recipe, right: Recipe)
    requires
        !left.id@.contains(':'),
        !left.version@.contains(':'),
        !right.id@.contains(':'),
        !right.version@.contains(':'),
    ensures
        approval_key(left) == approval_key(right) <==> left.id@ == right.id@ && left.version@
            == right.version@,
{
    reveal_strlit(":");
    let one = seq![left.id@, left.version@];
    let other = seq![right.id@, right.version@];
    joined_texts_fall_apart_again(one, ':');
    joined_texts_fall_apart_again(other, ':');
    reveal_with_fuel(joined_with, 3);
    assert(one.skip(1) =~= seq![left.version@]);
    assert(other.skip(1) =~= seq![right.version@]);
    assert(joined_with(one, ':') =~= approval_key(left));
    assert(joined_with(other, ':') =~= approval_key(right));
    if approval_key(left) == approval_key(right) {
        assert(one == other);
        assert(one[0] == other[0] && one[1] == other[1]);
    }
}

/// A model can be installed if and only if it has a package for the platform, nothing else goes on,
/// and its recipe was reviewed or approved.
pub proof fn models_can_be_installed_when_approved(
    app: AppView,
    recipe: Recipe,
    model: Model,
    source: InstallSource,
    platform: Seq<char>,
)
    ensures
        ({
            let row = app.model_row(recipe, model, source, platform);
            let at = package_at(model.packages@, platform, 0);
            &&& row.enabled <==> at < model.packages@.len() && !app.busy && (source
                == InstallSource::Curated || app.approved.contains(approval_key(recipe)))
            &&& row.unavailable is None <==> at < model.packages@.len()
            &&& row.sizes is Some <==> at < model.packages@.len()
            &&& row.sizes matches Some(sizes) ==> sizes == download_text(model.packages@[at])
            &&& row.unavailable matches Some(said) ==> said == "Not available for "@ + platform
            &&& row.guidance == guidance(model.description@)
        }),
{
}

/// Before they are checked, installations whose executable is there are said not to be checked, and
/// all others to be missing.
pub proof fn unchecked_installations_are_said_to_be_so(
    installs: Seq<InstallRecord>,
    present: Seq<bool>,
    count: int,
    i: int,
)
    requires
        0 <= i < count <= installs.len(),
        forall|k: int|
            0 <= k < count && k != i ==> (#[trigger] installs[k]).install_id@
                != installs[i].install_id@,
    ensures
        first_labels(installs, present, count).contains_key(installs[i].install_id@),
        first_labels(installs, present, count)[installs[i].install_id@] == if present[i] {
            "Not checked"@
        } else {
            "Missing"@
        },
    decreases count,
{
    if i < count - 1 {
        unchecked_installations_are_said_to_be_so(installs, present, count - 1, i);
        let last = installs[count - 1];
    }
}

/// What a check found is said in words.
pub proof fn checks_are_said_in_words(outcome: Result<IntegrityView, ErrorView>)
    ensures
        outcome matches Ok(integrity) ==> {
            &&& integrity is Verified ==> checked_label(outcome) == "Verified"@
            &&& integrity is Missing ==> checked_label(outcome) == "Missing"@
            &&& integrity is Changed ==> checked_label(outcome) == "Changed — do not launch"@
        },
        outcome matches Err(error) ==> checked_label(outcome) == "Check failed: "@
            + error.message(),
{
}

/// The application starts with the cached catalog, where it can be used, and does not fetch it
/// then; it starts with the bundled one and fetches the latest where it cannot.
pub proof fn cached_catalogs_come_first(
    cached: VerifiedCatalog,
    bundled: VerifiedCatalog,
    problem: Error,
    any: Result<VerifiedCatalog, Error>,
)
    ensures
        first_catalog(Ok(Some(cached)), any) matches Ok((used, _, fetched)) && used == cached
            && !fetched,
        first_catalog(Ok(None), Ok(bundled)) matches Ok((used, _, fetched)) && used == bundled
            && fetched,
        first_catalog(Err(problem), Ok(bundled)) matches Ok((used, _, fetched)) && used == bundled
            && fetched,
        first_catalog(Ok(None), Err(problem)) == Err::<(VerifiedCatalog, Seq<char>, bool), ErrorView>(
            problem@,
        ),
{
}

} // verus!
