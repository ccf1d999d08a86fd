//! What the three views of the application show.

use vstd::prelude::*;
use crate::app::{
    approval_key, empty_catalog_line, ready_line, record_row, AppView, GrabberApp, ModelRow,
    ModelRowView, RecordRow,
};
use crate::display::{
    artifact_row, fisheye_line, kind_text, model_card, package_heading, publisher_line,
    recipe_heading, size_text, ArtifactRow,
};
use crate::install::{find_package, package_at};
use crate::registry::{InstallRecord, InstallSource};
use crate::schema::{Artifact, ArtifactKind, Model, Package, Recipe};
use crate::text::same_text;
use crate::web::optional;

verus! {

/// An [`ArtifactRow`] with its texts as sequences of characters.
pub struct ArtifactRowView {
    pub label: Seq<char>,
    pub digest: Seq<char>,
    pub model_card: Option<Seq<char>>,
}

impl View for ArtifactRow {
    type V = ArtifactRowView;

    open spec fn view(&self) -> ArtifactRowView {
        ArtifactRowView {
            label: self.label@,
            digest: self.digest@,
            model_card: optional(self.model_card),
        }
    }
}

/// What is shown of an artifact.
pub open spec fn artifact_shown(artifact: Artifact) -> ArtifactRowView {
    ArtifactRowView {
        label: kind_text(artifact.kind) + " · "@ + size_text(artifact.byte_count) + " · "@
            + artifact.destination@,
        digest: "SHA-256  "@ + artifact.sha256@,
        model_card: if artifact.kind == ArtifactKind::Model {
            model_card(artifact.url@)
        } else {
            None
        },
    }
}

/// The package of a model for the platform, in detail.
#[derive(Debug, PartialEq, Eq)]
pub struct PackageCard {
    pub heading: String,
    pub artifacts: Vec<ArtifactRow>,
}

/// A [`PackageCard`] with its texts as sequences of characters.
#[verifier::ext_equal]
pub struct PackageCardView {
    pub heading: Seq<char>,
    pub artifacts: Seq<ArtifactRowView>,
}

impl View for PackageCard {
    type V = PackageCardView;

    open spec fn view(&self) -> PackageCardView {
        PackageCardView {
            heading: self.heading@,
            artifacts: self.artifacts@.map_values(|row: ArtifactRow| row@),
        }
    }
}

/// What is shown of a package in detail.
pub open spec fn package_shown(model: Model, package: Package) -> PackageCardView {
    PackageCardView {
        heading: model.name@ + " · "@ + package.platform@,
        artifacts: package.artifacts@.map_values(|artifact: Artifact| artifact_shown(artifact)),
    }
}

/// What is shown of a package in detail.
pub fn package_card(model: &Model, package: &Package) -> (card: PackageCard)
    ensures
        card@ == package_shown(*model, *package),
{
    let mut artifacts: Vec<ArtifactRow> = Vec::new();
    for i in 0..package.artifacts.len()
        invariant
            artifacts@.len() == i,
            forall|j: int|
                0 <= j < i ==> (#[trigger] artifacts@[j])@ == artifact_shown(package.artifacts@[j]),
    {
        artifacts.push(artifact_row(&package.artifacts[i]));
    }
    let card = PackageCard { heading: package_heading(model, package), artifacts };
    assert(card@.artifacts =~= package_shown(*model, *package).artifacts);
    card
}

/// The packages for a platform of the first `count` models, in detail.
pub open spec fn packages_shown(models: Seq<Model>, platform: Seq<char>, count: int) -> Seq<
    PackageCardView,
>
    decreases count,
{
    if count <= 0 {
        Seq::empty()
    } else {
        let model = models[count - 1];
        let at = package_at(model.packages@, platform, 0);
        if at < model.packages@.len() {
            packages_shown(models, platform, count - 1).push(
                package_shown(model, model.packages@[at]),
            )
        } else {
            packages_shown(models, platform, count - 1)
        }
    }
}

/// What is shown of a recipe.
#[derive(Debug, PartialEq, Eq)]
pub struct RecipeCard {
    pub heading: String,
    pub publisher: String,
    pub fisheye: String,
    pub packages: Vec<PackageCard>,
    /// Whether the recipe is approved, where it must be.
    pub approved: Option<bool>,
    pub models: Vec<ModelRow>,
}

/// A [`RecipeCard`] with its texts as sequences of characters.
#[verifier::ext_equal]
pub struct RecipeCardView {
    pub heading: Seq<char>,
    pub publisher: Seq<char>,
    pub fisheye: Seq<char>,
    pub packages: Seq<PackageCardView>,
    pub approved: Option<bool>,
    pub models: Seq<ModelRowView>,
}

impl View for RecipeCard {
    type V = RecipeCardView;

    open spec fn view(&self) -> RecipeCardView {
        RecipeCardView {
            heading: self.heading@,
            publisher: self.publisher@,
            fisheye: self.fisheye@,
            packages: self.packages@.map_values(|card: PackageCard| card@),
            approved: self.approved,
            models: self.models@.map_values(|row: ModelRow| row@),
        }
    }
}

impl AppView {
    /// What is shown of a recipe on a platform.
    pub open spec fn recipe_card(
        self,
        recipe: Recipe,
        source: InstallSource,
        platform: Seq<char>,
    ) -> RecipeCardView {
        RecipeCardView {
            heading: recipe.name@ + " "@ + recipe.version@,
            publisher: "Publisher: "@ + recipe.publisher.name@ + "  •  License: "@
                + recipe.license.name@ + " ("@ + recipe.license.spdx@ + ")"@,
            fisheye: "Optional FishEye integration: version "@ + recipe.minimum_fisheye_version@
                + " or newer"@,
            packages: packages_shown(recipe.models@, platform, recipe.models@.len() as int),
            approved: match source {
                InstallSource::Curated => None,
                InstallSource::UnreviewedRecipe => Some(
                    self.approved.contains(approval_key(recipe)),
                ),
            },
            models: Seq::new(
                recipe.models@.len(),
                |i: int| self.model_row(recipe, recipe.models@[i], source, platform),
            ),
        }
    }
}

impl GrabberApp {
    /// What is shown of a recipe on a platform.
    pub fn recipe_card(&self, recipe: &Recipe, source: InstallSource, platform: &str) -> (card:
        RecipeCard)
        requires
            self.wf(),
        ensures
            card@ == self@.recipe_card(*recipe, source, platform@),
    {
        let mut packages: Vec<PackageCard> = Vec::new();
        let mut models: Vec<ModelRow> = Vec::new();
        assert(packages@.map_values(|card: PackageCard| card@) =~= Seq::empty());
        for i in 0..recipe.models.len()
            invariant
                self.wf(),
                packages@.map_values(|card: PackageCard| card@) == packages_shown(
                    recipe.models@,
                    platform@,
                    i as int,
                ),
                models@.len() == i,
                forall|j: int|
                    0 <= j < i ==> (#[trigger] models@[j])@ == self@.model_row(
                        *recipe,
                        recipe.models@[j],
                        source,
                        platform@,
                    ),
        {
            let model = &recipe.models[i];
            let at = find_package(&model.packages, platform);
            if at < model.packages.len() {
                let ghost before = packages@;
                let card = package_card(model, &model.packages[at]);
                packages.push(card);
                assert(packages@.map_values(|card: PackageCard| card@) =~= before.map_values(
                    |card: PackageCard| card@,
                ).push(card@));
            }
            models.push(self.model_row(recipe, model, source, platform));
        }
        let card = RecipeCard {
            heading: recipe_heading(recipe),
            publisher: publisher_line(recipe),
            fisheye: fisheye_line(recipe),
            packages,
            approved: match source {
                InstallSource::Curated => None,
                InstallSource::UnreviewedRecipe => Some(self.approves(recipe)),
            },
            models,
        };
        assert(card@.models =~= self@.recipe_card(*recipe, source, platform@).models);
        card
    }

    /// What is shown of recipes on a platform.
    pub fn recipe_list(&self, recipes: &Vec<Recipe>, source: InstallSource, platform: &str) -> (cards:
        Vec<RecipeCard>)
        requires
            self.wf(),
        ensures
            cards@.len() == recipes@.len(),
            forall|i: int|
                0 <= i < cards@.len() ==> (#[trigger] cards@[i])@ == self@.recipe_card(
                    recipes@[i],
                    source,
                    platform@,
                ),
    {
        let mut cards: Vec<RecipeCard> = Vec::new();
        for i in 0..recipes.len()
            invariant
                self.wf(),
                cards@.len() == i,
                forall|j: int|
                    0 <= j < i ==> (#[trigger] cards@[j])@ == self@.recipe_card(
                        recipes@[j],
                        source,
                        platform@,
                    ),
        {
            cards.push(self.recipe_card(&recipes[i], source, platform));
        }
        cards
    }

    /// What the view of the catalog shows: the curated recipes, or a line where there are none.
    pub fn catalog_ui(&self, platform: &str) -> (shown: Result<Vec<RecipeCard>, &'static str>)
        requires
            self.wf(),
        ensures
            self@.catalog.catalog.recipes@.len() == 0 ==> (shown matches Err(line) && line@
                == if self@.catalog_refreshing {
                "Loading and verifying the latest curated catalogue…"@
            } else {
                "No curated engines are published in this signed catalog yet. You can import a data-only recipe in Custom Recipes."@
            }),
            self@.catalog.catalog.recipes@.len() > 0 ==> (shown matches Ok(cards) && {
                &&& cards@.len() == self@.catalog.catalog.recipes@.len()
                &&& forall|i: int|
                    0 <= i < cards@.len() ==> (#[trigger] cards@[i])@ == self@.recipe_card(
                        self@.catalog.catalog.recipes@[i],
                        InstallSource::Curated,
                        platform@,
                    )
            }),
    {
        if self.catalog.catalog.recipes.len() == 0 {
            Err(empty_catalog_line(self.catalog_refreshing))
        } else {
            Ok(self.recipe_list(&self.catalog.catalog.recipes, InstallSource::Curated, platform))
        }
    }

    /// What the view of the imported recipes shows: the recipes, or a line where there are none.
    pub fn custom_ui(&self, platform: &str) -> (shown: Result<Vec<RecipeCard>, &'static str>)
        requires
            self.wf(),
        ensures
            self@.custom_recipes.len() == 0 ==> (shown matches Err(line) && line@
                == "No custom recipes imported."@),
            self@.custom_recipes.len() > 0 ==> (shown matches Ok(cards) && {
                &&& cards@.len() == self@.custom_recipes.len()
                &&& forall|i: int|
                    0 <= i < cards@.len() ==> (#[trigger] cards@[i])@ == self@.recipe_card(
                        self@.custom_recipes[i],
                        InstallSource::UnreviewedRecipe,
                        platform@,
                    )
            }),
    {
        if self.custom_recipes.len() == 0 {
            Err("No custom recipes imported.")
        } else {
            Ok(self.recipe_list(&self.custom_recipes, InstallSource::UnreviewedRecipe, platform))
        }
    }
}

/// A [`RecordRow`] with its texts as sequences of characters.
pub struct RecordRowView {
    pub heading: Seq<char>,
    pub integrity: Seq<char>,
    pub details: Seq<char>,
    pub path: Seq<char>,
    pub confirming: bool,
}

/// An installation as it is shown, and whether removing it waits for confirmation.
#[derive(Debug, PartialEq, Eq)]
pub struct InstallCard {
    pub row: RecordRow,
    pub confirming: bool,
}

impl View for InstallCard {
    type V = RecordRowView;

    open spec fn view(&self) -> RecordRowView {
        RecordRowView {
            heading: self.row.heading@,
            integrity: self.row.integrity@,
            details: self.row.details@,
            path: self.row.path@,
            confirming: self.confirming,
        }
    }
}

impl AppView {
    /// What is shown of an installation.
    pub open spec fn install_card(self, record: InstallRecord) -> RecordRowView {
        RecordRowView {
            heading: record.name@ + " · "@ + record.model_id@ + " · "@ + record.version@,
            integrity: "Integrity: "@ + (if self.integrity.contains_key(record.install_id@) {
                self.integrity[record.install_id@]
            } else {
                "Not checked"@
            }),
            details: record.source.name() + "  •  "@ + record.platform@ + "  •  "@
                + record.publisher@ + "  •  "@ + record.license_spdx@,
            path: record.executable@.shown,
            confirming: self.confirm_remove == Some(record.install_id@),
        }
    }
}

impl GrabberApp {
    /// What is shown of an installation.
    pub fn install_card(&self, record: &InstallRecord) -> (card: InstallCard)
        requires
            self.wf(),
        ensures
            card@ == self@.install_card(*record),
    {
        let integrity = self.integrity_of(record.install_id.as_str());
        let confirming = match &self.confirm_remove {
            Some(id) => same_text(id.as_str(), record.install_id.as_str()),
            None => false,
        };
        InstallCard { row: record_row(record, integrity.as_str()), confirming }
    }

    /// What the view of the installations shows: the line of the one that was made last, and each
    /// of them; or a line where there are none.
    pub fn installed_ui(&self) -> (shown: Result<(Option<String>, Vec<InstallCard>), &'static str>)
        requires
            self.wf(),
        ensures
            self@.installs.len() == 0 ==> (shown matches Err(line) && line@
                == "No UCI packages installed."@),
            self@.installs.len() > 0 ==> (shown matches Ok((ready, cards)) && {
                &&& cards@.len() == self@.installs.len()
                &&& forall|i: int|
                    0 <= i < cards@.len() ==> (#[trigger] cards@[i])@ == self@.install_card(
                        self@.installs[i],
                    )
                &&& match ready {
                    Some(line) => exists|i: int|
                        {
                            let record = #[trigger] self@.installs[i];
                            &&& 0 <= i < self@.installs.len()
                            &&& self@.recent_install == Some(record.install_id@)
                            &&& forall|j: int|
                                0 <= j < i ==> (#[trigger] self@.installs[j]).install_id@
                                    != record.install_id@
                            &&& line@ == record.name@ + " ("@ + record.model_id@
                                + ") passed checksum and UCI validation."@
                        },
                    None => self@.recent_install matches Some(id) ==> forall|i: int|
                        0 <= i < self@.installs.len() ==> (#[trigger] self@.installs[i]).install_id@
                            != id,
                }
            }),
    {
        if self.installs.len() == 0 {
            return Err("No UCI packages installed.");
        }
        let mut cards: Vec<InstallCard> = Vec::new();
        for i in 0..self.installs.len()
            invariant
                self.wf(),
                cards@.len() == i,
                forall|j: int|
                    0 <= j < i ==> (#[trigger] cards@[j])@ == self@.install_card(
                        self.installs@[j],
                    ),
        {
            cards.push(self.install_card(&self.installs[i]));
        }
        let ready = match self.recent() {
            Some(record) => Some(ready_line(record)),
            None => None,
        };
        Ok((ready, cards))
    }
}

/// An artifact is shown with what it is for, its size, its destination and its digest; a model, and
/// nothing else, with its card.
pub proof fn artifacts_are_shown_as_they_are(artifact: Artifact)
    ensures
        artifact_shown(artifact).label == kind_text(artifact.kind) + " · "@ + size_text(
            artifact.byte_count,
        ) + " · "@ + artifact.destination@,
        artifact_shown(artifact).digest == "SHA-256  "@ + artifact.sha256@,
        artifact.kind == ArtifactKind::Model ==> artifact_shown(artifact).model_card == model_card(
            artifact.url@,
        ),
        artifact.kind != ArtifactKind::Model ==> artifact_shown(artifact).model_card is None,
{
}

/// A package is shown with the name of its model, its platform and each of its artifacts.
pub proof fn packages_are_shown_as_they_are(model: Model, package: Package, i: int)
    requires
        0 <= i < package.artifacts@.len(),
    ensures
        package_shown(model, package).heading == model.name@ + " · "@ + package.platform@,
        package_shown(model, package).artifacts.len() == package.artifacts@.len(),
        package_shown(model, package).artifacts[i] == artifact_shown(package.artifacts@[i]),
{
}

/// Of each model the package for the platform is shown, where it has one, in the order of the
/// models.
pub proof fn packages_of_the_platform_are_shown(
    models: Seq<Model>,
    platform: Seq<char>,
    count: int,
    at: int,
)
    requires
        0 <= count < models.len(),
        0 <= at <= models[count].packages@.len(),
        forall|i: int|
            0 <= i < at ==> (#[trigger] models[count].packages@[i]).platform@ != platform,
        at < models[count].packages@.len() ==> models[count].packages@[at].platform@ == platform,
    ensures
        packages_shown(models, platform, 0) == Seq::<PackageCardView>::empty(),
        packages_shown(models, platform, count + 1) == if at < models[count].packages@.len() {
            packages_shown(models, platform, count).push(
                package_shown(models[count], models[count].packages@[at]),
            )
        } else {
            packages_shown(models, platform, count)
        },
{
    lemma_found_package(models[count].packages@, platform, 0, at);
}

proof fn lemma_found_package(packages: Seq<Package>, platform: Seq<char>, from: int, at: int)
    requires
        0 <= from <= at <= packages.len(),
        forall|i: int| 0 <= i < at ==> (#[trigger] packages[i]).platform@ != platform,
        at < packages.len() ==> packages[at].platform@ == platform,
    ensures
        package_at(packages, platform, from) == at,
    decreases at - from,
{
    if from < at {
        lemma_found_package(packages, platform, from + 1, at);
    }
}

/// A recipe is shown with its name and version, who publishes it under which license, the version
/// of FishEye that it needs, whether it is approved where that is asked for, and each of its
/// models.
pub proof fn recipes_are_shown_as_they_are(
    app: AppView,
    recipe: Recipe,
    source: InstallSource,
    platform: Seq<char>,
    i: int,
)
    requires
        0 <= i < recipe.models@.len(),
    ensures
        ({
            let card = app.recipe_card(recipe, source, platform);
            &&& card.heading == recipe.name@ + " "@ + recipe.version@
            &&& card.publisher == "Publisher: "@ + recipe.publisher.name@ + "  •  License: "@
                + recipe.license.name@ + " ("@ + recipe.license.spdx@ + ")"@
            &&& card.fisheye == "Optional FishEye integration: version "@
                + recipe.minimum_fisheye_version@ + " or newer"@
            &&& source == InstallSource::Curated ==> card.approved is None
            &&& source == InstallSource::UnreviewedRecipe ==> card.approved == Some(
                app.approved.contains(approval_key(recipe)),
            )
            &&& card.models.len() == recipe.models@.len()
            &&& card.models[i] == app.model_row(recipe, recipe.models@[i], source, platform)
            &&& card.packages == packages_shown(
                recipe.models@,
                platform,
                recipe.models@.len() as int,
            )
        }),
{
}

/// An installation is shown with its name, model and version, what is known of its integrity, where
/// it came from, and where its executable is.
pub proof fn installations_are_shown_as_they_are(app: AppView, record: InstallRecord)
    ensures
        ({
            let row = app.install_card(record);
            &&& row.heading == record.name@ + " · "@ + record.model_id@ + " · "@ + record.version@
            &&& app.integrity.contains_key(record.install_id@) ==> row.integrity == "Integrity: "@
                + app.integrity[record.install_id@]
            &&& !app.integrity.contains_key(record.install_id@) ==> row.integrity == "Integrity: "@
                + "Not checked"@
            &&& row.details == record.source.name() + "  •  "@ + record.platform@ + "  •  "@
                + record.publisher@ + "  •  "@ + record.license_spdx@
            &&& row.path == record.executable@.shown
            &&& row.confirming <==> app.confirm_remove == Some(record.install_id@)
        }),
        record.source.name() == if record.source == InstallSource::Curated {
            "Curated"@
        } else {
            "Unreviewed"@
        },
{
}

} // verus!
