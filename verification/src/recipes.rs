//! Recipes that the user imported.

use vstd::prelude::*;
use crate::error::{fails_with, Error, ErrorView};
use crate::order::{
    comes_before, lemma_less_irreflexive, lemma_less_total, lemma_less_transitive, text_less,
};
use crate::place::{texts_view, Place, PlaceView};
use crate::schema::{https_urls, manifest_size_fault, recipe_fault, Recipe};
use crate::sorting::{sort, sorted_from, sorting_has_one_result, Ranked};
use crate::text::{begins_with, join2, join5, same_text, text_starts_with};

verus! {

/// Where imported recipes are kept.
#[derive(Clone, Debug, PartialEq, Eq)]
pub struct CustomRecipeStore {
    directory: Place,
}

/// Where a recipe that is to be imported is.
#[derive(Clone, Copy, Debug, PartialEq, Eq, Structural)]
pub enum ImportSource {
    /// On the web.
    Address,
    /// In a file.
    File,
}

/// What stands already where a recipe is to be kept.
pub enum Stored {
    /// Nothing.
    Nothing,
    /// Something that is not a regular file.
    NotRegular,
    /// A file: its length, what the JSON reader made of it, and that written out again.
    Manifest { length: u64, parsed: Result<Recipe, String>, canonical: Vec<u8> },
}

/// What is done to keep a recipe.
#[derive(Clone, Copy, Debug, PartialEq, Eq, Structural)]
pub enum Keeping {
    /// It is written.
    Write,
    /// It is there.
    Present,
}

/// The complaint about what is kept under the identifier and the version of a recipe.
pub open spec fn kept_error(recipe: Recipe, complaint: Seq<char>) -> ErrorView {
    ErrorView::InvalidRecipe(
        "custom recipe "@ + recipe.id@ + " "@ + recipe.version@ + complaint,
    )
}

/// What is done to keep a recipe, or why it cannot be kept: what is kept under its identifier and
/// version never changes.
pub open spec fn keeping(recipe: Recipe, canonical: Seq<u8>, stored: Stored) -> Result<
    Keeping,
    ErrorView,
> {
    match recipe_fault(recipe, https_urls()) {
        Some(error) => Err(error),
        None => match stored {
            Stored::Nothing => Ok(Keeping::Write),
            Stored::NotRegular => Err(
                kept_error(recipe, " is not a regular immutable manifest"@),
            ),
            Stored::Manifest { length, parsed, canonical: kept } => match read_fault(
                length as nat,
                parsed,
            ) {
                Some(error) => Err(error),
                None => if kept@ == canonical {
                    Ok(Keeping::Present)
                } else {
                    Err(
                        kept_error(
                            recipe,
                            " is immutable; import changed content under a new version"@,
                        ),
                    )
                },
            },
        },
    }
}

/// Why a recipe document of a length is refused, by what the JSON reader made of it.
pub open spec fn read_fault(length: nat, parsed: Result<Recipe, String>) -> Option<ErrorView> {
    match manifest_size_fault(length) {
        Some(error) => Some(error),
        None => match parsed {
            Err(message) => Some(ErrorView::Json(message@)),
            Ok(recipe) => recipe_fault(recipe, https_urls()),
        },
    }
}

/// Whether two runs of bytes are equal.
pub fn same_bytes(left: &[u8], right: &[u8]) -> (same: bool)
    ensures
        same == (left@ == right@),
{
    if left.len() != right.len() {
        return false;
    }
    for i in 0..left.len()
        invariant
            left@.len() == right@.len(),
            forall|k: int| 0 <= k < i ==> left@[k] == right@[k],
    {
        if left[i] != right[i] {
            return false;
        }
    }
    assert(left@ =~= right@);
    true
}

impl Ranked for Recipe {
    open spec fn before(self, other: Recipe) -> bool {
        ||| text_less(self.name@, other.name@)
        ||| self.name@ == other.name@ && text_less(self.version@, other.version@)
    }

    proof fn lemma_asymmetric(one: Recipe, other: Recipe) {
        lemma_less_irreflexive(one.name@);
        lemma_less_irreflexive(one.version@);
        if other.before(one) {
            if text_less(one.name@, other.name@) && text_less(other.name@, one.name@) {
                lemma_less_transitive(one.name@, other.name@, one.name@);
            }
            if text_less(one.version@, other.version@) && text_less(other.version@, one.version@) {
                lemma_less_transitive(one.version@, other.version@, one.version@);
            }
        }
    }

    proof fn lemma_after(one: Recipe, early: Recipe, late: Recipe) {
        if early.name@ != late.name@ {
            lemma_less_total(early.name@, late.name@);
        }
        if early.version@ != late.version@ {
            lemma_less_total(early.version@, late.version@);
        }
        if text_less(one.name@, early.name@) && text_less(early.name@, late.name@) {
            lemma_less_transitive(one.name@, early.name@, late.name@);
        }
        if text_less(one.version@, early.version@) && text_less(early.version@, late.version@) {
            lemma_less_transitive(one.version@, early.version@, late.version@);
        }
    }

    fn precedes(&self, other: &Recipe) -> (answer: bool) {
        if comes_before(self.name.as_str(), other.name.as_str()) {
            return true;
        }
        if !same_text(self.name.as_str(), other.name.as_str()) {
            return false;
        }
        comes_before(self.version.as_str(), other.version.as_str())
    }
}

impl CustomRecipeStore {
    /// The directory of the recipes.
    pub closed spec fn view(&self) -> PlaceView {
        self.directory@
    }

    /// The store in a directory.
    pub fn new(directory: Place) -> (store: CustomRecipeStore)
        ensures
            store@ == directory@,
    {
        CustomRecipeStore { directory }
    }

    /// The directory of the recipes.
    pub fn directory(&self) -> (place: &Place)
        ensures
            place@ == self@,
    {
        &self.directory
    }

    /// Where a recipe that is to be imported is.
    pub fn source_kind(source: &str) -> (kind: ImportSource)
        ensures
            kind == if begins_with(source@, "https://"@) {
                ImportSource::Address
            } else {
                ImportSource::File
            },
    {
        if text_starts_with(source, "https://") {
            ImportSource::Address
        } else {
            ImportSource::File
        }
    }

    /// Accepts a recipe that is to be imported, by what the JSON reader made of its document.
    pub fn import(&self, bytes: &[u8], parsed: Result<Recipe, String>) -> (outcome: Result<
        Recipe,
        Error,
    >)
        ensures
            match read_fault(bytes@.len(), parsed) {
                Some(error) => fails_with(outcome, error),
                None => outcome == Ok::<Recipe, Error>(parsed->Ok_0),
            },
    {
        Recipe::from_json(bytes, parsed)
    }

    /// The directory in which the versions of a recipe are kept.
    pub fn recipe_directory(&self, recipe: &Recipe) -> (place: Place)
        ensures
            place@ == self@.below(seq![recipe.id@]),
    {
        self.directory.child(recipe.id.as_str())
    }

    /// The file in which a recipe is kept.
    pub fn recipe_path(&self, recipe: &Recipe) -> (place: Place)
        ensures
            place@ == self@.below(seq![recipe.id@, recipe.version@ + ".json"@]),
    {
        let mut names: Vec<String> = Vec::new();
        names.push(recipe.id.clone());
        names.push(join2(recipe.version.as_str(), ".json"));
        assert(texts_view(names@) =~= seq![recipe.id@, recipe.version@ + ".json"@]);
        self.directory.below(&names)
    }

    /// Decides what is done to keep a recipe, which is `canonical` when written out, given what
    /// stands already where it is kept.
    pub fn save(&self, recipe: &Recipe, canonical: &[u8], stored: Stored) -> (outcome: Result<
        Keeping,
        Error,
    >)
        ensures
            match keeping(*recipe, canonical@, stored) {
                Ok(kept) => outcome == Ok::<Keeping, Error>(kept),
                Err(error) => fails_with(outcome, error),
            },
    {
        match recipe.validate() {
            Err(error) => {
                return Err(error);
            },
            Ok(()) => {},
        }
        match stored {
            Stored::Nothing => Ok(Keeping::Write),
            Stored::NotRegular => Err(
                Error::InvalidRecipe(
                    join5(
                        "custom recipe ",
                        recipe.id.as_str(),
                        " ",
                        recipe.version.as_str(),
                        " is not a regular immutable manifest",
                    ),
                ),
            ),
            Stored::Manifest { length, parsed, canonical: kept } => {
                match crate::schema::check_manifest_size(length) {
                    Err(error) => {
                        return Err(error);
                    },
                    Ok(()) => {},
                }
                match parsed {
                    Err(message) => {
                        return Err(Error::Json(message));
                    },
                    Ok(existing) => match existing.validate() {
                        Err(error) => {
                            return Err(error);
                        },
                        Ok(()) => {},
                    },
                }
                if same_bytes(kept.as_slice(), canonical) {
                    Ok(Keeping::Present)
                } else {
                    Err(
                        Error::InvalidRecipe(
                            join5(
                                "custom recipe ",
                                recipe.id.as_str(),
                                " ",
                                recipe.version.as_str(),
                                " is immutable; import changed content under a new version",
                            ),
                        ),
                    )
                }
            },
        }
    }

    /// The recipes that are kept, in the order of their names and versions.
    pub fn load_all(&self, recipes: Vec<Recipe>) -> (sorted: Vec<Recipe>)
        ensures
            sorted_from(sorted@, recipes@),
    {
        sort(recipes)
    }
}

/// What is kept of a recipe is written once: where something stands already it is left as it is.
pub proof fn kept_recipes_do_not_change(recipe: Recipe, canonical: Seq<u8>, stored: Stored)
    ensures
        keeping(recipe, canonical, stored) == Ok::<Keeping, ErrorView>(Keeping::Write)
            ==> stored is Nothing,
{
}

/// Importing what is kept once more is accepted and changes nothing.
pub proof fn importing_twice_is_importing_once(recipe: Recipe, canonical: Vec<u8>, length: u64)
    requires
        keeping(recipe, canonical@, Stored::Nothing) is Ok,
        manifest_size_fault(length as nat) is None,
    ensures
        keeping(
            recipe,
            canonical@,
            Stored::Manifest { length, parsed: Ok(recipe), canonical },
        ) == Ok::<Keeping, ErrorView>(Keeping::Present),
{
}

/// What is kept under an identifier and a version does not change: a recipe that is written
/// otherwise is refused as one that changes it.
pub proof fn changed_recipes_are_refused(recipe: Recipe, canonical: Seq<u8>, kept: KeptRecipe)
    requires
        recipe_fault(recipe, https_urls()) is None,
        read_fault(kept.length as nat, Ok(kept.recipe)) is None,
        kept.canonical@ != canonical,
    ensures
        keeping(recipe, canonical, kept.stored()) == Err::<Keeping, ErrorView>(
            kept_error(recipe, " is immutable; import changed content under a new version"@),
        ),
{
}

/// A recipe that is kept: what it is written out as, and how long its file is.
pub struct KeptRecipe {
    pub recipe: Recipe,
    pub canonical: Vec<u8>,
    pub length: u64,
}

impl KeptRecipe {
    /// What stands where the recipe is kept.
    pub open spec fn stored(self) -> Stored {
        Stored::Manifest { length: self.length, parsed: Ok(self.recipe), canonical: self.canonical }
    }

    /// Where the recipe is kept.
    pub open spec fn key(self) -> (Seq<char>, Seq<char>) {
        (self.recipe.id@, self.recipe.version@)
    }
}

/// The recipes that are kept, by their identifiers and versions.
pub type Shelf = Map<(Seq<char>, Seq<char>), KeptRecipe>;

/// What stands where a recipe is to be kept.
pub open spec fn stored_at(shelf: Shelf, key: (Seq<char>, Seq<char>)) -> Stored {
    if shelf.dom().contains(key) {
        shelf[key].stored()
    } else {
        Stored::Nothing
    }
}

/// What importing a recipe comes to.
pub open spec fn imported(shelf: Shelf, import: KeptRecipe) -> Result<Keeping, ErrorView> {
    keeping(import.recipe, import.canonical@, stored_at(shelf, import.key()))
}

/// The recipes that are kept once a recipe was imported; a refused one is not.
pub open spec fn after_import(shelf: Shelf, import: KeptRecipe) -> Shelf {
    if imported(shelf, import) == Ok::<Keeping, ErrorView>(Keeping::Write) {
        shelf.insert(import.key(), import)
    } else {
        shelf
    }
}

/// The recipes that are kept after imports, one after the other.
pub open spec fn after_imports(shelf: Shelf, imports: Seq<KeptRecipe>) -> Shelf
    decreases imports.len(),
{
    if imports.len() == 0 {
        shelf
    } else {
        after_import(after_imports(shelf, imports.drop_last()), imports.last())
    }
}

/// Whatever is imported afterwards, what is kept stays as it is.
pub proof fn imports_keep_what_is_kept(
    shelf: Shelf,
    imports: Seq<KeptRecipe>,
    key: (Seq<char>, Seq<char>),
)
    requires
        shelf.dom().contains(key),
    ensures
        after_imports(shelf, imports).dom().contains(key),
        after_imports(shelf, imports)[key] == shelf[key],
    decreases imports.len(),
{
    if imports.len() > 0 {
        imports_keep_what_is_kept(shelf, imports.drop_last(), key);
    }
}

/// After a recipe was imported into a store without it, importing it again is accepted, and
/// importing another one under its identifier and version is refused as changing it. Both leave what
/// is kept as it is, so the list that is loaded afterwards is that of before. The file of the recipe
/// must be within the limit for recipes.
pub proof fn imported_recipes_are_immutable(
    shelf: Shelf,
    import: KeptRecipe,
    changed: KeptRecipe,
    read: Seq<Recipe>,
    before: Seq<Recipe>,
    after: Seq<Recipe>,
)
    requires
        !shelf.dom().contains(import.key()),
        imported(shelf, import) is Ok,
        manifest_size_fault(import.length as nat) is None,
        recipe_fault(changed.recipe, https_urls()) is None,
        changed.key() == import.key(),
        changed.canonical@ != import.canonical@,
        sorted_from(before, read),
        sorted_from(after, read),
    ensures
        ({
            let kept = after_import(shelf, import);
            &&& kept == shelf.insert(import.key(), import)
            &&& imported(kept, import) == Ok::<Keeping, ErrorView>(Keeping::Present)
            &&& imported(kept, changed) == Err::<Keeping, ErrorView>(
                kept_error(
                    changed.recipe,
                    " is immutable; import changed content under a new version"@,
                ),
            )
            &&& after_import(kept, import) == kept
            &&& after_import(kept, changed) == kept
            &&& after == before
        }),
{
    sorting_has_one_result(after, before, read);
}

/// A store that keeps one recipe loads that one.
pub proof fn a_single_recipe_is_loaded(recipe: Recipe, loaded: Seq<Recipe>)
    requires
        sorted_from(loaded, seq![recipe]),
    ensures
        loaded == seq![recipe],
{
    assert(sorted_from(seq![recipe], seq![recipe]));
    sorting_has_one_result(loaded, seq![recipe], seq![recipe]);
}

/// Recipes are ordered by name, and those of one name by version.
pub proof fn recipes_are_ordered_by_name_first(left: Recipe, right: Recipe)
    ensures
        left.name@ != right.name@ ==> left.before(right) == text_less(left.name@, right.name@),
        left.name@ == right.name@ ==> left.before(right) == text_less(
            left.version@,
            right.version@,
        ),
{
    lemma_less_irreflexive(left.name@);
}

/// A recipe is written if and only if it is accepted and nothing is kept in its place; it is there
/// already if and only if what is kept can be read and is the same; anything else is refused.
pub proof fn recipes_are_kept_once(recipe: Recipe, canonical: Seq<u8>, stored: Stored)
    ensures
        keeping(recipe, canonical, stored) == Ok::<Keeping, ErrorView>(Keeping::Write) <==> {
            &&& recipe_fault(recipe, https_urls()) is None
            &&& stored is Nothing
        },
        keeping(recipe, canonical, stored) == Ok::<Keeping, ErrorView>(Keeping::Present) <==> {
            &&& recipe_fault(recipe, https_urls()) is None
            &&& stored matches Stored::Manifest { length, parsed, canonical: kept } && read_fault(
                length as nat,
                parsed,
            ) is None && kept@ == canonical
        },
{
}

/// A recipe document is read if and only if it has at most 524288 bytes, the JSON reader takes it,
/// and the recipe is accepted.
pub proof fn recipe_documents_are_limited(length: nat, parsed: Result<Recipe, String>)
    ensures
        read_fault(length, parsed) is None <==> length <= 524288 && (parsed matches Ok(recipe)
            && recipe_fault(recipe, https_urls()) is None),
{
}

} // verus!
