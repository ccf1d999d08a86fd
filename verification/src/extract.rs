//! What may be unpacked where: safe archive paths, and the limits on what one installation may
//! hold.

use vstd::prelude::*;
use vstd::slice::slice_subrange;
use crate::error::{fails_with, Error, ErrorView};
use crate::order::TextMap;
use crate::place::{parts_view, texts_view, Part, PartView, Place, PlaceView};
use crate::portable::{is_portable_component, is_portable_relative, is_portable_relative_path};
use crate::text::{
    chars_of, decimal, decimal_text, first_at, join5, joined_texts_fall_apart_again, joined_with,
    lemma_first_at, lowercase, pieces, same_text, split_chars, split_on, text_of, to_lower,
};

verus! {

/// The most bytes that one installation may hold.
pub const MAX_EXTRACTED_BYTES: u64 = 2_147_483_648;

/// The most files and directories that one installation may hold.
pub const MAX_ARCHIVE_ENTRIES: u64 = 40_000;

/// The most bytes that one file may hold.
pub const MAX_ARCHIVE_ENTRY_BYTES: u64 = 1_073_741_824;

/// Whether the file system keeps names apart that differ only in case.
#[derive(Clone, Copy, Debug, PartialEq, Eq, Structural)]
pub enum NameCase {
    /// Such names are one name, or may be.
    Folded,
    /// Such names are different names.
    Distinct,
}

/// A path without one slash at its end, the usual mark of a directory in an archive.
pub open spec fn without_trailing_slash(path: Seq<char>) -> Seq<char> {
    if path.len() > 0 && path.last() == '/' {
        path.drop_last()
    } else {
        path
    }
}

/// The names that a safe archive path consists of.
pub open spec fn archive_names(path: Seq<char>) -> Option<Seq<Seq<char>>> {
    let normalized = without_trailing_slash(path);
    if is_portable_relative(normalized, false) {
        Some(split_on(normalized, '/'))
    } else {
        None
    }
}

/// Reads a path of an archive: it must be a portable relative path, with one trailing slash at the
/// most.
pub fn safe_archive_path(path: &str) -> (outcome: Result<Vec<String>, Error>)
    ensures
        match archive_names(path@) {
            Some(names) => outcome matches Ok(found) && texts_view(found@) == names,
            None => fails_with(outcome, ErrorView::UnsafeArchiveEntry(path@)),
        },
{
    let chars = chars_of(path);
    let length = chars.len();
    let end: usize = if length > 0 && chars[length - 1] == '/' {
        length - 1
    } else {
        length
    };
    let normalized = slice_subrange(chars.as_slice(), 0, end);
    assert(normalized@ =~= without_trailing_slash(path@));
    if !is_portable_relative_path(text_of(normalized).as_str(), false) {
        return Err(Error::UnsafeArchiveEntry(path.to_owned()));
    }
    let parts = split_chars(normalized, '/');
    let mut names: Vec<String> = Vec::new();
    for i in 0..parts.len()
        invariant
            texts_view(names@) == pieces(parts@).take(i as int),
    {
        let name = text_of(parts[i].as_slice());
        let ghost before = names@;
        names.push(name);
        proof {
            assert(texts_view(names@) =~= texts_view(before).push(name@));
            assert(pieces(parts@).take(i + 1) =~= pieces(parts@).take(i as int).push(
                pieces(parts@)[i as int],
            ));
        }
    }
    assert(pieces(parts@).take(parts@.len() as int) =~= pieces(parts@));
    Ok(names)
}

/// A safe archive path names something below the directory that it is unpacked into: it has at
/// least one name, and none is empty, `.` or `..`.
pub proof fn safe_archive_paths_stay_inside(path: Seq<char>)
    ensures
        archive_names(path) matches Some(names) ==> {
            &&& names.len() > 0
            &&& forall|i: int|
                #![trigger names[i]]
                0 <= i < names.len() ==> names[i].len() > 0 && names[i] != "."@ && names[i]
                    != ".."@ && is_portable_component(names[i])
        },
{
    let normalized = without_trailing_slash(path);
    if is_portable_relative(normalized, false) {
        let names = split_on(normalized, '/');
        assert forall|i: int| #![trigger names[i]] 0 <= i < names.len() implies names[i].len() > 0
            && names[i] != "."@ && names[i] != ".."@ && is_portable_component(names[i]) by {
            crate::portable::portable_paths_stay_inside(normalized, i);
        }
    }
}

/// Names with slashes between them.
pub open spec fn slashed(names: Seq<Seq<char>>) -> Seq<char>
    decreases names.len(),
{
    if names.len() == 0 {
        Seq::empty()
    } else if names.len() == 1 {
        names[0]
    } else {
        slashed(names.drop_last()).push('/') + names.last()
    }
}

/// The names in lower case.
pub open spec fn folded(names: Seq<Seq<char>>) -> Seq<Seq<char>> {
    names.map_values(|name: Seq<char>| lowercase(name))
}

/// What stands for a path where names are told apart: the path, in lower case where case does not
/// count.
pub open spec fn path_key(names: Seq<Seq<char>>, case: NameCase) -> Seq<char> {
    match case {
        NameCase::Folded => slashed(folded(names)),
        NameCase::Distinct => slashed(names),
    }
}

/// The first `count` names of a path.
pub open spec fn ancestor(names: Seq<Seq<char>>, count: int) -> Seq<Seq<char>> {
    names.take(count)
}

/// The names of components, those that are not names as empty ones.
pub open spec fn part_names(parts: Seq<PartView>) -> Seq<Seq<char>> {
    parts.map_values(
        |part: PartView|
            match part {
                PartView::Normal(name) => name,
                _ => Seq::empty(),
            },
    )
}

/// Files and directories by what stands for them: each with the spelling of its path and whether
/// it is a directory.
pub type Nodes = Map<Seq<char>, (Seq<char>, bool)>;

/// Whether the path of the first `count` names cannot be there beside a node that is known: the
/// node is spelled otherwise, or it is a file in the place of a directory, or a file is to be there
/// at the end of the path.
pub open spec fn node_clashes(
    known: (Seq<char>, bool),
    names: Seq<Seq<char>>,
    count: int,
    directory: bool,
) -> bool {
    ||| known.0 != slashed(ancestor(names, count))
    ||| !known.1
    ||| (count == names.len() && !directory)
}

/// The first reason, from position `i` on, why a path cannot be entered: a component that is no
/// name, or a node that is in the way.
pub open spec fn entry_fault(
    nodes: Nodes,
    case: NameCase,
    parts: Seq<PartView>,
    shown: Seq<char>,
    directory: bool,
    i: int,
) -> Option<ErrorView>
    decreases parts.len() - i,
{
    let names = part_names(parts);
    let key = path_key(ancestor(names, i + 1), case);
    if i >= parts.len() {
        None
    } else if !(parts[i] is Normal) {
        Some(ErrorView::UnsafeArchiveEntry(shown))
    } else if nodes.dom().contains(key) && node_clashes(nodes[key], names, i + 1, directory) {
        Some(
            ErrorView::UnsafeArchiveEntry(
                "package path collision: `"@ + nodes[key].0 + "` and `"@ + slashed(
                    ancestor(names, i + 1),
                ) + "`"@,
            ),
        )
    } else {
        entry_fault(nodes, case, parts, shown, directory, i + 1)
    }
}

/// How many of the first `count` steps of a path are not there yet.
pub open spec fn new_nodes(nodes: Nodes, case: NameCase, names: Seq<Seq<char>>, count: int) -> int
    decreases count,
{
    if count <= 0 {
        0
    } else {
        new_nodes(nodes, case, names, count - 1) + if nodes.dom().contains(
            path_key(ancestor(names, count), case),
        ) {
            0int
        } else {
            1int
        }
    }
}

/// The nodes with the first `count` steps of a path entered; those that are there stay as they are.
pub open spec fn entered(
    nodes: Nodes,
    case: NameCase,
    names: Seq<Seq<char>>,
    directory: bool,
    count: int,
) -> Nodes
    decreases count,
{
    if count <= 0 {
        nodes
    } else {
        let before = entered(nodes, case, names, directory, count - 1);
        let key = path_key(ancestor(names, count), case);
        if before.dom().contains(key) {
            before
        } else {
            before.insert(key, (slashed(ancestor(names, count)), count < names.len() || directory))
        }
    }
}

/// One file or directory of an installation.
pub struct Node {
    pub original: String,
    pub directory: bool,
}

/// The nodes of a map.
pub open spec fn nodes_view(map: Map<Seq<char>, Node>) -> Nodes {
    map.map_values(|node: Node| (node.original@, node.directory))
}

/// What one installation has taken of the bytes and entries that it may have.
pub struct ExtractionBudget {
    byte_limit: u64,
    bytes_used: u64,
    entry_limit: u64,
    entries_used: u64,
    case: NameCase,
    entries: TextMap<Node>,
}

/// An [`ExtractionBudget`] with its entries as a map.
#[verifier::ext_equal]
pub struct BudgetView {
    pub byte_limit: u64,
    pub bytes_used: u64,
    pub entry_limit: u64,
    pub entries_used: u64,
    pub case: NameCase,
    pub nodes: Nodes,
}

impl View for ExtractionBudget {
    type V = BudgetView;

    closed spec fn view(&self) -> BudgetView {
        BudgetView {
            byte_limit: self.byte_limit,
            bytes_used: self.bytes_used,
            entry_limit: self.entry_limit,
            entries_used: self.entries_used,
            case: self.case,
            nodes: nodes_view(self.entries@),
        }
    }
}

impl BudgetView {
    /// A budget of which nothing is used.
    pub open spec fn fresh(byte_limit: u64, entry_limit: u64, case: NameCase) -> BudgetView {
        BudgetView {
            byte_limit,
            bytes_used: 0,
            entry_limit,
            entries_used: 0,
            case,
            nodes: Map::empty(),
        }
    }

    /// Neither limit is exceeded, and every node is counted.
    pub open spec fn within_limits(self) -> bool {
        &&& self.bytes_used <= self.byte_limit
        &&& self.entries_used <= self.entry_limit
        &&& self.nodes.dom().finite()
        &&& self.nodes.dom().len() == self.entries_used
    }

    pub open spec fn entry_limit_error(self, shown: Seq<char>) -> ErrorView {
        ErrorView::ArchiveLimit(
            "staged package would exceed "@ + decimal(self.entry_limit as nat)
                + " entries while materializing `"@ + shown + "`"@,
        )
    }

    pub open spec fn byte_limit_error(self, shown: Seq<char>) -> ErrorView {
        ErrorView::ArchiveLimit(
            "staged package would exceed "@ + decimal(self.byte_limit as nat)
                + " bytes while materializing `"@ + shown + "`"@,
        )
    }

    /// The budget once a path below `root` has been entered with a number of bytes, or why it
    /// cannot be.
    pub open spec fn reserve(
        self,
        root: PlaceView,
        path: PlaceView,
        directory: bool,
        bytes: int,
    ) -> Result<BudgetView, ErrorView> {
        let parts = path.relative_to(root);
        let names = part_names(parts);
        let count = names.len() as int;
        let fault = entry_fault(self.nodes, self.case, parts, path.shown, directory, 0);
        let entries = self.entries_used + new_nodes(self.nodes, self.case, names, count);
        if !path.within(root) || parts.len() == 0 {
            Err(ErrorView::UnsafeArchiveEntry(path.shown))
        } else if fault is Some {
            Err(fault->0)
        } else if entries > self.entry_limit {
            Err(self.entry_limit_error(path.shown))
        } else if self.bytes_used + bytes > self.byte_limit {
            Err(self.byte_limit_error(path.shown))
        } else {
            Ok(
                BudgetView {
                    bytes_used: (self.bytes_used + bytes) as u64,
                    entries_used: entries as u64,
                    nodes: entered(self.nodes, self.case, names, directory, count),
                    ..self
                },
            )
        }
    }
}

/// The steps of a path: what stands for each, and its spelling.
struct Step {
    key: String,
    original: String,
}

spec fn is_step(step: Step, names: Seq<Seq<char>>, case: NameCase, count: int) -> bool {
    &&& step.key@ == path_key(ancestor(names, count), case)
    &&& step.original@ == slashed(ancestor(names, count))
}

/// Adds a name behind a slash, or by itself to an empty path.
fn with_name(path: &str, empty: bool, name: &str) -> (longer: String)
    ensures
        longer@ == if empty {
            name@
        } else {
            path@.push('/') + name@
        },
{
    if empty {
        name.to_owned()
    } else {
        let mut longer = path.to_owned();
        longer.push('/');
        longer.append(name);
        longer
    }
}

proof fn lemma_slashed_step(names: Seq<Seq<char>>, i: int)
    requires
        0 <= i < names.len(),
    ensures
        slashed(names.take(i + 1)) == if i == 0 {
            names[i]
        } else {
            slashed(names.take(i)).push('/') + names[i]
        },
{
    let longer = names.take(i + 1);
    assert(longer.last() == names[i]);
    assert(longer.drop_last() =~= names.take(i));
}

proof fn lemma_folded_take(names: Seq<Seq<char>>, count: int)
    requires
        0 <= count <= names.len(),
    ensures
        folded(names.take(count)) == folded(names).take(count),
{
    assert(folded(names.take(count)) =~= folded(names).take(count));
}

/// The step that follows `last` (the first one where there is none) on the path of `names`.
fn next_step(
    last: Option<&Step>,
    name: &str,
    case: NameCase,
    Ghost(names): Ghost<Seq<Seq<char>>>,
    Ghost(i): Ghost<int>,
) -> (step: Step)
    requires
        0 <= i < names.len(),
        name@ == names[i],
        match last {
            Some(before) => i > 0 && is_step(*before, names, case, i),
            None => i == 0,
        },
    ensures
        is_step(step, names, case, i + 1),
{
    proof {
        lemma_slashed_step(names, i);
        lemma_slashed_step(folded(names), i);
        lemma_folded_take(names, i);
        lemma_folded_take(names, i + 1);
    }
    let part = match case {
        NameCase::Folded => to_lower(name),
        NameCase::Distinct => name.to_owned(),
    };
    match last {
        Some(before) => Step {
            key: with_name(before.key.as_str(), false, part.as_str()),
            original: with_name(before.original.as_str(), false, name),
        },
        None => Step {
            key: with_name("", true, part.as_str()),
            original: with_name("", true, name),
        },
    }
}

/// Enters the steps of a path that are not there yet.
fn enter_steps(
    entries: &mut TextMap<Node>,
    steps: Vec<Step>,
    directory: bool,
    case: NameCase,
    Ghost(names): Ghost<Seq<Seq<char>>>,
)
    requires
        old(entries).wf(),
        steps@.len() == names.len(),
        forall|k: int| 0 <= k < names.len() ==> is_step(#[trigger] steps@[k], names, case, k + 1),
    ensures
        final(entries).wf(),
        nodes_view(final(entries)@) == entered(
            nodes_view(old(entries)@),
            case,
            names,
            directory,
            names.len() as int,
        ),
{
    let total = steps.len();
    let ghost start = nodes_view(entries@);
    for i in 0..total
        invariant
            entries.wf(),
            total == names.len(),
            steps@.len() == total,
            forall|k: int|
                0 <= k < total ==> is_step(#[trigger] steps@[k], names, case, k + 1),
            nodes_view(entries@) == entered(start, case, names, directory, i as int),
    {
        let step = &steps[i];
        if entries.get(step.key.as_str()).is_none() {
            let ghost before = entries@;
            let node = Node {
                original: step.original.clone(),
                directory: i + 1 < total || directory,
            };
            entries.insert(step.key.clone(), node);
            assert(nodes_view(entries@) =~= nodes_view(before).insert(
                step.key@,
                (node.original@, node.directory),
            ));
        }
    }
}

impl ExtractionBudget {
    /// The entries are in order.
    pub closed spec fn wf(&self) -> bool {
        self.entries.wf()
    }

    /// The budget of one installation, on a file system that may fold the case of names.
    pub fn for_generation() -> (budget: ExtractionBudget)
        ensures
            budget.wf(),
            budget@ == BudgetView::fresh(
                MAX_EXTRACTED_BYTES,
                MAX_ARCHIVE_ENTRIES,
                NameCase::Folded,
            ),
    {
        ExtractionBudget::with_limits(MAX_EXTRACTED_BYTES, MAX_ARCHIVE_ENTRIES, NameCase::Folded)
    }

    /// The budget of one installation on a file system of which it is known how it treats case.
    pub fn for_file_system(case: NameCase) -> (budget: ExtractionBudget)
        ensures
            budget.wf(),
            budget@ == BudgetView::fresh(MAX_EXTRACTED_BYTES, MAX_ARCHIVE_ENTRIES, case),
    {
        ExtractionBudget::with_limits(MAX_EXTRACTED_BYTES, MAX_ARCHIVE_ENTRIES, case)
    }

    /// A budget with limits of its own.
    pub fn with_limits(byte_limit: u64, entry_limit: u64, case: NameCase) -> (budget:
        ExtractionBudget)
        ensures
            budget.wf(),
            budget@ == BudgetView::fresh(byte_limit, entry_limit, case),
    {
        let budget = ExtractionBudget {
            byte_limit,
            bytes_used: 0,
            entry_limit,
            entries_used: 0,
            case,
            entries: TextMap::new(),
        };
        assert(budget@.nodes =~= Map::empty());
        budget
    }

    /// How the file system treats case.
    pub fn case(&self) -> (case: NameCase)
        ensures
            case == self@.case,
    {
        self.case
    }

    /// The bytes that are used.
    pub fn bytes_used(&self) -> (bytes: u64)
        ensures
            bytes == self@.bytes_used,
    {
        self.bytes_used
    }

    /// The entries that are used.
    pub fn entries_used(&self) -> (entries: u64)
        ensures
            entries == self@.entries_used,
    {
        self.entries_used
    }

    fn entry_limit_error(&self, shown: &str) -> (error: Error)
        ensures
            error@ == self@.entry_limit_error(shown@),
    {
        Error::ArchiveLimit(
            join5(
                "staged package would exceed ",
                decimal_text(self.entry_limit).as_str(),
                " entries while materializing `",
                shown,
                "`",
            ),
        )
    }

    fn byte_limit_error(&self, shown: &str) -> (error: Error)
        ensures
            error@ == self@.byte_limit_error(shown@),
    {
        Error::ArchiveLimit(
            join5(
                "staged package would exceed ",
                decimal_text(self.byte_limit).as_str(),
                " bytes while materializing `",
                shown,
                "`",
            ),
        )
    }

    /// The steps of a path, unless something is in its way.
    fn steps_to(&self, parts: &Vec<Part>, shown: &str, directory: bool) -> (outcome: Result<
        Vec<Step>,
        Error,
    >)
        requires
            self.wf(),
        ensures
            match entry_fault(
                self@.nodes,
                self@.case,
                parts_view(parts@),
                shown@,
                directory,
                0,
            ) {
                Some(error) => fails_with(outcome, error),
                None => outcome matches Ok(steps) && steps@.len() == parts@.len() && forall|k: int|
                    0 <= k < steps@.len() ==> is_step(
                        #[trigger] steps@[k],
                        part_names(parts_view(parts@)),
                        self@.case,
                        k + 1,
                    ),
            },
    {
        let ghost view = parts_view(parts@);
        let ghost names = part_names(view);
        let ghost nodes = self@.nodes;
        let mut steps: Vec<Step> = Vec::new();
        for i in 0..parts.len()
            invariant
                self.wf(),
                view == parts_view(parts@),
                names == part_names(view),
                nodes == self@.nodes,
                steps@.len() == i,
                forall|k: int|
                    0 <= k < i ==> is_step(#[trigger] steps@[k], names, self@.case, k + 1),
                entry_fault(nodes, self@.case, view, shown@, directory, 0) == entry_fault(
                    nodes,
                    self@.case,
                    view,
                    shown@,
                    directory,
                    i as int,
                ),
        {
            assert(view[i as int] == parts@[i as int]@);
            let name = match &parts[i] {
                Part::Normal(name) => name,
                _ => {
                    return Err(Error::UnsafeArchiveEntry(shown.to_owned()));
                },
            };
            assert(names[i as int] == name@);
            let last = if i == 0 {
                None
            } else {
                Some(&steps[i - 1])
            };
            let step = next_step(last, name.as_str(), self.case, Ghost(names), Ghost(i as int));
            let end = i + 1 == parts.len();
            match self.entries.get(step.key.as_str()) {
                Some(known) => {
                    let same = same_text(known.original.as_str(), step.original.as_str());
                    if !same || !known.directory || (end && !directory) {
                        return Err(
                            Error::UnsafeArchiveEntry(
                                join5(
                                    "package path collision: `",
                                    known.original.as_str(),
                                    "` and `",
                                    step.original.as_str(),
                                    "`",
                                ),
                            ),
                        );
                    }
                },
                None => {},
            }
            steps.push(step);
        }
        Ok(steps)
    }

    fn count_new(&self, steps: &Vec<Step>, Ghost(names): Ghost<Seq<Seq<char>>>) -> (count: u64)
        requires
            self.wf(),
            steps@.len() == names.len(),
            forall|k: int|
                0 <= k < steps@.len() ==> is_step(#[trigger] steps@[k], names, self@.case, k + 1),
        ensures
            count == new_nodes(self@.nodes, self@.case, names, names.len() as int),
    {
        let mut count: u64 = 0;
        for i in 0..steps.len()
            invariant
                self.wf(),
                steps@.len() == names.len(),
                forall|k: int|
                    0 <= k < steps@.len() ==> is_step(
                        #[trigger] steps@[k],
                        names,
                        self@.case,
                        k + 1,
                    ),
                count <= i,
                count == new_nodes(self@.nodes, self@.case, names, i as int),
        {
            assert(is_step(steps@[i as int], names, self@.case, i + 1));
            if self.entries.get(steps[i].key.as_str()).is_none() {
                count = count + 1;
            }
        }
        count
    }

    /// Enters a path below `root` with the bytes that it will hold, and every directory on the way
    /// to it; where that is not possible the budget stays as it is.
    pub fn reserve_path(&mut self, root: &Place, path: &Place, is_directory: bool, bytes: u64) -> (
    outcome: Result<(), Error>)
        requires
            old(self).wf(),
        ensures
            final(self).wf(),
            match old(self)@.reserve(root@, path@, is_directory, bytes as int) {
                Ok(next) => outcome is Ok && final(self)@ == next,
                Err(error) => fails_with(outcome, error) && final(self)@ == old(self)@,
            },
    {
        let parts = match path.strip_prefix(root) {
            Some(parts) => parts,
            None => {
                return Err(Error::UnsafeArchiveEntry(path.shown.clone()));
            },
        };
        if parts.len() == 0 {
            return Err(Error::UnsafeArchiveEntry(path.shown.clone()));
        }
        let ghost names = part_names(parts_view(parts@));
        let steps = match self.steps_to(&parts, path.shown.as_str(), is_directory) {
            Ok(steps) => steps,
            Err(error) => {
                return Err(error);
            },
        };
        let additions = self.count_new(&steps, Ghost(names));
        let next_entries = match self.entries_used.checked_add(additions) {
            Some(next) => next,
            None => {
                return Err(self.entry_limit_error(path.shown.as_str()));
            },
        };
        if next_entries > self.entry_limit {
            return Err(self.entry_limit_error(path.shown.as_str()));
        }
        let next_bytes = match self.bytes_used.checked_add(bytes) {
            Some(next) => next,
            None => {
                return Err(self.byte_limit_error(path.shown.as_str()));
            },
        };
        if next_bytes > self.byte_limit {
            return Err(self.byte_limit_error(path.shown.as_str()));
        }
        enter_steps(&mut self.entries, steps, is_directory, self.case, Ghost(names));
        self.entries_used = next_entries;
        self.bytes_used = next_bytes;
        Ok(())
    }
}

proof fn lemma_keys_grow(names: Seq<Seq<char>>, case: NameCase, few: int, many: int)
    requires
        1 <= few < many <= names.len(),
    ensures
        path_key(ancestor(names, few), case).len() < path_key(ancestor(names, many), case).len(),
    decreases many,
{
    lemma_slashed_step(names, many - 1);
    lemma_slashed_step(folded(names), many - 1);
    lemma_folded_take(names, many);
    lemma_folded_take(names, many - 1);
    if few < many - 1 {
        lemma_keys_grow(names, case, few, many - 1);
    }
}

/// What the nodes are once the first `count` steps of a path are entered.
proof fn lemma_entered(
    nodes: Nodes,
    case: NameCase,
    names: Seq<Seq<char>>,
    directory: bool,
    count: int,
)
    requires
        0 <= count <= names.len(),
    ensures
        ({
            let after = entered(nodes, case, names, directory, count);
            &&& forall|key: Seq<char>| #[trigger] nodes.dom().contains(key) ==> after.dom().contains(key)
                && after[key] == nodes[key]
            &&& forall|k: int| #![trigger ancestor(names, k)]
                1 <= k <= count ==> {
                    let key = path_key(ancestor(names, k), case);
                    &&& after.dom().contains(key)
                    &&& !nodes.dom().contains(key) ==> after[key] == (
                        slashed(ancestor(names, k)),
                        k < names.len() || directory,
                    )
                }
            &&& forall|key: Seq<char>| #[trigger] after.dom().contains(key) ==> nodes.dom().contains(key)
                || exists|k: int| 1 <= k <= count && key == path_key(#[trigger] ancestor(names, k), case)
            &&& nodes.dom().finite() ==> after.dom().finite() && after.dom().len()
                == nodes.dom().len() + new_nodes(nodes, case, names, count)
        }),
    decreases count,
{
    if count > 0 {
        lemma_entered(nodes, case, names, directory, count - 1);
        let before = entered(nodes, case, names, directory, count - 1);
        let after = entered(nodes, case, names, directory, count);
        let key = path_key(ancestor(names, count), case);
        assert forall|k: int| 1 <= k < count implies path_key(#[trigger] ancestor(names, k), case)
            != key by {
            lemma_keys_grow(names, case, k, count);
        }
        if before.dom().contains(key) {
            assert(nodes.dom().contains(key));
        } else {
            assert(!nodes.dom().contains(key));
            assert(after.dom() =~= before.dom().insert(key));
        }
        assert forall|other: Seq<char>| #[trigger] after.dom().contains(other) implies nodes.dom().contains(
            other,
        ) || exists|k: int| 1 <= k <= count && other == path_key(#[trigger] ancestor(names, k), case) by {
            if other != key {
                assert(before.dom().contains(other));
            }
        }
    }
}

proof fn lemma_fault_at(
    nodes: Nodes,
    case: NameCase,
    parts: Seq<PartView>,
    shown: Seq<char>,
    directory: bool,
    from: int,
    at: int,
)
    requires
        0 <= from <= at < parts.len(),
        ({
            let names = part_names(parts);
            let key = path_key(ancestor(names, at + 1), case);
            nodes.dom().contains(key) && node_clashes(nodes[key], names, at + 1, directory)
        }),
    ensures
        entry_fault(nodes, case, parts, shown, directory, from) is Some,
    decreases at - from,
{
    if from < at {
        lemma_fault_at(nodes, case, parts, shown, directory, from + 1, at);
    }
}

/// A budget that is within its limits stays so, whatever is reserved: the bytes and the entries of
/// an installation never exceed their limits, and the entries are counted exactly.
pub proof fn reservations_keep_the_limits(
    budget: BudgetView,
    root: PlaceView,
    path: PlaceView,
    directory: bool,
    bytes: u64,
)
    requires
        budget.within_limits(),
    ensures
        budget.reserve(root, path, directory, bytes as int) matches Ok(next)
            ==> next.within_limits(),
{
    let names = part_names(path.relative_to(root));
    lemma_entered(budget.nodes, budget.case, names, directory, names.len() as int);
}

/// The same, for a budget of which it is not known whether it is within its limits.
pub(crate) proof fn reservations_keep_the_limits_if(
    budget: BudgetView,
    root: PlaceView,
    path: PlaceView,
    directory: bool,
    bytes: u64,
)
    ensures
        budget.within_limits() ==> (budget.reserve(root, path, directory, bytes as int) matches Ok(
            next,
        ) ==> next.within_limits()),
{
    if budget.within_limits() {
        reservations_keep_the_limits(budget, root, path, directory, bytes);
    }
}

/// A budget of which nothing is used is within its limits.
pub proof fn fresh_budgets_are_within_their_limits(
    byte_limit: u64,
    entry_limit: u64,
    case: NameCase,
)
    ensures
        BudgetView::fresh(byte_limit, entry_limit, case).within_limits(),
{
}

/// Once a path is reserved for a file, nothing else can be reserved there: neither the same path,
/// nor one that differs from it in case where case does not count, nor anything below it.
pub proof fn reserved_files_are_not_replaced(
    budget: BudgetView,
    root: PlaceView,
    file: PlaceView,
    bytes: u64,
    other: PlaceView,
    directory: bool,
    more: u64,
    depth: int,
)
    requires
        budget.reserve(root, file, false, bytes as int) is Ok,
        other.within(root),
        1 <= depth <= other.relative_to(root).len(),
        path_key(ancestor(part_names(other.relative_to(root)), depth), budget.case) == path_key(
            part_names(file.relative_to(root)),
            budget.case,
        ),
    ensures
        budget.reserve(root, file, false, bytes as int)->Ok_0.reserve(
            root,
            other,
            directory,
            more as int,
        ) is Err,
{
    let parts = file.relative_to(root);
    let names = part_names(parts);
    let count = names.len() as int;
    let next = budget.reserve(root, file, false, bytes as int)->Ok_0;
    let key = path_key(names, budget.case);
    assert(ancestor(names, count) =~= names);
    if budget.nodes.dom().contains(key) {
        lemma_fault_at(
            budget.nodes,
            budget.case,
            parts,
            file.shown,
            false,
            0,
            count - 1,
        );
        assert(false);
    }
    lemma_entered(budget.nodes, budget.case, names, false, count);
    assert(next.nodes.dom().contains(path_key(ancestor(names, count), budget.case)));
    assert(!next.nodes[key].1);
    lemma_fault_at(
        next.nodes,
        next.case,
        other.relative_to(root),
        other.shown,
        directory,
        0,
        depth - 1,
    );
}

/// What one call asks of a budget.
pub struct Reservation {
    pub path: PlaceView,
    pub directory: bool,
    pub bytes: u64,
}

/// What a budget comes to by calls below `root`, one after the other; a call that is refused leaves
/// it as it is.
pub open spec fn after_calls(budget: BudgetView, root: PlaceView, calls: Seq<Reservation>) -> BudgetView
    decreases calls.len(),
{
    if calls.len() == 0 {
        budget
    } else {
        let before = after_calls(budget, root, calls.drop_last());
        let call = calls.last();
        match before.reserve(root, call.path, call.directory, call.bytes as int) {
            Ok(next) => next,
            Err(_) => before,
        }
    }
}

/// The bytes of the calls that were accepted.
pub open spec fn accepted_bytes(budget: BudgetView, root: PlaceView, calls: Seq<Reservation>) -> int
    decreases calls.len(),
{
    if calls.len() == 0 {
        0
    } else {
        let before = after_calls(budget, root, calls.drop_last());
        let call = calls.last();
        accepted_bytes(budget, root, calls.drop_last()) + if before.reserve(
            root,
            call.path,
            call.directory,
            call.bytes as int,
        ) is Ok {
            call.bytes as int
        } else {
            0
        }
    }
}

/// Whether a key stands for the path of names, under that spelling, and every directory on the way
/// there is a node too.
pub open spec fn has_its_parents(
    nodes: Nodes,
    case: NameCase,
    key: Seq<char>,
    names: Seq<Seq<char>>,
) -> bool {
    &&& names.len() > 0
    &&& key == path_key(names, case)
    &&& nodes[key].0 == slashed(names)
    &&& forall|k: int|
        #![trigger ancestor(names, k)]
        1 <= k < names.len() ==> {
            &&& nodes.dom().contains(path_key(ancestor(names, k), case))
            &&& nodes[path_key(ancestor(names, k), case)] == (slashed(ancestor(names, k)), true)
        }
}

/// Whether every node stands for a path whose parents are nodes, as directories.
pub open spec fn parents_are_recorded(nodes: Nodes, case: NameCase) -> bool {
    forall|key: Seq<char>| #[trigger]
        nodes.dom().contains(key) ==> exists|names: Seq<Seq<char>>| #[trigger]
            has_its_parents(nodes, case, key, names)
}

proof fn lemma_parents_stay_recorded(
    budget: BudgetView,
    root: PlaceView,
    path: PlaceView,
    directory: bool,
    bytes: int,
)
    requires
        parents_are_recorded(budget.nodes, budget.case),
    ensures
        budget.reserve(root, path, directory, bytes) matches Ok(next) ==> parents_are_recorded(
            next.nodes,
            next.case,
        ),
{
    if budget.reserve(root, path, directory, bytes) is Ok {
        let nodes = budget.nodes;
        let case = budget.case;
        let parts = path.relative_to(root);
        let names = part_names(parts);
        let count = names.len() as int;
        let after = entered(nodes, case, names, directory, count);
        lemma_entered(nodes, case, names, directory, count);
        assert forall|k: int| 1 <= k < count implies {
            &&& after.dom().contains(path_key(#[trigger] ancestor(names, k), case))
            &&& after[path_key(ancestor(names, k), case)] == (slashed(ancestor(names, k)), true)
        } by {
            let key = path_key(ancestor(names, k), case);
            if nodes.dom().contains(key) && node_clashes(nodes[key], names, k, directory) {
                lemma_fault_at(nodes, case, parts, path.shown, directory, 0, k - 1);
            }
        }
        assert forall|key: Seq<char>| #[trigger] after.dom().contains(key) implies exists|
            spelled: Seq<Seq<char>>,
        | #[trigger] has_its_parents(after, case, key, spelled) by {
            if nodes.dom().contains(key) {
                let spelled = choose|spelled: Seq<Seq<char>>| #[trigger]
                    has_its_parents(nodes, case, key, spelled);
                assert(has_its_parents(after, case, key, spelled));
            } else {
                let k = choose|k: int|
                    1 <= k <= count && key == path_key(#[trigger] ancestor(names, k), case);
                let spelled = ancestor(names, k);
                assert forall|h: int| #![trigger ancestor(spelled, h)] 1 <= h < spelled.len() implies {
                    &&& after.dom().contains(path_key(ancestor(spelled, h), case))
                    &&& after[path_key(ancestor(spelled, h), case)] == (
                        slashed(ancestor(spelled, h)),
                        true,
                    )
                } by {
                    assert(ancestor(spelled, h) =~= ancestor(names, h));
                }
                assert(has_its_parents(after, case, key, spelled));
            }
        }
    }
}

/// Whatever is asked of a fresh budget, its bytes are those of the calls that were accepted, its
/// entries are the paths that are recorded, each counted once, neither exceeds its limit, and the
/// parents of every recorded path are recorded as directories.
pub proof fn budgets_count_what_was_accepted(
    byte_limit: u64,
    entry_limit: u64,
    case: NameCase,
    root: PlaceView,
    calls: Seq<Reservation>,
)
    ensures
        ({
            let fresh = BudgetView::fresh(byte_limit, entry_limit, case);
            let end = after_calls(fresh, root, calls);
            &&& end.byte_limit == byte_limit && end.entry_limit == entry_limit && end.case == case
            &&& end.bytes_used == accepted_bytes(fresh, root, calls)
            &&& end.bytes_used <= byte_limit
            &&& end.entries_used == end.nodes.dom().len()
            &&& end.entries_used <= entry_limit
            &&& end.within_limits()
            &&& parents_are_recorded(end.nodes, case)
        }),
    decreases calls.len(),
{
    let fresh = BudgetView::fresh(byte_limit, entry_limit, case);
    if calls.len() > 0 {
        budgets_count_what_was_accepted(byte_limit, entry_limit, case, root, calls.drop_last());
        let before = after_calls(fresh, root, calls.drop_last());
        let call = calls.last();
        reservations_keep_the_limits(before, root, call.path, call.directory, call.bytes);
        lemma_parents_stay_recorded(
            before,
            root,
            call.path,
            call.directory,
            call.bytes as int,
        );
    }
}

/// The paths that an archive has named so far.
pub struct CollisionGuard {
    case: NameCase,
    entries: TextMap<String>,
    nodes: TextMap<Node>,
}

/// A [`CollisionGuard`] with its paths as maps.
#[verifier::ext_equal]
pub struct GuardView {
    pub case: NameCase,
    pub entries: Map<Seq<char>, Seq<char>>,
    pub nodes: Nodes,
}

/// The texts of a map.
pub open spec fn spellings(map: Map<Seq<char>, String>) -> Map<Seq<char>, Seq<char>> {
    map.map_values(|text: String| text@)
}

impl View for CollisionGuard {
    type V = GuardView;

    closed spec fn view(&self) -> GuardView {
        GuardView {
            case: self.case,
            entries: spellings(self.entries@),
            nodes: nodes_view(self.nodes@),
        }
    }
}

/// The first reason, from the step `i` on, why a path cannot stand in an archive beside those that
/// it has named.
pub open spec fn collision(
    nodes: Nodes,
    case: NameCase,
    names: Seq<Seq<char>>,
    directory: bool,
    i: int,
) -> Option<ErrorView>
    decreases names.len() - i,
{
    let key = path_key(ancestor(names, i + 1), case);
    if i >= names.len() {
        None
    } else if nodes.dom().contains(key) && node_clashes(nodes[key], names, i + 1, directory) {
        Some(
            ErrorView::UnsafeArchiveEntry(
                "path collision: `"@ + nodes[key].0 + "` and `"@ + slashed(names) + "`"@,
            ),
        )
    } else {
        collision(nodes, case, names, directory, i + 1)
    }
}

impl GuardView {
    /// A guard of an archive that has named nothing.
    pub open spec fn fresh(case: NameCase) -> GuardView {
        GuardView { case, entries: Map::empty(), nodes: Map::empty() }
    }

    /// The guard once an archive has named a path, or why it must not.
    pub open spec fn after_naming(self, path: Seq<char>, directory: bool) -> Result<GuardView, ErrorView> {
        match archive_names(path) {
            None => Err(ErrorView::UnsafeArchiveEntry(path)),
            Some(names) => {
                let key = path_key(names, self.case);
                let fault = collision(self.nodes, self.case, names, directory, 0);
                if self.entries.dom().contains(key) {
                    Err(
                        ErrorView::UnsafeArchiveEntry(
                            "duplicate or case-folding collision: `"@ + self.entries[key]
                                + "` and `"@ + slashed(names) + "`"@,
                        ),
                    )
                } else if fault is Some {
                    Err(fault->0)
                } else {
                    Ok(
                        GuardView {
                            entries: self.entries.insert(key, slashed(names)),
                            nodes: entered(
                                self.nodes,
                                self.case,
                                names,
                                directory,
                                names.len() as int,
                            ),
                            ..self
                        },
                    )
                }
            },
        }
    }
}

/// The steps of a path.
fn steps_of(names: &Vec<String>, case: NameCase) -> (steps: Vec<Step>)
    ensures
        steps@.len() == names@.len(),
        forall|k: int|
            0 <= k < steps@.len() ==> is_step(#[trigger] steps@[k], texts_view(names@), case, k + 1),
{
    let ghost texts = texts_view(names@);
    let mut steps: Vec<Step> = Vec::new();
    for i in 0..names.len()
        invariant
            texts == texts_view(names@),
            steps@.len() == i,
            forall|k: int| 0 <= k < i ==> is_step(#[trigger] steps@[k], texts, case, k + 1),
    {
        let last = if i == 0 {
            None
        } else {
            Some(&steps[i - 1])
        };
        let step = next_step(last, names[i].as_str(), case, Ghost(texts), Ghost(i as int));
        steps.push(step);
    }
    steps
}

impl CollisionGuard {
    /// The maps are in order.
    pub closed spec fn wf(&self) -> bool {
        self.entries.wf() && self.nodes.wf()
    }

    /// The guard of an archive that has named nothing.
    pub fn new(case: NameCase) -> (guard: CollisionGuard)
        ensures
            guard.wf(),
            guard@ == GuardView::fresh(case),
    {
        let guard = CollisionGuard { case, entries: TextMap::new(), nodes: TextMap::new() };
        assert(guard@.entries =~= Map::empty());
        assert(guard@.nodes =~= Map::empty());
        guard
    }

    /// Takes note of a path that an archive names; a path that must not be there leaves the guard
    /// as it is.
    pub fn insert(&mut self, path: &str, is_directory: bool) -> (outcome: Result<(), Error>)
        requires
            old(self).wf(),
        ensures
            final(self).wf(),
            match old(self)@.after_naming(path@, is_directory) {
                Ok(next) => outcome is Ok && final(self)@ == next,
                Err(error) => fails_with(outcome, error) && final(self)@ == old(self)@,
            },
    {
        let names = match safe_archive_path(path) {
            Ok(names) => names,
            Err(error) => {
                return Err(error);
            },
        };
        let ghost texts = texts_view(names@);
        proof {
            safe_archive_paths_stay_inside(path@);
            assert(ancestor(texts, texts.len() as int) =~= texts);
        }
        let steps = steps_of(&names, self.case);
        let total = steps.len();
        let whole = &steps[total - 1];
        assert(is_step(*whole, texts, self@.case, total as int));
        let known = match self.entries.get(whole.key.as_str()) {
            Some(previous) => Some(previous.clone()),
            None => None,
        };
        match known {
            Some(previous) => {
                return Err(
                    Error::UnsafeArchiveEntry(
                        join5(
                            "duplicate or case-folding collision: `",
                            previous.as_str(),
                            "` and `",
                            whole.original.as_str(),
                            "`",
                        ),
                    ),
                );
            },
            None => {},
        }
        for i in 0..total
            invariant
                self.wf(),
                self@ == old(self)@,
                total == steps@.len(),
                total == texts.len(),
                archive_names(path@) == Some(texts),
                !self@.entries.dom().contains(path_key(texts, self@.case)),
                whole.original@ == slashed(texts),
                forall|k: int|
                    0 <= k < total ==> is_step(#[trigger] steps@[k], texts, self@.case, k + 1),
                collision(self@.nodes, self@.case, texts, is_directory, 0) == collision(
                    self@.nodes,
                    self@.case,
                    texts,
                    is_directory,
                    i as int,
                ),
        {
            let step = &steps[i];
            assert(is_step(steps@[i as int], texts, self@.case, i + 1));
            match self.nodes.get(step.key.as_str()) {
                Some(known) => {
                    let same = same_text(known.original.as_str(), step.original.as_str());
                    if !same || !known.directory || (i + 1 == total && !is_directory) {
                        return Err(
                            Error::UnsafeArchiveEntry(
                                join5(
                                    "path collision: `",
                                    known.original.as_str(),
                                    "` and `",
                                    whole.original.as_str(),
                                    "`",
                                ),
                            ),
                        );
                    }
                },
                None => {},
            }
        }
        let ghost before = self.entries@;
        self.entries.insert(whole.key.clone(), whole.original.clone());
        assert(spellings(self.entries@) =~= spellings(before).insert(whole.key@, whole.original@));
        enter_steps(&mut self.nodes, steps, is_directory, self.case, Ghost(texts));
        Ok(())
    }
}

/// An archive names each path once: a path that was named, or one that differs from it in case
/// where case does not count, is not admitted again.
pub proof fn archives_name_paths_once(
    guard: GuardView,
    path: Seq<char>,
    directory: bool,
    again: Seq<char>,
    as_directory: bool,
)
    requires
        guard.after_naming(path, directory) is Ok,
        archive_names(again) is Some,
        path_key(archive_names(again)->0, guard.case) == path_key(
            archive_names(path)->0,
            guard.case,
        ),
    ensures
        guard.after_naming(path, directory)->Ok_0.after_naming(again, as_directory) is Err,
{
}

proof fn lemma_slashed_front(first: Seq<char>, rest: Seq<Seq<char>>)
    requires
        rest.len() > 0,
    ensures
        slashed(seq![first] + rest) == first.push('/') + slashed(rest),
    decreases rest.len(),
{
    let all = seq![first] + rest;
    assert(all.last() == rest.last());
    assert(all.drop_last() =~= seq![first] + rest.drop_last());
    if rest.len() == 1 {
        assert(all.drop_last() =~= seq![first]);
        assert(slashed(seq![first]) == first);
        assert(rest[0] == rest.last());
    } else {
        lemma_slashed_front(first, rest.drop_last());
        assert(slashed(all) =~= first.push('/') + slashed(rest));
    }
}

proof fn lemma_slashed_pieces(text: Seq<char>)
    ensures
        slashed(split_on(text, '/')) == text,
    decreases text.len(),
{
    let at = first_at(text, '/');
    lemma_first_at(text, '/');
    if at < text.len() {
        let rest = text.skip(at + 1);
        lemma_slashed_pieces(rest);
        lemma_slashed_front(text.take(at), split_on(rest, '/'));
        assert(text =~= text.take(at).push('/') + rest);
    }
}

/// Where case counts, paths that differ in case remain distinct: two paths of an archive are taken
/// for one only where they are spelled alike, but for a slash at the end.
pub proof fn case_distinct_paths_remain_distinct(left: Seq<char>, right: Seq<char>)
    requires
        archive_names(left) is Some,
        archive_names(right) is Some,
    ensures
        path_key(archive_names(left)->0, NameCase::Distinct) == path_key(
            archive_names(right)->0,
            NameCase::Distinct,
        ) <==> without_trailing_slash(left) == without_trailing_slash(right),
{
    lemma_slashed_pieces(without_trailing_slash(left));
    lemma_slashed_pieces(without_trailing_slash(right));
}

/// Names are written with slashes between them.
pub proof fn slashes_stand_between_names(names: Seq<Seq<char>>)
    requires
        names.len() > 0,
    ensures
        slashed(names) == joined_with(names, '/'),
    decreases names.len(),
{
    if names.len() > 1 {
        let rest = names.skip(1);
        slashes_stand_between_names(rest);
        lemma_slashed_front(names[0], rest);
        assert(seq![names[0]] + rest =~= names);
    }
}

/// The names of a path of an archive are what stands between its slashes, with or without a slash
/// at its end; a path has names if and only if each of them is portable.
pub proof fn archive_paths_are_their_names(names: Seq<Seq<char>>)
    requires
        names.len() > 0,
        forall|i: int| 0 <= i < names.len() ==> !(#[trigger] names[i]).contains('/'),
        names.last().len() > 0,
    ensures
        ({
            let portable = forall|i: int|
                0 <= i < names.len() ==> is_portable_component(#[trigger] names[i]);
            let expected = if portable {
                Some(names)
            } else {
                None
            };
            archive_names(joined_with(names, '/')) == expected && archive_names(
                joined_with(names, '/').push('/'),
            ) == expected
        }),
{
    let path = joined_with(names, '/');
    joined_texts_fall_apart_again(names, '/');
    slashes_stand_between_names(names);
    assert(path.last() == names.last().last()) by {
        if names.len() > 1 {
            assert(slashed(names).last() == names.last().last());
        }
    }
    assert(names.last().contains(names.last().last()));
    assert(without_trailing_slash(path) == path);
    assert(path.push('/').drop_last() =~= path);
    reveal_strlit(".");
    if path == "."@ {
        assert(path.last() == '.');
        assert(!is_portable_component(names.last()));
        assert(!is_portable_component(names[names.len() - 1]));
    }
}

/// What stands for a path is the path itself where case counts, and the path with each name in
/// lower case where it does not.
pub proof fn keys_are_paths(names: Seq<Seq<char>>)
    requires
        names.len() > 0,
    ensures
        path_key(names, NameCase::Distinct) == joined_with(names, '/'),
        path_key(names, NameCase::Folded) == joined_with(
            Seq::new(names.len(), |i: int| lowercase(names[i])),
            '/',
        ),
{
    slashes_stand_between_names(names);
    slashes_stand_between_names(folded(names));
    assert(folded(names) =~= Seq::new(names.len(), |i: int| lowercase(names[i])));
}

proof fn lemma_entry_fault(
    nodes: Nodes,
    case: NameCase,
    parts: Seq<PartView>,
    shown: Seq<char>,
    directory: bool,
    from: int,
)
    requires
        0 <= from,
    ensures
        entry_fault(nodes, case, parts, shown, directory, from) is None <==> forall|k: int|
            #![trigger parts[k]]
            from <= k < parts.len() ==> {
                let key = path_key(part_names(parts).take(k + 1), case);
                &&& parts[k] is Normal
                &&& nodes.dom().contains(key) ==> nodes[key] == (
                    slashed(part_names(parts).take(k + 1)),
                    true,
                ) && (k + 1 < parts.len() || directory)
            },
    decreases parts.len() - from,
{
    if from < parts.len() {
        lemma_entry_fault(nodes, case, parts, shown, directory, from + 1);
        let names = part_names(parts);
        assert(ancestor(names, from + 1) == names.take(from + 1));
        let first = parts[from];
        let key = path_key(names.take(from + 1), case);
        if nodes.dom().contains(key) {
            assert(node_clashes(nodes[key], names, from + 1, directory) <==> !(nodes[key] == (
                slashed(names.take(from + 1)),
                true,
            ) && (from + 1 < parts.len() || directory)));
        }
    }
}

/// A path is entered if and only if it lies below the directory of the installation by names alone;
/// what is recorded on the way there, if anything, is a directory under that spelling, and at the
/// end nothing is recorded but a directory for a directory; and neither the entries nor the bytes
/// come to more than their limit.
pub proof fn paths_are_entered_where_nothing_is_in_the_way(
    budget: BudgetView,
    root: PlaceView,
    path: PlaceView,
    directory: bool,
    bytes: u64,
)
    ensures
        ({
            let parts = path.relative_to(root);
            let names = part_names(parts);
            budget.reserve(root, path, directory, bytes as int) is Ok <==> {
                &&& path.within(root)
                &&& parts.len() > 0
                &&& forall|k: int|
                    #![trigger parts[k]]
                    0 <= k < parts.len() ==> {
                        let key = path_key(names.take(k + 1), budget.case);
                        &&& parts[k] is Normal
                        &&& budget.nodes.dom().contains(key) ==> budget.nodes[key] == (
                            slashed(names.take(k + 1)),
                            true,
                        ) && (k + 1 < parts.len() || directory)
                    }
                &&& budget.entries_used + new_nodes(
                    budget.nodes,
                    budget.case,
                    names,
                    names.len() as int,
                ) <= budget.entry_limit
                &&& budget.bytes_used + bytes <= budget.byte_limit
            }
        }),
{
    lemma_entry_fault(
        budget.nodes,
        budget.case,
        path.relative_to(root),
        path.shown,
        directory,
        0,
    );
}

proof fn lemma_all_new(nodes: Nodes, case: NameCase, names: Seq<Seq<char>>, count: int)
    requires
        0 <= count <= names.len(),
    ensures
        0 <= new_nodes(nodes, case, names, count) <= count,
        (forall|k: int|
            1 <= k <= count ==> !nodes.dom().contains(path_key(#[trigger] names.take(k), case)))
            ==> new_nodes(nodes, case, names, count) == count,
        (forall|k: int|
            1 <= k <= count ==> nodes.dom().contains(path_key(#[trigger] names.take(k), case)))
            ==> new_nodes(nodes, case, names, count) == 0,
    decreases count,
{
    if count > 0 {
        lemma_all_new(nodes, case, names, count - 1);
        assert(ancestor(names, count) == names.take(count));
    }
}

/// Entering a path adds its bytes, records it as what it is, and every directory on the way there,
/// under its spelling; what was recorded stays; and each step that was not recorded counts once.
pub proof fn entered_paths_are_recorded(
    budget: BudgetView,
    root: PlaceView,
    path: PlaceView,
    directory: bool,
    bytes: u64,
    known: int,
)
    requires
        0 <= known <= path.relative_to(root).len(),
        forall|k: int|
            1 <= k <= path.relative_to(root).len() ==> (budget.nodes.dom().contains(
                path_key(#[trigger] part_names(path.relative_to(root)).take(k), budget.case),
            ) <==> k <= known),
    ensures
        budget.reserve(root, path, directory, bytes as int) matches Ok(next) ==> {
            let names = part_names(path.relative_to(root));
            &&& next.bytes_used == budget.bytes_used + bytes
            &&& next.entries_used == budget.entries_used + names.len() - known
            &&& next.byte_limit == budget.byte_limit && next.entry_limit == budget.entry_limit
                && next.case == budget.case
            &&& forall|key: Seq<char>| #[trigger]
                budget.nodes.dom().contains(key) ==> next.nodes.dom().contains(key)
                    && next.nodes[key] == budget.nodes[key]
            &&& forall|k: int|
                1 <= k <= names.len() ==> {
                    let key = path_key(#[trigger] names.take(k), budget.case);
                    &&& next.nodes.dom().contains(key)
                    &&& next.nodes[key] == (slashed(names.take(k)), k < names.len() || directory)
                }
        },
{
    let parts = path.relative_to(root);
    let names = part_names(parts);
    lemma_entered(budget.nodes, budget.case, names, directory, names.len() as int);
    lemma_some_new(budget.nodes, budget.case, names, known, names.len() as int);
    paths_are_entered_where_nothing_is_in_the_way(budget, root, path, directory, bytes);
    match budget.reserve(root, path, directory, bytes as int) {
        Ok(next) => {
            assert forall|k: int| 1 <= k <= names.len() implies {
                let key = path_key(#[trigger] names.take(k), budget.case);
                &&& next.nodes.dom().contains(key)
                &&& next.nodes[key] == (slashed(names.take(k)), k < names.len() || directory)
            } by {
                assert(ancestor(names, k) == names.take(k));
                let part = parts[k - 1];
            }
        },
        Err(_) => {},
    }
}

proof fn lemma_some_new(
    nodes: Nodes,
    case: NameCase,
    names: Seq<Seq<char>>,
    known: int,
    count: int,
)
    requires
        0 <= known,
        0 <= count <= names.len(),
        forall|k: int|
            1 <= k <= count ==> (nodes.dom().contains(path_key(#[trigger] names.take(k), case))
                <==> k <= known),
    ensures
        new_nodes(nodes, case, names, count) == if count <= known {
            0
        } else {
            count - known
        },
    decreases count,
{
    if count > 0 {
        lemma_some_new(nodes, case, names, known, count - 1);
        assert(ancestor(names, count) == names.take(count));
    }
}

/// An installation takes a file in its root if and only if it has at most 2147483648 bytes, and
/// whatever it takes, it comes to no more than 2147483648 bytes and 40000 entries.
pub proof fn installations_have_limits(
    case: NameCase,
    root: PlaceView,
    path: PlaceView,
    name: Seq<char>,
    bytes: u64,
    calls: Seq<Reservation>,
)
    requires
        path.parts == root.parts.push(PartView::Normal(name)),
    ensures
        ({
            let fresh = BudgetView::fresh(MAX_EXTRACTED_BYTES, MAX_ARCHIVE_ENTRIES, case);
            let end = after_calls(fresh, root, calls);
            &&& fresh.reserve(root, path, false, bytes as int) is Ok <==> bytes <= 2147483648
            &&& end.bytes_used <= 2147483648
            &&& end.entries_used <= 40000
            &&& end.entry_limit == 40000
        }),
{
    let fresh = BudgetView::fresh(MAX_EXTRACTED_BYTES, MAX_ARCHIVE_ENTRIES, case);
    budgets_count_what_was_accepted(MAX_EXTRACTED_BYTES, MAX_ARCHIVE_ENTRIES, case, root, calls);
    paths_are_entered_where_nothing_is_in_the_way(fresh, root, path, false, bytes);
    let parts = path.relative_to(root);
    assert(parts =~= seq![PartView::Normal(name)]);
    assert(path.parts.take(root.parts.len() as int) =~= root.parts);
    lemma_all_new(fresh.nodes, case, part_names(parts), 1);
}

proof fn lemma_collision(
    nodes: Nodes,
    case: NameCase,
    names: Seq<Seq<char>>,
    directory: bool,
    from: int,
)
    requires
        0 <= from,
    ensures
        collision(nodes, case, names, directory, from) is None <==> forall|k: int|
            #![trigger names[k]]
            from <= k < names.len() ==> {
                let key = path_key(names.take(k + 1), case);
                nodes.dom().contains(key) ==> nodes[key] == (slashed(names.take(k + 1)), true) && (k
                    + 1 < names.len() || directory)
            },
    decreases names.len() - from,
{
    if from < names.len() {
        lemma_collision(nodes, case, names, directory, from + 1);
        assert(ancestor(names, from + 1) == names.take(from + 1));
        let first = names[from];
        let key = path_key(names.take(from + 1), case);
        if nodes.dom().contains(key) {
            assert(node_clashes(nodes[key], names, from + 1, directory) <==> !(nodes[key] == (
                slashed(names.take(from + 1)),
                true,
            ) && (from + 1 < names.len() || directory)));
        }
    }
}

/// An archive may name a path if and only if the path has portable names, was not named before, and
/// nothing that was named is in its way: no file on the way there, no other spelling, and nothing
/// at its end but a directory for a directory. Of paths that were never named, the first is taken.
pub proof fn archives_name_paths_where_nothing_is_in_the_way(
    guard: GuardView,
    path: Seq<char>,
    directory: bool,
)
    ensures
        guard.after_naming(path, directory) is Ok <==> (archive_names(path) matches Some(names) && {
            &&& !guard.entries.dom().contains(path_key(names, guard.case))
            &&& forall|k: int|
                #![trigger names[k]]
                0 <= k < names.len() ==> {
                    let key = path_key(names.take(k + 1), guard.case);
                    guard.nodes.dom().contains(key) ==> guard.nodes[key] == (
                        slashed(names.take(k + 1)),
                        true,
                    ) && (k + 1 < names.len() || directory)
                }
        }),
        GuardView::fresh(guard.case).after_naming(path, directory) is Ok <==> archive_names(path)
            is Some,
        guard.after_naming(path, directory) matches Ok(next) ==> next.case == guard.case
            && next.entries == guard.entries.insert(
            path_key(archive_names(path)->0, guard.case),
            slashed(archive_names(path)->0),
        ),
{
    match archive_names(path) {
        None => {},
        Some(names) => {
            lemma_collision(guard.nodes, guard.case, names, directory, 0);
            lemma_collision(
                GuardView::fresh(guard.case).nodes,
                guard.case,
                names,
                directory,
                0,
            );
        },
    }
}

/// What an archive named is recorded, with every directory on the way there.
pub proof fn named_paths_are_recorded(
    guard: GuardView,
    path: Seq<char>,
    directory: bool,
    k: int,
)
    requires
        archive_names(path) is Some,
        1 <= k <= archive_names(path)->0.len(),
    ensures
        guard.after_naming(path, directory) matches Ok(next) ==> {
            let names = archive_names(path)->0;
            let key = path_key(names.take(k), guard.case);
            &&& next.nodes.dom().contains(key)
            &&& next.nodes[key] == (slashed(names.take(k)), k < names.len() || directory)
            &&& forall|other: Seq<char>| #[trigger]
                guard.nodes.dom().contains(other) ==> next.nodes.dom().contains(other)
                    && next.nodes[other] == guard.nodes[other]
        },
{
    let names = archive_names(path)->0;
    lemma_entered(guard.nodes, guard.case, names, directory, names.len() as int);
    archives_name_paths_where_nothing_is_in_the_way(guard, path, directory);
    assert(ancestor(names, k) == names.take(k));
    let name = names[k - 1];
}

/// A path that is refused fails as unsafe where it does not lie below the installation by names
/// alone or something is in its way, and for a limit where there is no room for it.
pub proof fn refused_paths_say_why(
    budget: BudgetView,
    root: PlaceView,
    path: PlaceView,
    directory: bool,
    bytes: u64,
)
    ensures
        !path.within(root) || path.relative_to(root).len() == 0 ==> budget.reserve(
            root,
            path,
            directory,
            bytes as int,
        ) == Err::<BudgetView, ErrorView>(ErrorView::UnsafeArchiveEntry(path.shown)),
        budget.reserve(root, path, directory, bytes as int) matches Err(error) ==> error
            is UnsafeArchiveEntry || error is ArchiveLimit,
        path.within(root) && path.relative_to(root).len() > 0 && entry_fault(
            budget.nodes,
            budget.case,
            path.relative_to(root),
            path.shown,
            directory,
            0,
        ) is None ==> (budget.reserve(root, path, directory, bytes as int) matches Err(error)
            ==> error is ArchiveLimit),
{
    lemma_faults_are_unsafe(
        budget.nodes,
        budget.case,
        path.relative_to(root),
        path.shown,
        directory,
        0,
    );
}

proof fn lemma_faults_are_unsafe(
    nodes: Nodes,
    case: NameCase,
    parts: Seq<PartView>,
    shown: Seq<char>,
    directory: bool,
    from: int,
)
    ensures
        entry_fault(nodes, case, parts, shown, directory, from) matches Some(error) ==> error
            is UnsafeArchiveEntry,
    decreases parts.len() - from,
{
    if from < parts.len() {
        lemma_faults_are_unsafe(nodes, case, parts, shown, directory, from + 1);
    }
}

} // verus!
