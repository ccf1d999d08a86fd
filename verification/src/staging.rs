//! The course of an installation: what is done after what, when it may be cancelled, and what is
//! reported of it.

use vstd::prelude::*;
use crate::error::{fails_with, settles, Error, ErrorView};
use crate::package::{same_snapshot, PackageSnapshot};
use crate::schema::{declared_bytes, Artifact, ArtifactKind, Package};
use crate::text::{decimal, decimal_text, join2, join5};

verus! {

/// What an installation is at.
#[derive(Clone, Copy, Debug, PartialEq, Eq, Structural)]
pub enum InstallPhase {
    Downloading,
    Verifying,
    Extracting,
    ValidatingUci,
    Activating,
    Ready,
}

/// How far an installation is.
#[derive(Clone, Copy, Debug, PartialEq, Eq, Structural)]
pub struct InstallProgress {
    pub phase: InstallPhase,
    pub artifact_kind: Option<ArtifactKind>,
    pub completed_bytes: u64,
    pub total_bytes: u64,
}

/// A report in which no more is completed than there is.
pub open spec fn progress(
    phase: InstallPhase,
    artifact_kind: Option<ArtifactKind>,
    completed: int,
    total: u64,
) -> InstallProgress {
    InstallProgress {
        phase,
        artifact_kind,
        completed_bytes: if completed < total {
            completed as u64
        } else {
            total
        },
        total_bytes: total,
    }
}

/// A report in which no more is completed than there is.
pub fn report_progress(
    phase: InstallPhase,
    artifact_kind: Option<ArtifactKind>,
    completed_bytes: u64,
    total_bytes: u64,
) -> (report: InstallProgress)
    ensures
        report == progress(phase, artifact_kind, completed_bytes as int, total_bytes),
{
    let completed = if completed_bytes < total_bytes {
        completed_bytes
    } else {
        total_bytes
    };
    InstallProgress { phase, artifact_kind, completed_bytes: completed, total_bytes }
}

/// One step of an installation.
#[derive(Clone, Copy, Debug, PartialEq, Eq, Structural)]
pub enum StageAction {
    /// Make the directory for the downloads.
    MakeDownloads,
    /// Download the artifact.
    Download(usize),
    /// Check the download once more.
    Verify(usize),
    /// Unpack the artifact.
    Extract(usize),
    /// Remove the download.
    RemoveDownload(usize),
    /// Remove the directory for the downloads.
    RemoveDownloads,
    /// Check where the executable and the working directory are.
    CheckLayout,
    /// Make the executable one that may be executed.
    MakeExecutable,
    /// Bind the launcher to the rest of its package.
    Personalize,
    /// Take the snapshot of the package.
    Snapshot,
    /// Test the engine.
    Validate,
    /// Check that the test changed nothing.
    CompareAfterValidation,
    /// Take the digest of the executable.
    HashExecutable,
    /// Write the description of the installation.
    WriteRecord,
    /// Check that nothing else was written.
    CompareAfterRecord,
    /// Make sure that everything is on disk.
    SyncTree,
    /// Move the package to its place.
    Activate,
    /// Make sure that the move is on disk.
    SyncParent,
    /// Enter the installation into the registry.
    Register,
    /// Nothing more.
    Done,
}

/// The step after a step, for a number of artifacts and a launcher that is bound or not.
pub open spec fn action_after(action: StageAction, count: usize, personalizes: bool) -> StageAction {
    match action {
        StageAction::MakeDownloads => if count > 0 {
            StageAction::Download(0)
        } else {
            StageAction::RemoveDownloads
        },
        StageAction::Download(i) => StageAction::Verify(i),
        StageAction::Verify(i) => StageAction::Extract(i),
        StageAction::Extract(i) => StageAction::RemoveDownload(i),
        StageAction::RemoveDownload(i) => if i + 1 < count {
            StageAction::Download((i + 1) as usize)
        } else {
            StageAction::RemoveDownloads
        },
        StageAction::RemoveDownloads => StageAction::CheckLayout,
        StageAction::CheckLayout => StageAction::MakeExecutable,
        StageAction::MakeExecutable => if personalizes {
            StageAction::Personalize
        } else {
            StageAction::Snapshot
        },
        StageAction::Personalize => StageAction::Snapshot,
        StageAction::Snapshot => StageAction::Validate,
        StageAction::Validate => StageAction::CompareAfterValidation,
        StageAction::CompareAfterValidation => StageAction::HashExecutable,
        StageAction::HashExecutable => StageAction::WriteRecord,
        StageAction::WriteRecord => StageAction::CompareAfterRecord,
        StageAction::CompareAfterRecord => StageAction::SyncTree,
        StageAction::SyncTree => StageAction::Activate,
        StageAction::Activate => StageAction::SyncParent,
        StageAction::SyncParent => StageAction::Register,
        StageAction::Register => StageAction::Done,
        StageAction::Done => StageAction::Done,
    }
}

/// Whether an installation may be cancelled right before a step.
pub open spec fn may_cancel(action: StageAction) -> bool {
    match action {
        StageAction::Download(_) => true,
        StageAction::Verify(_) => true,
        StageAction::RemoveDownload(_) => true,
        StageAction::Validate => true,
        StageAction::CompareAfterValidation => true,
        StageAction::Activate => true,
        _ => false,
    }
}

/// The kind of the artifact at a position.
pub open spec fn kind_at(package: Package, i: usize) -> Option<ArtifactKind> {
    Some(package.artifacts@[i as int].kind)
}

/// What is reported right before a step.
pub open spec fn report_before(
    action: StageAction,
    package: Package,
    completed: int,
    total: u64,
) -> Option<InstallProgress> {
    match action {
        StageAction::Download(i) => Some(
            progress(InstallPhase::Downloading, kind_at(package, i), completed, total),
        ),
        StageAction::Verify(i) => Some(
            progress(InstallPhase::Verifying, kind_at(package, i), completed, total),
        ),
        StageAction::Extract(i) => Some(
            progress(InstallPhase::Extracting, kind_at(package, i), completed, total),
        ),
        StageAction::Validate => Some(
            progress(InstallPhase::ValidatingUci, None, total as int, total),
        ),
        StageAction::HashExecutable => Some(
            progress(InstallPhase::Activating, None, total as int, total),
        ),
        StageAction::Done => Some(progress(InstallPhase::Ready, None, total as int, total)),
        _ => None,
    }
}

/// An installation on its course.
#[verifier::ext_equal]
pub struct StagingView {
    pub action: StageAction,
    pub completed: int,
}

/// What is completed once a step is done.
pub open spec fn completed_after(action: StageAction, package: Package, completed: int) -> int {
    match action {
        StageAction::Download(i) => completed + package.artifacts@[i as int].byte_count,
        _ => completed,
    }
}

impl StagingView {
    /// The course at its beginning.
    pub open spec fn fresh() -> StagingView {
        StagingView { action: StageAction::MakeDownloads, completed: 0 }
    }

    /// The course once a step is done.
    pub open spec fn advance(self, package: Package, personalizes: bool) -> StagingView {
        StagingView {
            action: action_after(self.action, package.artifacts@.len() as usize, personalizes),
            completed: completed_after(self.action, package, self.completed),
        }
    }

    /// How many artifacts have been downloaded.
    pub open spec fn downloaded(self, count: int) -> int {
        match self.action {
            StageAction::MakeDownloads => 0,
            StageAction::Download(i) => i as int,
            StageAction::Verify(i) => i + 1,
            StageAction::Extract(i) => i + 1,
            StageAction::RemoveDownload(i) => i + 1,
            _ => count,
        }
    }

    /// The course is one of the package: it is at an artifact that there is, and what is completed
    /// is what has been downloaded.
    pub open spec fn sound(self, package: Package) -> bool {
        let count = package.artifacts@.len() as int;
        &&& match self.action {
            StageAction::Download(i) => i < count,
            StageAction::Verify(i) => i < count,
            StageAction::Extract(i) => i < count,
            StageAction::RemoveDownload(i) => i < count,
            _ => true,
        }
        &&& self.completed == declared_bytes(package.artifacts@, self.downloaded(count))
    }
}

/// The course of the installation of one package.
pub struct Staging {
    personalizes: bool,
    total: u64,
    completed: u64,
    action: StageAction,
}

impl Staging {
    /// The course.
    pub closed spec fn view(&self) -> StagingView {
        StagingView { action: self.action, completed: self.completed as int }
    }

    /// Whether the launcher is bound to its package.
    pub closed spec fn personalizes(&self) -> bool {
        self.personalizes
    }

    /// The bytes of all downloads.
    pub closed spec fn total(&self) -> u64 {
        self.total
    }

    /// The course is one of the package, and what is downloaded together fits its total.
    pub open spec fn wf(&self, package: Package) -> bool {
        &&& self@.sound(package)
        &&& self.total() == declared_bytes(package.artifacts@, package.artifacts@.len() as int)
    }

    /// Begins an installation.
    pub fn begin(package: &Package, personalizes: bool, total: u64) -> (staging: Staging)
        requires
            total == declared_bytes(package.artifacts@, package.artifacts@.len() as int),
        ensures
            staging.wf(*package),
            staging@ == StagingView::fresh(),
            staging.personalizes() == personalizes,
            staging.total() == total,
    {
        Staging { personalizes, total, completed: 0, action: StageAction::MakeDownloads }
    }

    /// The step that is to be done.
    pub fn action(&self) -> (action: StageAction)
        ensures
            action == self@.action,
    {
        self.action
    }

    fn next_action(&self, count: usize) -> (next: StageAction)
        requires
            match self.action {
                StageAction::RemoveDownload(i) => i < count,
                _ => true,
            },
        ensures
            next == action_after(self@.action, count, self.personalizes()),
    {
        match self.action {
            StageAction::MakeDownloads => if count > 0 {
                StageAction::Download(0)
            } else {
                StageAction::RemoveDownloads
            },
            StageAction::Download(i) => StageAction::Verify(i),
            StageAction::Verify(i) => StageAction::Extract(i),
            StageAction::Extract(i) => StageAction::RemoveDownload(i),
            StageAction::RemoveDownload(i) => if i + 1 < count {
                StageAction::Download(i + 1)
            } else {
                StageAction::RemoveDownloads
            },
            StageAction::RemoveDownloads => StageAction::CheckLayout,
            StageAction::CheckLayout => StageAction::MakeExecutable,
            StageAction::MakeExecutable => if self.personalizes {
                StageAction::Personalize
            } else {
                StageAction::Snapshot
            },
            StageAction::Personalize => StageAction::Snapshot,
            StageAction::Snapshot => StageAction::Validate,
            StageAction::Validate => StageAction::CompareAfterValidation,
            StageAction::CompareAfterValidation => StageAction::HashExecutable,
            StageAction::HashExecutable => StageAction::WriteRecord,
            StageAction::WriteRecord => StageAction::CompareAfterRecord,
            StageAction::CompareAfterRecord => StageAction::SyncTree,
            StageAction::SyncTree => StageAction::Activate,
            StageAction::Activate => StageAction::SyncParent,
            StageAction::SyncParent => StageAction::Register,
            StageAction::Register => StageAction::Done,
            StageAction::Done => StageAction::Done,
        }
    }

    fn cancellable(action: StageAction) -> (answer: bool)
        ensures
            answer == may_cancel(action),
    {
        match action {
            StageAction::Download(_) => true,
            StageAction::Verify(_) => true,
            StageAction::RemoveDownload(_) => true,
            StageAction::Validate => true,
            StageAction::CompareAfterValidation => true,
            StageAction::Activate => true,
            _ => false,
        }
    }

    /// Goes on once a step is done: what is to be reported before the next. Where the next step is
    /// one before which the installation may be cancelled and it was, it ends there.
    pub fn advance(&mut self, package: &Package, cancelled: bool) -> (outcome: Result<
        Option<InstallProgress>,
        Error,
    >)
        requires
            old(self).wf(*package),
        ensures
            final(self).wf(*package),
            final(self).personalizes() == old(self).personalizes(),
            final(self).total() == old(self).total(),
            ({
                let next = old(self)@.advance(*package, old(self).personalizes());
                if cancelled && may_cancel(next.action) {
                    fails_with(outcome, ErrorView::Cancelled) && final(self)@ == old(self)@
                } else {
                    &&& final(self)@ == next
                    &&& outcome matches Ok(report) && report == report_before(
                        next.action,
                        *package,
                        next.completed,
                        old(self).total(),
                    )
                }
            }),
    {
        let count = package.artifacts.len();
        let next = self.next_action(count);
        if cancelled && Staging::cancellable(next) {
            return Err(Error::Cancelled);
        }
        match self.action {
            StageAction::Download(i) => {
                proof {
                    lemma_declared_grows(package.artifacts@, i + 1, count as int);
                }
                self.completed = self.completed + package.artifacts[i].byte_count;
            },
            _ => {},
        }
        self.action = next;
        let report = match next {
            StageAction::Download(i) => Some(
                report_progress(
                    InstallPhase::Downloading,
                    Some(package.artifacts[i].kind),
                    self.completed,
                    self.total,
                ),
            ),
            StageAction::Verify(i) => Some(
                report_progress(
                    InstallPhase::Verifying,
                    Some(package.artifacts[i].kind),
                    self.completed,
                    self.total,
                ),
            ),
            StageAction::Extract(i) => Some(
                report_progress(
                    InstallPhase::Extracting,
                    Some(package.artifacts[i].kind),
                    self.completed,
                    self.total,
                ),
            ),
            StageAction::Validate => Some(
                report_progress(InstallPhase::ValidatingUci, None, self.total, self.total),
            ),
            StageAction::HashExecutable => Some(
                report_progress(InstallPhase::Activating, None, self.total, self.total),
            ),
            StageAction::Done => Some(
                report_progress(InstallPhase::Ready, None, self.total, self.total),
            ),
            _ => None,
        };
        Ok(report)
    }

    /// What is reported while an artifact is downloaded, of which a number of bytes has come.
    pub fn download_progress(&self, artifact: &Artifact, downloaded: u64) -> (report:
        InstallProgress)
        ensures
            report == progress(
                InstallPhase::Downloading,
                Some(artifact.kind),
                self@.completed + downloaded,
                self.total(),
            ),
    {
        report_progress(
            InstallPhase::Downloading,
            Some(artifact.kind),
            self.completed.saturating_add(downloaded),
            self.total,
        )
    }
}

proof fn lemma_declared_grows(artifacts: Seq<Artifact>, few: int, many: int)
    requires
        0 <= few <= many <= artifacts.len(),
    ensures
        0 <= declared_bytes(artifacts, few) <= declared_bytes(artifacts, many),
    decreases many,
{
    if few < many {
        lemma_declared_grows(artifacts, few, many - 1);
    } else if many > 0 {
        lemma_declared_grows(artifacts, few - 1, many - 1);
    }
}

/// The steps that come after the artifacts.
pub open spec fn closing_steps(personalizes: bool) -> Seq<StageAction> {
    let before = seq![
        StageAction::RemoveDownloads,
        StageAction::CheckLayout,
        StageAction::MakeExecutable,
    ];
    let after = seq![
        StageAction::Snapshot,
        StageAction::Validate,
        StageAction::CompareAfterValidation,
        StageAction::HashExecutable,
        StageAction::WriteRecord,
        StageAction::CompareAfterRecord,
        StageAction::SyncTree,
        StageAction::Activate,
        StageAction::SyncParent,
        StageAction::Register,
        StageAction::Done,
    ];
    if personalizes {
        before.push(StageAction::Personalize) + after
    } else {
        before + after
    }
}

/// The steps of one artifact.
pub open spec fn artifact_steps(i: usize) -> Seq<StageAction> {
    seq![
        StageAction::Download(i),
        StageAction::Verify(i),
        StageAction::Extract(i),
        StageAction::RemoveDownload(i),
    ]
}

/// The step at a position of the course: the directory for the downloads, four steps for each
/// artifact in turn, and the steps that come after them.
pub open spec fn step_at(n: int, count: usize, personalizes: bool) -> StageAction {
    if n <= 0 {
        StageAction::MakeDownloads
    } else if n <= 4 * count {
        artifact_steps(((n - 1) / 4) as usize)[(n - 1) % 4]
    } else {
        closing_steps(personalizes)[n - 1 - 4 * count]
    }
}

/// How many steps the course has.
pub open spec fn course_length(count: usize, personalizes: bool) -> int {
    1 + 4 * count + closing_steps(personalizes).len()
}

/// An installation goes through the steps of its course one after the other: every artifact is
/// downloaded, checked and unpacked in turn; then the package is tested and compared; only then is
/// it moved to its place and entered into the registry.
pub proof fn steps_come_in_order(n: int, count: usize, personalizes: bool)
    requires
        0 <= n < course_length(count, personalizes) - 1,
    ensures
        action_after(step_at(n, count, personalizes), count, personalizes) == step_at(
            n + 1,
            count,
            personalizes,
        ),
{
    if n == 0 {
        if count > 0 {
            assert(step_at(1, count, personalizes) == StageAction::Download(0));
        } else {
            assert(step_at(1, count, personalizes) == StageAction::RemoveDownloads);
        }
    } else if n <= 4 * count {
        let i = (n - 1) / 4;
        let r = (n - 1) % 4;
        assert(0 <= i < count);
        assert(n - 1 == 4 * i + r);
        if r < 3 {
            assert(n / 4 == i && n % 4 == r + 1);
            assert(n + 1 <= 4 * count);
        } else {
            assert(n / 4 == i + 1 && n % 4 == 0);
            if i + 1 < count {
                assert(n + 1 <= 4 * count);
            } else {
                assert(n == 4 * count);
                assert(step_at(n + 1, count, personalizes) == closing_steps(personalizes)[0]);
            }
        }
    } else {
        let k = n - 1 - 4 * count;
        let steps = closing_steps(personalizes);
        assert(0 <= k < steps.len() - 1);
        if personalizes {
            assert(steps[k] == step_at(n, count, personalizes));
            assert(steps[k + 1] == step_at(n + 1, count, personalizes));
            assert(steps.len() == 15);
        } else {
            assert(steps[k] == step_at(n, count, personalizes));
            assert(steps[k + 1] == step_at(n + 1, count, personalizes));
            assert(steps.len() == 14);
        }
    }
}

/// What is reported never says that more is completed than there is.
pub proof fn progress_is_bounded(
    action: StageAction,
    package: Package,
    completed: int,
    total: u64,
)
    requires
        0 <= completed,
    ensures
        report_before(action, package, completed, total) matches Some(report)
            ==> report.completed_bytes <= report.total_bytes && report.total_bytes == total,
{
}

/// What is completed never becomes less in the course of an installation.
pub proof fn completed_bytes_only_grow(staging: StagingView, package: Package, personalizes: bool)
    requires
        staging.sound(package),
    ensures
        staging.completed <= staging.advance(package, personalizes).completed,
{
}

/// An installation that is cancelled before it is moved to its place is not moved there: right
/// before that step, and before the test of the engine and every download, it may be cancelled.
pub proof fn activation_may_be_cancelled(i: usize)
    ensures
        may_cancel(StageAction::Activate),
        may_cancel(StageAction::Validate),
        may_cancel(StageAction::Download(i)),
{
}

/// The error of an artifact that could not be unpacked.
pub open spec fn materialize_message(index: usize, destination: Seq<char>, message: Seq<char>) -> Seq<
    char,
> {
    "could not materialize artifact "@ + decimal(index as nat) + " at "@ + destination + ": "@
        + message
}

/// The error of an artifact that could not be unpacked.
pub fn materialize_error(index: usize, artifact: &Artifact, error: &Error) -> (wrapped: Error)
    ensures
        wrapped@ == ErrorView::Other(
            materialize_message(index, artifact.destination@, error@.message()),
        ),
{
    let head = join5(
        "could not materialize artifact ",
        decimal_text(index as u64).as_str(),
        " at ",
        artifact.destination.as_str(),
        ": ",
    );
    Error::Other(join2(head.as_str(), error.message().as_str()))
}

/// Checks that a package is as it was before the engine was tested.
pub fn check_after_validation(before: &PackageSnapshot, after: &PackageSnapshot) -> (outcome:
    Result<(), Error>)
    ensures
        settles(
            outcome,
            if before@ != after@ {
                Some(ErrorView::Other("staged package changed during UCI validation"@))
            } else {
                None
            },
        ),
{
    if same_snapshot(after, before) {
        Ok(())
    } else {
        Err(Error::Other("staged package changed during UCI validation".to_owned()))
    }
}

/// Checks that a package is as it was before its description was written.
pub fn check_after_record(before: &PackageSnapshot, after: &PackageSnapshot) -> (outcome: Result<
    (),
    Error,
>)
    ensures
        settles(
            outcome,
            if before@ != after@ {
                Some(ErrorView::Other("staged package changed after UCI validation"@))
            } else {
                None
            },
        ),
{
    if same_snapshot(after, before) {
        Ok(())
    } else {
        Err(Error::Other("staged package changed after UCI validation".to_owned()))
    }
}

/// Each artifact is downloaded, checked, unpacked and removed before the next; then the layout is
/// checked and the executable made one, the launcher bound where that is due, the package looked
/// at, the engine tested and the package looked at again, the record written, the package looked at
/// once more and moved to its place, and only then entered into the registry.
pub proof fn installations_take_this_course(i: usize, count: usize, bound: bool)
    requires
        i < count,
    ensures
        step_at(0, count, bound) == StageAction::MakeDownloads,
        step_at(4 * i + 1, count, bound) == StageAction::Download(i),
        step_at(4 * i + 2, count, bound) == StageAction::Verify(i),
        step_at(4 * i + 3, count, bound) == StageAction::Extract(i),
        step_at(4 * i + 4, count, bound) == StageAction::RemoveDownload(i),
        step_at(4 * count + 1, count, bound) == StageAction::RemoveDownloads,
        step_at(4 * count + 2, count, bound) == StageAction::CheckLayout,
        step_at(4 * count + 3, count, bound) == StageAction::MakeExecutable,
        bound ==> step_at(4 * count + 4, count, bound) == StageAction::Personalize,
        ({
            let last = course_length(count, bound) - 1;
            &&& last == 4 * count + if bound {
                15int
            } else {
                14int
            }
            &&& step_at(last - 10, count, bound) == StageAction::Snapshot
            &&& step_at(last - 9, count, bound) == StageAction::Validate
            &&& step_at(last - 8, count, bound) == StageAction::CompareAfterValidation
            &&& step_at(last - 7, count, bound) == StageAction::HashExecutable
            &&& step_at(last - 6, count, bound) == StageAction::WriteRecord
            &&& step_at(last - 5, count, bound) == StageAction::CompareAfterRecord
            &&& step_at(last - 4, count, bound) == StageAction::SyncTree
            &&& step_at(last - 3, count, bound) == StageAction::Activate
            &&& step_at(last - 2, count, bound) == StageAction::SyncParent
            &&& step_at(last - 1, count, bound) == StageAction::Register
            &&& step_at(last, count, bound) == StageAction::Done
        }),
        action_after(StageAction::Done, count, bound) == StageAction::Done,
{
    assert((4 * i) / 4 == i as int && (4 * i) % 4 == 0);
    assert((4 * i + 1) / 4 == i as int && (4 * i + 1) % 4 == 1);
    assert((4 * i + 2) / 4 == i as int && (4 * i + 2) % 4 == 2);
    assert((4 * i + 3) / 4 == i as int && (4 * i + 3) % 4 == 3);
}

/// An installation may be given up around each download, around the test of the engine and before
/// the package is moved to its place, and at no other step; none of these comes after that move.
pub proof fn installations_may_be_given_up_until_they_are_active(
    action: StageAction,
    n: int,
    count: usize,
    bound: bool,
)
    ensures
        course_length(count, bound) - 3 <= n < course_length(count, bound) ==> !may_cancel(
            step_at(n, count, bound),
        ),
        may_cancel(action) <==> {
            ||| action is Download
            ||| action is Verify
            ||| action is RemoveDownload
            ||| action == StageAction::Validate
            ||| action == StageAction::CompareAfterValidation
            ||| action == StageAction::Activate
        },
{
}

/// What is reported before a step is its phase, the artifact that it is for, and how many of all
/// bytes have come; from the test of the engine on, all of them have.
pub proof fn reports_say_what_is_done(
    action: StageAction,
    package: Package,
    completed: int,
    total: u64,
)
    requires
        0 <= completed,
    ensures
        report_before(action, package, completed, total) is Some <==> {
            ||| action is Download
            ||| action is Verify
            ||| action is Extract
            ||| action == StageAction::Validate
            ||| action == StageAction::HashExecutable
            ||| action == StageAction::Done
        },
        report_before(action, package, completed, total) matches Some(report) ==> {
            &&& report.total_bytes == total
            &&& action matches StageAction::Download(i) ==> report.phase == InstallPhase::Downloading
                && report.artifact_kind == Some(package.artifacts@[i as int].kind)
            &&& action matches StageAction::Verify(i) ==> report.phase == InstallPhase::Verifying
                && report.artifact_kind == Some(package.artifacts@[i as int].kind)
            &&& action matches StageAction::Extract(i) ==> report.phase == InstallPhase::Extracting
                && report.artifact_kind == Some(package.artifacts@[i as int].kind)
            &&& action == StageAction::Validate ==> report.phase == InstallPhase::ValidatingUci
            &&& action == StageAction::HashExecutable ==> report.phase == InstallPhase::Activating
            &&& action == StageAction::Done ==> report.phase == InstallPhase::Ready
            &&& report.artifact_kind is None ==> report.completed_bytes == total
            &&& report.artifact_kind is Some && completed <= total ==> report.completed_bytes
                == completed
            &&& report.artifact_kind is Some && completed > total ==> report.completed_bytes == total
        },
{
}

/// The bytes of an artifact count once it is downloaded, and nothing else counts.
pub proof fn downloads_are_counted(staging: StagingView, package: Package, bound: bool)
    ensures
        staging.action matches StageAction::Download(i) ==> staging.advance(
            package,
            bound,
        ).completed == staging.completed + package.artifacts@[i as int].byte_count,
        !(staging.action is Download) ==> staging.advance(package, bound).completed
            == staging.completed,
        StagingView::fresh().completed == 0,
        StagingView::fresh().action == StageAction::MakeDownloads,
{
}

} // verus!
