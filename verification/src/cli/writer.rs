//! Carrying a queue out, one step at a time: first the deletions, then the
//! directories, then the files. Each step names one thing to do on either
//! side; what came of it decides the next.
use vstd::prelude::*;
use vstd::string::*;

use crate::cli::queue::{Queue, QueueModel};
use crate::cli::shell::{make_dir_command, remove_command, shell_word, surround};
use crate::number::{decimal, decimal_of};
use crate::path::{join, join_of, parent, parent_of, strip_prefix, strip_prefix_of, StripPrefixError};

verus! {

/// How a queue is carried out.
#[derive(Debug)]
pub struct Plan {
    /// The directory that is copied.
    pub from_root: String,
    /// The directory it is copied to.
    pub to_root: String,
    /// Delete what is surplus.
    pub delete: bool,
    /// Look whether a surplus file can be listed as an empty directory before
    /// it is removed, as is done for the directories above it.
    pub probe_first: bool,
}

/// A `Plan` in mathematical terms.
pub struct PlanModel {
    pub from: Seq<char>,
    pub to: Seq<char>,
    pub delete: bool,
    pub probe_first: bool,
}

impl View for Plan {
    type V = PlanModel;

    open spec fn view(&self) -> PlanModel {
        PlanModel {
            from: self.from_root@,
            to: self.to_root@,
            delete: self.delete,
            probe_first: self.probe_first,
        }
    }
}

/// What the last step asked for.
#[derive(Debug)]
pub enum Phase {
    /// Nothing yet.
    Fresh,
    /// To get ready for the deletions.
    DeletionsStarted,
    /// Whether there is nothing in the directory, for the deletion at that
    /// place of the list.
    Probing(usize, String),
    /// To remove the path, for the deletion at that place of the list.
    Removing(usize, String),
    /// To get ready for the directories.
    DirectoriesStarted,
    /// To make the directory at that place of the list.
    Making(usize),
    /// The times of the file at that place of the list.
    Asking(usize),
    /// To copy the file at that place of the list.
    Copying(usize),
    /// Nothing more.
    Finished,
}

/// A `Phase` in mathematical terms.
pub enum PhaseModel {
    Fresh,
    DeletionsStarted,
    Probing(int, Seq<char>),
    Removing(int, Seq<char>),
    DirectoriesStarted,
    Making(int),
    Asking(int),
    Copying(int),
    Finished,
}

impl View for Phase {
    type V = PhaseModel;

    open spec fn view(&self) -> PhaseModel {
        match self {
            Phase::Fresh => PhaseModel::Fresh,
            Phase::DeletionsStarted => PhaseModel::DeletionsStarted,
            Phase::Probing(i, p) => PhaseModel::Probing(*i as int, p@),
            Phase::Removing(i, p) => PhaseModel::Removing(*i as int, p@),
            Phase::DirectoriesStarted => PhaseModel::DirectoriesStarted,
            Phase::Making(i) => PhaseModel::Making(*i as int),
            Phase::Asking(i) => PhaseModel::Asking(*i as int),
            Phase::Copying(i) => PhaseModel::Copying(*i as int),
            Phase::Finished => PhaseModel::Finished,
        }
    }
}

/// How far a queue has been carried out.
#[derive(Debug)]
pub struct WriteState {
    /// The queue.
    pub queue: Queue,
    /// What the last step asked for.
    pub phase: Phase,
    /// How many files were copied.
    pub copied: u64,
}

/// A `WriteState` in mathematical terms.
#[verifier::ext_equal]
pub struct WriteModel {
    pub queue: QueueModel,
    pub phase: PhaseModel,
    pub copied: int,
}

impl View for WriteState {
    type V = WriteModel;

    open spec fn view(&self) -> WriteModel {
        WriteModel { queue: self.queue@, phase: self.phase@, copied: self.copied as int }
    }
}

/// What came of the last step.
#[derive(Debug, Clone, Copy, PartialEq, Eq, Structural)]
pub enum WriteEvent {
    /// It is done.
    Ready,
    /// The directory is empty, or it is not.
    Vacant(bool),
    /// When the file was last written on either side.
    Times { source: u64, target: u64 },
}

/// What to do next.
#[derive(Debug)]
pub enum WriteAction {
    /// Get ready for so many deletions.
    StartDeletions(u64),
    /// Find out whether the directory is empty.
    Probe(String),
    /// Remove `path`: run `command` on the side of the target.
    Remove { path: String, command: String },
    /// Get ready for so many directories.
    StartDirectories(u64),
    /// Make the directory `path`: run `command` on the side of the target.
    MakeDir { path: String, command: String },
    /// Find out when the file was last written on either side.
    AskTimes { source: String, target: String },
    /// Say `label` and `message`, and copy the file.
    Copy { source: String, target: String, label: String, message: String },
    /// All is done.
    Finish,
    /// Give up: a file is not below the directory that is copied.
    Fail(StripPrefixError),
}

/// A `WriteAction` in mathematical terms.
pub enum ActionModel {
    StartDeletions(int),
    Probe(Seq<char>),
    Remove { path: Seq<char>, command: Seq<char> },
    StartDirectories(int),
    MakeDir { path: Seq<char>, command: Seq<char> },
    AskTimes { source: Seq<char>, target: Seq<char> },
    Copy { source: Seq<char>, target: Seq<char>, label: Seq<char>, message: Seq<char> },
    Finish,
    Fail(StripPrefixError),
}

impl View for WriteAction {
    type V = ActionModel;

    open spec fn view(&self) -> ActionModel {
        match self {
            WriteAction::StartDeletions(n) => ActionModel::StartDeletions(*n as int),
            WriteAction::Probe(p) => ActionModel::Probe(p@),
            WriteAction::Remove { path, command } => ActionModel::Remove {
                path: path@,
                command: command@,
            },
            WriteAction::StartDirectories(n) => ActionModel::StartDirectories(*n as int),
            WriteAction::MakeDir { path, command } => ActionModel::MakeDir {
                path: path@,
                command: command@,
            },
            WriteAction::AskTimes { source, target } => ActionModel::AskTimes {
                source: source@,
                target: target@,
            },
            WriteAction::Copy { source, target, label, message } => ActionModel::Copy {
                source: source@,
                target: target@,
                label: label@,
                message: message@,
            },
            WriteAction::Finish => ActionModel::Finish,
            WriteAction::Fail(e) => ActionModel::Fail(*e),
        }
    }
}

/// The event is an answer to what the last step asked for.
pub open spec fn answers(phase: PhaseModel, event: WriteEvent) -> bool {
    match phase {
        PhaseModel::Probing(_, _) => event is Vacant,
        PhaseModel::Asking(_) => event is Times,
        PhaseModel::Finished => false,
        _ => event is Ready,
    }
}

/// A surplus file that was removed without a look at it, and lies in no
/// directory.
pub open spec fn orphan(plan: PlanModel, s: WriteModel) -> bool {
    &&& !plan.probe_first
    &&& s.phase matches PhaseModel::Removing(i, p) && p == s.queue.dels[i] && parent_of(p) is None
}

impl WriteModel {
    /// Before the first step.
    pub open spec fn fresh(queue: QueueModel) -> WriteModel {
        WriteModel { queue, phase: PhaseModel::Fresh, copied: 0 }
    }

    /// The queue is consistent, the phase is at a place of its list, a file
    /// that was asked for lies below the directory that is copied, and no more
    /// files were copied than were looked at.
    pub open spec fn well_formed(self, plan: PlanModel) -> bool {
        &&& self.queue.consistent()
        &&& match self.phase {
            PhaseModel::Probing(i, _) => 0 <= i < self.queue.dels.len() && self.copied == 0,
            PhaseModel::Removing(i, _) => 0 <= i < self.queue.dels.len() && self.copied == 0,
            PhaseModel::Making(i) => 0 <= i < self.queue.dirs.len() && self.copied == 0,
            PhaseModel::Asking(i) => {
                &&& 0 <= i < self.queue.files.len()
                &&& 0 <= self.copied <= i
                &&& strip_prefix_of(self.queue.files[i], plan.from) is Some
            },
            PhaseModel::Copying(i) => 0 <= i < self.queue.files.len() && 1 <= self.copied <= i + 1,
            PhaseModel::Finished => 0 <= self.copied <= self.queue.files.len(),
            _ => self.copied == 0,
        }
    }

    /// The state with another phase.
    pub open spec fn at(self, phase: PhaseModel) -> WriteModel {
        WriteModel { phase, ..self }
    }
}

/// The step that removes `path`.
pub open spec fn removal(s: WriteModel, i: int, path: Seq<char>) -> (WriteModel, ActionModel) {
    (
        s.at(PhaseModel::Removing(i, path)),
        ActionModel::Remove { path, command: "rm -r "@ + shell_word(path) },
    )
}

/// The step that looks into the directory `path`.
pub open spec fn probe(s: WriteModel, i: int, path: Seq<char>) -> (WriteModel, ActionModel) {
    (s.at(PhaseModel::Probing(i, path)), ActionModel::Probe(path))
}

/// The step with which the directories begin.
pub open spec fn directories(s: WriteModel) -> (WriteModel, ActionModel) {
    (
        s.at(PhaseModel::DirectoriesStarted),
        ActionModel::StartDirectories(s.queue.dirs.len() as int),
    )
}

/// The first step for the deletion at place `i`; the directories follow the
/// last.
pub open spec fn deletion(plan: PlanModel, s: WriteModel, i: int) -> (WriteModel, ActionModel) {
    if i >= s.queue.dels.len() {
        directories(s)
    } else if plan.probe_first {
        probe(s, i, s.queue.dels[i])
    } else {
        removal(s, i, s.queue.dels[i])
    }
}

/// The step for the directory at place `i`; the files follow the last.
pub open spec fn directory(plan: PlanModel, s: WriteModel, i: int) -> (WriteModel, ActionModel) {
    if i >= s.queue.dirs.len() {
        file(plan, s, 0)
    } else {
        (
            s.at(PhaseModel::Making(i)),
            ActionModel::MakeDir {
                path: s.queue.dirs[i],
                command: "mkdir -p \""@ + s.queue.dirs[i] + "\""@,
            },
        )
    }
}

/// The first step for the file at place `i`; nothing follows the last.
pub open spec fn file(plan: PlanModel, s: WriteModel, i: int) -> (WriteModel, ActionModel) {
    if i >= s.queue.files.len() {
        (s.at(PhaseModel::Finished), ActionModel::Finish)
    } else {
        let source = s.queue.files[i];
        match strip_prefix_of(source, plan.from) {
            Some(rel) => (
                s.at(PhaseModel::Asking(i)),
                ActionModel::AskTimes { source, target: join_of(plan.to, rel) },
            ),
            None => (s.at(PhaseModel::Finished), ActionModel::Fail(StripPrefixError)),
        }
    }
}

/// The step for the file at place `i`, once its times are known: it is copied
/// where it is newer than at the target.
pub open spec fn timed(plan: PlanModel, s: WriteModel, i: int, source: u64, target: u64) -> (
    WriteModel,
    ActionModel,
) {
    let path = s.queue.files[i];
    let rel = strip_prefix_of(path, plan.from)->0;
    if target < source {
        (
            WriteModel { phase: PhaseModel::Copying(i), copied: s.copied + 1, ..s },
            ActionModel::Copy {
                source: path,
                target: join_of(plan.to, rel),
                label: label_of(s.copied + 1, s.queue.add + s.queue.change),
                message: if target == 0 {
                    "Adding "@ + rel
                } else {
                    "Updating "@ + rel
                },
            },
        )
    } else {
        file(plan, s, i + 1)
    }
}

/// `[number/total]`.
pub open spec fn label_of(number: int, total: int) -> Seq<char> {
    "["@ + decimal_of(number as nat) + "/"@ + decimal_of(total as nat) + "]"@
}

/// What follows on an event.
pub open spec fn stepped(plan: PlanModel, s: WriteModel, event: WriteEvent) -> (
    WriteModel,
    ActionModel,
) {
    match (s.phase, event) {
        (PhaseModel::Fresh, _) => if plan.delete && s.queue.del > 0 {
            (s.at(PhaseModel::DeletionsStarted), ActionModel::StartDeletions(s.queue.del))
        } else {
            directories(s)
        },
        (PhaseModel::DeletionsStarted, _) => deletion(plan, s, 0),
        (PhaseModel::Probing(i, path), WriteEvent::Vacant(vacant)) => if vacant {
            removal(s, i, path)
        } else {
            deletion(plan, s, i + 1)
        },
        (PhaseModel::Removing(i, path), _) => match parent_of(path) {
            Some(dir) => probe(s, i, dir),
            None => deletion(plan, s, i + 1),
        },
        (PhaseModel::DirectoriesStarted, _) => directory(plan, s, 0),
        (PhaseModel::Making(i), _) => directory(plan, s, i + 1),
        (PhaseModel::Asking(i), WriteEvent::Times { source, target }) => timed(
            plan,
            s,
            i,
            source,
            target,
        ),
        (PhaseModel::Copying(i), _) => file(plan, s, i + 1),
        _ => (s.at(PhaseModel::Finished), ActionModel::Finish),
    }
}

impl WriteState {
    /// Before the first step.
    pub fn new(queue: Queue) -> (state: WriteState)
        ensures
            state@ == WriteModel::fresh(queue@),
    {
        WriteState { queue, phase: Phase::Fresh, copied: 0 }
    }

    fn removal(self, i: usize, path: String) -> (res: (WriteState, WriteAction))
        ensures
            (res.0@, res.1@) == removal(self@, i as int, path@),
    {
        let command = remove_command(path.as_str());
        let action = WriteAction::Remove { path: path.clone(), command };
        (WriteState { phase: Phase::Removing(i, path), ..self }, action)
    }

    fn probe(self, i: usize, path: String) -> (res: (WriteState, WriteAction))
        ensures
            (res.0@, res.1@) == probe(self@, i as int, path@),
    {
        let action = WriteAction::Probe(path.clone());
        (WriteState { phase: Phase::Probing(i, path), ..self }, action)
    }

    fn directories(self) -> (res: (WriteState, WriteAction))
        ensures
            (res.0@, res.1@) == directories(self@),
    {
        let count: u64 = self.queue.dir_queue.len() as u64;
        (
            WriteState { phase: Phase::DirectoriesStarted, ..self },
            WriteAction::StartDirectories(count),
        )
    }

    fn deletion(self, plan: &Plan, i: usize) -> (res: (WriteState, WriteAction))
        ensures
            (res.0@, res.1@) == deletion(plan@, self@, i as int),
    {
        if i >= self.queue.del_queue.len() {
            return self.directories();
        }
        let path = self.queue.del_queue[i].clone();
        assert(self@.queue.dels[i as int] == path@);
        if plan.probe_first {
            self.probe(i, path)
        } else {
            self.removal(i, path)
        }
    }

    fn directory(self, plan: &Plan, i: usize) -> (res: (WriteState, WriteAction))
        ensures
            (res.0@, res.1@) == directory(plan@, self@, i as int),
    {
        if i >= self.queue.dir_queue.len() {
            return self.file(plan, 0);
        }
        let path = self.queue.dir_queue[i].clone();
        assert(self@.queue.dirs[i as int] == path@);
        let command = make_dir_command(path.as_str());
        (
            WriteState { phase: Phase::Making(i), ..self },
            WriteAction::MakeDir { path, command },
        )
    }

    fn file(self, plan: &Plan, i: usize) -> (res: (WriteState, WriteAction))
        ensures
            (res.0@, res.1@) == file(plan@, self@, i as int),
    {
        if i >= self.queue.file_queue.len() {
            return (WriteState { phase: Phase::Finished, ..self }, WriteAction::Finish);
        }
        let source = self.queue.file_queue[i].clone();
        assert(self@.queue.files[i as int] == source@);
        match strip_prefix(source.as_str(), plan.from_root.as_str()) {
            Ok(rel) => {
                let target = join(plan.to_root.as_str(), rel.as_str());
                (
                    WriteState { phase: Phase::Asking(i), ..self },
                    WriteAction::AskTimes { source, target },
                )
            },
            Err(e) => (WriteState { phase: Phase::Finished, ..self }, WriteAction::Fail(e)),
        }
    }

    fn timed(self, plan: &Plan, i: usize, source: u64, target: u64) -> (res: (
        WriteState,
        WriteAction,
    ))
        requires
            self@.queue.consistent(),
            i < self@.queue.files.len(),
            self.copied <= i,
            strip_prefix_of(self@.queue.files[i as int], plan@.from) is Some,
        ensures
            (res.0@, res.1@) == timed(plan@, self@, i as int, source, target),
    {
        let count: usize = self.queue.file_queue.len();
        assert(count == self@.queue.files.len());
        if target >= source {
            return self.file(plan, i + 1);
        }
        let path = self.queue.file_queue[i].clone();
        assert(self@.queue.files[i as int] == path@);
        let rel = match strip_prefix(path.as_str(), plan.from_root.as_str()) {
            Ok(rel) => rel,
            Err(e) => {
                assert(false);
                return (self, WriteAction::Fail(e));
            },
        };
        let label = progress_label(self.copied + 1, self.queue.add + self.queue.change);
        let message = surround(
            if target == 0 {
                "Adding "
            } else {
                "Updating "
            },
            rel.as_str(),
            "",
        );
        proof {
            reveal_strlit("");
            assert(target == 0 ==> message@ == "Adding "@ + rel@);
            assert(target != 0 ==> message@ == "Updating "@ + rel@);
        }
        let action = WriteAction::Copy {
            source: path,
            target: join(plan.to_root.as_str(), rel.as_str()),
            label,
            message,
        };
        (WriteState { phase: Phase::Copying(i), copied: self.copied + 1, ..self }, action)
    }

    /// Whether the file that was just removed lies in no directory.
    pub fn is_orphan(&self, plan: &Plan) -> (b: bool)
        requires
            self@.well_formed(plan@),
        ensures
            b == orphan(plan@, self@),
    {
        if plan.probe_first {
            return false;
        }
        match &self.phase {
            Phase::Removing(i, path) => {
                assert(self@.queue.dels[*i as int] == self.queue.del_queue@[*i as int]@);
                *path == self.queue.del_queue[*i] && parent(path.as_str()).is_none()
            },
            _ => false,
        }
    }

    /// Takes what came of the last step, and says what to do next.
    pub fn step(self, plan: &Plan, event: WriteEvent) -> (res: (WriteState, WriteAction))
        requires
            self@.well_formed(plan@),
            answers(self@.phase, event),
            !orphan(plan@, self@),
        ensures
            (res.0@, res.1@) == stepped(plan@, self@, event),
            res.0@.well_formed(plan@),
    {
        let WriteState { queue, phase, copied } = self;
        let dels: usize = queue.del_queue.len();
        let dirs: usize = queue.dir_queue.len();
        let files: usize = queue.file_queue.len();
        assert(dels == queue@.dels.len() && dirs == queue@.dirs.len() && files
            == queue@.files.len());
        let state = WriteState { queue, phase: Phase::Finished, copied };
        match (phase, event) {
            (Phase::Fresh, _) => {
                let count: u64 = state.queue.del;
                if plan.delete && count > 0 {
                    (
                        WriteState { phase: Phase::DeletionsStarted, ..state },
                        WriteAction::StartDeletions(count),
                    )
                } else {
                    state.directories()
                }
            },
            (Phase::DeletionsStarted, _) => state.deletion(plan, 0),
            (Phase::Probing(i, path), WriteEvent::Vacant(vacant)) => {
                if vacant {
                    state.removal(i, path)
                } else {
                    state.deletion(plan, i + 1)
                }
            },
            (Phase::Removing(i, path), _) => match parent(path.as_str()) {
                Some(dir) => state.probe(i, dir),
                None => state.deletion(plan, i + 1),
            },
            (Phase::DirectoriesStarted, _) => state.directory(plan, 0),
            (Phase::Making(i), _) => state.directory(plan, i + 1),
            (Phase::Asking(i), WriteEvent::Times { source, target }) => state.timed(
                plan,
                i,
                source,
                target,
            ),
            (Phase::Copying(i), _) => state.file(plan, i + 1),
            _ => (state, WriteAction::Finish),
        }
    }
}

/// Writes `[number/total]`.
pub fn progress_label(number: u64, total: u64) -> (out: String)
    ensures
        out@ == label_of(number as int, total as int),
{
    let mut out = surround("[", decimal(number).as_str(), "/");
    out.append(decimal(total).as_str());
    out.append("]");
    out
}

} // verus!
