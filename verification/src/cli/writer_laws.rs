//! What holds of every run that carries a queue out.
use vstd::prelude::*;

use crate::cli::queue::QueueModel;
use crate::cli::scan::{all_below, fetched, target_of, wanted, EntryModel, RulesModel};
use crate::cli::scan_laws::{absent, chosen, law_fetched_consistent, law_queue_holds_wanted, law_queued_was_wanted};
use crate::cli::shell::shell_word;
use crate::cli::writer::{answers, label_of, stepped, ActionModel, PhaseModel, PlanModel, WriteEvent, WriteModel};
use crate::path::{join_of, parent_of, strip_prefix_of};
use crate::path_laws::{law_parent, moved};

verus! {

/// `dir` is `path`, or a directory that `path` lies in.
pub open spec fn holds(dir: Seq<char>, path: Seq<char>) -> bool
    decreases path.len(),
{
    dir == path || match parent_of(path) {
        Some(up) => {
            proof {
                law_parent(path);
            }
            holds(dir, up)
        },
        None => false,
    }
}

/// The parent of a directory that holds a path holds it too.
proof fn lemma_parent_holds(dir: Seq<char>, path: Seq<char>)
    requires
        holds(dir, path),
    ensures
        parent_of(dir) matches Some(up) ==> holds(up, path),
    decreases path.len(),
{
    law_parent(path);
    if dir == path {
        if let Some(up) = parent_of(dir) {
            assert(holds(up, up));
        }
    } else {
        lemma_parent_holds(dir, parent_of(path)->0);
    }
}

/// What is being looked at or removed holds the surplus file of its place.
pub open spec fn climbing(s: WriteModel) -> bool {
    match s.phase {
        PhaseModel::Probing(i, p) => holds(p, s.queue.dels[i]),
        PhaseModel::Removing(i, p) => holds(p, s.queue.dels[i]),
        _ => true,
    }
}

/// A step keeps the state well formed, and the queue as it is.
pub proof fn law_step_keeps_state(plan: PlanModel, s: WriteModel, event: WriteEvent)
    requires
        s.well_formed(plan),
        answers(s.phase, event),
        climbing(s),
    ensures
        stepped(plan, s, event).0.well_formed(plan),
        stepped(plan, s, event).0.queue == s.queue,
        climbing(stepped(plan, s, event).0),
{
    if let PhaseModel::Removing(i, p) = s.phase {
        lemma_parent_holds(p, s.queue.dels[i]);
    }
}

/// Only surplus files are removed, and directories that held one. Each was
/// found empty just before, but for a surplus file that is not looked at first.
pub proof fn law_removals(plan: PlanModel, s: WriteModel, event: WriteEvent)
    requires
        s.well_formed(plan),
        answers(s.phase, event),
        climbing(s),
    ensures
        stepped(plan, s, event).1 matches ActionModel::Remove { path, command } ==> {
            &&& command == "rm -r "@ + shell_word(path)
            &&& exists|i: int|
                0 <= i < s.queue.dels.len() && holds(path, #[trigger] s.queue.dels[i])
            &&& (!plan.probe_first && s.queue.dels.contains(path)) || event == WriteEvent::Vacant(
                true,
            )
        },
{
    if let ActionModel::Remove { path, command } = stepped(plan, s, event).1 {
        let i = match stepped(plan, s, event).0.phase {
            PhaseModel::Removing(i, _) => i,
            _ => 0,
        };
        law_step_keeps_state(plan, s, event);
        assert(holds(path, s.queue.dels[i]));
    }
}

/// Without `delete` nothing is removed.
pub proof fn law_nothing_removed(plan: PlanModel, s: WriteModel, event: WriteEvent)
    requires
        s.well_formed(plan),
        answers(s.phase, event),
        !plan.delete,
        !(s.phase is DeletionsStarted || s.phase is Probing || s.phase is Removing),
    ensures
        !(stepped(plan, s, event).1 is Remove),
        !(stepped(plan, s, event).0.phase is DeletionsStarted),
        !(stepped(plan, s, event).0.phase is Probing),
        !(stepped(plan, s, event).0.phase is Removing),
{
}

/// A file is copied exactly where its times are known and it is newer than at
/// the target. It is a file of the queue, it keeps its place, and its number is
/// at most the number of files.
pub proof fn law_copies(plan: PlanModel, s: WriteModel, event: WriteEvent)
    requires
        s.well_formed(plan),
        answers(s.phase, event),
    ensures
        stepped(plan, s, event).1 is Copy <==> (event matches WriteEvent::Times {
            source: here,
            target: there,
        } && there < here),
        stepped(plan, s, event).1 matches ActionModel::Copy { source, target, label, message } ==> {
            &&& s.queue.files.contains(source)
            &&& moved(source, plan.from, plan.to) == Some(target)
            &&& 1 <= s.copied + 1 <= s.queue.files.len()
            &&& label == label_of(s.copied + 1, s.queue.files.len() as int)
        },
{
}

/// How much is left to do: the part of the work, the place on its list, and
/// what is left at that place.
pub open spec fn left(s: WriteModel) -> (nat, nat, nat) {
    let dels = s.queue.dels.len();
    let dirs = s.queue.dirs.len();
    let files = s.queue.files.len();
    match s.phase {
        PhaseModel::Fresh => (6, 0, 0),
        PhaseModel::DeletionsStarted => (5, 0, 0),
        PhaseModel::Probing(i, p) => (4, (dels - i) as nat, 2 * p.len() + 1),
        PhaseModel::Removing(i, p) => (4, (dels - i) as nat, 2 * p.len()),
        PhaseModel::DirectoriesStarted => (3, 0, 0),
        PhaseModel::Making(i) => (2, (dirs - i) as nat, 0),
        PhaseModel::Asking(i) => (1, (files - i) as nat, 1),
        PhaseModel::Copying(i) => (1, (files - i) as nat, 0),
        PhaseModel::Finished => (0, 0, 0),
    }
}

/// Every step leaves less to do, so that every run comes to its end.
pub proof fn law_progress(plan: PlanModel, s: WriteModel, event: WriteEvent)
    requires
        s.well_formed(plan),
        answers(s.phase, event),
    ensures
        ({
            let a = left(s);
            let b = left(stepped(plan, s, event).0);
            b.0 < a.0 || (b.0 == a.0 && (b.1 < a.1 || (b.1 == a.1 && b.2 < a.2)))
        }),
{
    if let PhaseModel::Removing(i, p) = s.phase {
        law_parent(p);
    }
}

/// The state that a run of answers leads to.
pub open spec fn after(plan: PlanModel, queue: QueueModel, events: Seq<WriteEvent>) -> WriteModel
    decreases events.len(),
{
    if events.len() == 0 {
        WriteModel::fresh(queue)
    } else {
        stepped(plan, after(plan, queue, events.drop_last()), events.last()).0
    }
}

/// What a run of answers asks for, step by step.
pub open spec fn actions(plan: PlanModel, queue: QueueModel, events: Seq<WriteEvent>) -> Seq<
    ActionModel,
>
    decreases events.len(),
{
    if events.len() == 0 {
        seq![]
    } else {
        actions(plan, queue, events.drop_last()).push(
            stepped(plan, after(plan, queue, events.drop_last()), events.last()).1,
        )
    }
}

/// Each event of the run answers what was asked for.
pub open spec fn answered(plan: PlanModel, queue: QueueModel, events: Seq<WriteEvent>) -> bool
    decreases events.len(),
{
    events.len() == 0 || {
        &&& answered(plan, queue, events.drop_last())
        &&& answers(after(plan, queue, events.drop_last()).phase, events.last())
    }
}

/// The directories that the actions make.
pub open spec fn made(actions: Seq<ActionModel>) -> Seq<Seq<char>>
    decreases actions.len(),
{
    if actions.len() == 0 {
        seq![]
    } else {
        match actions.last() {
            ActionModel::MakeDir { path, .. } => made(actions.drop_last()).push(path),
            _ => made(actions.drop_last()),
        }
    }
}

/// The files whose times the actions ask for.
pub open spec fn asked(actions: Seq<ActionModel>) -> Seq<Seq<char>>
    decreases actions.len(),
{
    if actions.len() == 0 {
        seq![]
    } else {
        match actions.last() {
            ActionModel::AskTimes { source, .. } => asked(actions.drop_last()).push(source),
            _ => asked(actions.drop_last()),
        }
    }
}

/// At every point of a run, the directories before the place of the phase
/// were made, and the files before it were asked for, in their order.
pub open spec fn in_order(s: WriteModel, done: Seq<ActionModel>) -> bool {
    match s.phase {
        PhaseModel::Making(i) => made(done) == s.queue.dirs.take(i + 1) && asked(done).len() == 0,
        PhaseModel::Asking(i) => made(done) == s.queue.dirs && asked(done) == s.queue.files.take(
            i + 1,
        ),
        PhaseModel::Copying(i) => made(done) == s.queue.dirs && asked(done) == s.queue.files.take(
            i + 1,
        ),
        PhaseModel::Finished => {
            &&& made(done) == s.queue.dirs
            &&& done.len() > 0
            &&& done.last() is Finish || done.last() is Fail
            &&& done.last() is Finish ==> asked(done) == s.queue.files
        },
        _ => made(done).len() == 0 && asked(done).len() == 0,
    }
}

/// A run keeps the queue, and does things in their order.
pub proof fn law_run_in_order(plan: PlanModel, queue: QueueModel, events: Seq<WriteEvent>)
    requires
        queue.consistent(),
        answered(plan, queue, events),
    ensures
        after(plan, queue, events).well_formed(plan),
        after(plan, queue, events).queue == queue,
        climbing(after(plan, queue, events)),
        in_order(after(plan, queue, events), actions(plan, queue, events)),
    decreases events.len(),
{
    if events.len() > 0 {
        let front = events.drop_last();
        let event = events.last();
        let s = after(plan, queue, front);
        let before = actions(plan, queue, front);
        let done = actions(plan, queue, events);
        law_run_in_order(plan, queue, front);
        law_step_keeps_state(plan, s, event);
        assert(done.drop_last() == before);
        assert(done.last() == stepped(plan, s, event).1);
        lemma_in_order_step(plan, s, event, before, done);
    }
}

/// One step does things in their order.
proof fn lemma_in_order_step(
    plan: PlanModel,
    s: WriteModel,
    event: WriteEvent,
    before: Seq<ActionModel>,
    done: Seq<ActionModel>,
)
    requires
        s.well_formed(plan),
        answers(s.phase, event),
        in_order(s, before),
        done.len() == before.len() + 1,
        done.drop_last() == before,
        done.last() == stepped(plan, s, event).1,
    ensures
        in_order(stepped(plan, s, event).0, done),
{
    let next = stepped(plan, s, event).0;
    let dirs = s.queue.dirs;
    let files = s.queue.files;
    match next.phase {
        PhaseModel::Making(i) => {
            assert(dirs.take(i + 1) == dirs.take(i).push(dirs[i]));
            assert(i == 0 ==> made(before) == dirs.take(0));
        },
        PhaseModel::Asking(i) => {
            assert(files.take(i + 1) == files.take(i).push(files[i]));
            assert(i == 0 ==> asked(before) == files.take(0));
        },
        _ => {},
    }
    match s.phase {
        PhaseModel::DirectoriesStarted => {
            assert(dirs.len() == 0 ==> made(before) == dirs);
            assert(files.len() == 0 ==> asked(before) == files);
        },
        PhaseModel::Making(i) => {
            assert(i + 1 == dirs.len() ==> dirs.take(i + 1) == dirs);
            assert(files.len() == 0 ==> asked(before) == files);
        },
        PhaseModel::Asking(i) => {
            assert(i + 1 == files.len() ==> files.take(i + 1) == files);
        },
        PhaseModel::Copying(i) => {
            assert(i + 1 == files.len() ==> files.take(i + 1) == files);
        },
        _ => {},
    }
}

/// A run that comes to its end has made every directory of the queue, and has
/// asked for every file, each once and in their order.
pub proof fn law_run_complete(plan: PlanModel, queue: QueueModel, events: Seq<WriteEvent>)
    requires
        queue.consistent(),
        answered(plan, queue, events),
        events.len() > 0,
        actions(plan, queue, events).last() is Finish,
    ensures
        made(actions(plan, queue, events)) == queue.dirs,
        asked(actions(plan, queue, events)) == queue.files,
{
    law_run_in_order(plan, queue, events);
    let front = events.drop_last();
    law_run_in_order(plan, queue, front);
    let s = after(plan, queue, front);
    assert(actions(plan, queue, events).last() == stepped(plan, s, events.last()).1);
    assert(after(plan, queue, events).phase is Finished);
}

/// The step of a run at place `k`.
pub proof fn lemma_action_at(plan: PlanModel, queue: QueueModel, events: Seq<WriteEvent>, k: int)
    requires
        queue.consistent(),
        answered(plan, queue, events),
        0 <= k < events.len(),
    ensures
        actions(plan, queue, events).len() == events.len(),
        ({
            let s = after(plan, queue, events.take(k));
            &&& answered(plan, queue, events.take(k))
            &&& answers(s.phase, events[k])
            &&& actions(plan, queue, events)[k] == stepped(plan, s, events[k]).1
            &&& s.well_formed(plan)
            &&& s.queue == queue
            &&& climbing(s)
        }),
    decreases events.len(),
{
    let front = events.drop_last();
    lemma_actions_len(plan, queue, front);
    if k < front.len() {
        lemma_action_at(plan, queue, front, k);
        assert(front.take(k) == events.take(k));
    } else {
        assert(front == events.take(k));
    }
    law_run_in_order(plan, queue, events.take(k));
}

/// Each answer leads to one step.
pub proof fn lemma_actions_len(plan: PlanModel, queue: QueueModel, events: Seq<WriteEvent>)
    ensures
        actions(plan, queue, events).len() == events.len(),
    decreases events.len(),
{
    if events.len() > 0 {
        lemma_actions_len(plan, queue, events.drop_last());
    }
}

/// Without `delete`, a run never turns to the deletions.
proof fn lemma_no_deletions(plan: PlanModel, queue: QueueModel, events: Seq<WriteEvent>)
    requires
        queue.consistent(),
        answered(plan, queue, events),
        !plan.delete,
    ensures
        ({
            let phase = after(plan, queue, events).phase;
            !(phase is DeletionsStarted || phase is Probing || phase is Removing)
        }),
    decreases events.len(),
{
    if events.len() > 0 {
        let front = events.drop_last();
        lemma_no_deletions(plan, queue, front);
        law_run_in_order(plan, queue, front);
        law_nothing_removed(plan, after(plan, queue, front), events.last());
    }
}

/// A run removes nothing without `delete`, and nothing but surplus files and
/// directories that held one. What it removes was found empty just before, but
/// for a surplus file that is not looked at first.
pub proof fn law_run_removals(
    plan: PlanModel,
    queue: QueueModel,
    events: Seq<WriteEvent>,
    k: int,
    path: Seq<char>,
    command: Seq<char>,
)
    requires
        queue.consistent(),
        answered(plan, queue, events),
        0 <= k < events.len(),
        actions(plan, queue, events)[k] == (ActionModel::Remove { path, command }),
    ensures
        plan.delete,
        command == "rm -r "@ + shell_word(path),
        exists|i: int| 0 <= i < queue.dels.len() && holds(path, #[trigger] queue.dels[i]),
        (!plan.probe_first && queue.dels.contains(path)) || events[k] == WriteEvent::Vacant(true),
{
    lemma_action_at(plan, queue, events, k);
    let s = after(plan, queue, events.take(k));
    law_removals(plan, s, events[k]);
    if !plan.delete {
        lemma_no_deletions(plan, queue, events.take(k));
        law_nothing_removed(plan, s, events[k]);
    }
}

/// A run copies only files of the queue, each to its own place, and only where
/// the answer just before was that the file is newer than at the target.
pub proof fn law_run_copies(
    plan: PlanModel,
    queue: QueueModel,
    events: Seq<WriteEvent>,
    k: int,
    source: Seq<char>,
    target: Seq<char>,
    label: Seq<char>,
    message: Seq<char>,
)
    requires
        queue.consistent(),
        answered(plan, queue, events),
        0 <= k < events.len(),
        actions(plan, queue, events)[k] == (ActionModel::Copy { source, target, label, message }),
    ensures
        queue.files.contains(source),
        moved(source, plan.from, plan.to) == Some(target),
        events[k] matches WriteEvent::Times { source: here, target: there } && there < here,
{
    lemma_action_at(plan, queue, events, k);
    law_copies(plan, after(plan, queue, events.take(k)), events[k]);
}

/// A run that comes to its end on the queue of a comparison has asked for
/// exactly the files that were wanted, in their order.
pub proof fn law_run_asks_for_wanted(
    rules: RulesModel,
    delete: bool,
    entries: Seq<EntryModel>,
    listing: Seq<char>,
    sizes: Seq<i64>,
    plan: PlanModel,
    events: Seq<WriteEvent>,
)
    requires
        ({
            let queue = fetched(rules, delete, entries, listing, sizes);
            &&& answered(plan, queue, events)
            &&& events.len() > 0
            &&& actions(plan, queue, events).last() is Finish
        }),
    ensures
        asked(actions(plan, fetched(rules, delete, entries, listing, sizes), events)) == chosen(
            rules,
            entries,
        ).map_values(|e: EntryModel| e.path),
{
    law_fetched_consistent(rules, delete, entries, listing, sizes);
    law_queue_holds_wanted(rules, entries);
    law_run_complete(plan, fetched(rules, delete, entries, listing, sizes), events);
}

/// What a surplus file is met with: it is removed, or looked at first.
pub open spec fn first_action(plan: PlanModel, path: Seq<char>) -> ActionModel {
    if plan.probe_first {
        ActionModel::Probe(path)
    } else {
        ActionModel::Remove { path, command: "rm -r "@ + shell_word(path) }
    }
}

/// The surplus files before the place of the phase were met; all of them, once
/// the directories have begun.
pub open spec fn deletions_met(plan: PlanModel, s: WriteModel, done: Seq<ActionModel>) -> bool {
    let count = match s.phase {
        PhaseModel::Fresh => 0,
        PhaseModel::DeletionsStarted => 0,
        PhaseModel::Probing(i, _) => i + 1,
        PhaseModel::Removing(i, _) => i + 1,
        _ => s.queue.dels.len() as int,
    };
    forall|j: int|
        0 <= j < count ==> done.contains(first_action(plan, #[trigger] s.queue.dels[j]))
}

proof fn lemma_deletions_met(plan: PlanModel, queue: QueueModel, events: Seq<WriteEvent>)
    requires
        queue.consistent(),
        plan.delete,
        answered(plan, queue, events),
    ensures
        deletions_met(plan, after(plan, queue, events), actions(plan, queue, events)),
    decreases events.len(),
{
    if events.len() > 0 {
        let front = events.drop_last();
        let s = after(plan, queue, front);
        let next = after(plan, queue, events);
        let before = actions(plan, queue, front);
        let done = actions(plan, queue, events);
        law_run_in_order(plan, queue, front);
        law_run_in_order(plan, queue, events);
        lemma_deletions_met(plan, queue, front);
        assert(done[before.len() as int] == stepped(plan, s, events.last()).1);
        assert forall|a: ActionModel| before.contains(a) implies #[trigger] done.contains(a) by {
            let k = choose|k: int| 0 <= k < before.len() && before[k] == a;
            assert(done[k] == a);
        }
        match next.phase {
            PhaseModel::Probing(i, p) => {
                assert(p == queue.dels[i] && plan.probe_first ==> done.contains(
                    first_action(plan, queue.dels[i]),
                ));
            },
            PhaseModel::Removing(i, p) => {
                assert(p == queue.dels[i] && !plan.probe_first ==> done.contains(
                    first_action(plan, queue.dels[i]),
                ));
            },
            _ => {},
        }
    }
}

/// With `delete`, a run has met every surplus file by the time it turns to the
/// directories: it was removed, or looked at first.
pub proof fn law_run_deletes(plan: PlanModel, queue: QueueModel, events: Seq<WriteEvent>, j: int)
    requires
        queue.consistent(),
        plan.delete,
        answered(plan, queue, events),
        0 <= j < queue.dels.len(),
        ({
            let phase = after(plan, queue, events).phase;
            !(phase is Fresh || phase is DeletionsStarted || phase is Probing || phase is Removing)
        }),
    ensures
        actions(plan, queue, events).contains(first_action(plan, queue.dels[j])),
{
    law_run_in_order(plan, queue, events);
    lemma_deletions_met(plan, queue, events);
}

/// What was looked at and found empty is removed.
pub proof fn law_vacant_is_removed(plan: PlanModel, s: WriteModel, i: int, path: Seq<char>)
    requires
        s.phase == PhaseModel::Probing(i, path),
    ensures
        stepped(plan, s, WriteEvent::Vacant(true)).1 == (ActionModel::Remove {
            path,
            command: "rm -r "@ + shell_word(path),
        }),
{
}

/// The queue of a comparison never makes a run give up.
pub proof fn law_fetched_never_fails(
    rules: RulesModel,
    delete: bool,
    entries: Seq<EntryModel>,
    listing: Seq<char>,
    sizes: Seq<i64>,
    plan: PlanModel,
    s: WriteModel,
    event: WriteEvent,
)
    requires
        all_below(rules, entries),
        plan.from == rules.from,
        s.queue == fetched(rules, delete, entries, listing, sizes),
        s.well_formed(plan),
        answers(s.phase, event),
    ensures
        !(stepped(plan, s, event).1 is Fail),
{
    assert forall|j: int| 0 <= j < s.queue.files.len() implies strip_prefix_of(
        #[trigger] s.queue.files[j],
        plan.from,
    ) is Some by {
        let i = law_queued_was_wanted(rules, entries, j);
        assert(target_of(rules, entries[i].path) is Some);
    }
}

/// A file that was wanted is copied to the place that was compared, if nothing
/// has changed since and its time can be told from none.
pub proof fn law_wanted_is_copied(
    rules: RulesModel,
    plan: PlanModel,
    e: EntryModel,
    s: WriteModel,
    i: int,
)
    requires
        plan.from == rules.from,
        plan.to == rules.to,
        wanted(rules, e),
        target_of(rules, e.path) is Some,
        e.source.mod_time > 0,
        s.phase == PhaseModel::Asking(i),
        s.well_formed(plan),
        s.queue.files[i] == e.path,
    ensures
        stepped(
            plan,
            s,
            WriteEvent::Times { source: e.source.mod_time, target: e.target.mod_time },
        ).1 matches ActionModel::Copy { source, target, label, message } && source == e.path
            && Some(target) == target_of(rules, e.path),
{
}

/// The copies among some actions.
pub open spec fn copies(actions: Seq<ActionModel>) -> Seq<ActionModel> {
    actions.filter(|a: ActionModel| a is Copy)
}

/// The copy of a file of the comparison, as the `number`th of `total`: it is
/// added where the target did not have it, else updated.
pub open spec fn copy_of(rules: RulesModel, e: EntryModel, number: int, total: int) -> ActionModel {
    let rel = strip_prefix_of(e.path, rules.from)->0;
    ActionModel::Copy {
        source: e.path,
        target: join_of(rules.to, rel),
        label: label_of(number, total),
        message: if absent(e) {
            "Adding "@ + rel
        } else {
            "Updating "@ + rel
        },
    }
}

/// The copies of some files of the comparison, in their order.
pub open spec fn copies_of(rules: RulesModel, picked: Seq<EntryModel>, total: int) -> Seq<
    ActionModel,
> {
    Seq::new(picked.len(), |i: int| copy_of(rules, picked[i], i + 1, total))
}

/// A copy that is announced as adding a file.
pub open spec fn adds(a: ActionModel) -> bool {
    a matches ActionModel::Copy { message, .. } && "Adding "@.is_prefix_of(message)
}

/// A copy that is announced as updating a file.
pub open spec fn updates(a: ActionModel) -> bool {
    a matches ActionModel::Copy { message, .. } && "Updating "@.is_prefix_of(message)
}

/// Whenever the run asked for the times of a file, they were those of the
/// comparison.
pub open spec fn unchanged(
    plan: PlanModel,
    queue: QueueModel,
    picked: Seq<EntryModel>,
    events: Seq<WriteEvent>,
) -> bool
    decreases events.len(),
{
    events.len() == 0 || {
        &&& unchanged(plan, queue, picked, events.drop_last())
        &&& after(plan, queue, events.drop_last()).phase matches PhaseModel::Asking(i)
            ==> events.last() == (WriteEvent::Times {
            source: picked[i].source.mod_time,
            target: picked[i].target.mod_time,
        })
    }
}

/// How many files were copied at a point of the run where none was passed
/// over.
spec fn settled(s: WriteModel) -> int {
    match s.phase {
        PhaseModel::Asking(i) => i,
        PhaseModel::Copying(i) => i + 1,
        PhaseModel::Finished => s.queue.files.len() as int,
        _ => 0,
    }
}

/// The files before the place of the phase were copied.
proof fn lemma_copied_so_far(
    rules: RulesModel,
    delete: bool,
    entries: Seq<EntryModel>,
    listing: Seq<char>,
    sizes: Seq<i64>,
    plan: PlanModel,
    events: Seq<WriteEvent>,
)
    requires
        all_below(rules, entries),
        plan.from == rules.from,
        plan.to == rules.to,
        forall|i: int| 0 <= i < entries.len() ==> (#[trigger] entries[i]).source.mod_time > 0,
        ({
            let queue = fetched(rules, delete, entries, listing, sizes);
            &&& answered(plan, queue, events)
            &&& unchanged(plan, queue, chosen(rules, entries), events)
        }),
    ensures
        ({
            let queue = fetched(rules, delete, entries, listing, sizes);
            let picked = chosen(rules, entries);
            let s = after(plan, queue, events);
            &&& s.copied == settled(s)
            &&& 0 <= settled(s) <= picked.len()
            &&& copies(actions(plan, queue, events)) == copies_of(
                rules,
                picked,
                picked.len() as int,
            ).take(settled(s))
        }),
    decreases events.len(),
{
    reveal(Seq::filter);
    let queue = fetched(rules, delete, entries, listing, sizes);
    let picked = chosen(rules, entries);
    let planned = copies_of(rules, picked, picked.len() as int);
    law_fetched_consistent(rules, delete, entries, listing, sizes);
    law_queue_holds_wanted(rules, entries);
    if events.len() == 0 {
        assert(planned.take(0) == Seq::<ActionModel>::empty());
    } else {
        let front = events.drop_last();
        let s = after(plan, queue, front);
        let next = after(plan, queue, events);
        let done = actions(plan, queue, events);
        lemma_copied_so_far(rules, delete, entries, listing, sizes, plan, front);
        law_run_in_order(plan, queue, front);
        law_fetched_never_fails(rules, delete, entries, listing, sizes, plan, s, events.last());
        assert(done.drop_last() == actions(plan, queue, front));
        if let PhaseModel::Asking(i) = s.phase {
            let e = picked[i];
            lemma_chosen(rules, entries, i);
            assert(queue.files[i] == e.path);
            assert(planned[i] == copy_of(rules, e, i + 1, picked.len() as int));
            assert(done.last() == planned[i]);
            assert(planned.take(i + 1) == planned.take(i).push(planned[i]));
        }
    }
}

/// A chosen entry is one that was wanted.
proof fn lemma_chosen(rules: RulesModel, entries: Seq<EntryModel>, i: int)
    requires
        0 <= i < chosen(rules, entries).len(),
    ensures
        wanted(rules, chosen(rules, entries)[i]),
        exists|j: int| 0 <= j < entries.len() && #[trigger] entries[j] == chosen(rules, entries)[i],
    decreases entries.len(),
{
    reveal(Seq::filter);
    let front = entries.drop_last();
    if i < chosen(rules, front).len() {
        lemma_chosen(rules, front, i);
        let j = choose|j: int|
            0 <= j < front.len() && #[trigger] front[j] == chosen(rules, front)[i];
        assert(entries[j] == chosen(rules, entries)[i]);
    } else {
        assert(entries[entries.len() - 1] == chosen(rules, entries)[i]);
    }
}

/// As many copies are announced as adding or updating a file as there are
/// files that the target does not have, or has.
proof fn lemma_announced(rules: RulesModel, picked: Seq<EntryModel>, total: int)
    ensures
        copies_of(rules, picked, total).filter(|a: ActionModel| adds(a)).len() == picked.filter(
            |e: EntryModel| absent(e),
        ).len(),
        copies_of(rules, picked, total).filter(|a: ActionModel| updates(a)).len() == picked.filter(
            |e: EntryModel| !absent(e),
        ).len(),
    decreases picked.len(),
{
    reveal(Seq::filter);
    reveal_strlit("Adding ");
    reveal_strlit("Updating ");
    let planned = copies_of(rules, picked, total);
    if picked.len() > 0 {
        let e = picked.last();
        let rel = strip_prefix_of(e.path, rules.from)->0;
        let front = picked.drop_last();
        lemma_announced(rules, front, total);
        assert(planned.drop_last() == copies_of(rules, front, total));
        assert(planned.last() == copy_of(rules, e, picked.len() as int, total));
        let adding = "Adding "@ + rel;
        let updating = "Updating "@ + rel;
        assert("Adding "@ =~= adding.subrange(0, 7));
        assert("Updating "@ =~= updating.subrange(0, 9));
        assert(adding[0] == 'A' && updating[0] == 'U');
        assert(!"Adding "@.is_prefix_of(updating)) by {
            assert(updating.subrange(0, 7)[0] == 'U');
        }
        assert(!"Updating "@.is_prefix_of(adding)) by {
            assert(adding.len() >= 9 ==> adding.subrange(0, 9)[0] == 'A');
        }
    }
}

/// A run that comes to its end on the queue of a comparison, with every time
/// as it was compared and no file of the source at second 0, copies each file
/// of the queue exactly once, in their order and to its own place. It
/// announces as added those that the target did not have, and as updated those
/// that it had, as many as the queue counts of each.
pub proof fn law_run_copies_all(
    rules: RulesModel,
    delete: bool,
    entries: Seq<EntryModel>,
    listing: Seq<char>,
    sizes: Seq<i64>,
    plan: PlanModel,
    events: Seq<WriteEvent>,
)
    requires
        all_below(rules, entries),
        plan.from == rules.from,
        plan.to == rules.to,
        forall|i: int| 0 <= i < entries.len() ==> (#[trigger] entries[i]).source.mod_time > 0,
        ({
            let queue = fetched(rules, delete, entries, listing, sizes);
            &&& answered(plan, queue, events)
            &&& unchanged(plan, queue, chosen(rules, entries), events)
            &&& events.len() > 0
            &&& actions(plan, queue, events).last() is Finish
        }),
    ensures
        ({
            let queue = fetched(rules, delete, entries, listing, sizes);
            let picked = chosen(rules, entries);
            let done = copies(actions(plan, queue, events));
            &&& done == copies_of(rules, picked, picked.len() as int)
            &&& done.len() == queue.files.len()
            &&& forall|i: int|
                0 <= i < done.len() ==> (#[trigger] done[i])->Copy_source == queue.files[i]
            &&& done.filter(|a: ActionModel| adds(a)).len() == queue.add
            &&& done.filter(|a: ActionModel| updates(a)).len() == queue.change
        }),
{
    let queue = fetched(rules, delete, entries, listing, sizes);
    let picked = chosen(rules, entries);
    let planned = copies_of(rules, picked, picked.len() as int);
    law_fetched_consistent(rules, delete, entries, listing, sizes);
    law_queue_holds_wanted(rules, entries);
    law_run_in_order(plan, queue, events);
    law_run_in_order(plan, queue, events.drop_last());
    lemma_copied_so_far(rules, delete, entries, listing, sizes, plan, events);
    assert(after(plan, queue, events).phase is Finished);
    assert(planned.take(picked.len() as int) == planned);
    lemma_announced(rules, picked, picked.len() as int);
}

} // verus!
