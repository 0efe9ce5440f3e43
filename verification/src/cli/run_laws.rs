//! How the steps of a run follow on each other and on their answers.
use vstd::prelude::*;

use crate::cli::pull::pull_plan;
use crate::cli::push::push_plan;
use crate::cli::queue::QueueModel;
use crate::cli::shell::shell_word;
use crate::cli::writer::{answers, label_of, orphan, stepped, ActionModel, PhaseModel, PlanModel, WriteEvent, WriteModel};
use crate::cli::writer_laws::{actions, after, answered, copies, holds, law_run_copies, law_run_deletes, law_run_in_order, law_run_removals, law_step_keeps_state, lemma_action_at, lemma_actions_len};
use crate::config::ConfigFile;
use crate::number::{decimal_of, number_value, NumberError};
use crate::path::{parent_of, strip_prefix_of};
use crate::path_laws::moved;
use crate::text_laws::law_decimal_reads_back;

verus! {

/// The state between two steps of a run.
proof fn lemma_between(plan: PlanModel, queue: QueueModel, events: Seq<WriteEvent>, k: int)
    requires
        queue.consistent(),
        answered(plan, queue, events),
        0 <= k,
        k + 1 < events.len(),
    ensures
        ({
            let s = after(plan, queue, events.take(k));
            let t = after(plan, queue, events.take(k + 1));
            &&& actions(plan, queue, events).len() == events.len()
            &&& (t, actions(plan, queue, events)[k]) == stepped(plan, s, events[k])
            &&& actions(plan, queue, events)[k + 1] == stepped(plan, t, events[k + 1]).1
            &&& s.well_formed(plan)
            &&& t.well_formed(plan)
            &&& s.queue == queue
            &&& t.queue == queue
            &&& answers(s.phase, events[k])
            &&& answers(t.phase, events[k + 1])
        }),
{
    lemma_action_at(plan, queue, events, k);
    lemma_action_at(plan, queue, events, k + 1);
    assert(events.take(k + 1).drop_last() == events.take(k));
    assert(events.take(k + 1).last() == events[k]);
}

/// A run starts with the deletions where they are asked for and there are
/// some, and else with the directories; and it says how many there are.
pub proof fn law_run_starts(plan: PlanModel, queue: QueueModel, events: Seq<WriteEvent>)
    requires
        queue.consistent(),
        answered(plan, queue, events),
        events.len() > 0,
    ensures
        actions(plan, queue, events).len() == events.len(),
        actions(plan, queue, events)[0] == if plan.delete && queue.dels.len() > 0 {
            ActionModel::StartDeletions(queue.dels.len() as int)
        } else {
            ActionModel::StartDirectories(queue.dirs.len() as int)
        },
{
    lemma_action_at(plan, queue, events, 0);
    assert(events.take(0) == Seq::<WriteEvent>::empty());
}

/// After every removal of a path that lies in a directory, the run looks into
/// that directory, and stays with the same deletion.
pub proof fn law_removal_then_look(
    plan: PlanModel,
    s: WriteModel,
    i: int,
    path: Seq<char>,
    dir: Seq<char>,
)
    requires
        s.phase == PhaseModel::Removing(i, path),
        parent_of(path) == Some(dir),
    ensures
        stepped(plan, s, WriteEvent::Ready).1 == ActionModel::Probe(dir),
        stepped(plan, s, WriteEvent::Ready).0.phase == PhaseModel::Probing(i, dir),
{
}

/// In a run, each removal of a path that lies in a directory is followed at
/// once by a look into that directory.
pub proof fn law_run_removal_then_look(
    plan: PlanModel,
    queue: QueueModel,
    events: Seq<WriteEvent>,
    k: int,
    path: Seq<char>,
    command: Seq<char>,
)
    requires
        queue.consistent(),
        answered(plan, queue, events),
        0 <= k,
        k + 1 < events.len(),
        actions(plan, queue, events)[k] == (ActionModel::Remove { path, command }),
    ensures
        parent_of(path) matches Some(dir) ==> actions(plan, queue, events)[k + 1]
            == ActionModel::Probe(dir),
        parent_of(path) is None ==> !(actions(plan, queue, events)[k + 1] is MakeDir)
            && !(actions(plan, queue, events)[k + 1] is Copy),
{
    lemma_between(plan, queue, events, k);
}

/// In a run, a look into a directory is followed at once by its removal where
/// it was found empty, and never by its removal where it was not.
pub proof fn law_run_look_then_removal(
    plan: PlanModel,
    queue: QueueModel,
    events: Seq<WriteEvent>,
    k: int,
    path: Seq<char>,
)
    requires
        queue.consistent(),
        answered(plan, queue, events),
        0 <= k,
        k + 1 < events.len(),
        actions(plan, queue, events)[k] == ActionModel::Probe(path),
    ensures
        events[k + 1] == WriteEvent::Vacant(true) ==> actions(plan, queue, events)[k + 1] == (
        ActionModel::Remove { path, command: "rm -r "@ + shell_word(path) }),
        events[k + 1] != WriteEvent::Vacant(true) ==> {
            ||| actions(plan, queue, events)[k + 1] == ActionModel::StartDirectories(
                queue.dirs.len() as int,
            )
            ||| exists|j: int|
                0 < j < queue.dels.len() && actions(plan, queue, events)[k + 1] == if plan.probe_first {
                    ActionModel::Probe(#[trigger] queue.dels[j])
                } else {
                    ActionModel::Remove {
                        path: queue.dels[j],
                        command: "rm -r "@ + shell_word(queue.dels[j]),
                    }
                }
        },
{
    lemma_between(plan, queue, events, k);
}

/// A deletion that is over, because a directory was not empty or there is none
/// above, is followed by the next one on the list, and the last one by the
/// directories. None is passed over and none comes again.
pub proof fn law_next_deletion(
    plan: PlanModel,
    s: WriteModel,
    event: WriteEvent,
    i: int,
    path: Seq<char>,
)
    requires
        s.well_formed(plan),
        (s.phase == PhaseModel::Probing(i, path) && event == WriteEvent::Vacant(false)) || (s.phase
            == PhaseModel::Removing(i, path) && event == WriteEvent::Ready && parent_of(path)
            is None),
    ensures
        ({
            let (next, action) = stepped(plan, s, event);
            if i + 1 == s.queue.dels.len() {
                action == ActionModel::StartDirectories(s.queue.dirs.len() as int) && next.phase
                    == PhaseModel::DirectoriesStarted
            } else if plan.probe_first {
                action == ActionModel::Probe(s.queue.dels[i + 1]) && next.phase
                    == PhaseModel::Probing(i + 1, s.queue.dels[i + 1])
            } else {
                action == (ActionModel::Remove {
                    path: s.queue.dels[i + 1],
                    command: "rm -r "@ + shell_word(s.queue.dels[i + 1]),
                }) && next.phase == PhaseModel::Removing(i + 1, s.queue.dels[i + 1])
            }
        }),
{
}

/// The first deletion follows on the start of the deletions.
pub proof fn law_first_deletion(plan: PlanModel, queue: QueueModel, events: Seq<WriteEvent>)
    requires
        queue.consistent(),
        answered(plan, queue, events),
        plan.delete,
        queue.dels.len() > 0,
        events.len() > 1,
    ensures
        actions(plan, queue, events)[1] == if plan.probe_first {
            ActionModel::Probe(queue.dels[0])
        } else {
            ActionModel::Remove {
                path: queue.dels[0],
                command: "rm -r "@ + shell_word(queue.dels[0]),
            }
        },
{
    lemma_between(plan, queue, events, 0);
    assert(events.take(0) == Seq::<WriteEvent>::empty());
}

/// What a step asks to be done, it spells out: a removal removes its path, a
/// directory that is made is one of the queue and its command makes it, a file
/// that is asked for is one of the queue and its place at the target is its
/// own, and the counts are those of the lists.
pub proof fn law_run_spells_out(
    plan: PlanModel,
    queue: QueueModel,
    events: Seq<WriteEvent>,
    k: int,
)
    requires
        queue.consistent(),
        answered(plan, queue, events),
        0 <= k < events.len(),
    ensures
        match actions(plan, queue, events)[k] {
            ActionModel::StartDeletions(n) => k == 0 && plan.delete && n == queue.dels.len() && n
                > 0,
            ActionModel::Probe(path) => plan.delete && exists|i: int|
                0 <= i < queue.dels.len() && holds(path, #[trigger] queue.dels[i]),
            ActionModel::Remove { path, command } => plan.delete && command == "rm -r "@
                + shell_word(path) && exists|i: int|
                0 <= i < queue.dels.len() && holds(path, #[trigger] queue.dels[i]),
            ActionModel::StartDirectories(n) => n == queue.dirs.len(),
            ActionModel::MakeDir { path, command } => queue.dirs.contains(path) && command
                == "mkdir -p \""@ + path + "\""@,
            ActionModel::AskTimes { source, target } => queue.files.contains(source) && moved(
                source,
                plan.from,
                plan.to,
            ) == Some(target),
            ActionModel::Copy { source, target, label, message } => queue.files.contains(source)
                && moved(source, plan.from, plan.to) == Some(target),
            ActionModel::Finish => k + 1 == events.len(),
            ActionModel::Fail(_) => k + 1 == events.len() && exists|i: int|
                0 <= i < queue.files.len() && strip_prefix_of(#[trigger] queue.files[i], plan.from)
                    is None,
        },
{
    lemma_action_at(plan, queue, events, k);
    let s = after(plan, queue, events.take(k));
    let action = actions(plan, queue, events)[k];
    let next = stepped(plan, s, events[k]).0;
    if k + 1 < events.len() {
        lemma_between(plan, queue, events, k);
    }
    lemma_only_first_is_fresh(plan, queue, events.take(k));
    if action is Probe || action is Remove {
        lemma_deleting(plan, queue, events.take(k));
        law_step_keeps_state(plan, s, events[k]);
        match next.phase {
            PhaseModel::Probing(i, p) => {
                assert(holds(p, queue.dels[i]));
            },
            PhaseModel::Removing(i, p) => {
                assert(holds(p, queue.dels[i]));
            },
            _ => {},
        }
    }
    if let ActionModel::MakeDir { path, command } = action {
        if let PhaseModel::Making(i) = next.phase {
            assert(queue.dirs[i] == path);
        }
    }
    if let ActionModel::AskTimes { source, target } = action {
        if let PhaseModel::Asking(i) = next.phase {
            assert(queue.files[i] == source);
        }
    }
    if let ActionModel::Copy { source, target, label, message } = action {
        law_run_copies(plan, queue, events, k, source, target, label, message);
    }
    if action is Fail {
        let i = match s.phase {
            PhaseModel::Asking(i) => i + 1,
            PhaseModel::Copying(i) => i + 1,
            _ => 0,
        };
        assert(strip_prefix_of(queue.files[i], plan.from) is None);
    }
}

/// Only the first step is taken from the fresh state.
proof fn lemma_only_first_is_fresh(plan: PlanModel, queue: QueueModel, events: Seq<WriteEvent>)
    ensures
        after(plan, queue, events).phase is Fresh ==> events.len() == 0,
{
}

/// A run turns to the deletions only where they are asked for.
proof fn lemma_deleting(plan: PlanModel, queue: QueueModel, events: Seq<WriteEvent>)
    ensures
        ({
            let phase = after(plan, queue, events).phase;
            phase is DeletionsStarted || phase is Probing || phase is Removing ==> plan.delete
        }),
    decreases events.len(),
{
    if events.len() > 0 {
        lemma_deleting(plan, queue, events.drop_last());
    }
}

/// As many files were copied as the run has counted.
proof fn lemma_copied_counts(plan: PlanModel, queue: QueueModel, events: Seq<WriteEvent>)
    requires
        queue.consistent(),
        answered(plan, queue, events),
    ensures
        after(plan, queue, events).copied == copies(actions(plan, queue, events)).len(),
    decreases events.len(),
{
    reveal(Seq::filter);
    if events.len() > 0 {
        let front = events.drop_last();
        let done = actions(plan, queue, events);
        lemma_copied_counts(plan, queue, front);
        law_run_in_order(plan, queue, front);
        assert(done.drop_last() == actions(plan, queue, front));
    }
}

/// The actions of a run before place `k` are those of the run up to there.
proof fn lemma_actions_before(plan: PlanModel, queue: QueueModel, events: Seq<WriteEvent>, k: int)
    requires
        0 <= k <= events.len(),
    ensures
        actions(plan, queue, events).take(k) == actions(plan, queue, events.take(k)),
    decreases events.len(),
{
    lemma_actions_len(plan, queue, events);
    if k == events.len() {
        assert(events.take(k) == events);
        assert(actions(plan, queue, events).take(k) == actions(plan, queue, events));
    } else {
        let front = events.drop_last();
        lemma_actions_len(plan, queue, front);
        lemma_actions_before(plan, queue, front, k);
        assert(front.take(k) == events.take(k));
        assert(actions(plan, queue, events).take(k) == actions(plan, queue, front).take(k));
    }
}

/// Once the times of a file are known, it is copied at once, to the place that
/// was asked for, where it is newer there than at the target; and else
/// nothing is copied. The copy is announced as adding the file where the
/// target has none, and else as updating it, and it is numbered by the copies
/// before it and the files of the queue.
pub proof fn law_run_copy_follows(
    plan: PlanModel,
    queue: QueueModel,
    events: Seq<WriteEvent>,
    k: int,
    source: Seq<char>,
    target: Seq<char>,
    here: u64,
    there: u64,
)
    requires
        queue.consistent(),
        answered(plan, queue, events),
        0 <= k,
        k + 1 < events.len(),
        actions(plan, queue, events)[k] == (ActionModel::AskTimes { source, target }),
        events[k + 1] == (WriteEvent::Times { source: here, target: there }),
    ensures
        ({
            let done = actions(plan, queue, events);
            let rel = strip_prefix_of(source, plan.from)->0;
            if there < here {
                done[k + 1] == (ActionModel::Copy {
                    source,
                    target,
                    label: "["@ + decimal_of((copies(done.take(k + 1)).len() + 1) as nat) + "/"@
                        + decimal_of(queue.files.len()) + "]"@,
                    message: if there == 0 {
                        "Adding "@ + rel
                    } else {
                        "Updating "@ + rel
                    },
                })
            } else {
                !(done[k + 1] is Copy)
            }
        }),
{
    lemma_between(plan, queue, events, k);
    lemma_actions_before(plan, queue, events, k + 1);
    lemma_action_at(plan, queue, events, k + 1);
    lemma_copied_counts(plan, queue, events.take(k + 1));
}

/// The numbers of a label are those of the copy and of all files.
pub proof fn law_label(number: nat, total: nat)
    requires
        number <= i64::MAX,
        total <= i64::MAX,
    ensures
        exists|a: Seq<char>, b: Seq<char>|
            {
                &&& #[trigger] label_of(number as int, total as int)
                    == #[trigger] (seq!['['] + a + seq!['/'] + b + seq![']'])
                &&& number_value(a) == Ok::<int, NumberError>(number as int)
                &&& number_value(b) == Ok::<int, NumberError>(total as int)
            },
{
    law_decimal_reads_back(number);
    law_decimal_reads_back(total);
    reveal_strlit("[");
    reveal_strlit("/");
    reveal_strlit("]");
    let a = decimal_of(number);
    let b = decimal_of(total);
    assert("["@ =~= seq!['[']);
    assert("/"@ =~= seq!['/']);
    assert("]"@ =~= seq![']']);
    assert(label_of(number as int, total as int) == seq!['['] + a + seq!['/']
        + b + seq![']']);
}

/// A file that was copied, or need not be, is followed by the next one of the
/// queue, and the last one by the end.
pub proof fn law_next_file(plan: PlanModel, s: WriteModel, event: WriteEvent, i: int)
    requires
        s.well_formed(plan),
        (s.phase == PhaseModel::Copying(i) && event == WriteEvent::Ready) || (s.phase
            == PhaseModel::Asking(i) && (event matches WriteEvent::Times {
            source: here,
            target: there,
        } && there >= here)),
    ensures
        ({
            let (next, action) = stepped(plan, s, event);
            &&& next.copied == s.copied
            &&& if i + 1 == s.queue.files.len() {
                action == ActionModel::Finish && next.phase == PhaseModel::Finished
            } else {
                let source = s.queue.files[i + 1];
                match moved(source, plan.from, plan.to) {
                    Some(target) => action == (ActionModel::AskTimes { source, target })
                        && next.phase == PhaseModel::Asking(i + 1),
                    None => action is Fail && next.phase == PhaseModel::Finished,
                }
            }
        }),
{
}

/// Which part of the work an action belongs to.
pub open spec fn part(action: ActionModel) -> int {
    match action {
        ActionModel::StartDeletions(_) => 0,
        ActionModel::Probe(_) => 1,
        ActionModel::Remove { .. } => 1,
        ActionModel::StartDirectories(_) => 2,
        ActionModel::MakeDir { .. } => 3,
        ActionModel::AskTimes { .. } => 4,
        ActionModel::Copy { .. } => 4,
        ActionModel::Finish => 5,
        ActionModel::Fail(_) => 5,
    }
}

/// The deletions come first, then the directories, then the files, then the
/// end; and nothing comes again once the next part has begun.
pub proof fn law_run_parts(
    plan: PlanModel,
    queue: QueueModel,
    events: Seq<WriteEvent>,
    j: int,
    k: int,
)
    requires
        queue.consistent(),
        answered(plan, queue, events),
        0 <= j < k < events.len(),
    ensures
        part(actions(plan, queue, events)[j]) <= part(actions(plan, queue, events)[k]),
        actions(plan, queue, events)[j] is StartDirectories ==> part(
            actions(plan, queue, events)[k],
        ) > 2,
        part(actions(plan, queue, events)[j]) < 5,
    decreases k - j,
{
    if j + 1 < k {
        law_run_parts(plan, queue, events, j, k - 1);
        law_run_parts(plan, queue, events, k - 1, k);
    } else {
        lemma_between(plan, queue, events, j);
        let s = after(plan, queue, events.take(j));
        let t = after(plan, queue, events.take(k));
        lemma_only_first_is_fresh(plan, queue, events.take(k));
    }
}

/// Whatever a step asks for, any answer to it is taken: that it is done, that
/// a directory is empty or not, any two times. A run that is over, and only
/// such a one, takes none.
pub proof fn law_any_answer_is_taken(
    plan: PlanModel,
    s: WriteModel,
    event: WriteEvent,
    empty: bool,
    here: u64,
    there: u64,
)
    requires
        s.well_formed(plan),
        answers(s.phase, event),
    ensures
        ({
            let (next, action) = stepped(plan, s, event);
            match action {
                ActionModel::Probe(_) => answers(next.phase, WriteEvent::Vacant(empty)),
                ActionModel::AskTimes { .. } => answers(
                    next.phase,
                    WriteEvent::Times { source: here, target: there },
                ),
                ActionModel::Finish => next.phase is Finished,
                ActionModel::Fail(_) => next.phase is Finished,
                _ => answers(next.phase, WriteEvent::Ready),
            }
        }),
        answers(PhaseModel::Fresh, WriteEvent::Ready),
{
}

/// A step is refused for want of a parent exactly where a surplus file was
/// removed that is not looked at first and lies in no directory; so never in a
/// push, and never where every surplus file lies in a directory.
pub proof fn law_orphan(plan: PlanModel, s: WriteModel, i: int, path: Seq<char>)
    requires
        s.well_formed(plan),
        s.phase == PhaseModel::Removing(i, path),
    ensures
        orphan(plan, s) <==> !plan.probe_first && path == s.queue.dels[i] && parent_of(path)
            is None,
{
}

/// No other step is refused.
pub proof fn law_no_orphan(plan: PlanModel, s: WriteModel)
    requires
        s.well_formed(plan),
        plan.probe_first || !(s.phase is Removing) || forall|i: int|
            0 <= i < s.queue.dels.len() ==> parent_of(#[trigger] s.queue.dels[i]) is Some,
    ensures
        !orphan(plan, s),
{
}

/// A push copies from the local directory to its place on the device, removes
/// only on the device's word that there is nothing in what it removes, and
/// only where it was asked to delete.
pub proof fn law_push_run(
    config: ConfigFile,
    local: Seq<char>,
    delete: bool,
    queue: QueueModel,
    events: Seq<WriteEvent>,
    k: int,
)
    requires
        queue.consistent(),
        answered(push_plan(config, local, delete), queue, events),
        0 <= k < events.len(),
    ensures
        match actions(push_plan(config, local, delete), queue, events)[k] {
            ActionModel::Copy { source, target, .. } => moved(source, local, config.remote_dir@)
                == Some(target),
            ActionModel::AskTimes { source, target } => moved(source, local, config.remote_dir@)
                == Some(target),
            ActionModel::Remove { .. } => delete && events[k] == WriteEvent::Vacant(true),
            ActionModel::Probe(_) => delete,
            _ => true,
        },
{
    let plan = push_plan(config, local, delete);
    law_run_spells_out(plan, queue, events, k);
    if let ActionModel::Remove { path, command } = actions(plan, queue, events)[k] {
        law_run_removals(plan, queue, events, k, path, command);
    }
}

/// A pull copies from the device to its place in the local directory. It
/// removes only where it was asked to delete, and what is not a surplus file
/// only where it was found empty.
pub proof fn law_pull_run(
    config: ConfigFile,
    local: Seq<char>,
    delete: bool,
    queue: QueueModel,
    events: Seq<WriteEvent>,
    k: int,
)
    requires
        queue.consistent(),
        answered(pull_plan(config, local, delete), queue, events),
        0 <= k < events.len(),
    ensures
        match actions(pull_plan(config, local, delete), queue, events)[k] {
            ActionModel::Copy { source, target, .. } => moved(source, config.remote_dir@, local)
                == Some(target),
            ActionModel::AskTimes { source, target } => moved(source, config.remote_dir@, local)
                == Some(target),
            ActionModel::Remove { path, .. } => delete && (queue.dels.contains(path) || events[k]
                == WriteEvent::Vacant(true)),
            ActionModel::Probe(_) => delete,
            _ => true,
        },
{
    let plan = pull_plan(config, local, delete);
    law_run_spells_out(plan, queue, events, k);
    if let ActionModel::Remove { path, command } = actions(plan, queue, events)[k] {
        law_run_removals(plan, queue, events, k, path, command);
    }
}

/// A run that was asked to delete and has come to its end has met every
/// surplus file: a pull has removed it, and a push has looked at it.
pub proof fn law_surplus_met(
    config: ConfigFile,
    local: Seq<char>,
    queue: QueueModel,
    events: Seq<WriteEvent>,
    j: int,
)
    requires
        queue.consistent(),
        events.len() > 0,
        0 <= j < queue.dels.len(),
    ensures
        answered(pull_plan(config, local, true), queue, events) && actions(
            pull_plan(config, local, true),
            queue,
            events,
        ).last() is Finish ==> actions(pull_plan(config, local, true), queue, events).contains(
            ActionModel::Remove {
                path: queue.dels[j],
                command: "rm -r "@ + shell_word(queue.dels[j]),
            },
        ),
        answered(push_plan(config, local, true), queue, events) && actions(
            push_plan(config, local, true),
            queue,
            events,
        ).last() is Finish ==> actions(push_plan(config, local, true), queue, events).contains(
            ActionModel::Probe(queue.dels[j]),
        ),
{
    let pull = pull_plan(config, local, true);
    if answered(pull, queue, events) && actions(pull, queue, events).last() is Finish {
        lemma_finished(pull, queue, events);
        law_run_deletes(pull, queue, events, j);
    }
    let push = push_plan(config, local, true);
    if answered(push, queue, events) && actions(push, queue, events).last() is Finish {
        lemma_finished(push, queue, events);
        law_run_deletes(push, queue, events, j);
    }
}

/// The last action of a run tells that it is over.
proof fn lemma_finished(plan: PlanModel, queue: QueueModel, events: Seq<WriteEvent>)
    requires
        queue.consistent(),
        answered(plan, queue, events),
        events.len() > 0,
        actions(plan, queue, events).last() is Finish,
    ensures
        after(plan, queue, events).phase is Finished,
{
    law_run_in_order(plan, queue, events.drop_last());
}

} // verus!
