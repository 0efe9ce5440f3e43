//! What a transfer answers to each thing that can happen.
use vstd::prelude::*;

use crate::cli::queue::QueueModel;
use crate::cli::sync::{decided, expected, followed, reached, EventModel, ReportModel, RequestModel, SyncModel};
use crate::number::{decimal_of, number_value, NumberError};
use crate::text_laws::law_number_in_range;

verus! {

/// A yes of the user always lets the queue that was asked about be carried
/// out, whatever is in it, and a no never does.
pub proof fn law_yes_writes(q: QueueModel, delete: bool, command: Seq<char>)
    ensures
        ({
            let yes = decided(
                SyncModel::Confirming(q),
                EventModel::Confirmed(true),
                delete,
                command,
            );
            yes.request == RequestModel::Write(q) && yes.reports.len() == 0
        }),
        ({
            let no = decided(
                SyncModel::Confirming(q),
                EventModel::Confirmed(false),
                delete,
                command,
            );
            &&& no.request is Stop
            &&& no.reports.len() == 1
            &&& no.reports[0] == ReportModel::Text("Exiting..."@)
        }),
{
}

/// A transfer with something to do, be it only to delete, with space enough
/// and the user's yes, is carried out.
pub proof fn law_consent_writes(
    q: QueueModel,
    words: Seq<Seq<char>>,
    free: int,
    delete: bool,
    command: Seq<char>,
)
    requires
        q.add != 0 || q.change != 0 || (delete && q.del != 0),
        words.len() > 3,
        number_value(words[3]) == Ok::<int, NumberError>(free),
        free - q.size >= 10_240,
    ensures
        ({
            let events = seq![
                EventModel::Fetched(q),
                EventModel::DiskUsage(words),
                EventModel::Confirmed(true),
            ];
            &&& followed(events, delete, command)
            &&& decided(
                reached(events.drop_last(), delete, command),
                events.last(),
                delete,
                command,
            ).request == RequestModel::Write(q)
        }),
{
    law_number_in_range(words[3]);
    let three = seq![
        EventModel::Fetched(q),
        EventModel::DiskUsage(words),
        EventModel::Confirmed(true),
    ];
    let two = seq![EventModel::Fetched(q), EventModel::DiskUsage(words)];
    let one = seq![EventModel::Fetched(q)];
    assert(three.drop_last() == two);
    assert(two.drop_last() == one);
    assert(one.drop_last() == Seq::<EventModel>::empty());
    assert(reached(Seq::<EventModel>::empty(), delete, command) == SyncModel::Fetching);
    assert(followed(Seq::<EventModel>::empty(), delete, command));
    assert(reached(one, delete, command) == SyncModel::Measuring(q));
    assert(followed(one, delete, command));
    assert(reached(two, delete, command) == SyncModel::Confirming(q));
    assert(followed(two, delete, command));
}

/// What was found is counted out to the user. Where there is nothing to add
/// or to change, and nothing to delete that may be deleted, the transfer
/// stops; else the user is told the size, and the space is measured.
pub proof fn law_found(q: QueueModel, delete: bool, command: Seq<char>)
    ensures
        ({
            let reply = decided(SyncModel::Fetching, EventModel::Fetched(q), delete, command);
            &&& reply.reports.len() == 4
            &&& reply.reports[0] == ReportModel::Text("Files to add: "@ + decimal_of(q.add as nat))
            &&& reply.reports[1] == ReportModel::Text(
                "Files to change: "@ + decimal_of(q.change as nat),
            )
            &&& reply.reports[2] == ReportModel::Text(
                "Files to delete "@ + decimal_of(q.del as nat),
            )
            &&& if q.add == 0 && q.change == 0 && (!delete || q.del == 0) {
                &&& reply.reports[3] == ReportModel::Text("No changes available. Exiting..."@)
                &&& reply.request is Stop
                &&& reply.state is Finished
            } else {
                &&& reply.reports[3] == ReportModel::UpdateSize(q.size)
                &&& reply.request == RequestModel::Measure(command)
                &&& reply.state == SyncModel::Measuring(q)
            }
        }),
{
}

/// What could not be found out ends the transfer with one line.
pub proof fn law_not_found(delete: bool, command: Seq<char>)
    ensures
        ({
            let reply = decided(SyncModel::Fetching, EventModel::FetchFailed, delete, command);
            &&& reply.reports == seq![
                ReportModel::Text(
                    "Can't grab files. Do both the local and remote directories exist?"@,
                ),
            ]
            &&& reply.request is Stop
            &&& reply.state is Finished
        }),
{
}

/// The fourth word is the free space. Where it is no number the transfer
/// fails with the reason. Else it is shown, and the user is asked exactly
/// where 10 MiB stay free; where they do not, the transfer stops.
pub proof fn law_measured(q: QueueModel, words: Seq<Seq<char>>, delete: bool, command: Seq<char>)
    requires
        words.len() > 3,
    ensures
        ({
            let reply = decided(
                SyncModel::Measuring(q),
                EventModel::DiskUsage(words),
                delete,
                command,
            );
            match number_value(words[3]) {
                Err(e) => reply.request == RequestModel::Fail(e) && reply.reports.len() == 0
                    && reply.state is Finished,
                Ok(free) => {
                    &&& reply.reports.len() > 0
                    &&& reply.reports[0] == ReportModel::FreeSpace(free)
                    &&& if free >= 10_240 + q.size {
                        &&& reply.reports.len() == 1
                        &&& reply.request is Confirm
                        &&& reply.state == SyncModel::Confirming(q)
                    } else {
                        &&& reply.reports.len() == 3
                        &&& reply.reports[1] == ReportModel::Text("Not enough space on disk"@)
                        &&& reply.reports[2] == ReportModel::Text("Exiting..."@)
                        &&& reply.request is Stop
                        &&& reply.state is Finished
                    }
                },
            }
        }),
{
}

/// Nothing that can happen is turned away: any result of the comparison, any
/// answer of the user, and any four words or more where the size and the
/// buffer can be added.
pub proof fn law_expected(q: QueueModel, words: Seq<Seq<char>>, yes: bool)
    ensures
        expected(SyncModel::Fetching, EventModel::Fetched(q)),
        expected(SyncModel::Fetching, EventModel::FetchFailed),
        words.len() > 3 && q.size <= 0x20_0000_0000_0000 ==> expected(
            SyncModel::Measuring(q),
            EventModel::DiskUsage(words),
        ),
        expected(SyncModel::Confirming(q), EventModel::Confirmed(yes)),
{
}

/// A transfer is over exactly where it asks for nothing more to decide.
pub proof fn law_over(state: SyncModel, event: EventModel, delete: bool, command: Seq<char>)
    requires
        expected(state, event),
    ensures
        ({
            let reply = decided(state, event, delete, command);
            match reply.request {
                RequestModel::Measure(_) => reply.state is Measuring,
                RequestModel::Confirm => reply.state is Confirming,
                _ => reply.state is Finished,
            }
        }),
{
}

} // verus!
