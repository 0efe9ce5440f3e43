//! A push or a pull as the user sees it: what was found is shown, the space is
//! measured, the user is asked, and only then anything is changed.
use vstd::prelude::*;

use crate::cli::queue::{Queue, QueueModel};
use crate::cli::shell::{local_space_command, remote_space_command, surround};
use crate::cli::size::{check_enough_space, FILE_SPACE_BUFFER};
use crate::config::ConfigFile;
use crate::number::{decimal, decimal_of, number_value, parse_number, NumberError};
use crate::text::{decode_output, views, words, words_of, DecodeError};

verus! {

/// Where the free space stands among the words that `df` prints.
pub const FREE_SPACE_WORD: usize = 3;

/// How far a transfer has come.
#[derive(Debug)]
pub enum SyncState {
    /// What is to be done is not known yet.
    Fetching,
    /// The free space is not known yet.
    Measuring(Queue),
    /// The user has not answered yet.
    Confirming(Queue),
    /// There is nothing more to decide.
    Finished,
}

/// A `SyncState` in mathematical terms.
pub enum SyncModel {
    Fetching,
    Measuring(QueueModel),
    Confirming(QueueModel),
    Finished,
}

impl View for SyncState {
    type V = SyncModel;

    open spec fn view(&self) -> SyncModel {
        match self {
            SyncState::Fetching => SyncModel::Fetching,
            SyncState::Measuring(q) => SyncModel::Measuring(q@),
            SyncState::Confirming(q) => SyncModel::Confirming(q@),
            SyncState::Finished => SyncModel::Finished,
        }
    }
}

/// What happened outside.
#[derive(Debug)]
pub enum SyncEvent {
    /// What is to be done could not be found out.
    FetchFailed,
    /// What is to be done.
    Fetched(Queue),
    /// The words that `df` printed.
    DiskUsage(Vec<String>),
    /// What the user answered.
    Confirmed(bool),
}

/// A `SyncEvent` in mathematical terms.
pub enum EventModel {
    FetchFailed,
    Fetched(QueueModel),
    DiskUsage(Seq<Seq<char>>),
    Confirmed(bool),
}

impl View for SyncEvent {
    type V = EventModel;

    open spec fn view(&self) -> EventModel {
        match self {
            SyncEvent::FetchFailed => EventModel::FetchFailed,
            SyncEvent::Fetched(q) => EventModel::Fetched(q@),
            SyncEvent::DiskUsage(words) => EventModel::DiskUsage(views(words@)),
            SyncEvent::Confirmed(yes) => EventModel::Confirmed(*yes),
        }
    }
}

/// Something to show to the user.
#[derive(Debug)]
pub enum Report {
    /// A line of text.
    Text(String),
    /// By how many KiB the target grows.
    UpdateSize(i64),
    /// How many KiB are free.
    FreeSpace(i64),
}

/// A `Report` in mathematical terms.
pub enum ReportModel {
    Text(Seq<char>),
    UpdateSize(int),
    FreeSpace(int),
}

impl View for Report {
    type V = ReportModel;

    open spec fn view(&self) -> ReportModel {
        match self {
            Report::Text(line) => ReportModel::Text(line@),
            Report::UpdateSize(n) => ReportModel::UpdateSize(*n as int),
            Report::FreeSpace(n) => ReportModel::FreeSpace(*n as int),
        }
    }
}

/// The views of a list of reports.
pub open spec fn report_views(reports: Seq<Report>) -> Seq<ReportModel> {
    reports.map_values(|r: Report| r@)
}

/// What to do once the reports are shown.
#[derive(Debug)]
pub enum Request {
    /// Run the command on the side that grows, and give its words.
    Measure(String),
    /// Ask the user whether to go on.
    Confirm,
    /// Carry the queue out.
    Write(Queue),
    /// Stop.
    Stop,
    /// Stop: the free space is not a number.
    Fail(NumberError),
}

/// A `Request` in mathematical terms.
pub enum RequestModel {
    Measure(Seq<char>),
    Confirm,
    Write(QueueModel),
    Stop,
    Fail(NumberError),
}

impl View for Request {
    type V = RequestModel;

    open spec fn view(&self) -> RequestModel {
        match self {
            Request::Measure(command) => RequestModel::Measure(command@),
            Request::Confirm => RequestModel::Confirm,
            Request::Write(q) => RequestModel::Write(q@),
            Request::Stop => RequestModel::Stop,
            Request::Fail(e) => RequestModel::Fail(*e),
        }
    }
}

/// What follows on an event.
#[derive(Debug)]
pub struct Reply {
    /// How far the transfer has come.
    pub state: SyncState,
    /// What to show.
    pub reports: Vec<Report>,
    /// What to do then.
    pub request: Request,
}

/// A `Reply` in mathematical terms.
#[verifier::ext_equal]
pub struct ReplyModel {
    pub state: SyncModel,
    pub reports: Seq<ReportModel>,
    pub request: RequestModel,
}

impl View for Reply {
    type V = ReplyModel;

    open spec fn view(&self) -> ReplyModel {
        ReplyModel {
            state: self.state@,
            reports: report_views(self.reports@),
            request: self.request@,
        }
    }
}

/// The event can follow on the state, and can be taken in: `df` printed
/// enough words, and the sizes can be added.
pub open spec fn expected(state: SyncModel, event: EventModel) -> bool {
    match state {
        SyncModel::Fetching => event is FetchFailed || event is Fetched,
        SyncModel::Measuring(q) => event matches EventModel::DiskUsage(words) && words.len()
            > FREE_SPACE_WORD && FILE_SPACE_BUFFER + q.size <= i64::MAX,
        SyncModel::Confirming(_) => event is Confirmed,
        SyncModel::Finished => false,
    }
}

/// There is nothing to copy, and nothing that may be deleted.
pub open spec fn idle(q: QueueModel, delete: bool) -> bool {
    q.add == 0 && q.change == 0 && (!delete || q.del == 0)
}

/// What the user is told of a queue.
pub open spec fn summary(q: QueueModel) -> Seq<ReportModel> {
    seq![
        ReportModel::Text("Files to add: "@ + decimal_of(q.add as nat)),
        ReportModel::Text("Files to change: "@ + decimal_of(q.change as nat)),
        ReportModel::Text("Files to delete "@ + decimal_of(q.del as nat)),
    ]
}

/// A reply with which the transfer is over.
pub open spec fn stop(reports: Seq<ReportModel>) -> ReplyModel {
    ReplyModel { state: SyncModel::Finished, reports, request: RequestModel::Stop }
}

/// What follows on an event, where the space is measured with `command`.
pub open spec fn decided(
    state: SyncModel,
    event: EventModel,
    delete: bool,
    command: Seq<char>,
) -> ReplyModel {
    match (state, event) {
        (SyncModel::Fetching, EventModel::Fetched(q)) => if idle(q, delete) {
            stop(summary(q).push(ReportModel::Text("No changes available. Exiting..."@)))
        } else {
            ReplyModel {
                state: SyncModel::Measuring(q),
                reports: summary(q).push(ReportModel::UpdateSize(q.size)),
                request: RequestModel::Measure(command),
            }
        },
        (SyncModel::Measuring(q), EventModel::DiskUsage(words)) => match number_value(
            words[FREE_SPACE_WORD as int],
        ) {
            Err(e) => ReplyModel {
                state: SyncModel::Finished,
                reports: seq![],
                request: RequestModel::Fail(e),
            },
            Ok(free) => if free - q.size >= FILE_SPACE_BUFFER {
                ReplyModel {
                    state: SyncModel::Confirming(q),
                    reports: seq![ReportModel::FreeSpace(free)],
                    request: RequestModel::Confirm,
                }
            } else {
                stop(
                    seq![
                        ReportModel::FreeSpace(free),
                        ReportModel::Text("Not enough space on disk"@),
                        ReportModel::Text("Exiting..."@),
                    ],
                )
            },
        },
        (SyncModel::Confirming(q), EventModel::Confirmed(yes)) => if yes {
            ReplyModel {
                state: SyncModel::Finished,
                reports: seq![],
                request: RequestModel::Write(q),
            }
        } else {
            stop(seq![ReportModel::Text("Exiting..."@)])
        },
        _ => stop(
            seq![
                ReportModel::Text(
                    "Can't grab files. Do both the local and remote directories exist?"@,
                ),
            ],
        ),
    }
}

/// The words that `df` printed. Fails exactly where what it printed is not
/// valid UTF-8.
pub fn usage_words(stdout: Vec<u8>) -> (res: Result<Vec<String>, DecodeError>)
    ensures
        res is Ok <==> vstd::utf8::valid_utf8(stdout@),
        res matches Ok(list) ==> views(list@) == words_of(vstd::utf8::decode_utf8(stdout@)),
{
    match decode_output(stdout) {
        Ok(text) => Ok(words(text.as_str())),
        Err(e) => Err(e),
    }
}

/// A line that ends in a number.
fn count_line(text: &str, n: u64) -> (report: Report)
    ensures
        report@ == ReportModel::Text(text@ + decimal_of(n as nat)),
{
    let line = surround(text, decimal(n).as_str(), "");
    proof {
        reveal_strlit("");
        assert(line@ == text@ + decimal_of(n as nat));
    }
    Report::Text(line)
}

/// A line of text.
fn text_line(text: &str) -> (report: Report)
    ensures
        report@ == ReportModel::Text(text@),
{
    Report::Text(text.to_owned())
}

/// Takes what happened, and says what to show and what to do next.
fn decide(state: SyncState, event: SyncEvent, delete: bool, command: String) -> (reply: Reply)
    requires
        expected(state@, event@),
    ensures
        reply@ == decided(state@, event@, delete, command@),
{
    let ghost goal = decided(state@, event@, delete, command@);
    let mut reports: Vec<Report> = Vec::new();
    let reply = match (state, event) {
        (SyncState::Fetching, SyncEvent::Fetched(queue)) => {
            reports.push(count_line("Files to add: ", queue.add));
            reports.push(count_line("Files to change: ", queue.change));
            reports.push(count_line("Files to delete ", queue.del));
            if queue.add == 0 && queue.change == 0 && (!delete || queue.del == 0) {
                reports.push(text_line("No changes available. Exiting..."));
                Reply { state: SyncState::Finished, reports, request: Request::Stop }
            } else {
                reports.push(Report::UpdateSize(queue.total_size));
                Reply {
                    state: SyncState::Measuring(queue),
                    reports,
                    request: Request::Measure(command),
                }
            }
        },
        (SyncState::Measuring(queue), SyncEvent::DiskUsage(words)) => {
            assert(views(words@)[FREE_SPACE_WORD as int] == words@[FREE_SPACE_WORD as int]@);
            match parse_number(words[FREE_SPACE_WORD].as_str()) {
                Err(e) => Reply { state: SyncState::Finished, reports, request: Request::Fail(e) },
                Ok(free) => {
                    reports.push(Report::FreeSpace(free));
                    if check_enough_space(queue.total_size, free) {
                        Reply {
                            state: SyncState::Confirming(queue),
                            reports,
                            request: Request::Confirm,
                        }
                    } else {
                        reports.push(text_line("Not enough space on disk"));
                        reports.push(text_line("Exiting..."));
                        Reply { state: SyncState::Finished, reports, request: Request::Stop }
                    }
                },
            }
        },
        (SyncState::Confirming(queue), SyncEvent::Confirmed(yes)) => {
            if yes {
                Reply { state: SyncState::Finished, reports, request: Request::Write(queue) }
            } else {
                reports.push(text_line("Exiting..."));
                Reply { state: SyncState::Finished, reports, request: Request::Stop }
            }
        },
        _ => {
            reports.push(
                text_line("Can't grab files. Do both the local and remote directories exist?"),
            );
            Reply { state: SyncState::Finished, reports, request: Request::Stop }
        },
    };
    assert(reply@.reports =~= goal.reports);
    reply
}

/// Decides on a push. The space is measured on the device.
pub fn push(state: SyncState, event: SyncEvent, config: &ConfigFile, delete: bool) -> (reply: Reply)
    requires
        expected(state@, event@),
    ensures
        reply@ == decided(
            state@,
            event@,
            delete,
            "df \""@ + config.remote_dir@ + "\" | tail -n 1"@,
        ),
{
    decide(state, event, delete, remote_space_command(config.remote_dir.as_str()))
}

/// Decides on a pull. The space is measured here.
pub fn pull(state: SyncState, event: SyncEvent, local_path: &str, delete: bool) -> (reply: Reply)
    requires
        expected(state@, event@),
    ensures
        reply@ == decided(
            state@,
            event@,
            delete,
            "df -k \""@ + local_path@ + "\" | tail -n 1"@,
        ),
{
    decide(state, event, delete, local_space_command(local_path))
}

/// The user is asked only where the free space, less what the target grows by,
/// leaves the buffer, and only of the queue that was measured for.
pub proof fn law_asked_with_space(
    state: SyncModel,
    event: EventModel,
    delete: bool,
    command: Seq<char>,
)
    requires
        expected(state, event),
        decided(state, event, delete, command).request is Confirm,
    ensures
        state matches SyncModel::Measuring(q) && (event matches EventModel::DiskUsage(words) && (
        number_value(words[3]) matches Ok(free) && free - q.size >= FILE_SPACE_BUFFER && decided(
            state,
            event,
            delete,
            command,
        ).state == SyncModel::Confirming(q))),
{
}

/// The events of a transfer, one after the other.
pub open spec fn reached(events: Seq<EventModel>, delete: bool, command: Seq<char>) -> SyncModel
    decreases events.len(),
{
    if events.len() == 0 {
        SyncModel::Fetching
    } else {
        decided(
            reached(events.drop_last(), delete, command),
            events.last(),
            delete,
            command,
        ).state
    }
}

/// Each event could follow on those before it.
pub open spec fn followed(events: Seq<EventModel>, delete: bool, command: Seq<char>) -> bool
    decreases events.len(),
{
    events.len() == 0 || {
        &&& followed(events.drop_last(), delete, command)
        &&& expected(reached(events.drop_last(), delete, command), events.last())
    }
}

/// Nothing is changed unless there was something to do, the space was
/// measured and found to be enough, and the user agreed; and then what is
/// carried out is what was found.
pub proof fn law_write_needs_consent(
    events: Seq<EventModel>,
    delete: bool,
    command: Seq<char>,
    q: QueueModel,
)
    requires
        events.len() > 0,
        followed(events, delete, command),
        decided(
            reached(events.drop_last(), delete, command),
            events.last(),
            delete,
            command,
        ).request == RequestModel::Write(q),
    ensures
        events.len() == 3,
        events[0] == EventModel::Fetched(q),
        !idle(q, delete),
        events[1] matches EventModel::DiskUsage(words) && (number_value(words[3]) matches Ok(free)
            && free - q.size >= FILE_SPACE_BUFFER),
        events[2] == EventModel::Confirmed(true),
{
    let two = events.drop_last();
    let one = two.drop_last();
    assert(reached(two, delete, command) == SyncModel::Confirming(q));
    assert(two.len() > 0);
    assert(two.last() == events[events.len() - 2]);
    assert(reached(one, delete, command) == SyncModel::Measuring(q));
    assert(one.len() > 0);
    assert(one.last() == events[events.len() - 3]);
    let none = one.drop_last();
    assert(reached(none, delete, command) == SyncModel::Fetching);
    if none.len() > 0 {
        lemma_fetching_is_first(none, delete, command);
    }
}

/// How many events are still to come at most.
pub open spec fn outstanding(state: SyncModel) -> nat {
    match state {
        SyncModel::Fetching => 3,
        SyncModel::Measuring(_) => 2,
        SyncModel::Confirming(_) => 1,
        SyncModel::Finished => 0,
    }
}

/// A transfer takes at most three events: what was found, how much space there
/// is, and what the user answers.
pub proof fn law_transfer_ends(events: Seq<EventModel>, delete: bool, command: Seq<char>)
    requires
        followed(events, delete, command),
    ensures
        events.len() + outstanding(reached(events, delete, command)) <= 3,
    decreases events.len(),
{
    if events.len() > 0 {
        law_transfer_ends(events.drop_last(), delete, command);
    }
}

/// Where something was found to do, the space is measured; where nothing was,
/// the transfer stops.
pub proof fn law_idle_stops(q: QueueModel, delete: bool, command: Seq<char>)
    ensures
        ({
            let reply = decided(SyncModel::Fetching, EventModel::Fetched(q), delete, command);
            reply.request == if idle(q, delete) {
                RequestModel::Stop
            } else {
                RequestModel::Measure(command)
            }
        }),
{
}

/// No event leads back to the start.
proof fn lemma_fetching_is_first(events: Seq<EventModel>, delete: bool, command: Seq<char>)
    requires
        events.len() > 0,
    ensures
        !(reached(events, delete, command) is Fetching),
{
}

} // verus!
