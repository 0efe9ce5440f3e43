//! Copying from the device.
use vstd::prelude::*;

use crate::cli::queue::Queue;
use crate::cli::scan::{all_below, entry_views, fetch, fetched, fits, surplus_of, Entry, Rules, RulesModel};
use crate::cli::writer::{answers, orphan, stepped, Plan, PlanModel, WriteAction, WriteEvent, WriteState};
use crate::config::ConfigFile;
use crate::path::StripPrefixError;
use crate::text::{count_newlines, count_of};

verus! {

/// The rules by which `local` is compared with the directory on the device.
pub open spec fn pull_rules(config: ConfigFile, local: Seq<char>, ignore_changes: bool) -> RulesModel {
    RulesModel {
        from: config.remote_dir@,
        to: local,
        allow_hidden: config.allow_hidden,
        ignore_changes,
        spare_hidden_dirs: false,
    }
}

/// How a queue is carried out in `local`.
pub open spec fn pull_plan(config: ConfigFile, local: Seq<char>, delete: bool) -> PlanModel {
    PlanModel {
        from: config.remote_dir@,
        to: local,
        delete,
        probe_first: false,
    }
}

/// The rules by which the two sides are compared.
pub fn rules(config: &ConfigFile, local_path: &str, ignore_changes: bool) -> (rules: Rules)
    ensures
        rules@ == pull_rules(*config, local_path@, ignore_changes),
{
    Rules {
        from_root: config.remote_dir.clone(),
        to_root: local_path.to_owned(),
        allow_hidden: config.allow_hidden,
        ignore_changes,
        spare_hidden_dirs: false,
    }
}

/// How a queue is carried out.
pub fn plan(config: &ConfigFile, local_path: &str, delete: bool) -> (plan: Plan)
    ensures
        plan@ == pull_plan(*config, local_path@, delete),
{
    Plan {
        from_root: config.remote_dir.clone(),
        to_root: local_path.to_owned(),
        delete,
        probe_first: false,
    }
}

/// When a local file was last written. A file that was not found has the time
/// of a file that does not exist.
pub fn modified_time(found: Option<u64>) -> (time: u64)
    ensures
        time == match found {
            Some(t) => t,
            None => 0,
        },
{
    match found {
        Some(time) => time,
        None => 0,
    }
}

/// How many files the listing of the device shows.
pub fn scan_length(listing: &str) -> (n: u64)
    ensures
        n == count_of(listing@, '\n'),
{
    count_newlines(listing) as u64
}

/// Finds out what a pull has to do. `entries` are the files on the device,
/// `listing` lists the local ones, and `sizes` are those of the local files
/// that the device has not.
pub fn fetch_changes(
    config: &ConfigFile,
    local_path: &str,
    ignore_changes: bool,
    delete: bool,
    entries: &Vec<Entry>,
    listing: &str,
    sizes: &Vec<i64>,
) -> (res: Result<Queue, StripPrefixError>)
    requires
        ({
            let rules = pull_rules(*config, local_path@, ignore_changes);
            let models = entry_views(entries@);
            &&& delete && all_below(rules, models) ==> sizes@.len() == surplus_of(
                rules,
                models,
                listing@,
            ).len()
            &&& fits(rules, delete, models, sizes@)
        }),
    ensures
        ({
            let rules = pull_rules(*config, local_path@, ignore_changes);
            let models = entry_views(entries@);
            &&& res is Ok <==> all_below(rules, models)
            &&& res matches Ok(queue) ==> {
                &&& queue@ == fetched(rules, delete, models, listing@, sizes@)
                &&& queue@.consistent()
                &&& -0x20_0000_0000_0000 <= queue.total_size <= 0x20_0000_0000_0000
            }
        }),
{
    fetch(&rules(config, local_path, ignore_changes), delete, entries, listing, sizes)
}

/// Carries a pull out: takes what came of the last step, and says what to do
/// next. Removals and directories concern the local side.
pub fn write_changes(
    state: WriteState,
    event: WriteEvent,
    config: &ConfigFile,
    local_path: &str,
    delete: bool,
) -> (res: (WriteState, WriteAction))
    requires
        state@.well_formed(pull_plan(*config, local_path@, delete)),
        answers(state@.phase, event),
        !orphan(pull_plan(*config, local_path@, delete), state@),
    ensures
        (res.0@, res.1@) == stepped(pull_plan(*config, local_path@, delete), state@, event),
        res.0@.well_formed(pull_plan(*config, local_path@, delete)),
{
    state.step(&plan(config, local_path, delete), event)
}

} // verus!
