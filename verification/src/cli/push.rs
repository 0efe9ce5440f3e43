//! Copying to the device.
use vstd::prelude::*;

use crate::cli::queue::Queue;
use crate::cli::scan::{all_below, entry_views, fetch, fetched, fits, surplus_of, Entry, Rules, RulesModel};
use crate::cli::writer::{answers, stepped, Plan, PlanModel, WriteAction, WriteEvent, WriteState};
use crate::config::ConfigFile;
use crate::path::StripPrefixError;
use crate::text::{count_newlines, count_of};

verus! {

/// The rules by which the directory on the device is compared with `local`.
pub open spec fn push_rules(config: ConfigFile, local: Seq<char>, ignore_changes: bool) -> RulesModel {
    RulesModel {
        from: local,
        to: config.remote_dir@,
        allow_hidden: config.allow_hidden,
        ignore_changes,
        spare_hidden_dirs: true,
    }
}

/// How a queue is carried out on the device.
pub open spec fn push_plan(config: ConfigFile, local: Seq<char>, delete: bool) -> PlanModel {
    PlanModel {
        from: local,
        to: config.remote_dir@,
        delete,
        probe_first: true,
    }
}

/// The rules by which the two sides are compared.
pub fn rules(config: &ConfigFile, local_path: &str, ignore_changes: bool) -> (rules: Rules)
    ensures
        rules@ == push_rules(*config, local_path@, ignore_changes),
{
    Rules {
        from_root: local_path.to_owned(),
        to_root: config.remote_dir.clone(),
        allow_hidden: config.allow_hidden,
        ignore_changes,
        spare_hidden_dirs: true,
    }
}

/// How a queue is carried out.
pub fn plan(config: &ConfigFile, local_path: &str, delete: bool) -> (plan: Plan)
    ensures
        plan@ == push_plan(*config, local_path@, delete),
{
    Plan {
        from_root: local_path.to_owned(),
        to_root: config.remote_dir.clone(),
        delete,
        probe_first: true,
    }
}

/// How many files are ahead, by the local listing, once the first is at hand.
pub fn scan_length(listing: &str) -> (n: u64)
    ensures
        n == if count_of(listing@, '\n') == 0 {
            0
        } else {
            count_of(listing@, '\n') - 1
        },
{
    let count: usize = count_newlines(listing);
    if count == 0 {
        0
    } else {
        (count - 1) as u64
    }
}

/// Finds out what a push has to do. `entries` are the local files, `listing`
/// lists those on the device, and `sizes` are those of the files that are only
/// there.
pub fn fetch_changes(
    config: &ConfigFile,
    local_path: &str,
    ignore_changes: bool,
    delete: bool,
    entries: &Vec<Entry>,
    listing: &str,
    sizes: &Vec<i64>,
) -> (res: Result<Queue, StripPrefixError>)
    requires
        ({
            let rules = push_rules(*config, local_path@, ignore_changes);
            let models = entry_views(entries@);
            &&& delete && all_below(rules, models) ==> sizes@.len() == surplus_of(
                rules,
                models,
                listing@,
            ).len()
            &&& fits(rules, delete, models, sizes@)
        }),
    ensures
        ({
            let rules = push_rules(*config, local_path@, ignore_changes);
            let models = entry_views(entries@);
            &&& res is Ok <==> all_below(rules, models)
            &&& res matches Ok(queue) ==> {
                &&& queue@ == fetched(rules, delete, models, listing@, sizes@)
                &&& queue@.consistent()
                &&& -0x20_0000_0000_0000 <= queue.total_size <= 0x20_0000_0000_0000
            }
        }),
{
    fetch(&rules(config, local_path, ignore_changes), delete, entries, listing, sizes)
}

/// Carries a push out: takes what came of the last step, and says what to do
/// next. Removals and directories concern the device.
pub fn write_changes(
    state: WriteState,
    event: WriteEvent,
    config: &ConfigFile,
    local_path: &str,
    delete: bool,
) -> (res: (WriteState, WriteAction))
    requires
        state@.well_formed(push_plan(*config, local_path@, delete)),
        answers(state@.phase, event),
    ensures
        (res.0@, res.1@) == stepped(push_plan(*config, local_path@, delete), state@, event),
        res.0@.well_formed(push_plan(*config, local_path@, delete)),
{
    state.step(&plan(config, local_path, delete), event)
}

} // verus!
