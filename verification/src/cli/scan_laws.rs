//! What holds of every queue that a comparison of the two sides gives.
use vstd::prelude::*;

use crate::cli::queue::QueueModel;
use crate::cli::scan::{all_below, dir_due, fetched, fits, fits_at, growth, hidden, hidden_name, in_i64, offered, scanned, surplus, surplus_of, target_of, targets, wanted, EntryModel, RulesModel};
use crate::path::{components, file_name_of, join_of, parent_of};
use crate::path_laws::{clean, law_listed_path_moves};
use crate::text::lines_of;

verus! {

/// The entries that are copied.
pub open spec fn chosen(rules: RulesModel, entries: Seq<EntryModel>) -> Seq<EntryModel> {
    entries.filter(|e: EntryModel| wanted(rules, e))
}

/// By how many bytes the target grows for all of `entries`.
pub open spec fn total_growth(entries: Seq<EntryModel>) -> int
    decreases entries.len(),
{
    if entries.len() == 0 {
        0
    } else {
        total_growth(entries.drop_last()) + growth(entries.last())
    }
}

/// An entry that the target does not have.
pub open spec fn absent(e: EntryModel) -> bool {
    e.target.mod_time == 0
}

/// The queue holds the wanted files, in their order, counts those that the
/// target has and those that it has not, and adds up what they take.
pub proof fn law_queue_holds_wanted(rules: RulesModel, entries: Seq<EntryModel>)
    ensures
        ({
            let q = scanned(rules, entries);
            let picked = chosen(rules, entries);
            &&& q.files == picked.map_values(|e: EntryModel| e.path)
            &&& q.add == picked.filter(|e: EntryModel| absent(e)).len()
            &&& q.change == picked.filter(|e: EntryModel| !absent(e)).len()
            &&& q.size == total_growth(picked)
        }),
    decreases entries.len(),
{
    reveal(Seq::filter);
    let picked = chosen(rules, entries);
    if entries.len() > 0 {
        let e = entries.last();
        let front = entries.drop_last();
        law_queue_holds_wanted(rules, front);
        if wanted(rules, e) {
            assert(picked == chosen(rules, front).push(e));
            assert(picked.drop_last() == chosen(rules, front));
            assert(picked.map_values(|e: EntryModel| e.path) == scanned(rules, front).files.push(
                e.path,
            ));
        }
    } else {
        assert(picked.map_values(|e: EntryModel| e.path) == Seq::<Seq<char>>::empty());
    }
}

/// A list and its two halves by a condition have the same length.
proof fn lemma_halves(entries: Seq<EntryModel>)
    ensures
        entries.filter(|e: EntryModel| absent(e)).len() + entries.filter(
            |e: EntryModel| !absent(e),
        ).len() == entries.len(),
    decreases entries.len(),
{
    reveal(Seq::filter);
    if entries.len() > 0 {
        lemma_halves(entries.drop_last());
    }
}

/// The surplus files are those that are listed and not kept, each once.
pub proof fn law_surplus(listed: Seq<Seq<char>>, kept: Set<Seq<char>>)
    ensures
        surplus(listed, kept).no_duplicates(),
        forall|x: Seq<char>| #[trigger]
            surplus(listed, kept).contains(x) <==> listed.contains(x) && !kept.contains(x),
    decreases listed.len(),
{
    let out = surplus(listed, kept);
    if listed.len() > 0 {
        let front = listed.drop_last();
        let last = listed.last();
        let before = surplus(front, kept);
        law_surplus(front, kept);
        assert(listed[listed.len() - 1] == last);
        assert forall|x: Seq<char>| #[trigger] out.contains(x) <==> listed.contains(x)
            && !kept.contains(x) by {
            if listed.contains(x) && x != last {
                let j = choose|j: int| 0 <= j < listed.len() && listed[j] == x;
                assert(front[j] == x);
                assert(front.contains(x));
            }
            if front.contains(x) {
                let j = choose|j: int| 0 <= j < front.len() && front[j] == x;
                assert(listed[j] == x);
            }
            if before.contains(x) {
                let j = choose|j: int| 0 <= j < before.len() && before[j] == x;
                assert(out[j] == x);
            }
            if out.contains(x) && !before.contains(x) {
                let j = choose|j: int| 0 <= j < out.len() && out[j] == x;
                if j < before.len() {
                    assert(before[j] == x);
                }
                assert(x == last);
            }
            if out != before {
                assert(out[before.len() as int] == last);
            }
        }
        if out != before {
            assert forall|i: int, j: int|
                0 <= i < out.len() && 0 <= j < out.len() && i != j implies out[i] != out[j] by {
                if i == before.len() {
                    assert(before.contains(before[j]));
                } else if j == before.len() {
                    assert(before.contains(before[i]));
                }
            }
        }
    }
}

/// The places at the target are those of the entries.
pub proof fn law_targets(rules: RulesModel, entries: Seq<EntryModel>, t: Seq<char>)
    requires
        all_below(rules, entries),
    ensures
        targets(rules, entries).contains(t) <==> exists|i: int|
            0 <= i < entries.len() && target_of(rules, #[trigger] entries[i].path) == Some(t),
    decreases entries.len(),
{
    if entries.len() > 0 {
        let front = entries.drop_last();
        let n = entries.len() - 1;
        assert forall|i: int| 0 <= i < front.len() implies target_of(
            rules,
            #[trigger] front[i].path,
        ) is Some by {
            assert(front[i] == entries[i]);
        }
        law_targets(rules, front, t);
        assert(target_of(rules, entries[n].path) is Some);
        if targets(rules, front).contains(t) {
            let i = choose|i: int|
                0 <= i < front.len() && target_of(rules, #[trigger] front[i].path) == Some(t);
            assert(target_of(rules, entries[i].path) == Some(t));
        }
        if exists|i: int|
            0 <= i < entries.len() && target_of(rules, #[trigger] entries[i].path) == Some(t) {
            let i = choose|i: int|
                0 <= i < entries.len() && target_of(rules, #[trigger] entries[i].path) == Some(t);
            if i < n {
                assert(target_of(rules, front[i].path) == Some(t));
            }
        }
    }
}

/// The counts of a queue are those of its lists.
pub proof fn law_fetched_consistent(
    rules: RulesModel,
    delete: bool,
    entries: Seq<EntryModel>,
    listing: Seq<char>,
    sizes: Seq<i64>,
)
    ensures
        fetched(rules, delete, entries, listing, sizes).consistent(),
{
    law_queue_holds_wanted(rules, entries);
    lemma_halves(chosen(rules, entries));
    law_surplus(lines_of(listing), targets(rules, entries));
    lemma_scan_deletes_nothing(rules, entries);
}

/// Looking at files puts nothing on the list of deletions.
proof fn lemma_scan_deletes_nothing(rules: RulesModel, entries: Seq<EntryModel>)
    ensures
        scanned(rules, entries).dels == Seq::<Seq<char>>::empty(),
        scanned(rules, entries).del == 0,
    decreases entries.len(),
{
    if entries.len() > 0 {
        lemma_scan_deletes_nothing(rules, entries.drop_last());
    }
}

/// What was counted in bytes is far from the limits in KiB.
pub proof fn law_fetched_size_bounded(
    rules: RulesModel,
    delete: bool,
    entries: Seq<EntryModel>,
    listing: Seq<char>,
    sizes: Seq<i64>,
)
    requires
        all_below(rules, entries),
        fits(rules, delete, entries, sizes),
    ensures
        -0x20_0000_0000_0000 <= fetched(rules, delete, entries, listing, sizes).size
            <= 0x20_0000_0000_0000,
{
    let q = scanned(rules, entries);
    if entries.len() > 0 {
        lemma_scan_in_range(rules, entries);
    }
    assert(in_i64(q.size));
    if delete {
        assert(sizes.take(sizes.len() as int) == sizes);
    }
}

/// The sizes of admissible entries add up to what a 64 bit number holds.
proof fn lemma_scan_in_range(rules: RulesModel, entries: Seq<EntryModel>)
    requires
        all_below(rules, entries),
        fits(rules, false, entries, seq![]),
    ensures
        in_i64(scanned(rules, entries).size),
    decreases entries.len(),
{
    if entries.len() > 0 {
        let n = entries.len() - 1;
        let front = entries.drop_last();
        assert(entries.take(n + 1) == entries);
        assert(entries.take(n) == front);
        assert(entries[n] == entries.last());
        assert(fits_at(rules, entries, n));
        assert forall|i: int| 0 <= i < front.len() implies target_of(
            rules,
            #[trigger] front[i].path,
        ) is Some by {
            assert(front[i] == entries[i]);
        }
        assert forall|k: int|
            0 <= k < front.len() && all_below(rules, front.take(k + 1)) implies #[trigger] fits_at(
            rules,
            front,
            k,
        ) by {
            assert(fits_at(rules, entries, k));
            assert(front.take(k + 1) == entries.take(k + 1));
            assert(front.take(k) == entries.take(k));
            assert(front[k] == entries[k]);
        }
        lemma_scan_in_range(rules, front);
    }
}

/// Without `delete`, nothing is deleted.
pub proof fn law_nothing_deleted(
    rules: RulesModel,
    entries: Seq<EntryModel>,
    listing: Seq<char>,
    sizes: Seq<i64>,
)
    ensures
        ({
            let q = fetched(rules, false, entries, listing, sizes);
            q.dels.len() == 0 && q.del == 0
        }),
{
    lemma_scan_deletes_nothing(rules, entries);
}

/// With `delete`, exactly those files of the target are deleted that no file
/// of the source is copied to.
pub proof fn law_deleted_exactly(
    rules: RulesModel,
    entries: Seq<EntryModel>,
    listing: Seq<char>,
    sizes: Seq<i64>,
    x: Seq<char>,
)
    requires
        all_below(rules, entries),
    ensures
        fetched(rules, true, entries, listing, sizes).dels.contains(x) <==> {
            &&& lines_of(listing).contains(x)
            &&& forall|i: int|
                0 <= i < entries.len() ==> target_of(rules, #[trigger] entries[i].path) != Some(x)
        },
{
    law_surplus(lines_of(listing), targets(rules, entries));
    law_targets(rules, entries, x);
}

/// A file that both sides list at the same place is never deleted.
pub proof fn law_counterpart_kept(
    rules: RulesModel,
    entries: Seq<EntryModel>,
    listing: Seq<char>,
    sizes: Seq<i64>,
    i: int,
    rel: Seq<char>,
)
    requires
        all_below(rules, entries),
        0 <= i < entries.len(),
        clean(rel),
        entries[i].path == join_of(rules.from, rel),
    ensures
        !fetched(rules, true, entries, listing, sizes).dels.contains(join_of(rules.to, rel)),
{
    law_listed_path_moves(rel, rules.from, rules.to);
    law_deleted_exactly(rules, entries, listing, sizes, join_of(rules.to, rel));
}

/// A queued file is one that was wanted.
pub proof fn law_queued_was_wanted(rules: RulesModel, entries: Seq<EntryModel>, j: int) -> (i: int)
    requires
        0 <= j < scanned(rules, entries).files.len(),
    ensures
        0 <= i < entries.len(),
        wanted(rules, entries[i]),
        entries[i].path == scanned(rules, entries).files[j],
    decreases entries.len(),
{
    let front = entries.drop_last();
    let n = entries.len() - 1;
    if j < scanned(rules, front).files.len() {
        let i = law_queued_was_wanted(rules, front, j);
        assert(front[i] == entries[i]);
        i
    } else {
        assert(entries[n] == entries.last());
        n
    }
}

/// Where changes are ignored, only files are copied that the target does not
/// have.
pub proof fn law_ignore_changes(rules: RulesModel, entries: Seq<EntryModel>)
    requires
        rules.ignore_changes,
    ensures
        scanned(rules, entries).change == 0,
        scanned(rules, entries).add == scanned(rules, entries).files.len(),
    decreases entries.len(),
{
    if entries.len() > 0 {
        law_ignore_changes(rules, entries.drop_last());
    }
}

/// Where hidden files are not allowed, none is copied.
pub proof fn law_hidden_left_out(rules: RulesModel, entries: Seq<EntryModel>, j: int)
    requires
        !rules.allow_hidden,
        0 <= j < scanned(rules, entries).files.len(),
    ensures
        !hidden(scanned(rules, entries).files[j]),
{
    let i = law_queued_was_wanted(rules, entries, j);
}

/// Where the target has every file, and none older than the source, there is
/// nothing to copy; and where it lists no other file, nothing to delete.
pub proof fn law_up_to_date(
    rules: RulesModel,
    entries: Seq<EntryModel>,
    listing: Seq<char>,
    sizes: Seq<i64>,
)
    requires
        forall|i: int|
            0 <= i < entries.len() ==> 0 < (#[trigger] entries[i]).target.mod_time
                && entries[i].source.mod_time <= entries[i].target.mod_time,
    ensures
        fetched(rules, false, entries, listing, sizes) == QueueModel::empty(),
        (forall|x: Seq<char>| #[trigger]
            lines_of(listing).contains(x) ==> targets(rules, entries).contains(x)) && sizes.len()
            == 0 ==> fetched(rules, true, entries, listing, sizes) == QueueModel::empty(),
{
    lemma_up_to_date(rules, entries);
    let dels = surplus_of(rules, entries, listing);
    law_surplus(lines_of(listing), targets(rules, entries));
    if dels.len() > 0 {
        assert(dels.contains(dels[0]));
    }
}

proof fn lemma_up_to_date(rules: RulesModel, entries: Seq<EntryModel>)
    requires
        forall|i: int|
            0 <= i < entries.len() ==> 0 < (#[trigger] entries[i]).target.mod_time
                && entries[i].source.mod_time <= entries[i].target.mod_time,
    ensures
        scanned(rules, entries) == QueueModel::empty(),
    decreases entries.len(),
{
    if entries.len() > 0 {
        let front = entries.drop_last();
        assert forall|i: int| 0 <= i < front.len() implies 0 < (#[trigger] front[i]).target.mod_time
            && front[i].source.mod_time <= front[i].target.mod_time by {
            assert(front[i] == entries[i]);
        }
        lemma_up_to_date(rules, front);
        assert(entries.last() == entries[entries.len() - 1]);
    }
}

/// The rules let the directory be made.
pub open spec fn dir_allowed(rules: RulesModel, dir: Seq<char>) -> bool {
    !rules.spare_hidden_dirs || rules.allow_hidden || !(file_name_of(dir) matches Some(name)
        && hidden_name(name))
}

/// The directory of every file that is copied is made, where the rules let
/// it.
pub proof fn law_dirs_cover(rules: RulesModel, entries: Seq<EntryModel>, i: int)
    requires
        0 <= i < entries.len(),
        wanted(rules, entries[i]),
        dir_allowed(rules, parent_of(target_of(rules, entries[i].path)->0)->0),
    ensures
        exists|k: int|
            0 <= k < scanned(rules, entries).dirs.len() && components(
                #[trigger] scanned(rules, entries).dirs[k],
            ) == components(parent_of(target_of(rules, entries[i].path)->0)->0),
    decreases entries.len(),
{
    let front = entries.drop_last();
    let before = scanned(rules, front);
    let after = scanned(rules, entries);
    let dir = parent_of(target_of(rules, entries[i].path)->0)->0;
    if i < front.len() {
        assert(front[i] == entries[i]);
        law_dirs_cover(rules, front, i);
        let k = choose|k: int|
            0 <= k < before.dirs.len() && components(#[trigger] before.dirs[k]) == components(dir);
        assert(after.dirs[k] == before.dirs[k]);
    } else {
        assert(entries.last() == entries[i]);
        assert(after == offered(before, rules, entries[i]));
        if dir_due(rules, before.dirs, dir) {
            assert(after.dirs[before.dirs.len() as int] == dir);
        } else {
            assert(after.dirs[before.dirs.len() - 1] == before.dirs.last());
        }
    }
}

/// No directory is made twice in a row.
pub proof fn law_dirs_differ(rules: RulesModel, entries: Seq<EntryModel>, k: int)
    requires
        0 < k < scanned(rules, entries).dirs.len(),
    ensures
        components(scanned(rules, entries).dirs[k - 1]) != components(
            scanned(rules, entries).dirs[k],
        ),
    decreases entries.len(),
{
    let before = scanned(rules, entries.drop_last());
    if k < before.dirs.len() {
        law_dirs_differ(rules, entries.drop_last(), k);
    }
}

} // verus!
