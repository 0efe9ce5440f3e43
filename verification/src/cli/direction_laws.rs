//! What a push and a pull find, told by what the user configured and asked
//! for.
use vstd::prelude::*;

use crate::cli::pull::pull_rules;
use crate::cli::push::push_rules;
use crate::cli::queue::QueueModel;
use crate::cli::scan::{all_below, fetched, fits, fits_at, hidden, hidden_name, in_i64, kib, scanned, sum, target_of, wanted, EntryModel, RulesModel};
use crate::cli::scan_laws::{absent, chosen, dir_allowed, law_deleted_exactly, law_dirs_cover, law_fetched_consistent, law_ignore_changes, law_nothing_deleted, law_queue_holds_wanted, law_queued_was_wanted, total_growth};
use crate::config::ConfigFile;
use crate::path::{components, file_name_of, parent_of};
use crate::path_laws::{law_file_name, law_parent, law_strip_prefix, moved};
use crate::text::lines_of;

verus! {

/// Sizes add up.
pub proof fn law_sum(a: Seq<i64>, b: Seq<i64>, x: i64)
    ensures
        sum(seq![]) == 0,
        sum(seq![x]) == x,
        sum(a + b) == sum(a) + sum(b),
    decreases b.len(),
{
    assert(seq![x].drop_last() == Seq::<i64>::empty());
    assert(sum(Seq::<i64>::empty()) == 0);
    if b.len() > 0 {
        law_sum(a, b.drop_last(), x);
        assert((a + b).drop_last() == a + b.drop_last());
    } else {
        assert(a + b == a);
    }
}

/// A size in KiB is off by less than one KiB, toward zero.
pub proof fn law_kib(bytes: int)
    ensures
        bytes >= 0 ==> 0 <= bytes - 1024 * kib(bytes) < 1024,
        bytes <= 0 ==> -1024 < bytes - 1024 * kib(bytes) <= 0,
        kib(-bytes) == -kib(bytes),
{
}

/// What the files take, by their sizes on both sides.
proof fn lemma_growth(picked: Seq<EntryModel>)
    ensures
        total_growth(picked) == sum(picked.map_values(|e: EntryModel| e.source.size)) - sum(
            picked.filter(|e: EntryModel| e.target.mod_time != 0).map_values(
                |e: EntryModel| e.target.size,
            ),
        ),
    decreases picked.len(),
{
    reveal(Seq::filter);
    let sizes = picked.map_values(|e: EntryModel| e.source.size);
    let had = picked.filter(|e: EntryModel| e.target.mod_time != 0);
    let old = had.map_values(|e: EntryModel| e.target.size);
    if picked.len() > 0 {
        let front = picked.drop_last();
        let e = picked.last();
        lemma_growth(front);
        let had_before = front.filter(|e: EntryModel| e.target.mod_time != 0);
        assert(sizes.drop_last() == front.map_values(|e: EntryModel| e.source.size));
        assert(sizes.last() == e.source.size);
        if e.target.mod_time != 0 {
            assert(had == had_before.push(e));
            assert(old.drop_last() == had_before.map_values(|e: EntryModel| e.target.size));
            assert(old.last() == e.target.size);
        } else {
            assert(had == had_before);
        }
    } else {
        assert(old == Seq::<i64>::empty());
    }
}

/// The queue is the work that copying `from` to `to` takes. The files are
/// those that may be seen, and that the target does not have, or has older and
/// changes count. The deletions are, where they are asked for, the listed
/// files that no file of the source goes to, each once. The size is what the
/// files take now, less what those took that they replace and that are
/// deleted, in KiB, rounded toward zero.
pub open spec fn faithful(
    q: QueueModel,
    from: Seq<char>,
    to: Seq<char>,
    allow_hidden: bool,
    ignore_changes: bool,
    delete: bool,
    entries: Seq<EntryModel>,
    listing: Seq<char>,
    sizes: Seq<i64>,
) -> bool {
    let picked = entries.filter(
        |e: EntryModel|
            (allow_hidden || !hidden(e.path)) && (e.target.mod_time == 0 || (!ignore_changes
                && e.target.mod_time < e.source.mod_time)),
    );
    let bytes = sum(picked.map_values(|e: EntryModel| e.source.size)) - sum(
        picked.filter(|e: EntryModel| e.target.mod_time != 0).map_values(
            |e: EntryModel| e.target.size,
        ),
    ) - if delete {
        sum(sizes)
    } else {
        0
    };
    &&& q.files == picked.map_values(|e: EntryModel| e.path)
    &&& q.add == picked.filter(|e: EntryModel| e.target.mod_time == 0).len()
    &&& q.change == picked.filter(|e: EntryModel| e.target.mod_time != 0).len()
    &&& q.del == q.dels.len()
    &&& q.dels.no_duplicates()
    &&& forall|x: Seq<char>| #[trigger]
        q.dels.contains(x) <==> {
            &&& delete
            &&& lines_of(listing).contains(x)
            &&& forall|i: int|
                0 <= i < entries.len() ==> moved(#[trigger] entries[i].path, from, to) != Some(x)
        }
    &&& bytes >= 0 ==> 0 <= bytes - 1024 * q.size < 1024
    &&& bytes <= 0 ==> -1024 < bytes - 1024 * q.size <= 0
}

/// The queue of a comparison is faithful to its rules.
proof fn lemma_faithful(
    rules: RulesModel,
    delete: bool,
    entries: Seq<EntryModel>,
    listing: Seq<char>,
    sizes: Seq<i64>,
)
    requires
        all_below(rules, entries),
    ensures
        faithful(
            fetched(rules, delete, entries, listing, sizes),
            rules.from,
            rules.to,
            rules.allow_hidden,
            rules.ignore_changes,
            delete,
            entries,
            listing,
            sizes,
        ),
{
    let q = fetched(rules, delete, entries, listing, sizes);
    let seen = |e: EntryModel|
        (rules.allow_hidden || !hidden(e.path)) && (e.target.mod_time == 0 || (
        !rules.ignore_changes && e.target.mod_time < e.source.mod_time));
    assert(seen =~= (|e: EntryModel| wanted(rules, e)));
    let picked = entries.filter(seen);
    assert(picked == chosen(rules, entries));
    assert((|e: EntryModel| absent(e)) =~= (|e: EntryModel| e.target.mod_time == 0));
    assert((|e: EntryModel| !absent(e)) =~= (|e: EntryModel| e.target.mod_time != 0));
    law_queue_holds_wanted(rules, entries);
    law_fetched_consistent(rules, delete, entries, listing, sizes);
    lemma_growth(picked);
    law_kib(scanned(rules, entries).size);
    law_kib(scanned(rules, entries).size - sum(sizes));
    assert forall|x: Seq<char>| #[trigger]
        q.dels.contains(x) <==> {
            &&& delete
            &&& lines_of(listing).contains(x)
            &&& forall|i: int|
                0 <= i < entries.len() ==> moved(#[trigger] entries[i].path, rules.from, rules.to)
                    != Some(x)
        } by {
        if delete {
            law_deleted_exactly(rules, entries, listing, sizes, x);
            assert(forall|i: int|
                0 <= i < entries.len() ==> target_of(rules, #[trigger] entries[i].path) == moved(
                    entries[i].path,
                    rules.from,
                    rules.to,
                ));
        } else {
            law_nothing_deleted(rules, entries, listing, sizes);
        }
    }
}

/// A push finds the files of the local directory that the device needs, and
/// the files of the device that are not here.
pub proof fn law_push_finds(
    config: ConfigFile,
    local: Seq<char>,
    ignore_changes: bool,
    delete: bool,
    entries: Seq<EntryModel>,
    listing: Seq<char>,
    sizes: Seq<i64>,
)
    requires
        all_below(push_rules(config, local, ignore_changes), entries),
    ensures
        faithful(
            fetched(push_rules(config, local, ignore_changes), delete, entries, listing, sizes),
            local,
            config.remote_dir@,
            config.allow_hidden,
            ignore_changes,
            delete,
            entries,
            listing,
            sizes,
        ),
{
    lemma_faithful(push_rules(config, local, ignore_changes), delete, entries, listing, sizes);
}

/// A pull finds the files of the device that the local directory needs, and
/// the local files that are not on the device.
pub proof fn law_pull_finds(
    config: ConfigFile,
    local: Seq<char>,
    ignore_changes: bool,
    delete: bool,
    entries: Seq<EntryModel>,
    listing: Seq<char>,
    sizes: Seq<i64>,
)
    requires
        all_below(pull_rules(config, local, ignore_changes), entries),
    ensures
        faithful(
            fetched(pull_rules(config, local, ignore_changes), delete, entries, listing, sizes),
            config.remote_dir@,
            local,
            config.allow_hidden,
            ignore_changes,
            delete,
            entries,
            listing,
            sizes,
        ),
{
    lemma_faithful(pull_rules(config, local, ignore_changes), delete, entries, listing, sizes);
}

/// A queued file is the path of an entry that may be seen and that the target
/// does not have, or has older and changes count; and the path of each such
/// entry is queued.
proof fn lemma_queued(rules: RulesModel, entries: Seq<EntryModel>, path: Seq<char>)
    ensures
        scanned(rules, entries).files.contains(path) <==> exists|i: int|
            0 <= i < entries.len() && wanted(rules, #[trigger] entries[i]) && entries[i].path
                == path,
    decreases entries.len(),
{
    let q = scanned(rules, entries);
    if entries.len() > 0 {
        let front = entries.drop_last();
        let e = entries.last();
        let n = entries.len() - 1;
        let before = scanned(rules, front);
        lemma_queued(rules, front, path);
        assert(entries[n] == e);
        if q.files.contains(path) {
            let j = choose|j: int| 0 <= j < q.files.len() && q.files[j] == path;
            if j < before.files.len() {
                assert(before.files[j] == path);
                let i = choose|i: int|
                    0 <= i < front.len() && wanted(rules, #[trigger] front[i]) && front[i].path
                        == path;
                assert(entries[i] == front[i]);
            } else {
                assert(wanted(rules, entries[n]));
            }
        }
        if exists|i: int|
            0 <= i < entries.len() && wanted(rules, #[trigger] entries[i]) && entries[i].path
                == path {
            let i = choose|i: int|
                0 <= i < entries.len() && wanted(rules, #[trigger] entries[i]) && entries[i].path
                    == path;
            if i < n {
                assert(front[i] == entries[i]);
                let j = choose|j: int| 0 <= j < before.files.len() && before.files[j] == path;
                assert(q.files[j] == path);
            } else {
                assert(q.files[before.files.len() as int] == path);
            }
        }
    }
}

/// Where changes are ignored, a push and a pull change no file of the target:
/// every file they copy is one that the target does not have.
pub proof fn law_ignored_changes_stay(
    config: ConfigFile,
    local: Seq<char>,
    delete: bool,
    entries: Seq<EntryModel>,
    listing: Seq<char>,
    sizes: Seq<i64>,
    path: Seq<char>,
)
    ensures
        ({
            let pushed = fetched(push_rules(config, local, true), delete, entries, listing, sizes);
            let pulled = fetched(pull_rules(config, local, true), delete, entries, listing, sizes);
            &&& pushed.change == 0
            &&& pulled.change == 0
            &&& pushed.files.contains(path) ==> exists|i: int|
                0 <= i < entries.len() && (#[trigger] entries[i]).path == path
                    && entries[i].target.mod_time == 0
            &&& pulled.files.contains(path) ==> exists|i: int|
                0 <= i < entries.len() && (#[trigger] entries[i]).path == path
                    && entries[i].target.mod_time == 0
        }),
{
    law_ignore_changes(push_rules(config, local, true), entries);
    law_ignore_changes(pull_rules(config, local, true), entries);
    lemma_queued(push_rules(config, local, true), entries, path);
    lemma_queued(pull_rules(config, local, true), entries, path);
}

/// Where changes count, a push and a pull copy every file that is older at the
/// target, or not there, and may be seen.
pub proof fn law_changes_count(
    config: ConfigFile,
    local: Seq<char>,
    delete: bool,
    entries: Seq<EntryModel>,
    listing: Seq<char>,
    sizes: Seq<i64>,
    i: int,
)
    requires
        0 <= i < entries.len(),
        config.allow_hidden || !hidden(entries[i].path),
        entries[i].target.mod_time < entries[i].source.mod_time || entries[i].target.mod_time == 0,
    ensures
        fetched(push_rules(config, local, false), delete, entries, listing, sizes).files.contains(
            entries[i].path,
        ),
        fetched(pull_rules(config, local, false), delete, entries, listing, sizes).files.contains(
            entries[i].path,
        ),
{
    lemma_queued(push_rules(config, local, false), entries, entries[i].path);
    lemma_queued(pull_rules(config, local, false), entries, entries[i].path);
    assert(wanted(push_rules(config, local, false), entries[i]));
    assert(wanted(pull_rules(config, local, false), entries[i]));
}

/// A push or a pull copies no hidden file unless it is allowed.
pub proof fn law_hidden_stays(
    config: ConfigFile,
    local: Seq<char>,
    ignore_changes: bool,
    delete: bool,
    entries: Seq<EntryModel>,
    listing: Seq<char>,
    sizes: Seq<i64>,
    path: Seq<char>,
)
    requires
        !config.allow_hidden,
        hidden(path),
    ensures
        !fetched(push_rules(config, local, ignore_changes), delete, entries, listing, sizes)
            .files.contains(path),
        !fetched(pull_rules(config, local, ignore_changes), delete, entries, listing, sizes)
            .files.contains(path),
{
    lemma_queued(push_rules(config, local, ignore_changes), entries, path);
    lemma_queued(pull_rules(config, local, ignore_changes), entries, path);
}

/// A comparison is possible exactly where every path goes through the
/// directory that is copied: here for a push, on the device for a pull.
pub proof fn law_below(
    config: ConfigFile,
    local: Seq<char>,
    ignore_changes: bool,
    entries: Seq<EntryModel>,
)
    ensures
        all_below(push_rules(config, local, ignore_changes), entries) <==> forall|i: int|
            0 <= i < entries.len() ==> components(local).is_prefix_of(
                components(#[trigger] entries[i].path),
            ),
        all_below(pull_rules(config, local, ignore_changes), entries) <==> forall|i: int|
            0 <= i < entries.len() ==> components(config.remote_dir@).is_prefix_of(
                components(#[trigger] entries[i].path),
            ),
{
    assert forall|i: int| 0 <= i < entries.len() implies (target_of(
        push_rules(config, local, ignore_changes),
        #[trigger] entries[i].path,
    ) is Some <==> components(local).is_prefix_of(components(entries[i].path))) && (target_of(
        pull_rules(config, local, ignore_changes),
        entries[i].path,
    ) is Some <==> components(config.remote_dir@).is_prefix_of(components(entries[i].path))) by {
        law_strip_prefix(entries[i].path, local);
        law_strip_prefix(entries[i].path, config.remote_dir@);
    }
}

/// A directory that is made is the one that a copied file goes to.
proof fn lemma_dir_needed(rules: RulesModel, entries: Seq<EntryModel>, k: int) -> (i: int)
    requires
        0 <= k < scanned(rules, entries).dirs.len(),
    ensures
        0 <= i < entries.len(),
        wanted(rules, entries[i]),
        scanned(rules, entries).dirs[k] == parent_of(target_of(rules, entries[i].path)->0)->0,
        dir_allowed(rules, scanned(rules, entries).dirs[k]),
    decreases entries.len(),
{
    let front = entries.drop_last();
    let n = entries.len() - 1;
    if k < scanned(rules, front).dirs.len() {
        let i = lemma_dir_needed(rules, front, k);
        assert(front[i] == entries[i]);
        i
    } else {
        assert(entries[n] == entries.last());
        n
    }
}

/// A pull makes the local directory of every file that it copies, and no
/// directory but these.
pub proof fn law_pull_dirs(
    config: ConfigFile,
    local: Seq<char>,
    ignore_changes: bool,
    delete: bool,
    entries: Seq<EntryModel>,
    listing: Seq<char>,
    sizes: Seq<i64>,
)
    ensures
        ({
            let q = fetched(
                pull_rules(config, local, ignore_changes),
                delete,
                entries,
                listing,
                sizes,
            );
            let dir_of = |path: Seq<char>| parent_of(moved(path, config.remote_dir@, local)->0)->0;
            &&& forall|j: int|
                0 <= j < q.files.len() ==> exists|k: int|
                    0 <= k < q.dirs.len() && components(#[trigger] q.dirs[k]) == components(
                        dir_of(#[trigger] q.files[j]),
                    )
            &&& forall|k: int|
                0 <= k < q.dirs.len() ==> exists|j: int|
                    0 <= j < q.files.len() && #[trigger] q.dirs[k] == dir_of(#[trigger] q.files[j])
        }),
{
    let rules = pull_rules(config, local, ignore_changes);
    let q = fetched(rules, delete, entries, listing, sizes);
    let dir_of = |path: Seq<char>| parent_of(moved(path, config.remote_dir@, local)->0)->0;
    assert forall|j: int| 0 <= j < q.files.len() implies exists|k: int|
        0 <= k < q.dirs.len() && components(#[trigger] q.dirs[k]) == components(
            dir_of(#[trigger] q.files[j]),
        ) by {
        let i = law_queued_was_wanted(rules, entries, j);
        law_dirs_cover(rules, entries, i);
        let k = choose|k: int|
            0 <= k < scanned(rules, entries).dirs.len() && components(
                #[trigger] scanned(rules, entries).dirs[k],
            ) == components(parent_of(target_of(rules, entries[i].path)->0)->0);
        assert(components(q.dirs[k]) == components(dir_of(q.files[j])));
    }
    assert forall|k: int| 0 <= k < q.dirs.len() implies exists|j: int|
        0 <= j < q.files.len() && #[trigger] q.dirs[k] == dir_of(#[trigger] q.files[j]) by {
        let i = lemma_dir_needed(rules, entries, k);
        lemma_queued(rules, entries, entries[i].path);
        assert(q.files.contains(entries[i].path));
        let j = choose|j: int| 0 <= j < q.files.len() && q.files[j] == entries[i].path;
        assert(q.dirs[k] == dir_of(q.files[j]));
    }
}

/// A push makes the directory on the device of every file that it copies, and
/// no directory but these; only one with a hidden name is left out, unless
/// hidden files are allowed.
pub proof fn law_push_dirs(
    config: ConfigFile,
    local: Seq<char>,
    ignore_changes: bool,
    delete: bool,
    entries: Seq<EntryModel>,
    listing: Seq<char>,
    sizes: Seq<i64>,
)
    ensures
        ({
            let q = fetched(
                push_rules(config, local, ignore_changes),
                delete,
                entries,
                listing,
                sizes,
            );
            let dir_of = |path: Seq<char>| parent_of(moved(path, local, config.remote_dir@)->0)->0;
            let shown = |dir: Seq<char>|
                config.allow_hidden || file_name_of(dir) is None || !hidden_name(
                    file_name_of(dir)->0,
                );
            &&& forall|j: int|
                0 <= j < q.files.len() && shown(dir_of(#[trigger] q.files[j])) ==> exists|k: int|
                    0 <= k < q.dirs.len() && components(#[trigger] q.dirs[k]) == components(
                        dir_of(q.files[j]),
                    )
            &&& forall|k: int|
                0 <= k < q.dirs.len() ==> shown(#[trigger] q.dirs[k]) && exists|j: int|
                    0 <= j < q.files.len() && q.dirs[k] == dir_of(#[trigger] q.files[j])
        }),
{
    let rules = push_rules(config, local, ignore_changes);
    let q = fetched(rules, delete, entries, listing, sizes);
    let dir_of = |path: Seq<char>| parent_of(moved(path, local, config.remote_dir@)->0)->0;
    let shown = |dir: Seq<char>|
        config.allow_hidden || file_name_of(dir) is None || !hidden_name(file_name_of(dir)->0);
    assert forall|j: int| 0 <= j < q.files.len() && shown(dir_of(#[trigger] q.files[j])) implies exists|
        k: int,
    |
        0 <= k < q.dirs.len() && components(#[trigger] q.dirs[k]) == components(
            dir_of(q.files[j]),
        ) by {
        let i = law_queued_was_wanted(rules, entries, j);
        law_dirs_cover(rules, entries, i);
        let k = choose|k: int|
            0 <= k < scanned(rules, entries).dirs.len() && components(
                #[trigger] scanned(rules, entries).dirs[k],
            ) == components(parent_of(target_of(rules, entries[i].path)->0)->0);
        assert(components(q.dirs[k]) == components(dir_of(q.files[j])));
    }
    assert forall|k: int| 0 <= k < q.dirs.len() implies shown(#[trigger] q.dirs[k]) && exists|
        j: int,
    |
        0 <= j < q.files.len() && q.dirs[k] == dir_of(#[trigger] q.files[j]) by {
        let i = lemma_dir_needed(rules, entries, k);
        lemma_queued(rules, entries, entries[i].path);
        assert(q.files.contains(entries[i].path));
        let j = choose|j: int| 0 <= j < q.files.len() && q.files[j] == entries[i].path;
        assert(q.dirs[k] == dir_of(q.files[j]));
    }
}

/// The first of some sizes come to no more than all of them.
proof fn lemma_sum_part(s: Seq<i64>, k: int)
    requires
        forall|i: int| 0 <= i < s.len() ==> #[trigger] s[i] >= 0,
        0 <= k <= s.len(),
    ensures
        0 <= sum(s.take(k)) <= sum(s),
    decreases s.len(),
{
    if s.len() == 0 {
        assert(s.take(k) == s);
    } else {
        let front = s.drop_last();
        assert forall|i: int| 0 <= i < front.len() implies #[trigger] front[i] >= 0 by {
            assert(front[i] == s[i]);
        }
        assert(s[s.len() - 1] >= 0);
        lemma_sum_part(front, front.len() as int);
        assert(front.take(front.len() as int) == front);
        if k < s.len() {
            lemma_sum_part(front, k);
            assert(front.take(k) == s.take(k));
        } else {
            assert(s.take(k) == s);
        }
    }
}

/// What the files take is between what those take that they replace, taken
/// off, and what they take themselves.
proof fn lemma_scan_bounds(rules: RulesModel, entries: Seq<EntryModel>)
    requires
        forall|i: int|
            0 <= i < entries.len() ==> (#[trigger] entries[i]).source.size >= 0
                && entries[i].target.size >= 0,
    ensures
        -sum(entries.map_values(|e: EntryModel| e.target.size)) <= scanned(rules, entries).size
            <= sum(entries.map_values(|e: EntryModel| e.source.size)),
    decreases entries.len(),
{
    let new = entries.map_values(|e: EntryModel| e.source.size);
    let old = entries.map_values(|e: EntryModel| e.target.size);
    if entries.len() > 0 {
        let front = entries.drop_last();
        let e = entries.last();
        assert forall|i: int| 0 <= i < front.len() implies (#[trigger] front[i]).source.size >= 0
            && front[i].target.size >= 0 by {
            assert(front[i] == entries[i]);
        }
        assert(entries[entries.len() - 1] == e);
        lemma_scan_bounds(rules, front);
        assert(new.drop_last() == front.map_values(|e: EntryModel| e.source.size));
        assert(old.drop_last() == front.map_values(|e: EntryModel| e.target.size));
    }
}

/// A transfer can be built wherever the sizes come to what a 64 bit number
/// holds and every file that is copied goes into a directory, which has a name
/// where the rules look at it.
pub proof fn law_fits(
    rules: RulesModel,
    delete: bool,
    entries: Seq<EntryModel>,
    sizes: Seq<i64>,
)
    requires
        forall|i: int|
            0 <= i < entries.len() ==> (#[trigger] entries[i]).source.size >= 0
                && entries[i].target.size >= 0,
        forall|i: int| 0 <= i < sizes.len() ==> #[trigger] sizes[i] >= 0,
        sum(entries.map_values(|e: EntryModel| e.source.size)) <= i64::MAX,
        sum(entries.map_values(|e: EntryModel| e.target.size)) + sum(sizes) <= i64::MAX,
        forall|i: int|
            0 <= i < entries.len() ==> {
                let t = components(moved((#[trigger] entries[i]).path, rules.from, rules.to)->0);
                &&& t.len() > 0
                &&& t != seq![seq!['/']]
                &&& rules.spare_hidden_dirs ==> {
                    &&& t.len() > 1
                    &&& t[t.len() - 2] != seq!['/']
                    &&& t[t.len() - 2] != seq!['.']
                    &&& t[t.len() - 2] != seq!['.', '.']
                }
            },
    ensures
        fits(rules, delete, entries, sizes),
{
    let new = entries.map_values(|e: EntryModel| e.source.size);
    let old = entries.map_values(|e: EntryModel| e.target.size);
    lemma_sum_part(sizes, sizes.len() as int);
    assert(sizes.take(sizes.len() as int) == sizes);
    assert forall|i: int| 0 <= i < new.len() implies #[trigger] new[i] >= 0 by {
        assert(entries[i].source.size >= 0);
    }
    assert forall|i: int| 0 <= i < old.len() implies #[trigger] old[i] >= 0 by {
        assert(entries[i].target.size >= 0);
    }
    assert forall|k: int|
        0 <= k < entries.len() && all_below(rules, entries.take(k + 1)) implies #[trigger] fits_at(
        rules,
        entries,
        k,
    ) by {
        let e = entries[k];
        let front = entries.take(k);
        let next = entries.take(k + 1);
        assert(next.drop_last() == front);
        assert(next.last() == e);
        lemma_scan_bounds(rules, front);
        lemma_sum_part(new, k);
        lemma_sum_part(old, k);
        lemma_sum_part(new, k + 1);
        lemma_sum_part(old, k + 1);
        assert(front.map_values(|e: EntryModel| e.source.size) == new.take(k));
        assert(front.map_values(|e: EntryModel| e.target.size) == old.take(k));
        assert(new.take(k + 1).drop_last() == new.take(k));
        assert(old.take(k + 1).drop_last() == old.take(k));
        let t = moved(e.path, rules.from, rules.to)->0;
        law_parent(t);
        let dir = parent_of(t)->0;
        law_file_name(dir);
        assert(components(dir) == components(t).drop_last());
    }
    if delete && all_below(rules, entries) {
        lemma_scan_bounds(rules, entries);
        assert forall|k: int| 0 <= k <= sizes.len() implies in_i64(
            scanned(rules, entries).size - sum(#[trigger] sizes.take(k)),
        ) by {
            lemma_sum_part(sizes, k);
        }
    }
}

/// One more file leaves the directories as they are, and adds its own at the
/// end where it is copied, its directory may be made, and the last directory
/// is another.
pub proof fn law_dirs_grow(rules: RulesModel, entries: Seq<EntryModel>, e: EntryModel)
    ensures
        ({
            let before = scanned(rules, entries).dirs;
            let after = scanned(rules, entries.push(e)).dirs;
            let dir = parent_of(moved(e.path, rules.from, rules.to)->0)->0;
            let copied = scanned(rules, entries.push(e)).files.len() > scanned(
                rules,
                entries,
            ).files.len();
            let named = file_name_of(dir) is Some && file_name_of(dir)->0.len() > 0
                && file_name_of(dir)->0[0] == '.';
            after == if copied && (!rules.spare_hidden_dirs || rules.allow_hidden || !named) && (
            before.len() == 0 || components(before.last()) != components(dir)) {
                before.push(dir)
            } else {
                before
            }
        }),
{
    let dir = parent_of(moved(e.path, rules.from, rules.to)->0)->0;
    assert(entries.push(e).drop_last() == entries);
    law_file_name(dir);
    if file_name_of(dir) is Some {
        let name = file_name_of(dir)->0;
        assert(name != seq!['.'] && name != seq!['.', '.']);
    }
}

} // verus!
