//! Comparing the two sides of a transfer: which files to copy, which
//! directories they need, and which files the target has for nothing.
use vstd::hash_set::StringHashSet;
use vstd::prelude::*;

use crate::cli::queue::{Queue, QueueModel};
use crate::cli::scan_laws::{law_fetched_consistent, law_fetched_size_bounded};
use crate::path::{components, file_name, file_name_of, join, parent, parent_of, pieces_view, same_path, split, strip_prefix, StripPrefixError};
use crate::path_laws::moved;
use crate::text::{lines, lines_of, to_chars, views};

verus! {

/// What one side knows of a file.
#[derive(Debug, Clone, Copy, PartialEq, Eq, Structural)]
pub struct FileStat {
    /// When the file was last written, in seconds of Unix time. No file was
    /// written at second 0: it stands for a file that does not exist.
    pub mod_time: u64,
    /// The size of the file in bytes.
    pub size: i64,
}

impl FileStat {
    /// What is known of a file that does not exist.
    pub fn missing() -> (stat: FileStat)
        ensures
            stat.mod_time == 0,
            stat.size == 0,
    {
        FileStat { mod_time: 0, size: 0 }
    }
}

/// A file of the source, and what both sides know of it.
#[derive(Debug)]
pub struct Entry {
    /// The path of the file at the source.
    pub path: String,
    /// The file at the source.
    pub source: FileStat,
    /// The file of the same place at the target.
    pub target: FileStat,
}

/// An `Entry` in mathematical terms.
pub struct EntryModel {
    pub path: Seq<char>,
    pub source: FileStat,
    pub target: FileStat,
}

impl View for Entry {
    type V = EntryModel;

    open spec fn view(&self) -> EntryModel {
        EntryModel { path: self.path@, source: self.source, target: self.target }
    }
}

/// The views of a list of entries.
pub open spec fn entry_views(entries: Seq<Entry>) -> Seq<EntryModel> {
    entries.map_values(|e: Entry| e@)
}

/// How the two sides are compared.
#[derive(Debug)]
pub struct Rules {
    /// The directory that is copied.
    pub from_root: String,
    /// The directory it is copied to.
    pub to_root: String,
    /// Copy hidden files too.
    pub allow_hidden: bool,
    /// Copy only files that the target does not have.
    pub ignore_changes: bool,
    /// Do not make a directory with a hidden name, unless hidden files are
    /// copied.
    pub spare_hidden_dirs: bool,
}

/// `Rules` in mathematical terms.
pub struct RulesModel {
    pub from: Seq<char>,
    pub to: Seq<char>,
    pub allow_hidden: bool,
    pub ignore_changes: bool,
    pub spare_hidden_dirs: bool,
}

impl View for Rules {
    type V = RulesModel;

    open spec fn view(&self) -> RulesModel {
        RulesModel {
            from: self.from_root@,
            to: self.to_root@,
            allow_hidden: self.allow_hidden,
            ignore_changes: self.ignore_changes,
            spare_hidden_dirs: self.spare_hidden_dirs,
        }
    }
}

/// A name that hides what it names: it starts with a dot, and does not stand
/// for a directory itself or the one above it.
pub open spec fn hidden_name(name: Seq<char>) -> bool {
    name.len() > 0 && name[0] == '.' && name != seq!['.'] && name != seq!['.', '.']
}

/// The file, or one of the directories that its path names, is hidden.
pub open spec fn hidden(path: Seq<char>) -> bool {
    exists|i: int| 0 <= i < components(path).len() && hidden_name(#[trigger] components(path)[i])
}

/// A file is copied where the rules let it be seen, and where the target does
/// not have it, or has an older one and changes count.
pub open spec fn wanted(rules: RulesModel, e: EntryModel) -> bool {
    &&& rules.allow_hidden || !hidden(e.path)
    &&& e.target.mod_time == 0 || (!rules.ignore_changes && e.target.mod_time < e.source.mod_time)
}

/// Where the file goes.
pub open spec fn target_of(rules: RulesModel, path: Seq<char>) -> Option<Seq<char>> {
    moved(path, rules.from, rules.to)
}

/// By how many bytes the target grows for a file that is copied.
pub open spec fn growth(e: EntryModel) -> int {
    if e.target.mod_time == 0 {
        e.source.size as int
    } else {
        e.source.size - e.target.size
    }
}

/// A directory is put on the list unless it is the last one there, or the
/// rules spare it.
pub open spec fn dir_due(rules: RulesModel, dirs: Seq<Seq<char>>, dir: Seq<char>) -> bool {
    &&& dirs.len() == 0 || components(dirs.last()) != components(dir)
    &&& !rules.spare_hidden_dirs || rules.allow_hidden || !(file_name_of(dir) matches Some(name)
        && hidden_name(name))
}

/// The queue, with its size in bytes, once one more file was looked at.
pub open spec fn offered(q: QueueModel, rules: RulesModel, e: EntryModel) -> QueueModel {
    let dir = parent_of(target_of(rules, e.path)->0)->0;
    if !wanted(rules, e) {
        q
    } else {
        QueueModel {
            dirs: if dir_due(rules, q.dirs, dir) {
                q.dirs.push(dir)
            } else {
                q.dirs
            },
            files: q.files.push(e.path),
            add: q.add + if e.target.mod_time == 0 {
                1int
            } else {
                0int
            },
            change: q.change + if e.target.mod_time == 0 {
                0int
            } else {
                1int
            },
            size: q.size + growth(e),
            ..q
        }
    }
}

/// The queue, with its size in bytes, once all of `entries` were looked at.
pub open spec fn scanned(rules: RulesModel, entries: Seq<EntryModel>) -> QueueModel
    decreases entries.len(),
{
    if entries.len() == 0 {
        QueueModel::empty()
    } else {
        offered(scanned(rules, entries.drop_last()), rules, entries.last())
    }
}

/// Every file lies below the directory that is copied.
pub open spec fn all_below(rules: RulesModel, entries: Seq<EntryModel>) -> bool {
    forall|i: int| 0 <= i < entries.len() ==> target_of(rules, #[trigger] entries[i].path) is Some
}

/// A value that a 64 bit number holds.
pub open spec fn in_i64(v: int) -> bool {
    i64::MIN <= v <= i64::MAX
}

/// The file has what looking at it needs: where it is copied, a directory to
/// put it in, a name for that directory where the rules ask for one, and sizes
/// that can be added up.
pub open spec fn admissible(q: QueueModel, rules: RulesModel, e: EntryModel) -> bool {
    wanted(rules, e) ==> {
        let dir = parent_of(target_of(rules, e.path)->0);
        &&& dir is Some
        &&& rules.spare_hidden_dirs && !rules.allow_hidden ==> file_name_of(dir->0) is Some
        &&& in_i64(growth(e))
        &&& in_i64(q.size + growth(e))
    }
}

/// The file at place `k` is admissible once those before it were looked at.
pub open spec fn fits_at(rules: RulesModel, entries: Seq<EntryModel>, k: int) -> bool {
    admissible(scanned(rules, entries.take(k)), rules, entries[k])
}

/// The files below the directory that is copied, up to the first that is not,
/// all are admissible.
pub open spec fn entries_fit(rules: RulesModel, entries: Seq<EntryModel>) -> bool {
    forall|k: int|
        0 <= k < entries.len() && all_below(rules, entries.take(k + 1)) ==> #[trigger] fits_at(
            rules,
            entries,
            k,
        )
}

/// The sum of some sizes.
pub open spec fn sum(sizes: Seq<i64>) -> int
    decreases sizes.len(),
{
    if sizes.len() == 0 {
        0
    } else {
        sum(sizes.drop_last()) + sizes.last()
    }
}

/// The sizes of what is deleted can be taken off one by one.
pub open spec fn deletions_fit(size: int, sizes: Seq<i64>) -> bool {
    forall|k: int| 0 <= k <= sizes.len() ==> in_i64(size - sum(#[trigger] sizes.take(k)))
}

/// The places at the target that the files of the source have.
pub open spec fn targets(rules: RulesModel, entries: Seq<EntryModel>) -> Set<Seq<char>>
    decreases entries.len(),
{
    if entries.len() == 0 {
        Set::empty()
    } else {
        targets(rules, entries.drop_last()).insert(target_of(rules, entries.last().path)->0)
    }
}

/// The paths of `listed` that are not in `kept`, each one once.
pub open spec fn surplus(listed: Seq<Seq<char>>, kept: Set<Seq<char>>) -> Seq<Seq<char>>
    decreases listed.len(),
{
    if listed.len() == 0 {
        seq![]
    } else {
        let before = surplus(listed.drop_last(), kept);
        if kept.contains(listed.last()) || before.contains(listed.last()) {
            before
        } else {
            before.push(listed.last())
        }
    }
}

/// Bytes in KiB, rounded toward zero.
pub open spec fn kib(bytes: int) -> int {
    if bytes >= 0 {
        bytes / 1024
    } else {
        -((-bytes) / 1024)
    }
}

/// What the listing of the target has that the source has not.
pub open spec fn surplus_of(
    rules: RulesModel,
    entries: Seq<EntryModel>,
    listing: Seq<char>,
) -> Seq<Seq<char>> {
    surplus(lines_of(listing), targets(rules, entries))
}

/// The queue of a transfer: the files of `entries` that are wanted, and, for
/// `delete`, the files of `listing` that are surplus, whose sizes are `sizes`.
pub open spec fn fetched(
    rules: RulesModel,
    delete: bool,
    entries: Seq<EntryModel>,
    listing: Seq<char>,
    sizes: Seq<i64>,
) -> QueueModel {
    let q = scanned(rules, entries);
    if delete {
        let dels = surplus_of(rules, entries, listing);
        QueueModel { dels, del: dels.len() as int, size: kib(q.size - sum(sizes)), ..q }
    } else {
        QueueModel { size: kib(q.size), ..q }
    }
}

/// Everything that `fetch` adds up can be added up.
pub open spec fn fits(
    rules: RulesModel,
    delete: bool,
    entries: Seq<EntryModel>,
    sizes: Seq<i64>,
) -> bool {
    &&& entries_fit(rules, entries)
    &&& delete && all_below(rules, entries) ==> deletions_fit(scanned(rules, entries).size, sizes)
}

/// Whether a name hides what it names.
fn is_hidden_name(name: &Vec<char>) -> (b: bool)
    ensures
        b == hidden_name(name@),
{
    let len: usize = name.len();
    if len == 0 || name[0] != '.' {
        return false;
    }
    if len == 1 {
        assert(name@ == seq!['.']);
        return false;
    }
    if len == 2 && name[1] == '.' {
        assert(name@ == seq!['.', '.']);
        return false;
    }
    true
}

/// Whether a file, or one of the directories that its path names, is hidden.
pub fn is_hidden(path: &str) -> (b: bool)
    ensures
        b == hidden(path@),
{
    let names = split(&to_chars(path));
    let mut i: usize = 0;
    while i < names.len()
        invariant
            i <= names@.len(),
            pieces_view(names@) == components(path@),
            forall|j: int| 0 <= j < i ==> !hidden_name(#[trigger] components(path@)[j]),
        decreases names@.len() - i,
    {
        assert(components(path@)[i as int] == names@[i as int]@);
        if is_hidden_name(&names[i]) {
            return true;
        }
        i += 1;
    }
    assert(components(path@).len() == names@.len());
    false
}

/// Whether a file is copied.
pub fn is_wanted(rules: &Rules, entry: &Entry) -> (b: bool)
    ensures
        b == wanted(rules@, entry@),
{
    (rules.allow_hidden || !is_hidden(entry.path.as_str())) && (entry.target.mod_time == 0 || (
    !rules.ignore_changes && entry.target.mod_time < entry.source.mod_time))
}

/// Where the file at `path` goes.
pub fn target_path(rules: &Rules, path: &str) -> (res: Result<String, StripPrefixError>)
    ensures
        res is Ok <==> target_of(rules@, path@) is Some,
        res matches Ok(target) ==> target_of(rules@, path@) == Some(target@),
{
    match strip_prefix(path, rules.from_root.as_str()) {
        Ok(rel) => Ok(join(rules.to_root.as_str(), rel.as_str())),
        Err(e) => Err(e),
    }
}

/// Whether a directory is put on the list.
fn is_dir_due(rules: &Rules, dirs: &Vec<String>, dir: &str) -> (b: bool)
    ensures
        b == dir_due(rules@, views(dirs@), dir@),
{
    let count: usize = dirs.len();
    if count > 0 {
        assert(views(dirs@).last() == dirs@[count - 1]@);
        if same_path(dirs[count - 1].as_str(), dir) {
            return false;
        }
    }
    if !rules.spare_hidden_dirs || rules.allow_hidden {
        return true;
    }
    match file_name(dir) {
        Some(name) => !is_hidden_name(&to_chars(name.as_str())),
        None => true,
    }
}

impl Queue {
    /// Looks at one more file, whose place at the target is `target`. Where
    /// the file is not admissible, says so.
    fn offer(&mut self, rules: &Rules, entry: &Entry, target: &str) -> (ok: bool)
        requires
            target_of(rules@, entry.path@) == Some(target@),
            old(self).add < u64::MAX,
            old(self).change < u64::MAX,
        ensures
            ok == admissible(old(self)@, rules@, entry@),
            ok ==> final(self)@ == offered(old(self)@, rules@, entry@),
            ok ==> final(self).add + final(self).change <= old(self).add + old(self).change + 1,
    {
        if !is_wanted(rules, entry) {
            return true;
        }
        let dir = match parent(target) {
            Some(dir) => dir,
            None => return false,
        };
        if rules.spare_hidden_dirs && !rules.allow_hidden && file_name(dir.as_str()).is_none() {
            return false;
        }
        let absent = entry.target.mod_time == 0;
        let growth: i64 = if absent {
            entry.source.size
        } else {
            match entry.source.size.checked_sub(entry.target.size) {
                Some(growth) => growth,
                None => return false,
            }
        };
        let total: i64 = match self.total_size.checked_add(growth) {
            Some(total) => total,
            None => return false,
        };
        if is_dir_due(rules, &self.dir_queue, dir.as_str()) {
            self.dir_queue.push(dir);
            assert(views(self.dir_queue@) == old(self)@.dirs.push(dir@));
        }
        if absent {
            self.add += 1;
        } else {
            self.change += 1;
        }
        self.total_size = total;
        self.file_queue.push(entry.path.clone());
        assert(views(self.file_queue@) == old(self)@.files.push(entry.path@));
        assert(self@ =~= offered(old(self)@, rules@, entry@));
        true
    }
}

/// Which files of `listing` the source has no file for. Fails where a file of
/// `entries` is not below the directory that is copied.
pub fn surplus_files(rules: &Rules, entries: &Vec<Entry>, listing: &str) -> (res: Result<
    Vec<String>,
    StripPrefixError,
>)
    ensures
        res is Ok <==> all_below(rules@, entry_views(entries@)),
        res matches Ok(files) ==> views(files@) == surplus_of(
            rules@,
            entry_views(entries@),
            listing@,
        ),
{
    let ghost models = entry_views(entries@);
    let mut taken = StringHashSet::new();
    let mut i: usize = 0;
    while i < entries.len()
        invariant
            i <= entries@.len(),
            models == entry_views(entries@),
            all_below(rules@, models.take(i as int)),
            taken@ == targets(rules@, models.take(i as int)),
        decreases entries@.len() - i,
    {
        assert(models[i as int].path == entries@[i as int].path@);
        assert(models.take(i + 1).drop_last() == models.take(i as int));
        match target_path(rules, entries[i].path.as_str()) {
            Ok(target) => {
                taken.insert(target);
            },
            Err(e) => {
                return Err(e);
            },
        }
        proof {
            lemma_below_extends(rules@, models, i as int);
        }
        i += 1;
    }
    assert(models.take(i as int) == models);
    let ghost kept = taken@;
    let listed = lines(listing);
    let ghost paths = lines_of(listing@);
    let mut files: Vec<String> = Vec::new();
    let mut k: usize = 0;
    assert(taken@ =~= kept.union(views(files@).to_set()));
    while k < listed.len()
        invariant
            k <= listed@.len(),
            paths == views(listed@),
            views(files@) == surplus(paths.take(k as int), kept),
            taken@ == kept.union(views(files@).to_set()),
        decreases listed@.len() - k,
    {
        let ghost before = views(files@);
        assert(paths[k as int] == listed@[k as int]@);
        assert(paths.take(k + 1).drop_last() == paths.take(k as int));
        if !taken.contains(listed[k].as_str()) {
            files.push(listed[k].clone());
            taken.insert(listed[k].clone());
            assert(views(files@) == before.push(paths[k as int]));
            assert(before.push(paths[k as int]).to_set() =~= before.to_set().insert(paths[k as int]))
                by {
                let line = paths[k as int];
                let after = before.push(line);
                assert(after[before.len() as int] == line);
                assert forall|x: Seq<char>| before.contains(x) implies after.contains(x) by {
                    let j = choose|j: int| 0 <= j < before.len() && before[j] == x;
                    assert(after[j] == x);
                }
            }
        }
        k += 1;
    }
    assert(paths.take(k as int) == paths);
    Ok(files)
}

/// One more file below the directory that is copied.
proof fn lemma_below_extends(rules: RulesModel, entries: Seq<EntryModel>, i: int)
    requires
        0 <= i < entries.len(),
        all_below(rules, entries.take(i)),
        target_of(rules, entries[i].path) is Some,
    ensures
        all_below(rules, entries.take(i + 1)),
{
    assert forall|j: int| 0 <= j < i + 1 implies target_of(
        rules,
        #[trigger] entries.take(i + 1)[j].path,
    ) is Some by {
        if j < i {
            assert(entries.take(i)[j] == entries[j]);
        }
    }
}

/// Behind a file that is not below the directory that is copied, nothing has
/// to fit.
proof fn lemma_not_below(rules: RulesModel, entries: Seq<EntryModel>, i: int)
    requires
        0 <= i < entries.len(),
        target_of(rules, entries[i].path) is None,
        forall|k: int| 0 <= k < i ==> #[trigger] fits_at(rules, entries, k),
    ensures
        !all_below(rules, entries),
        entries_fit(rules, entries),
{
    assert forall|k: int|
        0 <= k < entries.len() && all_below(rules, entries.take(k + 1)) implies #[trigger] fits_at(
        rules,
        entries,
        k,
    ) by {
        if k >= i {
            assert(entries.take(k + 1)[i] == entries[i]);
        }
    }
}

/// Looks at all files, or gives up where one is not admissible.
fn scan_entries(rules: &Rules, entries: &Vec<Entry>) -> (res: Option<
    Result<Queue, StripPrefixError>,
>)
    ensures
        res is Some <==> entries_fit(rules@, entry_views(entries@)),
        res matches Some(r) ==> {
            &&& r is Ok <==> all_below(rules@, entry_views(entries@))
            &&& r matches Ok(queue) ==> queue@ == scanned(rules@, entry_views(entries@))
        },
{
    let ghost models = entry_views(entries@);
    let mut queue = Queue::new();
    let mut i: usize = 0;
    assert(models.take(0) == Seq::<EntryModel>::empty());
    while i < entries.len()
        invariant
            i <= entries@.len(),
            models == entry_views(entries@),
            all_below(rules@, models.take(i as int)),
            queue@ == scanned(rules@, models.take(i as int)),
            queue.add + queue.change <= i,
            forall|k: int| 0 <= k < i ==> #[trigger] fits_at(rules@, models, k),
        decreases entries@.len() - i,
    {
        assert(models[i as int] == entries@[i as int]@);
        assert(models.take(i + 1).drop_last() == models.take(i as int));
        let target = match target_path(rules, entries[i].path.as_str()) {
            Ok(target) => target,
            Err(e) => {
                proof {
                    lemma_not_below(rules@, models, i as int);
                }
                return Some(Err(e));
            },
        };
        proof {
            lemma_below_extends(rules@, models, i as int);
        }
        if !queue.offer(rules, &entries[i], target.as_str()) {
            assert(!fits_at(rules@, models, i as int));
            return None;
        }
        assert(fits_at(rules@, models, i as int));
        i += 1;
    }
    assert(models.take(i as int) == models);
    Some(Ok(queue))
}

/// Builds the queue, or gives up where what it adds up does not fit.
fn try_fetch(
    rules: &Rules,
    delete: bool,
    entries: &Vec<Entry>,
    listing: &str,
    sizes: &Vec<i64>,
) -> (res: Option<Result<Queue, StripPrefixError>>)
    requires
        delete && all_below(rules@, entry_views(entries@)) ==> sizes@.len() == surplus_of(
            rules@,
            entry_views(entries@),
            listing@,
        ).len(),
    ensures
        res is Some <==> fits(rules@, delete, entry_views(entries@), sizes@),
        res matches Some(r) ==> {
            &&& r is Ok <==> all_below(rules@, entry_views(entries@))
            &&& r matches Ok(queue) ==> queue@ == fetched(
                rules@,
                delete,
                entry_views(entries@),
                listing@,
                sizes@,
            )
        },
{
    let ghost models = entry_views(entries@);
    let mut queue = match scan_entries(rules, entries) {
        Some(Ok(queue)) => queue,
        Some(Err(e)) => {
            return Some(Err(e));
        },
        None => {
            return None;
        },
    };
    if delete {
        let files = match surplus_files(rules, entries, listing) {
            Ok(files) => files,
            Err(e) => {
                return Some(Err(e));
            },
        };
        let ghost start = queue@.size;
        let mut k: usize = 0;
        assert(sizes@.take(0) == Seq::<i64>::empty());
        while k < sizes.len()
            invariant
                k <= sizes@.len(),
                delete,
                models == entry_views(entries@),
                all_below(rules@, models),
                in_i64(start),
                queue@ == (QueueModel { size: start - sum(sizes@.take(k as int)), ..scanned(rules@, models) }),
                start == scanned(rules@, models).size,
                forall|j: int| 0 <= j <= k ==> in_i64(start - sum(#[trigger] sizes@.take(j))),
            decreases sizes@.len() - k,
        {
            assert(sizes@.take(k + 1).drop_last() == sizes@.take(k as int));
            match queue.total_size.checked_sub(sizes[k]) {
                Some(total) => {
                    queue.total_size = total;
                },
                None => {
                    assert(!in_i64(start - sum(sizes@.take(k + 1))));
                    return None;
                },
            }
            k += 1;
        }
        assert(sizes@.take(k as int) == sizes@);
        queue.del = files.len() as u64;
        queue.del_queue = files;
    }
    queue.total_size = queue.total_size / 1024;
    assert(queue@ =~= fetched(rules@, delete, models, listing@, sizes@));
    Some(Ok(queue))
}

/// Whether the queue of a transfer can be built: whether every file has a
/// directory to go to, and all sizes can be added up.
pub fn fetch_fits(
    rules: &Rules,
    delete: bool,
    entries: &Vec<Entry>,
    listing: &str,
    sizes: &Vec<i64>,
) -> (b: bool)
    requires
        delete && all_below(rules@, entry_views(entries@)) ==> sizes@.len() == surplus_of(
            rules@,
            entry_views(entries@),
            listing@,
        ).len(),
    ensures
        b == fits(rules@, delete, entry_views(entries@), sizes@),
{
    try_fetch(rules, delete, entries, listing, sizes).is_some()
}

/// Builds the queue of a transfer from what both sides hold. `listing` lists
/// the files of the target, and `sizes` are those of its surplus files; both
/// only count for `delete`. Fails exactly where a file of the source is not
/// below the directory that is copied.
pub fn fetch(
    rules: &Rules,
    delete: bool,
    entries: &Vec<Entry>,
    listing: &str,
    sizes: &Vec<i64>,
) -> (res: Result<Queue, StripPrefixError>)
    requires
        delete && all_below(rules@, entry_views(entries@)) ==> sizes@.len() == surplus_of(
            rules@,
            entry_views(entries@),
            listing@,
        ).len(),
        fits(rules@, delete, entry_views(entries@), sizes@),
    ensures
        res is Ok <==> all_below(rules@, entry_views(entries@)),
        res matches Ok(queue) ==> queue@ == fetched(
            rules@,
            delete,
            entry_views(entries@),
            listing@,
            sizes@,
        ),
        res matches Ok(queue) ==> {
            &&& queue@.consistent()
            &&& -0x20_0000_0000_0000 <= queue.total_size <= 0x20_0000_0000_0000
        },
{
    proof {
        let models = entry_views(entries@);
        law_fetched_consistent(rules@, delete, models, listing@, sizes@);
        if all_below(rules@, models) {
            law_fetched_size_bounded(rules@, delete, models, listing@, sizes@);
        }
    }
    match try_fetch(rules, delete, entries, listing, sizes) {
        Some(res) => res,
        None => {
            assert(false);
            Err(StripPrefixError)
        },
    }
}

} // verus!
