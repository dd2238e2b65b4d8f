//! A working directory with a cached listing, a history of writes that can be
//! undone, and snapshots that can be restored.
use crate::order::{
    is_listing, lemma_listing, lemma_path_before_below, lemma_path_before_total, path_before,
    sort_paths,
};
use crate::pattern::{find_glob_fault, glob_fault, glob_matches, opt_view, paths_matched, GlobFlags};
use crate::text::{begins, cat, cat3, ends, ends_with, same, strip_prefix, views};
use vstd::prelude::*;
use vstd::string::*;

verus! {

/// Files larger than this are left out of snapshots.
pub const MAX_SNAPSHOT_FILE_BYTES: u64 = 10 * 1024 * 1024;

// ---------------------------------------------------------------- the listing

/// The cached listing.
pub enum IndexState {
    /// All paths below the working directory, in order.
    Ready(Vec<String>),
    /// Something may have changed since the last scan.
    Dirty,
}

/// What a file held before a write; `None` where the write created it.
pub struct WriteEntry {
    pub path: String,
    pub original: Option<Vec<u8>>,
}

/// The cached listing of a working directory, and the history of its writes.
pub struct CachedKaos {
    pub work_dir: String,
    pub index: IndexState,
    pub write_history: Vec<WriteEntry>,
}

/// `rel` below `base`. The empty base is the directory that the program runs in.
pub open spec fn path_below(base: Seq<char>, rel: Seq<char>) -> Seq<char> {
    if base.len() == 0 || ends(base, "/"@) {
        base + rel
    } else {
        base + "/"@ + rel
    }
}

/// `rel` below `base`.
pub fn join_path(base: &str, rel: &str) -> (res: String)
    ensures
        res@ == path_below(base@, rel@),
{
    if base.is_empty() || ends_with(base, "/") {
        cat(base, rel)
    } else {
        cat3(base, "/", rel)
    }
}

/// What is left of `path` below `prefix`, where it lies there. Both are relative
/// and written with single slashes; the empty prefix is the directory itself.
pub open spec fn below(path: Seq<char>, prefix: Seq<char>) -> Option<Seq<char>> {
    if prefix.len() == 0 {
        Some(path)
    } else if path == prefix {
        Some(seq![])
    } else if begins(path, prefix + "/"@) {
        Some(path.skip(prefix.len() as int + 1))
    } else {
        None
    }
}

/// What is left of `path` below `prefix`.
fn strip_dir(path: &str, prefix: &str) -> (res: Option<String>)
    ensures
        opt_view(res) == below(path@, prefix@),
{
    if prefix.is_empty() {
        return Some(path.to_owned());
    }
    if same(path, prefix) {
        return Some(String::new());
    }
    let dir: String = cat(prefix, "/");
    proof {
        reveal_strlit("/");
        assert(dir@.len() == prefix@.len() + 1);
    }
    strip_prefix(path, &dir)
}

/// Whether a listed path is found by a glob below `prefix`.
pub open spec fn glob_finds(
    path: Seq<char>,
    prefix: Seq<char>,
    glob: Seq<char>,
    flags: GlobFlags,
) -> bool {
    below(path, prefix) matches Some(rest) && glob_matches(glob, flags, rest)
}

/// Those of `paths` that a glob below `prefix` finds, each below `work_dir`.
pub open spec fn globbed(
    paths: Seq<String>,
    work_dir: Seq<char>,
    prefix: Seq<char>,
    glob: Seq<char>,
    flags: GlobFlags,
) -> Seq<Seq<char>>
    decreases paths.len(),
{
    if paths.len() == 0 {
        seq![]
    } else {
        let before = globbed(paths.drop_last(), work_dir, prefix, glob, flags);
        if glob_finds(paths.last()@, prefix, glob, flags) {
            before.push(path_below(work_dir, paths.last()@))
        } else {
            before
        }
    }
}

/// The flags with which a listing is globbed.
pub open spec fn listing_flags(case_sensitive: bool) -> GlobFlags {
    GlobFlags { literal_separator: true, case_insensitive: !case_sensitive }
}

impl CachedKaos {
    /// Whether the listing, where it can be used, is that of `tree`.
    pub open spec fn reflects(&self, tree: Seq<Seq<char>>) -> bool {
        self.index matches IndexState::Ready(paths) ==> is_listing(views(paths@), tree)
    }

    /// A working directory in which the first scan came upon `initial`.
    pub fn new(work_dir: String, initial: Vec<String>) -> (res: CachedKaos)
        ensures
            res.work_dir == work_dir,
            res.index is Ready,
            res.reflects(views(initial@)),
            res.write_history@.len() == 0,
    {
        CachedKaos {
            work_dir,
            index: IndexState::Ready(sort_paths(&initial)),
            write_history: Vec::new(),
        }
    }

    /// Whether the directory has to be scanned before its listing can be used.
    pub fn needs_scan(&self) -> (res: bool)
        ensures
            res == (self.index is Dirty),
    {
        matches!(self.index, IndexState::Dirty)
    }

    /// Takes over the paths that a fresh scan came upon.
    pub fn set_paths(&mut self, paths: Vec<String>)
        ensures
            *final(self) == (CachedKaos { index: final(self).index, ..*old(self) }),
            final(self).index is Ready,
            final(self).reflects(views(paths@)),
    {
        self.index = IndexState::Ready(sort_paths(&paths));
    }

    /// Takes note that something may have changed.
    pub fn mark_dirty(&mut self)
        ensures
            *final(self) == (CachedKaos { index: IndexState::Dirty, ..*old(self) }),
    {
        self.index = IndexState::Dirty;
    }

    /// The paths that a glob finds below `prefix`, a directory below the working
    /// directory. `None` where the directory has to be scanned first.
    pub fn glob(&self, prefix: &str, pattern: &str, case_sensitive: bool) -> (res: Option<
        Result<Vec<String>, String>,
    >)
        ensures
            match self.index {
                IndexState::Dirty => res is None,
                IndexState::Ready(paths) => match glob_fault(
                    pattern@,
                    listing_flags(case_sensitive),
                ) {
                    Some(why) => res matches Some(Err(e)) && e@ == why,
                    None => res matches Some(Ok(found)) && views(found@) == globbed(
                        paths@,
                        self.work_dir@,
                        prefix@,
                        pattern@,
                        listing_flags(case_sensitive),
                    ),
                },
            },
    {
        let paths: &Vec<String> = match &self.index {
            IndexState::Ready(paths) => paths,
            IndexState::Dirty => {
                return None;
            },
        };
        let flags: GlobFlags = GlobFlags {
            literal_separator: true,
            case_insensitive: !case_sensitive,
        };
        if let Some(why) = find_glob_fault(pattern, flags) {
            return Some(Err(why));
        }
        let mut inside: Vec<bool> = Vec::new();
        let mut rests: Vec<String> = Vec::new();
        let mut i: usize = 0;
        while i < paths.len()
            invariant
                i <= paths@.len(),
                inside@.len() == i,
                rests@.len() == i,
                forall|k: int|
                    0 <= k < i ==> #[trigger] inside@[k] == (below(paths@[k]@, prefix@) is Some),
                forall|k: int|
                    0 <= k < i && #[trigger] inside@[k] ==> below(paths@[k]@, prefix@) == Some(
                        rests@[k]@,
                    ),
            decreases paths@.len() - i,
        {
            match strip_dir(&paths[i], prefix) {
                Some(rest) => {
                    inside.push(true);
                    rests.push(rest);
                },
                None => {
                    inside.push(false);
                    rests.push(String::new());
                },
            }
            i += 1;
        }
        let matched: Vec<bool> = paths_matched(pattern, flags, &rests);
        let mut found: Vec<String> = Vec::new();
        let mut j: usize = 0;
        proof {
            assert(paths@.take(0) =~= seq![]);
            assert(views(found@) =~= seq![]);
        }
        while j < paths.len()
            invariant
                j <= paths@.len(),
                flags == listing_flags(case_sensitive),
                inside@.len() == paths@.len(),
                rests@.len() == paths@.len(),
                matched@.len() == paths@.len(),
                forall|k: int|
                    0 <= k < paths@.len() ==> #[trigger] inside@[k] == (below(
                        paths@[k]@,
                        prefix@,
                    ) is Some),
                forall|k: int|
                    0 <= k < paths@.len() && #[trigger] inside@[k] ==> below(paths@[k]@, prefix@)
                        == Some(rests@[k]@),
                forall|k: int|
                    0 <= k < paths@.len() ==> #[trigger] matched@[k] == glob_matches(
                        pattern@,
                        flags,
                        rests@[k]@,
                    ),
                views(found@) == globbed(
                    paths@.take(j as int),
                    self.work_dir@,
                    prefix@,
                    pattern@,
                    flags,
                ),
            decreases paths@.len() - j,
        {
            proof {
                assert(paths@.take(j + 1).drop_last() =~= paths@.take(j as int));
                assert(paths@.take(j + 1).last() == paths@[j as int]);
                assert(inside@[j as int] == (below(paths@[j as int]@, prefix@) is Some));
                assert(matched@[j as int] == glob_matches(pattern@, flags, rests@[j as int]@));
            }
            if inside[j] && matched[j] {
                let path: String = join_path(&self.work_dir, &paths[j]);
                proof {
                    assert(views(found@.push(path)) =~= views(found@).push(path@));
                }
                found.push(path);
            }
            j += 1;
        }
        proof {
            assert(paths@.take(j as int) =~= paths@);
        }
        Some(Ok(found))
    }
}

/// What every path below `base` begins with.
spec fn dir_prefix(base: Seq<char>) -> Seq<char> {
    if base.len() == 0 || ends(base, "/"@) {
        base
    } else {
        base + "/"@
    }
}

/// Whether `p` is one of `paths` that a glob finds.
spec fn comes_from(
    p: Seq<char>,
    paths: Seq<String>,
    work_dir: Seq<char>,
    prefix: Seq<char>,
    glob: Seq<char>,
    flags: GlobFlags,
) -> bool {
    exists|i: int|
        0 <= i < paths.len() && glob_finds((#[trigger] paths[i])@, prefix, glob, flags) && p
            == path_below(work_dir, paths[i]@)
}

proof fn lemma_globbed(
    paths: Seq<String>,
    work_dir: Seq<char>,
    prefix: Seq<char>,
    glob: Seq<char>,
    flags: GlobFlags,
)
    requires
        forall|i: int, j: int|
            0 <= i < j < paths.len() ==> path_before(
                (#[trigger] paths[i])@,
                (#[trigger] paths[j])@,
            ),
    ensures
        ({
            let found = globbed(paths, work_dir, prefix, glob, flags);
            &&& forall|i: int, j: int|
                0 <= i < j < found.len() ==> path_before(#[trigger] found[i], #[trigger] found[j])
            &&& forall|k: int|
                0 <= k < found.len() ==> comes_from(
                    #[trigger] found[k],
                    paths,
                    work_dir,
                    prefix,
                    glob,
                    flags,
                )
            &&& forall|i: int|
                0 <= i < paths.len() && glob_finds((#[trigger] paths[i])@, prefix, glob, flags)
                    ==> found.contains(path_below(work_dir, paths[i]@))
        }),
    decreases paths.len(),
{
    if paths.len() > 0 {
        let front = paths.drop_last();
        let last = paths.last();
        let before = globbed(front, work_dir, prefix, glob, flags);
        let found = globbed(paths, work_dir, prefix, glob, flags);
        lemma_globbed(front, work_dir, prefix, glob, flags);
        assert forall|k: int| 0 <= k < found.len() implies comes_from(
            #[trigger] found[k],
            paths,
            work_dir,
            prefix,
            glob,
            flags,
        ) by {
            if k < before.len() {
                assert(comes_from(before[k], front, work_dir, prefix, glob, flags));
                let i = choose|i: int|
                    0 <= i < front.len() && glob_finds((#[trigger] front[i])@, prefix, glob, flags)
                        && before[k] == path_below(work_dir, front[i]@);
                assert(paths[i] == front[i]);
            } else {
                assert(paths[paths.len() - 1] == last);
            }
        }
        assert forall|i: int, j: int| 0 <= i < j < found.len() implies path_before(
            #[trigger] found[i],
            #[trigger] found[j],
        ) by {
            if j < before.len() {
                assert(found[i] == before[i] && found[j] == before[j]);
            } else {
                assert(found[i] == before[i]);
                assert(comes_from(before[i], front, work_dir, prefix, glob, flags));
                let k = choose|k: int|
                    0 <= k < front.len() && glob_finds((#[trigger] front[k])@, prefix, glob, flags)
                        && before[i] == path_below(work_dir, front[k]@);
                assert(front[k] == paths[k]);
                assert(path_before(paths[k]@, paths[paths.len() - 1]@));
                let dir = dir_prefix(work_dir);
                assert(path_below(work_dir, paths[k]@) =~= dir + paths[k]@);
                assert(path_below(work_dir, last@) =~= dir + last@);
                lemma_path_before_below(dir, paths[k]@, last@);
            }
        }
        assert forall|i: int|
            0 <= i < paths.len() && glob_finds(
                (#[trigger] paths[i])@,
                prefix,
                glob,
                flags,
            ) implies found.contains(path_below(work_dir, paths[i]@)) by {
            let p = path_below(work_dir, paths[i]@);
            if i < front.len() {
                assert(front[i] == paths[i]);
                let k = choose|k: int| 0 <= k < before.len() && before[k] == p;
                assert(found[k] == p);
            } else {
                assert(found[before.len() as int] == p);
            }
        }
    }
}

/// Once the directory was scanned after its last change, a glob finds exactly the
/// entries of the tree below its prefix that it matches, as whole paths, in order
/// and each of them once.
pub proof fn law_glob_finds_what_the_tree_holds(
    kaos: CachedKaos,
    tree: Seq<Seq<char>>,
    prefix: Seq<char>,
    glob: Seq<char>,
    flags: GlobFlags,
)
    requires
        kaos.index is Ready,
        kaos.reflects(tree),
        tree.no_duplicates(),
    ensures
        ({
            let found = globbed(kaos.index->Ready_0@, kaos.work_dir@, prefix, glob, flags);
            &&& forall|i: int, j: int|
                0 <= i < j < found.len() ==> path_before(#[trigger] found[i], #[trigger] found[j])
            &&& found.no_duplicates()
            &&& forall|p: Seq<char>| #[trigger]
                found.contains(p) <==> exists|rel: Seq<char>| #[trigger]
                    tree.contains(rel) && glob_finds(rel, prefix, glob, flags) && p == path_below(
                        kaos.work_dir@,
                        rel,
                    )
        }),
{
    let paths = kaos.index->Ready_0@;
    let listed = views(paths);
    lemma_listing(listed, tree);
    assert forall|i: int, j: int| 0 <= i < j < paths.len() implies path_before(
        (#[trigger] paths[i])@,
        (#[trigger] paths[j])@,
    ) by {
        assert(path_before(listed[i], listed[j]));
    }
    lemma_globbed(paths, kaos.work_dir@, prefix, glob, flags);
    let found = globbed(paths, kaos.work_dir@, prefix, glob, flags);
    assert forall|i: int, j: int| 0 <= i < found.len() && 0 <= j < found.len() && i != j implies
        found[i] != found[j] by {
        lemma_path_before_total(found[i], found[j]);
        if i < j {
            assert(path_before(found[i], found[j]));
        } else {
            assert(path_before(found[j], found[i]));
        }
    }
    assert forall|p: Seq<char>| #[trigger] found.contains(p) <==> exists|rel: Seq<char>| #[trigger]
        tree.contains(rel) && glob_finds(rel, prefix, glob, flags) && p == path_below(
            kaos.work_dir@,
            rel,
        ) by {
        if found.contains(p) {
            let k = choose|k: int| 0 <= k < found.len() && found[k] == p;
            assert(comes_from(found[k], paths, kaos.work_dir@, prefix, glob, flags));
            let i = choose|i: int|
                0 <= i < paths.len() && glob_finds((#[trigger] paths[i])@, prefix, glob, flags)
                    && found[k] == path_below(kaos.work_dir@, paths[i]@);
            assert(listed[i] == paths[i]@);
            assert(listed.contains(paths[i]@));
            assert(tree.contains(paths[i]@));
        }
        if exists|rel: Seq<char>| #[trigger]
            tree.contains(rel) && glob_finds(rel, prefix, glob, flags) && p == path_below(
                kaos.work_dir@,
                rel,
            ) {
            let rel = choose|rel: Seq<char>| #[trigger]
                tree.contains(rel) && glob_finds(rel, prefix, glob, flags) && p == path_below(
                    kaos.work_dir@,
                    rel,
                );
            assert(listed.contains(rel));
            let i = choose|i: int| 0 <= i < listed.len() && listed[i] == rel;
            assert(paths[i]@ == rel);
        }
    }
}

/// What happens to a working directory or to its listing.
pub enum KaosMove {
    /// Something may change on disk, through the library or told to it.
    Change,
    /// The directory is scanned.
    Scan,
    /// The listing is only looked at.
    Look,
}

/// Whether `step` leads from one state to another, with the tree on disk from
/// `was` to `now`.
pub open spec fn kaos_moves(
    before: CachedKaos,
    was: Seq<Seq<char>>,
    step: KaosMove,
    after: CachedKaos,
    now: Seq<Seq<char>>,
) -> bool {
    match step {
        KaosMove::Change => after.index is Dirty,
        KaosMove::Scan => now == was && after.index is Ready && after.reflects(now),
        KaosMove::Look => now == was && after.index == before.index,
    }
}

/// As long as every change to the directory is made through the library, a listing
/// that can be used is that of the tree on disk: after a write there is none until
/// the next scan, and that one holds what was written.
pub proof fn law_the_listing_keeps_up(
    states: Seq<CachedKaos>,
    trees: Seq<Seq<Seq<char>>>,
    steps: Seq<KaosMove>,
)
    requires
        states.len() == steps.len() + 1,
        trees.len() == states.len(),
        states[0].reflects(trees[0]),
        forall|i: int|
            0 <= i < steps.len() ==> kaos_moves(
                states[i],
                trees[i],
                #[trigger] steps[i],
                states[i + 1],
                trees[i + 1],
            ),
    ensures
        states.last().reflects(trees.last()),
    decreases steps.len(),
{
    if steps.len() > 0 {
        let n = steps.len() - 1;
        let front = steps.drop_last();
        let past = states.drop_last();
        let old_trees = trees.drop_last();
        assert forall|i: int| 0 <= i < front.len() implies kaos_moves(
            past[i],
            old_trees[i],
            #[trigger] front[i],
            past[i + 1],
            old_trees[i + 1],
        ) by {
            assert(front[i] == steps[i]);
        }
        law_the_listing_keeps_up(past, old_trees, front);
        assert(kaos_moves(states[n], trees[n], steps[n], states[n + 1], trees[n + 1]));
    }
}

/// Whether a scan goes into, or takes in, an entry: anything but a directory under
/// one of the names in `pruned`. `name` is the entry's, where it is text.
pub fn is_walked(is_dir: bool, name: Option<&str>, pruned: &[&str]) -> (res: bool)
    ensures
        res == !(is_dir && (name matches Some(n) && exists|i: int|
            0 <= i < pruned@.len() && (#[trigger] pruned@[i])@ == n@)),
{
    let own: &str = match name {
        Some(n) => n,
        None => {
            return true;
        },
    };
    let mut i: usize = 0;
    while i < pruned.len()
        invariant
            i <= pruned@.len(),
            name == Some(own),
            forall|k: int| 0 <= k < i ==> (#[trigger] pruned@[k])@ != own@,
        decreases pruned@.len() - i,
    {
        if same(pruned[i], own) {
            proof {
                assert(pruned@[i as int]@ == own@);
            }
            return !is_dir;
        }
        i += 1;
    }
    true
}

// ------------------------------------------------------------------------ undo

/// What an undo came to.
pub struct UndoReport {
    pub steps_available: usize,
    pub steps_applied: usize,
    pub restored: usize,
    pub deleted: usize,
    pub errors: Vec<String>,
}

/// The last `n` of `entries`, the latest first.
pub open spec fn latest(entries: Seq<WriteEntry>, n: int) -> Seq<WriteEntry> {
    Seq::new(n as nat, |i: int| entries[entries.len() - 1 - i])
}

/// How many steps are undone.
pub open spec fn undo_steps(steps: int, available: int) -> int {
    if steps < available {
        steps
    } else {
        available
    }
}

impl CachedKaos {
    /// Records what a file held before a write that is about to be made.
    pub fn record_write(&mut self, path: String, original: Option<Vec<u8>>)
        ensures
            write_recorded(*old(self), WriteEntry { path, original }, *final(self)),
    {
        self.write_history.push(WriteEntry { path, original });
        self.index = IndexState::Dirty;
    }

    /// Takes the last `steps` writes, or all there are, off the history: what is
    /// to be put back, in that order, and the report so far.
    pub fn undo(&mut self, steps: usize) -> (res: (UndoReport, Vec<WriteEntry>))
        ensures
            undo_taken(*old(self), steps, res.0, res.1@, *final(self)),
    {
        let steps_available: usize = self.write_history.len();
        let steps_applied: usize = if steps < steps_available {
            steps
        } else {
            steps_available
        };
        let ghost all = self.write_history@;
        let mut entries: Vec<WriteEntry> = Vec::new();
        let mut i: usize = 0;
        proof {
            assert(all.take(all.len() as int) =~= all);
            assert(latest(all, 0) =~= seq![]);
        }
        while i < steps_applied
            invariant
                i <= steps_applied <= all.len(),
                all == old(self).write_history@,
                self.work_dir == old(self).work_dir,
                self.index == old(self).index,
                self.write_history@ == all.take(all.len() - i),
                entries@ == latest(all, i as int),
            decreases steps_applied - i,
        {
            if let Some(entry) = self.write_history.pop() {
                entries.push(entry);
            }
            proof {
                assert(self.write_history@ =~= all.take(all.len() - i - 1));
                assert(entries@ =~= latest(all, i + 1));
            }
            i += 1;
        }
        if steps_applied > 0 {
            self.index = IndexState::Dirty;
        }
        (
            UndoReport {
                steps_available,
                steps_applied,
                restored: 0,
                deleted: 0,
                errors: Vec::new(),
            },
            entries,
        )
    }
}

impl UndoReport {
    /// Notes that a file was written back, or why it was not.
    pub fn note_restore(&mut self, path: &str, error: Option<String>)
        requires
            old(self).restored < usize::MAX,
        ensures
            match error {
                None => *final(self) == (UndoReport {
                    restored: (old(self).restored + 1) as usize,
                    ..*old(self)
                }),
                Some(err) => {
                    &&& *final(self) == (UndoReport { errors: final(self).errors, ..*old(self) })
                    &&& views(final(self).errors@) == views(old(self).errors@).push(
                        path@ + ": "@ + err@,
                    )
                },
            },
    {
        match error {
            None => {
                self.restored = self.restored + 1;
            },
            Some(err) => {
                let ghost before = self.errors@;
                let line: String = cat3(path, ": ", &err);
                self.errors.push(line);
                proof {
                    assert(views(self.errors@) =~= views(before).push(line@));
                }
            },
        }
    }

    /// Notes that a file which a write had created was deleted, or was not.
    pub fn note_delete(&mut self, deleted: bool)
        requires
            old(self).deleted < usize::MAX,
        ensures
            *final(self) == (UndoReport {
                deleted: if deleted {
                    (old(self).deleted + 1) as usize
                } else {
                    old(self).deleted
                },
                ..*old(self)
            }),
    {
        if deleted {
            self.deleted = self.deleted + 1;
        }
    }
}

/// The files of a directory, by path.
pub type Disk = Map<Seq<char>, Seq<u8>>;

/// The disk once an entry of the history is undone.
pub open spec fn entry_undone(disk: Disk, entry: WriteEntry) -> Disk {
    match entry.original {
        Some(bytes) => disk.insert(entry.path@, bytes@),
        None => disk.remove(entry.path@),
    }
}

/// The disk once `entries` are undone, in their order.
pub open spec fn undone(disk: Disk, entries: Seq<WriteEntry>) -> Disk
    decreases entries.len(),
{
    if entries.len() == 0 {
        disk
    } else {
        undone(entry_undone(disk, entries[0]), entries.skip(1))
    }
}

/// Whether `entry` records what `disk` holds under its path.
pub open spec fn records(entry: WriteEntry, disk: Disk) -> bool {
    match entry.original {
        Some(bytes) => disk.dom().contains(entry.path@) && disk[entry.path@] == bytes@,
        None => !disk.dom().contains(entry.path@),
    }
}

/// Whether `history` records the writes that led through `disks`: each entry what
/// the disk held before, and each disk the one before with one file written.
pub open spec fn is_history(disks: Seq<Disk>, history: Seq<WriteEntry>) -> bool {
    &&& disks.len() == history.len() + 1
    &&& forall|i: int|
        0 <= i < history.len() ==> records(#[trigger] history[i], disks[i]) && (exists|bytes: Seq<
            u8,
        >| disks[i + 1] == #[trigger] disks[i].insert(history[i].path@, bytes))
}

/// Undoing writes gives the disk back as it was before them, however many there
/// were and whichever files they wrote.
pub proof fn law_undo_gives_back_what_was(disks: Seq<Disk>, history: Seq<WriteEntry>, n: int)
    requires
        is_history(disks, history),
        0 <= n <= history.len(),
    ensures
        undone(disks.last(), latest(history, n)) == disks[history.len() - n],
    decreases n,
{
    if n == 0 {
        assert(latest(history, 0) =~= seq![]);
    } else {
        let k = history.len() - 1;
        let entry = history[k];
        assert(records(history[k], disks[k]));
        let before = disks.drop_last();
        let shorter = history.drop_last();
        assert(is_history(before, shorter)) by {
            assert forall|i: int| 0 <= i < shorter.len() implies records(
                #[trigger] shorter[i],
                before[i],
            ) && (exists|bytes: Seq<u8>| before[i + 1] == #[trigger] before[i].insert(
                shorter[i].path@,
                bytes,
            )) by {
                assert(records(history[i], disks[i]));
                let bytes = choose|bytes: Seq<u8>|
                    disks[i + 1] == #[trigger] disks[i].insert(history[i].path@, bytes);
                assert(before[i + 1] == before[i].insert(shorter[i].path@, bytes));
            }
        }
        assert(entry_undone(disks.last(), entry) =~= disks[k]);
        assert(latest(history, n)[0] == entry);
        assert(latest(history, n).skip(1) =~= latest(shorter, n - 1));
        law_undo_gives_back_what_was(before, shorter, n - 1);
        assert(before.last() == disks[k]);
        assert(before[shorter.len() - (n - 1)] == disks[history.len() - n]);
    }
}

// ------------------------------------------------------------------- snapshots

/// A snapshot of the files of a directory: what each of them held.
#[derive(Clone, Debug)]
pub struct KaosSnapshot {
    pub id: String,
    pub created_at: String,
    pub label: Option<String>,
    /// Each path once, with the bytes of its file.
    pub files: Vec<(String, Vec<u8>)>,
}

/// What a restore came to.
#[derive(Debug)]
pub struct RestoreReport {
    pub restored: usize,
    pub deleted: usize,
    pub errors: Vec<String>,
}

/// Where a path stands among files, from place `i` on.
pub open spec fn file_index(files: Seq<(String, Vec<u8>)>, path: Seq<char>, i: int) -> Option<int>
    decreases files.len() - i,
{
    if i < 0 || i >= files.len() {
        None
    } else if files[i].0@ == path {
        Some(i)
    } else {
        file_index(files, path, i + 1)
    }
}

proof fn lemma_file_index(files: Seq<(String, Vec<u8>)>, path: Seq<char>, i: int)
    requires
        0 <= i,
    ensures
        match file_index(files, path, i) {
            Some(k) => i <= k < files.len() && files[k].0@ == path,
            None => forall|j: int| i <= j < files.len() ==> (#[trigger] files[j]).0@ != path,
        },
    decreases files.len() - i,
{
    if i < files.len() && files[i].0@ != path {
        lemma_file_index(files, path, i + 1);
    }
}

/// Whether a file belongs in a snapshot.
pub fn is_captured(is_file: bool, len: u64) -> (res: bool)
    ensures
        res == (is_file && len <= MAX_SNAPSHOT_FILE_BYTES),
{
    is_file && len <= MAX_SNAPSHOT_FILE_BYTES
}

/// Those of `paths` that a snapshot does not hold.
pub open spec fn stale(files: Seq<(String, Vec<u8>)>, paths: Seq<Seq<char>>) -> Seq<Seq<char>>
    decreases paths.len(),
{
    if paths.len() == 0 {
        seq![]
    } else {
        let before = stale(files, paths.drop_last());
        if file_index(files, paths.last(), 0) is None {
            before.push(paths.last())
        } else {
            before
        }
    }
}

impl KaosSnapshot {
    /// Each path stands in it once.
    pub open spec fn wf(&self) -> bool {
        forall|i: int, j: int|
            0 <= i < j < self.files@.len() ==> (#[trigger] self.files@[i]).0@ != (
            #[trigger] self.files@[j]).0@
    }

    /// What the snapshot holds.
    pub open spec fn contents(&self) -> Disk {
        Map::new(
            |path: Seq<char>| file_index(self.files@, path, 0) is Some,
            |path: Seq<char>| self.files@[file_index(self.files@, path, 0)->0].1@,
        )
    }

    /// A snapshot of no files.
    pub fn new(id: String, created_at: String, label: Option<String>) -> (res: KaosSnapshot)
        ensures
            res.id == id && res.created_at == created_at && res.label == label,
            res.files@.len() == 0,
            res.wf(),
            res.contents() == Map::<Seq<char>, Seq<u8>>::empty(),
    {
        let res: KaosSnapshot = KaosSnapshot { id, created_at, label, files: Vec::new() };
        proof {
            assert(res.contents() =~= Map::<Seq<char>, Seq<u8>>::empty());
        }
        res
    }

    /// How many files it holds.
    pub fn file_count(&self) -> (res: usize)
        ensures
            res == self.files@.len(),
    {
        self.files.len()
    }

    /// Whether it holds a file.
    pub fn holds(&self, path: &str) -> (res: bool)
        ensures
            res == self.contents().dom().contains(path@),
    {
        let mut i: usize = 0;
        while i < self.files.len()
            invariant
                i <= self.files@.len(),
                file_index(self.files@, path@, 0) == file_index(self.files@, path@, i as int),
            decreases self.files@.len() - i,
        {
            if same(&self.files[i].0, path) {
                return true;
            }
            i += 1;
        }
        false
    }

    /// Takes in a file.
    pub fn add_file(&mut self, path: String, bytes: Vec<u8>)
        requires
            old(self).wf(),
        ensures
            final(self).wf(),
            final(self).id == old(self).id && final(self).created_at == old(self).created_at
                && final(self).label == old(self).label,
            final(self).contents() == old(self).contents().insert(path@, bytes@),
    {
        let ghost before = *self;
        let mut i: usize = 0;
        while i < self.files.len()
            invariant
                i <= self.files@.len(),
                *self == before,
                before == *old(self),
                before.wf(),
                file_index(before.files@, path@, 0) == file_index(before.files@, path@, i as int),
            decreases self.files@.len() - i,
        {
            if same(&self.files[i].0, &path) {
                self.files.set(i, (path, bytes));
                proof {
                    let after = *self;
                    assert forall|p: Seq<char>| file_index(after.files@, p, 0) == file_index(
                        before.files@,
                        p,
                        0,
                    ) by {
                        lemma_same_paths(before.files@, after.files@, p, 0);
                    }
                    assert forall|p: Seq<char>| #[trigger] after.contents().dom().contains(p)
                        implies after.contents()[p] == before.contents().insert(
                        path@,
                        bytes@,
                    )[p] by {
                        lemma_file_index(after.files@, p, 0);
                    }
                    assert(after.contents() =~= before.contents().insert(path@, bytes@));
                    assert(forall|k: int|
                        0 <= k < after.files@.len() ==> (#[trigger] after.files@[k]).0@
                            == before.files@[k].0@);
                }
                return;
            }
            i += 1;
        }
        self.files.push((path, bytes));
        proof {
            let after = *self;
            lemma_file_index(before.files@, path@, 0);
            assert forall|p: Seq<char>| file_index(after.files@, p, 0) == (if p == path@ {
                Some(before.files@.len() as int)
            } else {
                file_index(before.files@, p, 0)
            }) by {
                lemma_pushed_path(before.files@, after.files@.last(), p, 0);
                assert(after.files@ =~= before.files@.push(after.files@.last()));
            }
            assert forall|p: Seq<char>| #[trigger] after.contents().dom().contains(p)
                implies after.contents()[p] == before.contents().insert(path@, bytes@)[p] by {
                lemma_file_index(before.files@, p, 0);
            }
            assert(after.contents() =~= before.contents().insert(path@, bytes@));
        }
    }

    /// Those of the files that are there now that the snapshot does not hold, and
    /// that a restore deletes.
    pub fn stale_files(&self, current: &[String]) -> (res: Vec<String>)
        ensures
            views(res@) == stale(self.files@, views(current@)),
    {
        let ghost all = views(current@);
        let mut res: Vec<String> = Vec::new();
        let mut i: usize = 0;
        proof {
            assert(all.take(0) =~= seq![]);
            assert(views(res@) =~= seq![]);
        }
        while i < current.len()
            invariant
                i <= current@.len(),
                all == views(current@),
                views(res@) == stale(self.files@, all.take(i as int)),
            decreases current@.len() - i,
        {
            proof {
                assert(all.take(i + 1).drop_last() =~= all.take(i as int));
                assert(all.take(i + 1).last() == current@[i as int]@);
            }
            if !self.holds(&current[i]) {
                let ghost before = res@;
                res.push(current[i].clone());
                proof {
                    assert(views(res@) =~= views(before).push(current@[i as int]@));
                }
            }
            i += 1;
        }
        proof {
            assert(all.take(i as int) =~= all);
        }
        res
    }
}

/// A path that a scan came upon, relative to the working directory, with what is
/// known of it. `bytes` is what was read from it, if it could be.
#[derive(Debug)]
pub struct ScannedFile {
    pub path: String,
    pub is_file: bool,
    pub len: u64,
    pub bytes: Option<Vec<u8>>,
}

/// What a snapshot of `files` holds: of those that are files, are not too large and
/// could be read, the bytes under the whole path.
pub open spec fn captured(work_dir: Seq<char>, files: Seq<ScannedFile>) -> Disk
    decreases files.len(),
{
    if files.len() == 0 {
        Map::empty()
    } else {
        let before = captured(work_dir, files.drop_last());
        let last = files.last();
        match last.bytes {
            Some(bytes) => if last.is_file && last.len <= MAX_SNAPSHOT_FILE_BYTES {
                before.insert(path_below(work_dir, last.path@), bytes@)
            } else {
                before
            },
            None => before,
        }
    }
}

/// The whole paths of those of `files` that are files.
pub open spec fn file_paths(work_dir: Seq<char>, files: Seq<(String, bool)>) -> Seq<Seq<char>>
    decreases files.len(),
{
    if files.len() == 0 {
        seq![]
    } else {
        let before = file_paths(work_dir, files.drop_last());
        if files.last().1 {
            before.push(path_below(work_dir, files.last().0@))
        } else {
            before
        }
    }
}

impl CachedKaos {
    /// A snapshot of what a scan of the working directory came upon.
    pub fn take_snapshot(
        &self,
        id: String,
        created_at: String,
        label: Option<String>,
        files: Vec<ScannedFile>,
    ) -> (res: KaosSnapshot)
        ensures
            res.wf(),
            res.id == id && res.created_at == created_at && res.label == label,
            res.contents() == captured(self.work_dir@, files@),
    {
        let mut res: KaosSnapshot = KaosSnapshot::new(id, created_at, label);
        let mut i: usize = 0;
        proof {
            assert(files@.take(0) =~= seq![]);
        }
        while i < files.len()
            invariant
                i <= files@.len(),
                res.wf(),
                res.id == id && res.created_at == created_at && res.label == label,
                res.contents() == captured(self.work_dir@, files@.take(i as int)),
            decreases files@.len() - i,
        {
            proof {
                assert(files@.take(i + 1).drop_last() =~= files@.take(i as int));
                assert(files@.take(i + 1).last() == files@[i as int]);
            }
            let file: &ScannedFile = &files[i];
            if let Some(bytes) = &file.bytes {
                if is_captured(file.is_file, file.len) {
                    res.add_file(join_path(&self.work_dir, &file.path), bytes.clone());
                }
            }
            i += 1;
        }
        proof {
            assert(files@.take(i as int) =~= files@);
        }
        res
    }

    /// The whole paths of the files that are there now, written back ones with
    /// them, and that a restore of the snapshot deletes. `current` is what a scan
    /// came upon, and whether it is a file. The directory has to be scanned anew.
    pub fn restore_snapshot(&mut self, snapshot: &KaosSnapshot, current: &[(String, bool)]) -> (res:
        Vec<String>)
        ensures
            *final(self) == (CachedKaos { index: IndexState::Dirty, ..*old(self) }),
            views(res@) == stale(snapshot.files@, file_paths(old(self).work_dir@, current@)),
    {
        self.index = IndexState::Dirty;
        let mut paths: Vec<String> = Vec::new();
        let mut i: usize = 0;
        proof {
            assert(current@.take(0) =~= seq![]);
            assert(views(paths@) =~= seq![]);
        }
        while i < current.len()
            invariant
                i <= current@.len(),
                *self == (CachedKaos { index: IndexState::Dirty, ..*old(self) }),
                views(paths@) == file_paths(self.work_dir@, current@.take(i as int)),
            decreases current@.len() - i,
        {
            proof {
                assert(current@.take(i + 1).drop_last() =~= current@.take(i as int));
                assert(current@.take(i + 1).last() == current@[i as int]);
            }
            if current[i].1 {
                let ghost before = paths@;
                let path: String = join_path(&self.work_dir, &current[i].0);
                paths.push(path);
                proof {
                    assert(views(paths@) =~= views(before).push(path@));
                }
            }
            i += 1;
        }
        proof {
            assert(current@.take(i as int) =~= current@);
        }
        snapshot.stale_files(&paths)
    }
}

proof fn lemma_same_paths(
    a: Seq<(String, Vec<u8>)>,
    b: Seq<(String, Vec<u8>)>,
    path: Seq<char>,
    i: int,
)
    requires
        a.len() == b.len(),
        forall|k: int| 0 <= k < a.len() ==> (#[trigger] a[k]).0@ == b[k].0@,
        0 <= i,
    ensures
        file_index(a, path, i) == file_index(b, path, i),
    decreases a.len() - i,
{
    if i < a.len() {
        assert(a[i].0@ == b[i].0@);
        lemma_same_paths(a, b, path, i + 1);
    }
}

proof fn lemma_pushed_path(
    files: Seq<(String, Vec<u8>)>,
    added: (String, Vec<u8>),
    path: Seq<char>,
    i: int,
)
    requires
        0 <= i <= files.len(),
    ensures
        file_index(files.push(added), path, i) == match file_index(files, path, i) {
            Some(k) => Some(k),
            None => if added.0@ == path {
                Some(files.len() as int)
            } else {
                None
            },
        },
    decreases files.len() - i,
{
    let all = files.push(added);
    if i < files.len() {
        assert(all[i] == files[i]);
        lemma_pushed_path(files, added, path, i + 1);
    } else {
        assert(all[i] == added);
        assert(file_index(all, path, i + 1) is None);
    }
}

/// The disk once the files of a snapshot are written back.
pub open spec fn written_back(disk: Disk, files: Seq<(String, Vec<u8>)>) -> Disk
    decreases files.len(),
{
    if files.len() == 0 {
        disk
    } else {
        written_back(disk, files.drop_last()).insert(files.last().0@, files.last().1@)
    }
}

/// The disk once `paths` are deleted.
pub open spec fn deleted(disk: Disk, paths: Seq<Seq<char>>) -> Disk
    decreases paths.len(),
{
    if paths.len() == 0 {
        disk
    } else {
        deleted(disk, paths.drop_last()).remove(paths.last())
    }
}

proof fn lemma_deleted(disk: Disk, paths: Seq<Seq<char>>, p: Seq<char>)
    ensures
        deleted(disk, paths).dom().contains(p) <==> disk.dom().contains(p) && !paths.contains(p),
        deleted(disk, paths).dom().contains(p) ==> deleted(disk, paths)[p] == disk[p],
    decreases paths.len(),
{
    if paths.len() > 0 {
        lemma_deleted(disk, paths.drop_last(), p);
        assert(paths =~= paths.drop_last().push(paths.last()));
        lemma_contains_push(paths.drop_last(), paths.last(), p);
    }
}

proof fn lemma_written_back(disk: Disk, files: Seq<(String, Vec<u8>)>, p: Seq<char>)
    requires
        forall|i: int, j: int| 0 <= i < j < files.len() ==> (#[trigger] files[i]).0@ != (
        #[trigger] files[j]).0@,
    ensures
        match file_index(files, p, 0) {
            Some(k) => written_back(disk, files).dom().contains(p) && written_back(disk, files)[p]
                == files[k].1@,
            None => {
                &&& written_back(disk, files).dom().contains(p) == disk.dom().contains(p)
                &&& disk.dom().contains(p) ==> written_back(disk, files)[p] == disk[p]
            },
        },
    decreases files.len(),
{
    if files.len() > 0 {
        let front = files.drop_last();
        assert forall|i: int, j: int| 0 <= i < j < front.len() implies (#[trigger] front[i]).0@ != (
        #[trigger] front[j]).0@ by {
            assert(front[i] == files[i] && front[j] == files[j]);
        }
        lemma_written_back(disk, front, p);
        assert(files =~= front.push(files.last()));
        lemma_pushed_path(front, files.last(), p, 0);
        lemma_file_index(front, p, 0);
        if let Some(k) = file_index(front, p, 0) {
            assert(front[k] == files[k]);
            assert(files[k].0@ != files[files.len() - 1].0@);
        }
    }
}

proof fn lemma_stale(files: Seq<(String, Vec<u8>)>, paths: Seq<Seq<char>>, p: Seq<char>)
    ensures
        stale(files, paths).contains(p) <==> paths.contains(p) && file_index(files, p, 0) is None,
    decreases paths.len(),
{
    if paths.len() > 0 {
        let front = paths.drop_last();
        lemma_stale(files, front, p);
        assert(paths =~= front.push(paths.last()));
        lemma_contains_push(front, paths.last(), p);
        lemma_contains_push(stale(files, front), paths.last(), p);
    }
}

proof fn lemma_contains_push(s: Seq<Seq<char>>, x: Seq<char>, p: Seq<char>)
    ensures
        s.push(x).contains(p) <==> s.contains(p) || p == x,
{
    if s.contains(p) {
        let k = choose|k: int| 0 <= k < s.len() && s[k] == p;
        assert(s.push(x)[k] == p);
    }
    if p == x {
        assert(s.push(x)[s.len() as int] == p);
    }
}

/// Restoring a snapshot brings the directory back to what it held: its files
/// hold what they held then, and of the files that are listed now no other is
/// left.
pub proof fn law_restore_brings_back_the_snapshot(
    snapshot: KaosSnapshot,
    disk: Disk,
    current: Seq<Seq<char>>,
    path: Seq<char>,
)
    requires
        snapshot.wf(),
        disk.dom().contains(path) ==> current.contains(path)
            || snapshot.contents().dom().contains(path),
    ensures
        ({
            let after = deleted(
                written_back(disk, snapshot.files@),
                stale(snapshot.files@, current),
            );
            &&& after.dom().contains(path) <==> snapshot.contents().dom().contains(path)
            &&& after.dom().contains(path) ==> after[path] == snapshot.contents()[path]
        }),
{
    let files = snapshot.files@;
    let back = written_back(disk, files);
    lemma_written_back(disk, files, path);
    lemma_deleted(back, stale(files, current), path);
    lemma_stale(files, current, path);
    lemma_file_index(files, path, 0);
}

/// How many of `outcomes` are no error.
pub open spec fn succeeded(outcomes: Seq<Option<String>>) -> nat
    decreases outcomes.len(),
{
    if outcomes.len() == 0 {
        0
    } else {
        succeeded(outcomes.drop_last()) + (if outcomes.last() is None {
            1nat
        } else {
            0
        })
    }
}

/// What is said of the paths whose outcome is an error: `verb`, the path and the
/// error.
pub open spec fn failures(
    verb: Seq<char>,
    paths: Seq<Seq<char>>,
    outcomes: Seq<Option<String>>,
) -> Seq<Seq<char>>
    decreases outcomes.len(),
{
    if outcomes.len() == 0 {
        seq![]
    } else {
        let before = failures(verb, paths, outcomes.drop_last());
        match outcomes.last() {
            Some(err) => before.push(verb + paths[outcomes.len() - 1] + ": "@ + err@),
            None => before,
        }
    }
}

/// The number of `outcomes` that are no error; what is said of the others joins
/// `errors`.
fn note_outcomes(
    verb: &str,
    paths: &[String],
    outcomes: &[Option<String>],
    errors: &mut Vec<String>,
) -> (res: usize)
    requires
        outcomes@.len() == paths@.len(),
    ensures
        res == succeeded(outcomes@),
        views(final(errors)@) == views(old(errors)@) + failures(verb@, views(paths@), outcomes@),
{
    let ghost was = views(errors@);
    let ghost names = views(paths@);
    let mut res: usize = 0;
    let mut i: usize = 0;
    proof {
        assert(outcomes@.take(0) =~= seq![]);
        assert(views(errors@) =~= was + failures(verb@, names, outcomes@.take(0)));
    }
    while i < outcomes.len()
        invariant
            i <= outcomes@.len(),
            outcomes@.len() == paths@.len(),
            names == views(paths@),
            res <= i,
            res == succeeded(outcomes@.take(i as int)),
            views(errors@) == was + failures(verb@, names, outcomes@.take(i as int)),
        decreases outcomes@.len() - i,
    {
        proof {
            assert(outcomes@.take(i + 1).drop_last() =~= outcomes@.take(i as int));
            assert(outcomes@.take(i + 1).last() == outcomes@[i as int]);
        }
        match &outcomes[i] {
            None => {
                res += 1;
            },
            Some(err) => {
                let ghost before = errors@;
                let line: String = cat(&cat3(verb, &paths[i], ": "), err);
                errors.push(line);
                proof {
                    assert(views(errors@) =~= views(before).push(line@));
                    assert(views(errors@) =~= was + failures(
                        verb@,
                        names,
                        outcomes@.take(i + 1),
                    ));
                }
            },
        }
        i += 1;
    }
    proof {
        assert(outcomes@.take(i as int) =~= outcomes@);
    }
    res
}

/// The paths of `files`.
pub open spec fn names_of(files: Seq<(String, Vec<u8>)>) -> Seq<Seq<char>> {
    Seq::new(files.len(), |i: int| files[i].0@)
}

impl KaosSnapshot {
    /// What a restore came to: `written` says what came of writing back each file of
    /// the snapshot, and `removed` what came of deleting each of `stale_paths`.
    pub fn restore_report(
        &self,
        written: &[Option<String>],
        stale_paths: &[String],
        removed: &[Option<String>],
    ) -> (res: RestoreReport)
        requires
            written@.len() == self.files@.len(),
            removed@.len() == stale_paths@.len(),
        ensures
            res.restored == succeeded(written@),
            res.deleted == succeeded(removed@),
            views(res.errors@) == failures(""@, names_of(self.files@), written@) + failures(
                "delete "@,
                views(stale_paths@),
                removed@,
            ),
    {
        let mut paths: Vec<String> = Vec::new();
        let mut i: usize = 0;
        while i < self.files.len()
            invariant
                i <= self.files@.len(),
                paths@.len() == i,
                forall|k: int| 0 <= k < i ==> (#[trigger] paths@[k])@ == self.files@[k].0@,
            decreases self.files@.len() - i,
        {
            paths.push(self.files[i].0.clone());
            i += 1;
        }
        proof {
            assert(views(paths@) =~= names_of(self.files@));
        }
        let mut errors: Vec<String> = Vec::new();
        proof {
            assert(views(errors@) =~= seq![]);
        }
        let restored: usize = note_outcomes("", &paths, written, &mut errors);
        proof {
            assert(views(errors@) =~= failures(""@, names_of(self.files@), written@));
        }
        let deleted: usize = note_outcomes("delete ", stale_paths, removed, &mut errors);
        RestoreReport { restored, deleted, errors }
    }
}

proof fn lemma_all_succeeded(
    verb: Seq<char>,
    paths: Seq<Seq<char>>,
    outcomes: Seq<Option<String>>,
)
    requires
        forall|i: int| 0 <= i < outcomes.len() ==> (#[trigger] outcomes[i]) is None,
    ensures
        succeeded(outcomes) == outcomes.len(),
        failures(verb, paths, outcomes).len() == 0,
    decreases outcomes.len(),
{
    if outcomes.len() > 0 {
        assert(outcomes[outcomes.len() - 1] is None);
        lemma_all_succeeded(verb, paths, outcomes.drop_last());
    }
}

proof fn lemma_stale_unique(files: Seq<(String, Vec<u8>)>, paths: Seq<Seq<char>>)
    requires
        paths.no_duplicates(),
    ensures
        stale(files, paths).no_duplicates(),
    decreases paths.len(),
{
    if paths.len() > 0 {
        let front = paths.drop_last();
        lemma_stale_unique(files, front);
        lemma_stale(files, front, paths.last());
        if stale(files, front).contains(paths.last()) {
            let k = choose|k: int| 0 <= k < front.len() && front[k] == paths.last();
            assert(paths[k] == paths[paths.len() - 1]);
        }
    }
}

/// Where every file is written back and every stale one deleted, the report of a
/// restore counts each file of the snapshot and each file that was listed and not in
/// it, and holds no error.
pub proof fn law_restore_counts_every_file(
    snapshot: KaosSnapshot,
    current: Seq<Seq<char>>,
    written: Seq<Option<String>>,
    removed: Seq<Option<String>>,
)
    requires
        current.no_duplicates(),
        written.len() == snapshot.files@.len(),
        removed.len() == stale(snapshot.files@, current).len(),
        forall|i: int| 0 <= i < written.len() ==> (#[trigger] written[i]) is None,
        forall|i: int| 0 <= i < removed.len() ==> (#[trigger] removed[i]) is None,
    ensures
        succeeded(written) == snapshot.files@.len(),
        succeeded(removed) == current.to_set().difference(snapshot.contents().dom()).len(),
        (failures(""@, names_of(snapshot.files@), written) + failures(
            "delete "@,
            stale(snapshot.files@, current),
            removed,
        )).len() == 0,
{
    let gone = stale(snapshot.files@, current);
    lemma_all_succeeded(""@, names_of(snapshot.files@), written);
    lemma_all_succeeded("delete "@, gone, removed);
    lemma_stale_unique(snapshot.files@, current);
    gone.unique_seq_to_set();
    assert forall|p: Seq<char>| #[trigger] gone.to_set().contains(p) <==> current.to_set().difference(
        snapshot.contents().dom(),
    ).contains(p) by {
        lemma_stale(snapshot.files@, current, p);
    }
    assert(gone.to_set() =~= current.to_set().difference(snapshot.contents().dom()));
}

/// What recording a write makes of a working directory.
pub open spec fn write_recorded(before: CachedKaos, entry: WriteEntry, after: CachedKaos) -> bool {
    &&& after.work_dir == before.work_dir
    &&& after.index is Dirty
    &&& after.write_history@ == before.write_history@.push(entry)
}

/// What taking writes off the history makes of a working directory, and what is to be put
/// back.
pub open spec fn undo_taken(
    before: CachedKaos,
    steps: usize,
    report: UndoReport,
    entries: Seq<WriteEntry>,
    after: CachedKaos,
) -> bool {
    let available = before.write_history@.len();
    let n = undo_steps(steps as int, available as int);
    &&& report.steps_available == available
    &&& report.steps_applied == n
    &&& report.restored == 0 && report.deleted == 0 && report.errors@.len() == 0
    &&& entries == latest(before.write_history@, n)
    &&& after.write_history@ == before.write_history@.take(available - n)
    &&& after.work_dir == before.work_dir
    &&& if n > 0 {
        after.index is Dirty
    } else {
        after.index == before.index
    }
}

/// Undoing takes the last writes back first, no more than there are; those before them stay
/// in the history, and the directory has to be scanned anew where anything was taken
/// back.
pub proof fn law_the_last_writes_are_undone_first(
    before: CachedKaos,
    steps: usize,
    report: UndoReport,
    entries: Seq<WriteEntry>,
    after: CachedKaos,
    i: int,
)
    requires
        undo_taken(before, steps, report, entries, after),
    ensures
        ({
            let all = before.write_history@;
            &&& entries.len() <= steps && entries.len() <= all.len()
            &&& entries.len() == steps || entries.len() == all.len()
            &&& report.steps_applied == entries.len() && report.steps_available == all.len()
            &&& 0 <= i < entries.len() ==> entries[i] == all[all.len() - 1 - i]
            &&& after.write_history@.len() == all.len() - entries.len()
            &&& 0 <= i < after.write_history@.len() ==> after.write_history@[i] == all[i]
            &&& entries.len() > 0 ==> after.index is Dirty
        }),
{
}

/// A write that was recorded is the first to be undone.
pub proof fn law_a_write_is_undone_by_one_step(
    before: CachedKaos,
    entry: WriteEntry,
    written: CachedKaos,
    report: UndoReport,
    entries: Seq<WriteEntry>,
    after: CachedKaos,
)
    requires
        write_recorded(before, entry, written),
        undo_taken(written, 1, report, entries, after),
    ensures
        entries == seq![entry],
        after.write_history@ == before.write_history@,
        written.index is Dirty && after.index is Dirty,
{
    assert(entries =~= seq![entry]);
    assert(after.write_history@ =~= before.write_history@);
}

/// A listing is globbed with wildcards that stop at a separator, and with regard to case
/// where that is asked for.
pub proof fn law_how_a_listing_is_globbed(
    kaos: CachedKaos,
    prefix: &str,
    pattern: &str,
    case_sensitive: bool,
    paths: Vec<String>,
    found: Vec<String>,
    rel: Seq<char>,
)
    requires
        call_ensures(
            CachedKaos::glob,
            (&kaos, prefix, pattern, case_sensitive),
            Some(Ok(found)),
        ),
        kaos.index == IndexState::Ready(paths),
        is_listing(views(paths@), views(paths@)),
        views(paths@).no_duplicates(),
    ensures
        ({
            let flags = GlobFlags { literal_separator: true, case_insensitive: !case_sensitive };
            let within = if prefix@.len() == 0 {
                Some(rel)
            } else if rel == prefix@ {
                Some(seq![])
            } else if rel.len() > prefix@.len() && rel.subrange(0, prefix@.len() as int) == prefix@
                && rel[prefix@.len() as int] == '/' {
                Some(rel.subrange(prefix@.len() as int + 1, rel.len() as int))
            } else {
                None::<Seq<char>>
            };
            views(paths@).contains(rel) && within is Some && glob_matches(
                pattern@,
                flags,
                within->0,
            ) ==> views(found@).contains(path_below(kaos.work_dir@, rel))
        }),
        forall|p: Seq<char>| #[trigger]
            views(found@).contains(p) ==> exists|r: Seq<char>| #[trigger]
                views(paths@).contains(r) && p == path_below(kaos.work_dir@, r),
{
    let flags = GlobFlags { literal_separator: true, case_insensitive: !case_sensitive };
    law_glob_finds_what_the_tree_holds(kaos, views(paths@), prefix@, pattern@, flags);
    let all = globbed(paths@, kaos.work_dir@, prefix@, pattern@, flags);
    assert(views(found@) == all);
    reveal_strlit("/");
    let n = prefix@.len() as int;
    let dir = prefix@ + "/"@;
    if rel.len() > n && n > 0 && rel.subrange(0, n) == prefix@ && rel[n] == '/' {
        assert(rel.subrange(0, n + 1) =~= dir);
        assert(rel.skip(n + 1) =~= rel.subrange(n + 1, rel.len() as int));
    }
    assert forall|p: Seq<char>| #[trigger] views(found@).contains(p) implies exists|r: Seq<
        char,
    >| #[trigger] views(paths@).contains(r) && p == path_below(kaos.work_dir@, r) by {
        let r = choose|r: Seq<char>| #[trigger]
            views(paths@).contains(r) && glob_finds(r, prefix@, pattern@, flags) && p
                == path_below(kaos.work_dir@, r);
        assert(views(paths@).contains(r));
    }
}

/// A file belongs in a snapshot where it is one and has no more than ten mebibytes.
pub proof fn law_which_files_are_captured(is_file: bool, len: u64, res: bool)
    requires
        call_ensures(is_captured, (is_file, len), res),
    ensures
        res <==> is_file && len <= 10 * 1024 * 1024,
{
}

/// A snapshot of one file more holds what the others give, and that file's bytes under its
/// whole path where it belongs in it and was read.
pub proof fn law_a_snapshot_holds_each_file(
    work_dir: Seq<char>,
    files: Seq<ScannedFile>,
    file: ScannedFile,
)
    ensures
        captured(work_dir, Seq::empty()).dom() =~= Set::empty(),
        file.is_file && file.len <= 10 * 1024 * 1024 && file.bytes is Some ==> captured(
            work_dir,
            files.push(file),
        ) == captured(work_dir, files).insert(path_below(work_dir, file.path@), file.bytes->0@),
        !file.is_file || file.len > 10 * 1024 * 1024 || file.bytes is None ==> captured(
            work_dir,
            files.push(file),
        ) == captured(work_dir, files),
{
    assert(files.push(file).drop_last() =~= files);
}

/// What lies below a directory is named by the directory, a slash and the rest; a slash
/// that is there is not doubled, and nothing stands before what lies where the
/// program runs.
pub proof fn law_how_paths_are_joined(base: &str, rel: &str, res: String)
    requires
        call_ensures(join_path, (base, rel), res),
    ensures
        base@.len() == 0 ==> res@ == rel@,
        base@.len() > 0 && base@.last() == '/' ==> res@ == base@ + rel@,
        base@.len() > 0 && base@.last() != '/' ==> res@ == base@ + seq!['/'] + rel@,
{
    reveal_strlit("/");
    assert("/"@ =~= seq!['/']);
    if base@.len() == 0 {
        assert(base@ + rel@ =~= rel@);
    } else {
        let tail = base@.subrange(base@.len() - 1, base@.len() as int);
        assert(tail[0] == base@.last());
        if base@.last() == '/' {
            assert(tail =~= "/"@);
        }
    }
}

} // verus!
