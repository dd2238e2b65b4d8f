//! What is remembered of working directories.
use crate::pattern::opt_view;
use crate::text::{begins, cat3, ends, same};
use vstd::prelude::*;
use vstd::string::*;
use vstd::utf8::encode_utf8;

verus! {

/// A text in lower case, as Unicode has it.
pub uninterp spec fn unicode_lower(s: Seq<char>) -> Seq<char>;

/// `str::to_lowercase`.
#[verifier::external_body]
fn lower_case(s: &str) -> (res: String)
    ensures
        res@ == unicode_lower(s@),
{
    s.to_lowercase()
}

/// The MD5 digest of bytes, written in hexadecimal.
pub uninterp spec fn md5_of(bytes: Seq<u8>) -> Seq<char>;

/// `md5::compute`, written in lower-case hexadecimal: two characters for each of
/// the sixteen bytes.
#[verifier::external_body]
fn md5_hex(bytes: &[u8]) -> (res: String)
    ensures
        res@ == md5_of(bytes@),
        res@.len() == 32,
{
    format!("{:x}", md5::compute(bytes))
}

/// A path as it is compared: on Windows without regard to case.
pub open spec fn normalized(path: Seq<char>, windows: bool) -> Seq<char> {
    if windows {
        unicode_lower(path)
    } else {
        path
    }
}

/// A path as it is compared. `windows` tells whether it is one of Windows.
pub fn normalize_path_string(s: &str, windows: bool) -> (res: String)
    ensures
        res@ == normalized(s@, windows),
{
    if windows {
        lower_case(s)
    } else {
        s.to_owned()
    }
}

/// The name of the local file system.
pub fn default_kaos_name() -> (res: String)
    ensures
        res@ == "local"@,
{
    "local".to_owned()
}

/// The file that holds the metadata, in the directory that sessions share.
pub fn get_metadata_file(share_dir: &str) -> (res: String)
    ensures
        res@ == crate::kaos::path_below(share_dir@, "kimi.json"@),
{
    crate::kaos::join_path(share_dir, "kimi.json")
}

/// What is remembered of one working directory.
#[derive(Clone, Debug, PartialEq)]
pub struct WorkDirMeta {
    pub path: String,
    /// The file system it lies on.
    pub kaos: String,
    pub last_session_id: Option<String>,
}

/// What is remembered of a working directory, by characters.
pub struct MetaV {
    pub path: Seq<char>,
    pub kaos: Seq<char>,
    pub last_session_id: Option<Seq<char>>,
}

/// What is remembered of a working directory, by characters.
pub open spec fn meta_view(m: WorkDirMeta) -> MetaV {
    MetaV { path: m.path@, kaos: m.kaos@, last_session_id: opt_view(m.last_session_id) }
}

/// What is remembered of working directories, by characters.
pub open spec fn meta_views(v: Seq<WorkDirMeta>) -> Seq<MetaV> {
    Seq::new(v.len(), |i: int| meta_view(v[i]))
}

/// The name of the directory that holds the sessions of a working directory.
pub open spec fn sessions_name(path: Seq<char>, kaos: Seq<char>) -> Seq<char> {
    let hash = md5_of(encode_utf8(path));
    if kaos == "local"@ {
        hash
    } else {
        kaos + "_"@ + hash
    }
}

fn sessions_name_of(path: &str, kaos: &str) -> (res: String)
    ensures
        res@ == sessions_name(path@, kaos@),
{
    let hash: String = md5_hex(path.as_bytes());
    if same(kaos, &default_kaos_name()) {
        hash
    } else {
        cat3(kaos, "_", &hash)
    }
}

impl WorkDirMeta {
    /// A copy.
    pub fn copy(&self) -> (res: WorkDirMeta)
        ensures
            res == *self,
    {
        WorkDirMeta {
            path: self.path.clone(),
            kaos: self.kaos.clone(),
            last_session_id: match &self.last_session_id {
                Some(id) => Some(id.clone()),
                None => None,
            },
        }
    }

    /// The directory that holds its sessions.
    pub fn sessions_dir(&self, share_dir: &str, windows: bool) -> (res: String)
        ensures
            res@ == crate::kaos::path_below(
                crate::kaos::path_below(share_dir@, "sessions"@),
                sessions_name(normalized(self.path@, windows), self.kaos@),
            ),
    {
        let normalized: String = normalize_path_string(&self.path, windows);
        let name: String = sessions_name_of(&normalized, &self.kaos);
        crate::kaos::join_path(&crate::kaos::join_path(share_dir, "sessions"), &name)
    }

    /// The names that its sessions' directory had and is to have, where its path
    /// was remembered under another case.
    pub fn sessions_move(&self, windows: bool) -> (res: Option<(String, String)>)
        ensures
            ({
                let new_path = normalized(self.path@, windows);
                let (old_hash, new_hash) = (
                    md5_of(encode_utf8(self.path@)),
                    md5_of(encode_utf8(new_path)),
                );
                if self.path@ != new_path && old_hash != new_hash {
                    res matches Some((from, to)) && from@ == sessions_name(self.path@, self.kaos@)
                        && to@ == sessions_name(new_path, self.kaos@)
                } else {
                    res is None
                }
            }),
    {
        let new_path: String = normalize_path_string(&self.path, windows);
        if same(&self.path, &new_path) {
            return None;
        }
        let old_hash: String = md5_hex(self.path.as_str().as_bytes());
        let new_hash: String = md5_hex(new_path.as_str().as_bytes());
        if same(&old_hash, &new_hash) {
            return None;
        }
        Some((sessions_name_of(&self.path, &self.kaos), sessions_name_of(&new_path, &self.kaos)))
    }
}

/// What is remembered of working directories.
#[derive(Clone, Debug, PartialEq)]
pub struct Metadata {
    pub work_dirs: Vec<WorkDirMeta>,
}

/// Whether an entry is the one for that path on that file system.
pub open spec fn is_for(m: MetaV, path: Seq<char>, kaos: Seq<char>, windows: bool) -> bool {
    normalized(m.path, windows) == normalized(path, windows) && m.kaos == kaos
}

/// The first entry for that path on that file system, from entry `i` on.
pub open spec fn entry_for(
    entries: Seq<MetaV>,
    path: Seq<char>,
    kaos: Seq<char>,
    windows: bool,
    i: int,
) -> Option<int>
    decreases entries.len() - i,
{
    if i < 0 || i >= entries.len() {
        None
    } else if is_for(entries[i], path, kaos, windows) {
        Some(i)
    } else {
        entry_for(entries, path, kaos, windows, i + 1)
    }
}

/// The place of the entry with that path, from entry `i` on.
pub open spec fn same_path(entries: Seq<MetaV>, path: Seq<char>, i: int) -> Option<int>
    decreases entries.len() - i,
{
    if i < 0 || i >= entries.len() {
        None
    } else if entries[i].path == path {
        Some(i)
    } else {
        same_path(entries, path, i + 1)
    }
}

/// `entries` with one more taken in, its path normalized: where there is one for
/// the path already, that one only learns of a session it does not know of.
pub open spec fn absorbed(entries: Seq<MetaV>, m: MetaV, windows: bool) -> Seq<MetaV> {
    let path = normalized(m.path, windows);
    match same_path(entries, path, 0) {
        Some(i) => if entries[i].last_session_id is None {
            entries.update(i, MetaV { last_session_id: m.last_session_id, ..entries[i] })
        } else {
            entries
        },
        None => entries.push(MetaV { path, ..m }),
    }
}

/// `entries`, each path once.
pub open spec fn deduplicated(entries: Seq<MetaV>, windows: bool) -> Seq<MetaV>
    decreases entries.len(),
{
    if entries.len() == 0 {
        seq![]
    } else {
        absorbed(deduplicated(entries.drop_last(), windows), entries.last(), windows)
    }
}

impl Metadata {
    /// Nothing is remembered.
    pub fn new() -> (res: Metadata)
        ensures
            res.work_dirs@.len() == 0,
    {
        Metadata { work_dirs: Vec::new() }
    }

    /// What is remembered of a working directory on that file system.
    pub fn get_work_dir_meta(&self, path: &str, kaos: &str, windows: bool) -> (res: Option<
        WorkDirMeta,
    >)
        ensures
            match entry_for(meta_views(self.work_dirs@), path@, kaos@, windows, 0) {
                Some(i) => res == Some(self.work_dirs@[i]),
                None => res is None,
            },
    {
        let wanted: String = normalize_path_string(path, windows);
        let ghost entries = meta_views(self.work_dirs@);
        let mut i: usize = 0;
        while i < self.work_dirs.len()
            invariant
                i <= self.work_dirs@.len(),
                wanted@ == normalized(path@, windows),
                entries == meta_views(self.work_dirs@),
                entry_for(entries, path@, kaos@, windows, 0) == entry_for(
                    entries,
                    path@,
                    kaos@,
                    windows,
                    i as int,
                ),
            decreases self.work_dirs@.len() - i,
        {
            let known: String = normalize_path_string(&self.work_dirs[i].path, windows);
            proof {
                assert(entries[i as int] == meta_view(self.work_dirs@[i as int]));
            }
            if same(&known, &wanted) && same(&self.work_dirs[i].kaos, kaos) {
                return Some(self.work_dirs[i].copy());
            }
            i += 1;
        }
        None
    }

    /// Remembers a working directory on that file system.
    pub fn new_work_dir_meta(&mut self, path: &str, kaos: &str, windows: bool) -> (res: WorkDirMeta)
        ensures
            meta_view(res) == (MetaV {
                path: normalized(path@, windows),
                kaos: kaos@,
                last_session_id: None,
            }),
            final(self).work_dirs@ == old(self).work_dirs@.push(res),
    {
        let meta: WorkDirMeta = WorkDirMeta {
            path: normalize_path_string(path, windows),
            kaos: kaos.to_owned(),
            last_session_id: None,
        };
        self.work_dirs.push(meta.copy());
        meta
    }

    /// Brings what was stored into shape: on Windows one directory may have been
    /// remembered under several cases, and is remembered once.
    pub fn normalize(self, windows: bool) -> (res: Metadata)
        ensures
            windows ==> meta_views(res.work_dirs@) == deduplicated(
                meta_views(self.work_dirs@),
                windows,
            ),
            !windows ==> res == self,
    {
        if !windows {
            return self;
        }
        let ghost entries = meta_views(self.work_dirs@);
        let stored: Vec<WorkDirMeta> = self.work_dirs;
        let mut kept: Vec<WorkDirMeta> = Vec::new();
        let mut i: usize = 0;
        proof {
            assert(entries.take(0) =~= seq![]);
            assert(meta_views(kept@) =~= seq![]);
        }
        while i < stored.len()
            invariant
                i <= stored@.len(),
                windows,
                entries == meta_views(stored@),
                meta_views(kept@) == deduplicated(entries.take(i as int), windows),
            decreases stored@.len() - i,
        {
            proof {
                assert(entries.take(i + 1).drop_last() =~= entries.take(i as int));
                assert(entries.take(i + 1).last() == meta_view(stored@[i as int]));
            }
            absorb(&mut kept, &stored[i], windows);
            i += 1;
        }
        proof {
            assert(entries.take(i as int) =~= entries);
        }
        Metadata { work_dirs: kept }
    }
}

/// Takes one more entry in.
fn absorb(kept: &mut Vec<WorkDirMeta>, wd: &WorkDirMeta, windows: bool)
    ensures
        meta_views(final(kept)@) == absorbed(meta_views(old(kept)@), meta_view(*wd), windows),
{
    let path: String = normalize_path_string(&wd.path, windows);
    let ghost entries = meta_views(kept@);
    let mut i: usize = 0;
    while i < kept.len()
        invariant
            i <= kept@.len(),
            kept@ == old(kept)@,
            entries == meta_views(kept@),
            path@ == normalized(wd.path@, windows),
            same_path(entries, path@, 0) == same_path(entries, path@, i as int),
        decreases kept@.len() - i,
    {
        proof {
            assert(entries[i as int] == meta_view(kept@[i as int]));
        }
        if same(&kept[i].path, &path) {
            if kept[i].last_session_id.is_none() {
                let ghost before = kept@;
                let other: WorkDirMeta = wd.copy();
                kept[i].last_session_id = other.last_session_id;
                proof {
                    let m = meta_view(*wd);
                    assert(meta_views(kept@) =~= entries.update(
                        i as int,
                        MetaV { last_session_id: m.last_session_id, ..entries[i as int] },
                    ));
                }
            }
            return;
        }
        i += 1;
    }
    let other: WorkDirMeta = wd.copy();
    let added: WorkDirMeta = WorkDirMeta {
        path,
        kaos: other.kaos,
        last_session_id: other.last_session_id,
    };
    kept.push(added);
    proof {
        assert(meta_views(kept@) =~= entries.push(meta_view(added)));
    }
}

proof fn lemma_same_path(entries: Seq<MetaV>, path: Seq<char>, i: int)
    requires
        0 <= i,
    ensures
        match same_path(entries, path, i) {
            Some(k) => i <= k < entries.len() && entries[k].path == path,
            None => forall|j: int| i <= j < entries.len() ==> (#[trigger] entries[j]).path != path,
        },
    decreases entries.len() - i,
{
    if i < entries.len() && entries[i].path != path {
        lemma_same_path(entries, path, i + 1);
    }
}

/// After normalizing, no path is remembered twice.
pub proof fn law_no_path_is_remembered_twice(entries: Seq<MetaV>, windows: bool)
    ensures
        forall|i: int, j: int|
            0 <= i < j < deduplicated(entries, windows).len() ==> (#[trigger] deduplicated(
                entries,
                windows,
            )[i]).path != (#[trigger] deduplicated(entries, windows)[j]).path,
    decreases entries.len(),
{
    if entries.len() > 0 {
        law_no_path_is_remembered_twice(entries.drop_last(), windows);
        let before = deduplicated(entries.drop_last(), windows);
        let m = entries.last();
        lemma_same_path(before, normalized(m.path, windows), 0);
        let after = deduplicated(entries, windows);
        assert forall|i: int, j: int| 0 <= i < j < after.len() implies (#[trigger] after[i]).path
            != (#[trigger] after[j]).path by {
            assert(before[i].path == after[i].path);
            if j < before.len() {
                assert(before[j].path == after[j].path);
            }
        }
    }
}

/// Normalizing loses no directory.
pub proof fn law_no_directory_is_lost(entries: Seq<MetaV>, windows: bool, i: int)
    requires
        0 <= i < entries.len(),
    ensures
        same_path(deduplicated(entries, windows), normalized(entries[i].path, windows), 0) is Some,
    decreases entries.len(),
{
    let before = deduplicated(entries.drop_last(), windows);
    let after = deduplicated(entries, windows);
    let m = entries.last();
    let path = normalized(entries[i].path, windows);
    lemma_same_path(before, normalized(m.path, windows), 0);
    lemma_same_path(after, path, 0);
    if i == entries.len() - 1 {
        match same_path(before, path, 0) {
            Some(k) => {
                assert(after[k].path == path);
            },
            None => {
                assert(after[before.len() as int].path == path);
            },
        }
    } else {
        law_no_directory_is_lost(entries.drop_last(), windows, i);
        lemma_same_path(before, path, 0);
        let k = same_path(before, path, 0)->0;
        assert(after[k].path == path);
    }
}

proof fn lemma_entry_for(
    entries: Seq<MetaV>,
    path: Seq<char>,
    kaos: Seq<char>,
    windows: bool,
    i: int,
)
    requires
        0 <= i,
    ensures
        match entry_for(entries, path, kaos, windows, i) {
            Some(k) => i <= k < entries.len() && is_for(entries[k], path, kaos, windows),
            None => forall|j: int|
                i <= j < entries.len() ==> !is_for(#[trigger] entries[j], path, kaos, windows),
        },
    decreases entries.len() - i,
{
    if i < entries.len() && !is_for(entries[i], path, kaos, windows) {
        lemma_entry_for(entries, path, kaos, windows, i + 1);
    }
}

proof fn lemma_first_entry(
    entries: Seq<MetaV>,
    path: Seq<char>,
    kaos: Seq<char>,
    windows: bool,
    i: int,
)
    requires
        0 <= i,
    ensures
        entry_for(entries, path, kaos, windows, i) matches Some(k) ==> forall|j: int|
            i <= j < k ==> !is_for(#[trigger] entries[j], path, kaos, windows),
    decreases entries.len() - i,
{
    if i < entries.len() && !is_for(entries[i], path, kaos, windows) {
        lemma_first_entry(entries, path, kaos, windows, i + 1);
    }
}

/// A directory that was not known is found once it was remembered, and what is found
/// is the entry that was made for it; what was found before is found still. On
/// Windows this holds of the paths that lower-casing twice leaves as lower-casing
/// once does.
pub proof fn law_what_is_remembered_is_found(
    entries: Seq<MetaV>,
    path: Seq<char>,
    kaos: Seq<char>,
    windows: bool,
)
    requires
        windows ==> unicode_lower(unicode_lower(path)) == unicode_lower(path),
    ensures
        ({
            let meta = MetaV { path: normalized(path, windows), kaos, last_session_id: None };
            entry_for(entries.push(meta), path, kaos, windows, 0) == match entry_for(
                entries,
                path,
                kaos,
                windows,
                0,
            ) {
                Some(k) => Some(k),
                None => Some(entries.len() as int),
            }
        }),
{
    let meta = MetaV { path: normalized(path, windows), kaos, last_session_id: None };
    let all = entries.push(meta);
    lemma_entry_for(all, path, kaos, windows, 0);
    lemma_entry_for(entries, path, kaos, windows, 0);
    assert(is_for(all[entries.len() as int], path, kaos, windows));
    lemma_first_entry(all, path, kaos, windows, 0);
    lemma_first_entry(entries, path, kaos, windows, 0);
    let m = entry_for(all, path, kaos, windows, 0)->0;
    if m < entries.len() {
        assert(all[m] == entries[m]);
    }
    if let Some(k) = entry_for(entries, path, kaos, windows, 0) {
        assert(all[k] == entries[k]);
    }
}

/// An entry for a directory is found by its path and its file system: the first that has
/// both, on Windows without regard to case.
pub proof fn law_a_directory_is_found_by_its_path(
    metadata: Metadata,
    path: &str,
    kaos: &str,
    windows: bool,
    res: Option<WorkDirMeta>,
    i: int,
)
    requires
        call_ensures(Metadata::get_work_dir_meta, (&metadata, path, kaos, windows), res),
    ensures
        res matches Some(m) ==> m.kaos@ == kaos@ && (!windows ==> m.path@ == path@) && (windows
            ==> unicode_lower(m.path@) == unicode_lower(path@)) && metadata.work_dirs@.contains(m),
        res is None && 0 <= i < metadata.work_dirs@.len() && metadata.work_dirs@[i].kaos@ == kaos@
            ==> if windows {
            unicode_lower(metadata.work_dirs@[i].path@) != unicode_lower(path@)
        } else {
            metadata.work_dirs@[i].path@ != path@
        },
{
    let entries = meta_views(metadata.work_dirs@);
    lemma_entry_for(entries, path@, kaos@, windows, 0);
    if let Some(k) = entry_for(entries, path@, kaos@, windows, 0) {
        assert(entries[k] == meta_view(metadata.work_dirs@[k]));
    }
    if 0 <= i < metadata.work_dirs@.len() {
        assert(entries[i] == meta_view(metadata.work_dirs@[i]));
    }
}

/// The sessions of a directory lie under the hash of its path, behind the name of its file
/// system unless that is the local one, so two directories share them only where
/// both agree.
pub proof fn law_where_sessions_lie(
    meta: WorkDirMeta,
    share_dir: &str,
    windows: bool,
    res: String,
)
    requires
        call_ensures(WorkDirMeta::sessions_dir, (&meta, share_dir, windows), res),
    ensures
        ({
            let path = if windows {
                unicode_lower(meta.path@)
            } else {
                meta.path@
            };
            let hash = md5_of(encode_utf8(path));
            &&& ends(res@, hash)
            &&& meta.kaos@ == "local"@ ==> ends(res@, "sessions/"@ + hash)
            &&& meta.kaos@ != "local"@ ==> ends(res@, "sessions/"@ + meta.kaos@ + "_"@ + hash)
            &&& begins(res@, share_dir@)
        }),
{
    reveal_strlit("sessions");
    reveal_strlit("sessions/");
    reveal_strlit("/");
    let path = if windows {
        unicode_lower(meta.path@)
    } else {
        meta.path@
    };
    let hash = md5_of(encode_utf8(path));
    let name = sessions_name(path, meta.kaos@);
    let dir = crate::kaos::path_below(share_dir@, "sessions"@);
    assert(dir.len() >= 8);
    assert(dir[dir.len() - 1] == 's');
    if ends(dir, "/"@) {
        assert(dir.subrange(dir.len() - 1, dir.len() as int)[0] == '/');
    }
    assert(res@ == dir + "/"@ + name);
    assert(res@.subrange(res@.len() - hash.len(), res@.len() as int) =~= hash);
    let tail = "sessions/"@ + name;
    assert(res@.subrange(res@.len() - tail.len(), res@.len() as int) =~= tail);
    assert("sessions/"@ + (meta.kaos@ + "_"@ + hash) =~= "sessions/"@ + meta.kaos@ + "_"@ + hash);
    assert(res@.subrange(0, share_dir@.len() as int) =~= share_dir@);
}

/// Sessions move exactly where a path changes its case and its hash with it: from the hash
/// of the old path to that of the new one.
pub proof fn law_when_sessions_move(
    meta: WorkDirMeta,
    windows: bool,
    res: Option<(String, String)>,
)
    requires
        call_ensures(WorkDirMeta::sessions_move, (&meta, windows), res),
    ensures
        !windows ==> res is None,
        res matches Some((from, to)) ==> ends(from@, md5_of(encode_utf8(meta.path@))) && ends(
            to@,
            md5_of(encode_utf8(unicode_lower(meta.path@))),
        ),
        windows && unicode_lower(meta.path@) != meta.path@ && md5_of(
            encode_utf8(unicode_lower(meta.path@)),
        ) != md5_of(encode_utf8(meta.path@)) ==> res is Some,
{
    if let Some((from, to)) = res {
        let a = md5_of(encode_utf8(meta.path@));
        let b = md5_of(encode_utf8(unicode_lower(meta.path@)));
        assert(from@.subrange(from@.len() - a.len(), from@.len() as int) =~= a);
        assert(to@.subrange(to@.len() - b.len(), to@.len() as int) =~= b);
    }
}

/// Where two entries come to the same path, the session of the first is kept, and that of
/// the second only where the first has none.
pub proof fn law_a_session_is_kept(entries: Seq<MetaV>, m: MetaV, windows: bool, i: int)
    requires
        0 <= i < entries.len(),
    ensures
        i < absorbed(entries, m, windows).len(),
        absorbed(entries, m, windows)[i].path == entries[i].path,
        absorbed(entries, m, windows)[i].kaos == entries[i].kaos,
        entries[i].last_session_id is Some ==> absorbed(entries, m, windows)[i].last_session_id
            == entries[i].last_session_id,
        entries[i].last_session_id is None ==> absorbed(
            entries,
            m,
            windows,
        )[i].last_session_id is None || absorbed(entries, m, windows)[i].last_session_id
            == m.last_session_id,
        entries[i].last_session_id is None && entries[i].path == normalized(m.path, windows) && (
        forall|k: int| 0 <= k < i ==> (#[trigger] entries[k]).path != entries[i].path)
            ==> absorbed(entries, m, windows)[i].last_session_id == m.last_session_id,
{
    lemma_same_path(entries, normalized(m.path, windows), 0);
    if let Some(k) = same_path(entries, normalized(m.path, windows), 0) {
        if k > i && entries[i].path == normalized(m.path, windows) {
            lemma_first_same_path(entries, normalized(m.path, windows), 0, i);
        }
    }
}

proof fn lemma_first_same_path(entries: Seq<MetaV>, path: Seq<char>, from: int, i: int)
    requires
        0 <= from <= i < entries.len(),
        entries[i].path == path,
    ensures
        same_path(entries, path, from) matches Some(k) && k <= i,
    decreases i - from,
{
    if from < i && entries[from].path != path {
        lemma_first_same_path(entries, path, from + 1, i);
    }
}

} // verus!
