use crate::errors::CoreError;
use crate::text::{
    lemma_sort_lex_no_duplicates, lemma_sort_lex_sorted, sort_lex, sort_strings, sorted_lex,
    str_eq, vec_contains_string,
};
use vstd::prelude::*;

verus! {

/// Minimum interval between two folder-changed notifications for one
/// window, in milliseconds.
pub const FOLDER_WATCH_DEBOUNCE_MS: u64 = 250;

/// Minimum interval between two file-changed notifications for one watched
/// path, in milliseconds.
pub const FILE_WATCH_DEBOUNCE_MS: u64 = 100;

/// The kind of a low-level filesystem event, as the watcher reports it.
#[derive(Clone, Copy, Debug, PartialEq, Eq, Structural)]
pub enum FsEventKind {
    /// Something was created.
    Create,
    /// Something was renamed.
    ModifyName,
    /// Content or metadata changed.
    ModifyOther,
    /// Something was removed.
    Remove,
    /// Something was read or its access time changed.
    Access,
    /// The watcher could not tell what happened.
    Any,
    /// A kind outside the usual taxonomy.
    Other,
}

/// A folder-level change: anything but a content modification or an access.
/// A single file's content change does not require a directory tree refresh.
pub open spec fn folder_kind_qualifies(k: FsEventKind) -> bool {
    ||| k == FsEventKind::Create
    ||| k == FsEventKind::ModifyName
    ||| k == FsEventKind::Remove
    ||| k == FsEventKind::Any
    ||| k == FsEventKind::Other
}

/// Whether a folder watch reacts to this event kind at all.
pub fn should_emit_folder_watch_event(kind: FsEventKind) -> (r: bool)
    ensures
        r == folder_kind_qualifies(kind),
{
    match kind {
        FsEventKind::Create => true,
        FsEventKind::ModifyName => true,
        FsEventKind::Remove => true,
        FsEventKind::Any => true,
        FsEventKind::Other => true,
        FsEventKind::ModifyOther => false,
        FsEventKind::Access => false,
    }
}

/// A file-level change: any kind but an access qualifies.
pub open spec fn file_kind_qualifies(k: FsEventKind) -> bool {
    k != FsEventKind::Access
}

/// Whether a file watch reacts to this event kind at all.
pub fn should_emit_file_watch_event(kind: FsEventKind) -> (r: bool)
    ensures
        r == file_kind_qualifies(kind),
{
    match kind {
        FsEventKind::Access => false,
        _ => true,
    }
}

/// A folder watch may emit again once the debounce interval has passed
/// since it last emitted; a watch that never emitted is ready at once.
pub open spec fn folder_ready(last: Option<u64>, now: u64) -> bool {
    match last {
        None => true,
        Some(t) => now >= t + FOLDER_WATCH_DEBOUNCE_MS,
    }
}

/// A watched file may emit again once the debounce interval has passed
/// since its own last emission.
pub open spec fn file_ready(last: Option<u64>, now: u64) -> bool {
    match last {
        None => true,
        Some(t) => now >= t + FILE_WATCH_DEBOUNCE_MS,
    }
}

// ---------------------------------------------------------------------------
// Folder watch registry
// ---------------------------------------------------------------------------

/// One window's folder watch: the canonical root being watched and when a
/// folder-changed notification was last emitted for the window.
#[derive(Debug)]
pub struct FolderWatch {
    pub label: String,
    pub root: String,
    pub last_emitted: Option<u64>,
}

/// Labels key the list at most once each.
pub open spec fn folder_wf(s: Seq<FolderWatch>) -> bool {
    forall|i: int, j: int|
        0 <= i < j < s.len() ==> (#[trigger] s[i]).label@ != (#[trigger] s[j]).label@
}

/// The watch for window `w`, if any.
pub open spec fn folder_entry(s: Seq<FolderWatch>, w: Seq<char>) -> Option<FolderWatch>
    decreases s.len(),
{
    if s.len() == 0 {
        None
    } else if s[0].label@ == w {
        Some(s[0])
    } else {
        folder_entry(s.drop_first(), w)
    }
}

proof fn lemma_folder_entry_absent(s: Seq<FolderWatch>, w: Seq<char>)
    requires
        forall|i: int| 0 <= i < s.len() ==> (#[trigger] s[i]).label@ != w,
    ensures
        folder_entry(s, w) is None,
    decreases s.len(),
{
    if s.len() > 0 {
        let d = s.drop_first();
        assert(forall|i: int| 0 <= i < d.len() ==> #[trigger] d[i] == s[i + 1]);
        lemma_folder_entry_absent(d, w);
    }
}

proof fn lemma_folder_entry_at(s: Seq<FolderWatch>, k: int, w: Seq<char>)
    requires
        0 <= k < s.len(),
        s[k].label@ == w,
        forall|i: int| 0 <= i < k ==> (#[trigger] s[i]).label@ != w,
    ensures
        folder_entry(s, w) == Some(s[k]),
    decreases k,
{
    if k > 0 {
        let d = s.drop_first();
        assert(forall|i: int| 0 <= i < d.len() ==> #[trigger] d[i] == s[i + 1]);
        lemma_folder_entry_at(d, k - 1, w);
    }
}

/// Replacing the element at `k` with one carrying the same label leaves
/// every other window's entry unchanged.
proof fn lemma_folder_replace(s0: Seq<FolderWatch>, s1: Seq<FolderWatch>, k: int)
    requires
        folder_wf(s0),
        0 <= k < s0.len(),
        s1.len() == s0.len(),
        forall|i: int| 0 <= i < s0.len() && i != k ==> #[trigger] s1[i] == s0[i],
        s1[k].label@ == s0[k].label@,
    ensures
        folder_wf(s1),
        folder_entry(s1, s0[k].label@) == Some(s1[k]),
        forall|w: Seq<char>|
            w != s0[k].label@ ==> folder_entry(s1, w) == folder_entry(s0, w),
{
    let l = s0[k].label@;
    assert(forall|i: int| 0 <= i < s1.len() ==> (#[trigger] s1[i]).label@ == s0[i].label@);
    assert(folder_wf(s1));
    assert(forall|i: int| 0 <= i < k ==> (#[trigger] s1[i]).label@ != l);
    lemma_folder_entry_at(s1, k, l);
    assert forall|w: Seq<char>| w != l implies folder_entry(s1, w) == folder_entry(s0, w) by {
        if exists|i: int| 0 <= i < s0.len() && (#[trigger] s0[i]).label@ == w {
            let k2 = choose|i: int| 0 <= i < s0.len() && (#[trigger] s0[i]).label@ == w;
            assert(forall|i: int|
                0 <= i < s0.len() && i != k2 ==> (#[trigger] s0[i]).label@ != w);
            lemma_folder_entry_at(s0, k2, w);
            assert(k2 != k);
            assert(s1[k2] == s0[k2]);
            assert(forall|i: int| 0 <= i < k2 ==> (#[trigger] s1[i]).label@ != w);
            lemma_folder_entry_at(s1, k2, w);
        } else {
            assert(forall|i: int| 0 <= i < s0.len() ==> (#[trigger] s0[i]).label@ != w);
            lemma_folder_entry_absent(s0, w);
            assert(forall|i: int| 0 <= i < s1.len() ==> (#[trigger] s1[i]).label@ != w);
            lemma_folder_entry_absent(s1, w);
        }
    }
}

/// Appending an entry under a label not yet present leaves every other
/// window's entry unchanged.
proof fn lemma_folder_append(s0: Seq<FolderWatch>, s1: Seq<FolderWatch>, l: Seq<char>)
    requires
        folder_wf(s0),
        forall|i: int| 0 <= i < s0.len() ==> (#[trigger] s0[i]).label@ != l,
        s1.len() == s0.len() + 1,
        forall|i: int| 0 <= i < s0.len() ==> #[trigger] s1[i] == s0[i],
        s1[s0.len() as int].label@ == l,
    ensures
        folder_wf(s1),
        folder_entry(s1, l) == Some(s1[s0.len() as int]),
        forall|w: Seq<char>| w != l ==> folder_entry(s1, w) == folder_entry(s0, w),
{
    let n = s0.len() as int;
    assert(folder_wf(s1));
    assert(forall|i: int| 0 <= i < n ==> (#[trigger] s1[i]).label@ != l);
    lemma_folder_entry_at(s1, n, l);
    assert forall|w: Seq<char>| w != l implies folder_entry(s1, w) == folder_entry(s0, w) by {
        if exists|i: int| 0 <= i < s0.len() && (#[trigger] s0[i]).label@ == w {
            let k2 = choose|i: int| 0 <= i < s0.len() && (#[trigger] s0[i]).label@ == w;
            assert(forall|i: int|
                0 <= i < s0.len() && i != k2 ==> (#[trigger] s0[i]).label@ != w);
            lemma_folder_entry_at(s0, k2, w);
            assert(forall|i: int| 0 <= i < k2 ==> (#[trigger] s1[i]).label@ != w);
            lemma_folder_entry_at(s1, k2, w);
        } else {
            lemma_folder_entry_absent(s0, w);
            assert(forall|i: int| 0 <= i < s1.len() ==> (#[trigger] s1[i]).label@ != w);
            lemma_folder_entry_absent(s1, w);
        }
    }
}

/// Deleting the element at `k` removes that window's entry and leaves every
/// other window's entry unchanged.
proof fn lemma_folder_delete(s0: Seq<FolderWatch>, s1: Seq<FolderWatch>, k: int)
    requires
        folder_wf(s0),
        0 <= k < s0.len(),
        s1 == s0.remove(k),
    ensures
        folder_wf(s1),
        folder_entry(s1, s0[k].label@) is None,
        forall|w: Seq<char>|
            w != s0[k].label@ ==> folder_entry(s1, w) == folder_entry(s0, w),
{
    let l = s0[k].label@;
    assert(s1.len() == s0.len() - 1);
    assert(forall|i: int| 0 <= i < k ==> #[trigger] s1[i] == s0[i]);
    assert(forall|i: int| k <= i < s1.len() ==> #[trigger] s1[i] == s0[i + 1]);
    assert(folder_wf(s1));
    assert forall|i: int| 0 <= i < s1.len() implies (#[trigger] s1[i]).label@ != l by {
        if i < k {
            assert(s0[i].label@ != s0[k].label@);
        } else {
            assert(s0[i + 1].label@ != s0[k].label@);
        }
    }
    lemma_folder_entry_absent(s1, l);
    assert forall|w: Seq<char>| w != l implies folder_entry(s1, w) == folder_entry(s0, w) by {
        if exists|i: int| 0 <= i < s0.len() && (#[trigger] s0[i]).label@ == w {
            let k2 = choose|i: int| 0 <= i < s0.len() && (#[trigger] s0[i]).label@ == w;
            assert(forall|i: int|
                0 <= i < s0.len() && i != k2 ==> (#[trigger] s0[i]).label@ != w);
            lemma_folder_entry_at(s0, k2, w);
            let k2n = if k2 < k { k2 } else { k2 - 1 };
            assert(s1[k2n] == s0[k2]);
            assert(forall|i: int| 0 <= i < k2n ==> (#[trigger] s1[i]).label@ != w);
            lemma_folder_entry_at(s1, k2n, w);
        } else {
            lemma_folder_entry_absent(s0, w);
            assert forall|i: int| 0 <= i < s1.len() implies (#[trigger] s1[i]).label@ != w by {
                if i < k {
                    assert(s0[i].label@ != w);
                } else {
                    assert(s0[i + 1].label@ != w);
                }
            }
            lemma_folder_entry_absent(s1, w);
        }
    }
}

/// One debounced folder watch per window. Installing is idempotent for the
/// same canonical root; a different root replaces the old watch. Events are
/// coalesced into at most one notification per debounce interval per window.
#[derive(Debug)]
pub struct FolderWatchRegistry {
    pub watches: Vec<FolderWatch>,
}

impl FolderWatchRegistry {
    /// Each window has at most one folder watch.
    pub open spec fn wf(&self) -> bool {
        folder_wf(self.watches@)
    }

    /// The watch entry for window `w`, if any.
    pub open spec fn entry(&self, w: Seq<char>) -> Option<FolderWatch> {
        folder_entry(self.watches@, w)
    }

    /// Whether window `w` has a folder watch installed.
    pub open spec fn has_watch(&self, w: Seq<char>) -> bool {
        self.entry(w) is Some
    }

    /// The canonical root watched for window `w` (empty when none).
    pub open spec fn root_of(&self, w: Seq<char>) -> Seq<char> {
        match self.entry(w) {
            Some(e) => e.root@,
            None => Seq::empty(),
        }
    }

    /// When a notification was last emitted for window `w`.
    pub open spec fn last_of(&self, w: Seq<char>) -> Option<u64> {
        match self.entry(w) {
            Some(e) => e.last_emitted,
            None => None,
        }
    }

    /// An empty registry.
    pub fn new() -> (r: Self)
        ensures
            r.wf(),
            forall|w: Seq<char>| !r.has_watch(w),
    {
        FolderWatchRegistry { watches: Vec::new() }
    }

    /// The position of window `label`'s watch in the list, if any.
    fn find_watch(&self, label: &String) -> (r: Option<usize>)
        requires
            self.wf(),
        ensures
            match r {
                Some(k) => k < self.watches@.len() && self.watches@[k as int].label@ == label@
                    && self.entry(label@) == Some(self.watches@[k as int]),
                None => self.entry(label@) is None && forall|i: int|
                    0 <= i < self.watches@.len() ==> (#[trigger] self.watches@[i]).label@
                        != label@,
            },
    {
        let ghost s = self.watches@;
        let mut k: usize = 0;
        while k < self.watches.len()
            invariant
                k <= s.len(),
                self.watches@ == s,
                forall|i: int| 0 <= i < k ==> (#[trigger] s[i]).label@ != label@,
            decreases s.len() - k,
        {
            if str_eq(self.watches[k].label.as_str(), label.as_str()) {
                proof {
                    lemma_folder_entry_at(s, k as int, label@);
                }
                return Some(k);
            }
            k += 1;
        }
        proof {
            lemma_folder_entry_absent(s, label@);
        }
        None
    }

    /// Check what installing a watch for `label` on `canonical_root` needs.
    ///
    /// Fails with `NotADirectory` when the canonical path is not a
    /// directory. Returns `Ok(false)` when the window already watches the
    /// same canonical root: a no-op, and in particular the debounce state is
    /// not reset. Returns `Ok(true)` when an underlying watcher must be
    /// started, after which `commit_install` records it.
    pub fn begin_install(&self, label: &String, canonical_root: &String, is_dir: bool) -> (r:
        Result<bool, CoreError>)
        requires
            self.wf(),
        ensures
            match r {
                Err(e) => e == CoreError::NotADirectory && !is_dir,
                Ok(needs) => is_dir && (needs <==> !(self.has_watch(label@) && self.root_of(
                    label@,
                ) == canonical_root@)),
            },
    {
        if !is_dir {
            return Err(CoreError::NotADirectory);
        }
        match self.find_watch(label) {
            Some(k) => {
                if str_eq(self.watches[k].root.as_str(), canonical_root.as_str()) {
                    Ok(false)
                } else {
                    Ok(true)
                }
            },
            None => Ok(true),
        }
    }

    /// Record a newly started watch for `label` on `canonical_root`,
    /// replacing any previous watch for that window. The debounce state is
    /// fresh: the first qualifying event will emit.
    pub fn commit_install(&mut self, label: &String, canonical_root: &String)
        requires
            old(self).wf(),
        ensures
            final(self).wf(),
            final(self).has_watch(label@),
            final(self).root_of(label@) == canonical_root@,
            final(self).last_of(label@) is None,
            forall|w: Seq<char>| w != label@ ==> final(self).entry(w) == old(self).entry(w),
    {
        let e = FolderWatch {
            label: label.clone(),
            root: canonical_root.clone(),
            last_emitted: None,
        };
        match self.find_watch(label) {
            Some(k) => {
                let ghost s0 = self.watches@;
                let _ = self.watches.remove(k);
                self.watches.insert(k, e);
                proof {
                    let s1 = self.watches@;
                    assert(s1.len() == s0.len());
                    assert(forall|i: int|
                        0 <= i < s0.len() && i != k ==> #[trigger] s1[i] == s0[i]);
                    assert(s1[k as int].label@ == s0[k as int].label@);
                    lemma_folder_replace(s0, s1, k as int);
                }
            },
            None => {
                let ghost s0 = self.watches@;
                self.watches.push(e);
                proof {
                    let s1 = self.watches@;
                    assert(forall|i: int| 0 <= i < s0.len() ==> #[trigger] s1[i] == s0[i]);
                    lemma_folder_append(s0, s1, label@);
                }
            },
        }
    }

    /// Tear down the watch for window `label`, if any.
    pub fn clear(&mut self, label: &String)
        requires
            old(self).wf(),
        ensures
            final(self).wf(),
            !final(self).has_watch(label@),
            forall|w: Seq<char>| w != label@ ==> final(self).entry(w) == old(self).entry(w),
    {
        match self.find_watch(label) {
            Some(k) => {
                let ghost s0 = self.watches@;
                let _ = self.watches.remove(k);
                proof {
                    lemma_folder_delete(s0, self.watches@, k as int);
                }
            },
            None => {},
        }
    }

    /// Decide whether a filesystem event under `label`'s watched root emits
    /// a folder-changed notification at `now_ms`, and record the emission.
    ///
    /// Emits exactly when the kind qualifies, the window has a watch, and at
    /// least the debounce interval has passed since the last emission (or
    /// none was ever emitted). Event storms thus coalesce into at most one
    /// notification per interval per window.
    pub fn on_folder_event(&mut self, label: &String, kind: FsEventKind, now_ms: u64) -> (emit:
        bool)
        requires
            old(self).wf(),
        ensures
            final(self).wf(),
            emit == (folder_kind_qualifies(kind) && old(self).has_watch(label@) && folder_ready(
                old(self).last_of(label@),
                now_ms,
            )),
            forall|w: Seq<char>| final(self).has_watch(w) == old(self).has_watch(w),
            forall|w: Seq<char>| final(self).root_of(w) == old(self).root_of(w),
            forall|w: Seq<char>| w != label@ ==> final(self).last_of(w) == old(self).last_of(w),
            emit ==> final(self).last_of(label@) == Some(now_ms),
            !emit ==> final(self).last_of(label@) == old(self).last_of(label@),
    {
        if !should_emit_folder_watch_event(kind) {
            return false;
        }
        let k = match self.find_watch(label) {
            Some(k) => k,
            None => {
                return false;
            },
        };
        let ready = match self.watches[k].last_emitted {
            None => true,
            Some(t) => now_ms >= t && now_ms - t >= FOLDER_WATCH_DEBOUNCE_MS,
        };
        if !ready {
            return false;
        }
        let ghost s0 = self.watches@;
        let mut e = self.watches.remove(k);
        e.last_emitted = Some(now_ms);
        self.watches.insert(k, e);
        proof {
            let s1 = self.watches@;
            assert(s1.len() == s0.len());
            assert(forall|i: int| 0 <= i < s0.len() && i != k ==> #[trigger] s1[i] == s0[i]);
            assert(s1[k as int].label@ == s0[k as int].label@);
            lemma_folder_replace(s0, s1, k as int);
        }
        true
    }
}

// ---------------------------------------------------------------------------
// File watch registry
// ---------------------------------------------------------------------------

/// When a file-changed notification was last emitted for one watched path.
#[derive(Debug)]
pub struct PathStamp {
    pub path: String,
    pub at_ms: u64,
}

/// Paths key the stamp list at most once each.
pub open spec fn stamps_wf(s: Seq<PathStamp>) -> bool {
    forall|i: int, j: int|
        0 <= i < j < s.len() ==> (#[trigger] s[i]).path@ != (#[trigger] s[j]).path@
}

/// The stamp list as a map from path to the time last emitted.
pub open spec fn stamps_as_map(s: Seq<PathStamp>) -> Map<Seq<char>, u64>
    decreases s.len(),
{
    if s.len() == 0 {
        Map::empty()
    } else {
        stamps_as_map(s.drop_last()).insert(s.last().path@, s.last().at_ms)
    }
}

proof fn lemma_stamps_map_absent(s: Seq<PathStamp>, p: Seq<char>)
    requires
        forall|i: int| 0 <= i < s.len() ==> (#[trigger] s[i]).path@ != p,
    ensures
        !stamps_as_map(s).dom().contains(p),
    decreases s.len(),
{
    if s.len() > 0 {
        let d = s.drop_last();
        assert(forall|i: int| 0 <= i < d.len() ==> #[trigger] d[i] == s[i]);
        lemma_stamps_map_absent(d, p);
    }
}

proof fn lemma_stamps_map_at(s: Seq<PathStamp>, j: int)
    requires
        stamps_wf(s),
        0 <= j < s.len(),
    ensures
        stamps_as_map(s).dom().contains(s[j].path@),
        stamps_as_map(s)[s[j].path@] == s[j].at_ms,
    decreases s.len(),
{
    if j < s.len() - 1 {
        let d = s.drop_last();
        assert(forall|i: int| 0 <= i < d.len() ==> #[trigger] d[i] == s[i]);
        lemma_stamps_map_at(d, j);
        assert(s.last().path@ != s[j].path@);
    }
}

proof fn lemma_stamps_map_remove(s: Seq<PathStamp>, j: int)
    requires
        stamps_wf(s),
        0 <= j < s.len(),
    ensures
        stamps_wf(s.remove(j)),
        forall|i: int|
            0 <= i < s.remove(j).len() ==> (#[trigger] s.remove(j)[i]).path@ != s[j].path@,
        stamps_as_map(s.remove(j)) == stamps_as_map(s).remove(s[j].path@),
    decreases s.len(),
{
    let p = s[j].path@;
    let s1 = s.remove(j);
    assert(forall|i: int| 0 <= i < j ==> #[trigger] s1[i] == s[i]);
    assert(forall|i: int| j <= i < s1.len() ==> #[trigger] s1[i] == s[i + 1]);
    assert(stamps_wf(s1));
    assert forall|i: int| 0 <= i < s1.len() implies (#[trigger] s1[i]).path@ != p by {
        if i < j {
            assert(s[i].path@ != s[j].path@);
        } else {
            assert(s[i + 1].path@ != s[j].path@);
        }
    }
    if j == s.len() - 1 {
        assert(s1 =~= s.drop_last());
        lemma_stamps_map_absent(s.drop_last(), p);
        assert(stamps_as_map(s.drop_last()).insert(p, s[j].at_ms).remove(p) =~= stamps_as_map(
            s.drop_last(),
        ));
    } else {
        let d = s.drop_last();
        assert(forall|i: int| 0 <= i < d.len() ==> #[trigger] d[i] == s[i]);
        assert(stamps_wf(d));
        lemma_stamps_map_remove(d, j);
        assert(s1.drop_last() =~= d.remove(j));
        assert(s1.last() == s.last());
        assert(stamps_as_map(s1) == stamps_as_map(d).remove(p).insert(
            s.last().path@,
            s.last().at_ms,
        ));
        assert(s.last().path@ != p);
        assert(stamps_as_map(d).remove(p).insert(s.last().path@, s.last().at_ms)
            =~= stamps_as_map(d).insert(s.last().path@, s.last().at_ms).remove(p));
    }
}

/// The last-emitted time for `p`, if the map holds one.
pub open spec fn map_get(m: Map<Seq<char>, u64>, p: Seq<char>) -> Option<u64> {
    if m.dom().contains(p) {
        Some(m[p])
    } else {
        None
    }
}

/// The per-path timestamps after processing the event paths `ps` at
/// `now_ms`, front to back: each path that was ready is stamped `now_ms`.
pub open spec fn debounce_map(
    m: Map<Seq<char>, u64>,
    ps: Seq<Seq<char>>,
    now_ms: u64,
) -> Map<Seq<char>, u64>
    decreases ps.len(),
{
    if ps.len() == 0 {
        m
    } else {
        let mpre = debounce_map(m, ps.drop_last(), now_ms);
        if file_ready(map_get(mpre, ps.last()), now_ms) {
            mpre.insert(ps.last(), now_ms)
        } else {
            mpre
        }
    }
}

/// The paths among `ps`, in order, for which a notification is emitted at
/// `now_ms`: those whose own debounce interval has passed. A path appearing
/// twice in one event emits only once.
pub open spec fn debounce_emits(
    m: Map<Seq<char>, u64>,
    ps: Seq<Seq<char>>,
    now_ms: u64,
) -> Seq<Seq<char>>
    decreases ps.len(),
{
    if ps.len() == 0 {
        Seq::empty()
    } else {
        let pre = debounce_emits(m, ps.drop_last(), now_ms);
        let mpre = debounce_map(m, ps.drop_last(), now_ms);
        if file_ready(map_get(mpre, ps.last()), now_ms) {
            pre.push(ps.last())
        } else {
            pre
        }
    }
}

/// One window's file watch: the canonical watched paths and the per-path
/// debounce timestamps.
#[derive(Debug)]
pub struct FileWatch {
    pub label: String,
    pub paths: Vec<String>,
    pub stamps: Vec<PathStamp>,
}

/// Labels key the list at most once; each entry's stamps and paths are
/// themselves well formed.
pub open spec fn file_watch_wf(e: FileWatch) -> bool {
    stamps_wf(e.stamps@) && e.paths.deep_view().no_duplicates()
}

pub open spec fn file_wf(s: Seq<FileWatch>) -> bool {
    &&& forall|i: int, j: int|
        0 <= i < j < s.len() ==> (#[trigger] s[i]).label@ != (#[trigger] s[j]).label@
    &&& forall|i: int| 0 <= i < s.len() ==> file_watch_wf(#[trigger] s[i])
}

/// The file watch for window `w`, if any.
pub open spec fn file_entry(s: Seq<FileWatch>, w: Seq<char>) -> Option<FileWatch>
    decreases s.len(),
{
    if s.len() == 0 {
        None
    } else if s[0].label@ == w {
        Some(s[0])
    } else {
        file_entry(s.drop_first(), w)
    }
}

proof fn lemma_file_entry_absent(s: Seq<FileWatch>, w: Seq<char>)
    requires
        forall|i: int| 0 <= i < s.len() ==> (#[trigger] s[i]).label@ != w,
    ensures
        file_entry(s, w) is None,
    decreases s.len(),
{
    if s.len() > 0 {
        let d = s.drop_first();
        assert(forall|i: int| 0 <= i < d.len() ==> #[trigger] d[i] == s[i + 1]);
        lemma_file_entry_absent(d, w);
    }
}

proof fn lemma_file_entry_at(s: Seq<FileWatch>, k: int, w: Seq<char>)
    requires
        0 <= k < s.len(),
        s[k].label@ == w,
        forall|i: int| 0 <= i < k ==> (#[trigger] s[i]).label@ != w,
    ensures
        file_entry(s, w) == Some(s[k]),
    decreases k,
{
    if k > 0 {
        let d = s.drop_first();
        assert(forall|i: int| 0 <= i < d.len() ==> #[trigger] d[i] == s[i + 1]);
        lemma_file_entry_at(d, k - 1, w);
    }
}

proof fn lemma_file_replace(s0: Seq<FileWatch>, s1: Seq<FileWatch>, k: int)
    requires
        file_wf(s0),
        0 <= k < s0.len(),
        s1.len() == s0.len(),
        forall|i: int| 0 <= i < s0.len() && i != k ==> #[trigger] s1[i] == s0[i],
        s1[k].label@ == s0[k].label@,
        file_watch_wf(s1[k]),
    ensures
        file_wf(s1),
        file_entry(s1, s0[k].label@) == Some(s1[k]),
        forall|w: Seq<char>| w != s0[k].label@ ==> file_entry(s1, w) == file_entry(s0, w),
{
    let l = s0[k].label@;
    assert(forall|i: int| 0 <= i < s1.len() ==> (#[trigger] s1[i]).label@ == s0[i].label@);
    assert forall|i: int| 0 <= i < s1.len() implies file_watch_wf(#[trigger] s1[i]) by {
        if i != k {
            assert(file_watch_wf(s0[i]));
        }
    }
    assert(file_wf(s1));
    assert(forall|i: int| 0 <= i < k ==> (#[trigger] s1[i]).label@ != l);
    lemma_file_entry_at(s1, k, l);
    assert forall|w: Seq<char>| w != l implies file_entry(s1, w) == file_entry(s0, w) by {
        if exists|i: int| 0 <= i < s0.len() && (#[trigger] s0[i]).label@ == w {
            let k2 = choose|i: int| 0 <= i < s0.len() && (#[trigger] s0[i]).label@ == w;
            assert(forall|i: int|
                0 <= i < s0.len() && i != k2 ==> (#[trigger] s0[i]).label@ != w);
            lemma_file_entry_at(s0, k2, w);
            assert(k2 != k);
            assert(s1[k2] == s0[k2]);
            assert(forall|i: int| 0 <= i < k2 ==> (#[trigger] s1[i]).label@ != w);
            lemma_file_entry_at(s1, k2, w);
        } else {
            lemma_file_entry_absent(s0, w);
            assert(forall|i: int| 0 <= i < s1.len() ==> (#[trigger] s1[i]).label@ != w);
            lemma_file_entry_absent(s1, w);
        }
    }
}

proof fn lemma_file_append(s0: Seq<FileWatch>, s1: Seq<FileWatch>, l: Seq<char>)
    requires
        file_wf(s0),
        forall|i: int| 0 <= i < s0.len() ==> (#[trigger] s0[i]).label@ != l,
        s1.len() == s0.len() + 1,
        forall|i: int| 0 <= i < s0.len() ==> #[trigger] s1[i] == s0[i],
        s1[s0.len() as int].label@ == l,
        file_watch_wf(s1[s0.len() as int]),
    ensures
        file_wf(s1),
        file_entry(s1, l) == Some(s1[s0.len() as int]),
        forall|w: Seq<char>| w != l ==> file_entry(s1, w) == file_entry(s0, w),
{
    let n = s0.len() as int;
    assert forall|i: int| 0 <= i < s1.len() implies file_watch_wf(#[trigger] s1[i]) by {
        if i < n {
            assert(file_watch_wf(s0[i]));
        }
    }
    assert(file_wf(s1));
    assert(forall|i: int| 0 <= i < n ==> (#[trigger] s1[i]).label@ != l);
    lemma_file_entry_at(s1, n, l);
    assert forall|w: Seq<char>| w != l implies file_entry(s1, w) == file_entry(s0, w) by {
        if exists|i: int| 0 <= i < s0.len() && (#[trigger] s0[i]).label@ == w {
            let k2 = choose|i: int| 0 <= i < s0.len() && (#[trigger] s0[i]).label@ == w;
            assert(forall|i: int|
                0 <= i < s0.len() && i != k2 ==> (#[trigger] s0[i]).label@ != w);
            lemma_file_entry_at(s0, k2, w);
            assert(forall|i: int| 0 <= i < k2 ==> (#[trigger] s1[i]).label@ != w);
            lemma_file_entry_at(s1, k2, w);
        } else {
            lemma_file_entry_absent(s0, w);
            assert(forall|i: int| 0 <= i < s1.len() ==> (#[trigger] s1[i]).label@ != w);
            lemma_file_entry_absent(s1, w);
        }
    }
}

proof fn lemma_file_delete(s0: Seq<FileWatch>, s1: Seq<FileWatch>, k: int)
    requires
        file_wf(s0),
        0 <= k < s0.len(),
        s1 == s0.remove(k),
    ensures
        file_wf(s1),
        file_entry(s1, s0[k].label@) is None,
        forall|w: Seq<char>| w != s0[k].label@ ==> file_entry(s1, w) == file_entry(s0, w),
{
    let l = s0[k].label@;
    assert(s1.len() == s0.len() - 1);
    assert(forall|i: int| 0 <= i < k ==> #[trigger] s1[i] == s0[i]);
    assert(forall|i: int| k <= i < s1.len() ==> #[trigger] s1[i] == s0[i + 1]);
    assert forall|i: int| 0 <= i < s1.len() implies file_watch_wf(#[trigger] s1[i]) by {
        if i < k {
            assert(file_watch_wf(s0[i]));
        } else {
            assert(file_watch_wf(s0[i + 1]));
        }
    }
    assert(file_wf(s1));
    assert forall|i: int| 0 <= i < s1.len() implies (#[trigger] s1[i]).label@ != l by {
        if i < k {
            assert(s0[i].label@ != s0[k].label@);
        } else {
            assert(s0[i + 1].label@ != s0[k].label@);
        }
    }
    lemma_file_entry_absent(s1, l);
    assert forall|w: Seq<char>| w != l implies file_entry(s1, w) == file_entry(s0, w) by {
        if exists|i: int| 0 <= i < s0.len() && (#[trigger] s0[i]).label@ == w {
            let k2 = choose|i: int| 0 <= i < s0.len() && (#[trigger] s0[i]).label@ == w;
            assert(forall|i: int|
                0 <= i < s0.len() && i != k2 ==> (#[trigger] s0[i]).label@ != w);
            lemma_file_entry_at(s0, k2, w);
            let k2n = if k2 < k { k2 } else { k2 - 1 };
            assert(s1[k2n] == s0[k2]);
            assert(forall|i: int| 0 <= i < k2n ==> (#[trigger] s1[i]).label@ != w);
            lemma_file_entry_at(s1, k2n, w);
        } else {
            lemma_file_entry_absent(s0, w);
            assert forall|i: int| 0 <= i < s1.len() implies (#[trigger] s1[i]).label@ != w by {
                if i < k {
                    assert(s0[i].label@ != w);
                } else {
                    assert(s0[i + 1].label@ != w);
                }
            }
            lemma_file_entry_absent(s1, w);
        }
    }
}

/// The position of `p` in the stamp list, if it carries a stamp.
fn find_stamp(stamps: &Vec<PathStamp>, p: &String) -> (r: Option<usize>)
    ensures
        match r {
            Some(j) => j < stamps@.len() && stamps@[j as int].path@ == p@,
            None => forall|i: int| 0 <= i < stamps@.len() ==> (#[trigger] stamps@[i]).path@
                != p@,
        },
{
    let mut j: usize = 0;
    while j < stamps.len()
        invariant
            j <= stamps@.len(),
            forall|i: int| 0 <= i < j ==> (#[trigger] stamps@[i]).path@ != p@,
        decreases stamps@.len() - j,
    {
        if str_eq(stamps[j].path.as_str(), p.as_str()) {
            return Some(j);
        }
        j += 1;
    }
    None
}

/// What the filesystem reported about one raw path handed to the file
/// watcher: its canonical form and whether it is an existing regular file.
#[derive(Debug)]
pub struct FileProbe {
    pub canonical: String,
    pub is_file: bool,
}

/// The canonical paths that survive normalization: existing regular files,
/// first occurrence kept, later duplicates dropped.
pub open spec fn normalized_paths(s: Seq<FileProbe>) -> Seq<Seq<char>>
    decreases s.len(),
{
    if s.len() == 0 {
        Seq::empty()
    } else {
        let pre = normalized_paths(s.drop_last());
        if s.last().is_file && !pre.contains(s.last().canonical@) {
            pre.push(s.last().canonical@)
        } else {
            pre
        }
    }
}

/// Canonicalized candidate paths are filtered to existing regular files,
/// deduplicated, and sorted lexicographically.
pub fn normalize_watched_file_paths(probes: &Vec<FileProbe>) -> (r: Vec<String>)
    ensures
        r.deep_view() == sort_lex(normalized_paths(probes@)),
        r.deep_view().no_duplicates(),
        sorted_lex(r.deep_view()),
{
    let mut out: Vec<String> = Vec::new();
    let mut i: usize = 0;
    while i < probes.len()
        invariant
            i <= probes@.len(),
            out.deep_view() == normalized_paths(probes@.take(i as int)),
            out.deep_view().no_duplicates(),
        decreases probes@.len() - i,
    {
        let pr = &probes[i];
        if pr.is_file && !vec_contains_string(&out, &pr.canonical) {
            out.push(pr.canonical.clone());
        }
        proof {
            let pre = probes@.take(i as int);
            let post = probes@.take(i + 1);
            assert(post.drop_last() =~= pre);
            assert(post.last() == probes@[i as int]);
            assert(out.deep_view() =~= normalized_paths(post));
        }
        i += 1;
    }
    proof {
        assert(probes@.take(probes@.len() as int) =~= probes@);
        lemma_sort_lex_no_duplicates(normalized_paths(probes@));
        lemma_sort_lex_sorted(normalized_paths(probes@));
    }
    sort_strings(out)
}

/// Two path lists hold the same set of paths.
pub open spec fn same_path_set(a: Seq<Seq<char>>, b: Seq<Seq<char>>) -> bool {
    forall|x: Seq<char>| a.contains(x) <==> b.contains(x)
}

/// Whether `a` and `b` hold the same paths, in any order.
fn vecs_same_path_set(a: &Vec<String>, b: &Vec<String>) -> (r: bool)
    ensures
        r == same_path_set(a.deep_view(), b.deep_view()),
{
    let mut i: usize = 0;
    while i < a.len()
        invariant
            i <= a@.len(),
            forall|j: int| 0 <= j < i ==> b.deep_view().contains(#[trigger] a.deep_view()[j]),
        decreases a@.len() - i,
    {
        if !vec_contains_string(b, &a[i]) {
            proof {
                assert(a.deep_view().contains(a.deep_view()[i as int]));
            }
            return false;
        }
        i += 1;
    }
    let mut j: usize = 0;
    while j < b.len()
        invariant
            j <= b@.len(),
            forall|j2: int| 0 <= j2 < a@.len() ==> b.deep_view().contains(
                #[trigger] a.deep_view()[j2],
            ),
            forall|j2: int| 0 <= j2 < j ==> a.deep_view().contains(#[trigger] b.deep_view()[j2]),
        decreases b@.len() - j,
    {
        if !vec_contains_string(a, &b[j]) {
            proof {
                assert(b.deep_view().contains(b.deep_view()[j as int]));
            }
            return false;
        }
        j += 1;
    }
    proof {
        assert forall|x: Seq<char>| a.deep_view().contains(x) implies b.deep_view().contains(
            x,
        ) by {
            let k = choose|k: int| 0 <= k < a.deep_view().len() && a.deep_view()[k] == x;
            assert(b.deep_view().contains(a.deep_view()[k]));
        }
        assert forall|x: Seq<char>| b.deep_view().contains(x) implies a.deep_view().contains(
            x,
        ) by {
            let k = choose|k: int| 0 <= k < b.deep_view().len() && b.deep_view()[k] == x;
            assert(a.deep_view().contains(b.deep_view()[k]));
        }
    }
    true
}

/// What installing a file watch requires of the embedding runtime.
#[derive(Clone, Copy, Debug, PartialEq, Eq, Structural)]
pub enum FileInstallStep {
    /// The normalized path set is empty: just clear any existing watch.
    ClearOnly,
    /// The window already watches exactly this path set: do nothing.
    AlreadyWatching,
    /// Start an OS watch on each path, then commit.
    NeedsWatcher,
}

/// One debounced file watch per window over an explicit path set.
/// Debouncing is per individual path: a change to one path never suppresses
/// a notification for another.
#[derive(Debug)]
pub struct FileWatchRegistry {
    pub watches: Vec<FileWatch>,
}

impl FileWatchRegistry {
    /// Each window has at most one file watch, with well-formed contents.
    pub open spec fn wf(&self) -> bool {
        file_wf(self.watches@)
    }

    /// The watch entry for window `w`, if any.
    pub open spec fn entry(&self, w: Seq<char>) -> Option<FileWatch> {
        file_entry(self.watches@, w)
    }

    /// Whether window `w` has a file watch installed.
    pub open spec fn has_watch(&self, w: Seq<char>) -> bool {
        self.entry(w) is Some
    }

    /// The canonical paths watched for window `w` (empty when none).
    pub open spec fn paths_of(&self, w: Seq<char>) -> Seq<Seq<char>> {
        match self.entry(w) {
            Some(e) => e.paths.deep_view(),
            None => Seq::empty(),
        }
    }

    /// The per-path last-emitted times for window `w` (empty when none).
    pub open spec fn stamps_of(&self, w: Seq<char>) -> Map<Seq<char>, u64> {
        match self.entry(w) {
            Some(e) => stamps_as_map(e.stamps@),
            None => Map::empty(),
        }
    }

    /// An empty registry.
    pub fn new() -> (r: Self)
        ensures
            r.wf(),
            forall|w: Seq<char>| !r.has_watch(w),
    {
        FileWatchRegistry { watches: Vec::new() }
    }

    /// The position of window `label`'s watch in the list, if any.
    fn find_watch(&self, label: &String) -> (r: Option<usize>)
        requires
            self.wf(),
        ensures
            match r {
                Some(k) => k < self.watches@.len() && self.watches@[k as int].label@ == label@
                    && self.entry(label@) == Some(self.watches@[k as int]),
                None => self.entry(label@) is None && forall|i: int|
                    0 <= i < self.watches@.len() ==> (#[trigger] self.watches@[i]).label@
                        != label@,
            },
    {
        let ghost s = self.watches@;
        let mut k: usize = 0;
        while k < self.watches.len()
            invariant
                k <= s.len(),
                self.watches@ == s,
                forall|i: int| 0 <= i < k ==> (#[trigger] s[i]).label@ != label@,
            decreases s.len() - k,
        {
            if str_eq(self.watches[k].label.as_str(), label.as_str()) {
                proof {
                    lemma_file_entry_at(s, k as int, label@);
                }
                return Some(k);
            }
            k += 1;
        }
        proof {
            lemma_file_entry_absent(s, label@);
        }
        None
    }

    /// Check what installing a watch for `label` over the already
    /// normalized paths requires.
    ///
    /// An empty normalized set is equivalent to clearing the watch. A set
    /// identical to the window's current one is a no-op, and in particular
    /// keeps the per-path debounce state. Otherwise an OS watch per path
    /// must be started, after which `commit_install` records it.
    pub fn begin_install(&self, label: &String, normalized: &Vec<String>) -> (r: FileInstallStep)
        requires
            self.wf(),
        ensures
            (r == FileInstallStep::ClearOnly) <==> normalized@.len() == 0,
            (r == FileInstallStep::AlreadyWatching) <==> (normalized@.len() > 0 && self.has_watch(
                label@,
            ) && same_path_set(self.paths_of(label@), normalized.deep_view())),
    {
        if normalized.len() == 0 {
            return FileInstallStep::ClearOnly;
        }
        match self.find_watch(label) {
            Some(k) => {
                if vecs_same_path_set(&self.watches[k].paths, normalized) {
                    FileInstallStep::AlreadyWatching
                } else {
                    FileInstallStep::NeedsWatcher
                }
            },
            None => FileInstallStep::NeedsWatcher,
        }
    }

    /// Record a newly started watch for `label` over `normalized`,
    /// replacing any previous watch for that window. The per-path debounce
    /// state starts fresh: the first qualifying event on any path emits.
    pub fn commit_install(&mut self, label: &String, normalized: Vec<String>)
        requires
            old(self).wf(),
            normalized.deep_view().no_duplicates(),
        ensures
            final(self).wf(),
            final(self).has_watch(label@),
            final(self).paths_of(label@) == normalized.deep_view(),
            final(self).stamps_of(label@) == Map::<Seq<char>, u64>::empty(),
            forall|w: Seq<char>| w != label@ ==> final(self).entry(w) == old(self).entry(w),
    {
        let e = FileWatch { label: label.clone(), paths: normalized, stamps: Vec::new() };
        proof {
            assert(file_watch_wf(e));
        }
        match self.find_watch(label) {
            Some(k) => {
                let ghost s0 = self.watches@;
                let _ = self.watches.remove(k);
                self.watches.insert(k, e);
                proof {
                    let s1 = self.watches@;
                    assert(s1.len() == s0.len());
                    assert(forall|i: int|
                        0 <= i < s0.len() && i != k ==> #[trigger] s1[i] == s0[i]);
                    assert(s1[k as int].label@ == s0[k as int].label@);
                    lemma_file_replace(s0, s1, k as int);
                }
            },
            None => {
                let ghost s0 = self.watches@;
                self.watches.push(e);
                proof {
                    let s1 = self.watches@;
                    assert(forall|i: int| 0 <= i < s0.len() ==> #[trigger] s1[i] == s0[i]);
                    lemma_file_append(s0, s1, label@);
                }
            },
        }
    }

    /// Tear down the watch for window `label`, if any.
    pub fn clear(&mut self, label: &String)
        requires
            old(self).wf(),
        ensures
            final(self).wf(),
            !final(self).has_watch(label@),
            forall|w: Seq<char>| w != label@ ==> final(self).entry(w) == old(self).entry(w),
    {
        match self.find_watch(label) {
            Some(k) => {
                let ghost s0 = self.watches@;
                let _ = self.watches.remove(k);
                proof {
                    lemma_file_delete(s0, self.watches@, k as int);
                }
            },
            None => {},
        }
    }

    /// Decide which of the event's paths emit a file-changed notification
    /// for window `label` at `now_ms`, and record each emission.
    ///
    /// Each path carries its own debounce timestamp: a path emits exactly
    /// when its own interval has passed (or it never emitted), whatever
    /// happened to other paths. The returned paths are in event order.
    pub fn on_file_event(
        &mut self,
        label: &String,
        kind: FsEventKind,
        event_paths: &Vec<String>,
        now_ms: u64,
    ) -> (emits: Vec<String>)
        requires
            old(self).wf(),
        ensures
            final(self).wf(),
            forall|w: Seq<char>| final(self).has_watch(w) == old(self).has_watch(w),
            forall|w: Seq<char>| final(self).paths_of(w) == old(self).paths_of(w),
            forall|w: Seq<char>| w != label@ ==> final(self).stamps_of(w) == old(self).stamps_of(
                w,
            ),
            (file_kind_qualifies(kind) && old(self).has_watch(label@)) ==> {
                &&& emits.deep_view() == debounce_emits(
                    old(self).stamps_of(label@),
                    event_paths.deep_view(),
                    now_ms,
                )
                &&& final(self).stamps_of(label@) == debounce_map(
                    old(self).stamps_of(label@),
                    event_paths.deep_view(),
                    now_ms,
                )
            },
            !(file_kind_qualifies(kind) && old(self).has_watch(label@)) ==> emits@.len() == 0
                && final(self).stamps_of(label@) == old(self).stamps_of(label@),
    {
        if !should_emit_file_watch_event(kind) {
            return Vec::new();
        }
        let k = match self.find_watch(label) {
            Some(k) => k,
            None => {
                return Vec::new();
            },
        };
        let ghost s0 = self.watches@;
        let ghost m0 = stamps_as_map(s0[k as int].stamps@);
        let ghost eps = event_paths.deep_view();
        let mut e = self.watches.remove(k);
        let ghost lab = e.label@;
        let ghost paths0 = e.paths.deep_view();
        let mut emits: Vec<String> = Vec::new();
        let mut i: usize = 0;
        while i < event_paths.len()
            invariant
                i <= eps.len(),
                eps == event_paths.deep_view(),
                e.label@ == lab,
                e.paths.deep_view() == paths0,
                stamps_wf(e.stamps@),
                stamps_as_map(e.stamps@) == debounce_map(m0, eps.take(i as int), now_ms),
                emits.deep_view() == debounce_emits(m0, eps.take(i as int), now_ms),
            decreases eps.len() - i,
        {
            let ghost pre = eps.take(i as int);
            let ghost post = eps.take(i + 1);
            let ghost mpre = debounce_map(m0, pre, now_ms);
            proof {
                assert(post.drop_last() =~= pre);
                assert(post.last() == eps[i as int]);
                assert(eps[i as int] == event_paths@[i as int]@);
            }
            let p = &event_paths[i];
            let j_found = find_stamp(&e.stamps, p);
            match j_found {
                Some(j) => {
                    proof {
                        lemma_stamps_map_at(e.stamps@, j as int);
                        assert(map_get(mpre, eps[i as int]) == Some(e.stamps@[j as int].at_ms));
                    }
                    let t = e.stamps[j].at_ms;
                    if now_ms >= t && now_ms - t >= FILE_WATCH_DEBOUNCE_MS {
                        proof {
                            lemma_stamps_map_remove(e.stamps@, j as int);
                        }
                        let ghost st0 = e.stamps@;
                        let mut st = e.stamps.remove(j);
                        st.at_ms = now_ms;
                        let ghost st1 = e.stamps@;
                        e.stamps.push(st);
                        emits.push(p.clone());
                        proof {
                            let st2 = e.stamps@;
                            assert(st2.drop_last() =~= st1);
                            assert(st2.last().path@ == p@);
                            assert(st2.last().at_ms == now_ms);
                            assert(stamps_as_map(st2) == stamps_as_map(st1).insert(p@, now_ms));
                            assert(stamps_as_map(st1) == mpre.remove(p@));
                            assert(mpre.remove(p@).insert(p@, now_ms) =~= mpre.insert(
                                p@,
                                now_ms,
                            ));
                            assert forall|j2: int|
                                0 <= j2 < st2.len() - 1 implies (#[trigger] st2[j2]).path@
                                    != p@ by {
                                assert(st2[j2] == st1[j2]);
                            }
                            assert(stamps_wf(st2));
                            assert(stamps_as_map(e.stamps@) =~= debounce_map(m0, post, now_ms));
                            assert(emits.deep_view() =~= debounce_emits(m0, post, now_ms));
                        }
                    } else {
                        proof {
                            assert(!file_ready(map_get(mpre, eps[i as int]), now_ms));
                            assert(stamps_as_map(e.stamps@) == debounce_map(m0, post, now_ms));
                            assert(emits.deep_view() =~= debounce_emits(m0, post, now_ms));
                        }
                    }
                },
                None => {
                    proof {
                        lemma_stamps_map_absent(e.stamps@, p@);
                        assert(map_get(mpre, eps[i as int]) is None);
                    }
                    let ghost st1 = e.stamps@;
                    e.stamps.push(PathStamp { path: p.clone(), at_ms: now_ms });
                    emits.push(p.clone());
                    proof {
                        let st2 = e.stamps@;
                        assert(st2.drop_last() =~= st1);
                        assert(st2.last().path@ == p@);
                        assert(st2.last().at_ms == now_ms);
                        assert(stamps_as_map(st2) == stamps_as_map(st1).insert(p@, now_ms));
                        assert forall|j2: int|
                            0 <= j2 < st2.len() - 1 implies (#[trigger] st2[j2]).path@ != p@ by {
                            assert(st2[j2] == st1[j2]);
                        }
                        assert(stamps_wf(st2));
                        assert(stamps_as_map(e.stamps@) =~= debounce_map(m0, post, now_ms));
                        assert(emits.deep_view() =~= debounce_emits(m0, post, now_ms));
                    }
                },
            }
            i += 1;
        }
        self.watches.insert(k, e);
        proof {
            assert(eps.take(eps.len() as int) =~= eps);
            let s1 = self.watches@;
            assert(s1.len() == s0.len());
            assert(forall|i2: int| 0 <= i2 < s0.len() && i2 != k ==> #[trigger] s1[i2] == s0[i2]);
            assert(s1[k as int].label@ == s0[k as int].label@);
            assert(file_watch_wf(s1[k as int]));
            lemma_file_replace(s0, s1, k as int);
        }
        emits
    }
}

/// Folder-watch debouncing coalesces bursts. If an event for window `w`
/// emitted at `t1`, then any further qualifying event for `w` less than the
/// debounce interval later is dropped. The states are related exactly as
/// `on_folder_event`'s contract relates them.
pub proof fn lemma_folder_watch_debounce(
    r0: FolderWatchRegistry,
    r1: FolderWatchRegistry,
    w: Seq<char>,
    k2: FsEventKind,
    t1: u64,
    t2: u64,
    emit2: bool,
)
    requires
        // r1 arises from r0 by an on_folder_event(w, _, t1) that emitted
        r1.last_of(w) == Some(t1),
        // the second event arrives within the debounce interval
        t2 < t1 + FOLDER_WATCH_DEBOUNCE_MS,
        // emit2 is what on_folder_event(w, k2, t2) decides on r1
        emit2 == (folder_kind_qualifies(k2) && r1.has_watch(w) && folder_ready(
            r1.last_of(w),
            t2,
        )),
    ensures
        !emit2,
{
}

/// File-watch debouncing is per path, not per window: an event for path `a`
/// never suppresses path `b`'s notification. If `b` is ready at `t2`, it
/// still emits after an event for a different path `a` at `t1` — even one
/// less than the debounce interval earlier.
pub proof fn lemma_file_debounce_per_path(
    m: Map<Seq<char>, u64>,
    a: Seq<char>,
    b: Seq<char>,
    t1: u64,
    t2: u64,
)
    requires
        a != b,
        file_ready(map_get(m, b), t2),
    ensures
        debounce_emits(debounce_map(m, seq![a], t1), seq![b], t2) == seq![b],
{
    let e0 = Seq::<Seq<char>>::empty();
    let ea = seq![a];
    let eb = seq![b];
    assert(ea.drop_last() =~= e0);
    assert(eb.drop_last() =~= e0);
    assert(ea.last() == a);
    assert(eb.last() == b);
    assert(debounce_map(m, e0, t1) == m);
    let m1 = debounce_map(m, ea, t1);
    assert(m1 == (if file_ready(map_get(m, a), t1) {
        m.insert(a, t1)
    } else {
        m
    }));
    assert(map_get(m1, b) == map_get(m, b));
    assert(debounce_map(m1, e0, t2) == m1);
    assert(debounce_emits(m1, e0, t2) == Seq::<Seq<char>>::empty());
    assert(debounce_emits(m1, eb, t2) == Seq::<Seq<char>>::empty().push(b));
    assert(Seq::<Seq<char>>::empty().push(b) =~= seq![b]);
}

/// From a freshly installed file watch (no per-path stamps yet), paths `a`
/// and `b` changing in one burst both emit, in order.
pub proof fn lemma_fresh_file_watch_emits_both(a: Seq<char>, b: Seq<char>, t: u64)
    requires
        a != b,
    ensures
        debounce_emits(Map::empty(), seq![a, b], t) == seq![a, b],
{
    let m0 = Map::<Seq<char>, u64>::empty();
    let e0 = Seq::<Seq<char>>::empty();
    let ea = seq![a];
    let ps = seq![a, b];
    assert(ps.drop_last() =~= ea);
    assert(ps.last() == b);
    assert(ea.drop_last() =~= e0);
    assert(ea.last() == a);
    assert(debounce_map(m0, e0, t) == m0);
    assert(debounce_emits(m0, e0, t) == Seq::<Seq<char>>::empty());
    assert(!m0.dom().contains(a));
    assert(debounce_emits(m0, ea, t) == Seq::<Seq<char>>::empty().push(a));
    let m1 = debounce_map(m0, ea, t);
    assert(m1 == m0.insert(a, t));
    assert(!m1.dom().contains(b));
    assert(debounce_emits(m0, ps, t) == debounce_emits(m0, ea, t).push(b));
    assert(debounce_emits(m0, ps, t) =~= seq![a, b]);
}

} // verus!
