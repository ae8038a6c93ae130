use crate::launch::{filter_openable, openable_of, PathEntry};
use crate::pending::PendingOpenPaths;
use crate::text::{dec_digits, u64_to_dec_string};
use crate::watch::{FileWatchRegistry, FolderWatchRegistry};
use vstd::prelude::*;

verus! {

/// The label given to the `n`-th window created in this process.
pub open spec fn window_label(n: nat) -> Seq<char> {
    "teex-window-"@ + dec_digits(n)
}

/// Allocates process-unique window labels, monotonically; a label is never
/// reused even after its window closes.
#[derive(Debug)]
pub struct WindowLabelAllocator {
    pub next_id: u64,
}

impl WindowLabelAllocator {
    /// An allocator whose first label is number 1.
    pub fn new() -> (r: Self)
        ensures
            r.next_id == 1,
    {
        WindowLabelAllocator { next_id: 1 }
    }

    /// The next fresh window label.
    pub fn next_window_label(&mut self) -> (r: String)
        requires
            old(self).next_id < u64::MAX,
        ensures
            final(self).next_id == old(self).next_id + 1,
            r@ == window_label(old(self).next_id as nat),
    {
        let n = self.next_id;
        self.next_id = n + 1;
        let digits = u64_to_dec_string(n);
        let mut s = "teex-window-".to_owned();
        s.append(digits.as_str());
        s
    }
}

/// Purge everything a closed window owned: its folder watch, its file
/// watch, and its per-window pending paths. The global pending queue is
/// untouched: it is not window-scoped.
pub fn on_window_destroyed(
    label: &String,
    folder_watches: &mut FolderWatchRegistry,
    file_watches: &mut FileWatchRegistry,
    pending: &mut PendingOpenPaths,
)
    requires
        old(folder_watches).wf(),
        old(file_watches).wf(),
        old(pending).wf(),
    ensures
        final(folder_watches).wf(),
        final(file_watches).wf(),
        final(pending).wf(),
        !final(folder_watches).has_watch(label@),
        !final(file_watches).has_watch(label@),
        final(pending).for_window(label@) == Seq::<Seq<char>>::empty(),
        final(pending).global() == old(pending).global(),
        forall|w: Seq<char>|
            w != label@ ==> final(folder_watches).entry(w) == old(folder_watches).entry(w),
        forall|w: Seq<char>|
            w != label@ ==> final(file_watches).entry(w) == old(file_watches).entry(w),
        forall|w: Seq<char>|
            w != label@ ==> final(pending).for_window(w) == old(pending).for_window(w),
{
    folder_watches.clear(label);
    file_watches.clear(label);
    pending.clear_pending_open_paths_for_window(label);
}

/// Reserve a new window for a batch of paths: allocate its label and queue
/// the openable paths for it.
///
/// Returns `None`, changing nothing, when no path survives filtering. On
/// `Some(label)` the embedding runtime must build the window; if building
/// fails it must roll the reservation back with
/// `clear_pending_open_paths_for_window`, so no paths leak into a queue
/// that no window will ever drain.
pub fn begin_open_paths_in_new_window(
    alloc: &mut WindowLabelAllocator,
    pending: &mut PendingOpenPaths,
    entries: &Vec<PathEntry>,
) -> (r: Option<String>)
    requires
        old(alloc).next_id < u64::MAX,
        old(pending).wf(),
    ensures
        final(pending).wf(),
        final(pending).global() == old(pending).global(),
        openable_of(entries@).len() == 0 ==> {
            &&& r is None
            &&& final(alloc).next_id == old(alloc).next_id
            &&& forall|w: Seq<char>| final(pending).for_window(w) == old(pending).for_window(w)
        },
        openable_of(entries@).len() > 0 ==> match r {
            Some(label) => {
                &&& label@ == window_label(old(alloc).next_id as nat)
                &&& final(alloc).next_id == old(alloc).next_id + 1
                &&& final(pending).for_window(label@) == old(pending).for_window(label@)
                    + openable_of(entries@)
                &&& forall|w: Seq<char>|
                    w != label@ ==> final(pending).for_window(w) == old(pending).for_window(w)
            },
            None => false,
        },
{
    let open_paths = filter_openable(entries);
    if open_paths.len() == 0 {
        return None;
    }
    let label = alloc.next_window_label();
    pending.queue_open_paths_for_window(&label, &open_paths);
    Some(label)
}

} // verus!
