use crate::text::str_eq;
use vstd::prelude::*;

verus! {

/// The paths queued for one window, keyed by the window's label.
#[derive(Debug)]
pub struct WindowQueue {
    pub label: String,
    pub paths: Vec<String>,
}

/// Labels key the queue list at most once each.
pub open spec fn queues_wf(s: Seq<WindowQueue>) -> bool {
    forall|i: int, j: int| 0 <= i < j < s.len() ==> (#[trigger] s[i]).label@ != (#[trigger] s[j]).label@
}

/// The paths queued for window `w` in the queue list `s`.
pub open spec fn queued_for(s: Seq<WindowQueue>, w: Seq<char>) -> Seq<Seq<char>>
    decreases s.len(),
{
    if s.len() == 0 {
        Seq::empty()
    } else if s[0].label@ == w {
        s[0].paths.deep_view()
    } else {
        queued_for(s.drop_first(), w)
    }
}

proof fn lemma_queued_absent(s: Seq<WindowQueue>, w: Seq<char>)
    requires
        forall|i: int| 0 <= i < s.len() ==> (#[trigger] s[i]).label@ != w,
    ensures
        queued_for(s, w) == Seq::<Seq<char>>::empty(),
    decreases s.len(),
{
    if s.len() > 0 {
        let d = s.drop_first();
        assert(forall|i: int| 0 <= i < d.len() ==> #[trigger] d[i] == s[i + 1]);
        lemma_queued_absent(d, w);
    }
}

proof fn lemma_queued_at(s: Seq<WindowQueue>, k: int, w: Seq<char>)
    requires
        0 <= k < s.len(),
        s[k].label@ == w,
        forall|i: int| 0 <= i < k ==> (#[trigger] s[i]).label@ != w,
    ensures
        queued_for(s, w) == s[k].paths.deep_view(),
    decreases k,
{
    if k > 0 {
        let d = s.drop_first();
        assert(forall|i: int| 0 <= i < d.len() ==> #[trigger] d[i] == s[i + 1]);
        lemma_queued_at(d, k - 1, w);
    }
}

/// Push each element of `src`, cloned, onto `dst`.
pub fn append_cloned(dst: &mut Vec<String>, src: &Vec<String>)
    ensures
        final(dst).deep_view() == old(dst).deep_view() + src.deep_view(),
{
    let ghost orig = dst.deep_view();
    let mut i: usize = 0;
    while i < src.len()
        invariant
            i <= src@.len(),
            dst.deep_view() == orig + src.deep_view().take(i as int),
        decreases src@.len() - i,
    {
        proof {
            assert(dst.deep_view() == orig + src.deep_view().take(i as int));
            assert(src.deep_view().take(i as int).len() == i);
            assert(dst@.len() == dst.deep_view().len());
        }
        let x = &src[i];
        dst.push(x.clone());
        proof {
            let dv = dst.deep_view();
            let rhs = orig + src.deep_view().take(i + 1);
            assert(dv.len() == rhs.len());
            assert forall|j: int| 0 <= j < dv.len() implies dv[j] == rhs[j] by {
                if j < dv.len() - 1 {
                    assert(dv[j] == (orig + src.deep_view().take(i as int))[j]);
                } else {
                    assert(dv[j] == src@[i as int]@);
                    assert(rhs[j] == src.deep_view()[i as int]);
                }
            }
            assert(dv =~= rhs);
        }
        i += 1;
    }
    proof {
        assert(orig + src.deep_view().take(src.deep_view().len() as int) =~= orig
            + src.deep_view());
    }
}

/// The process-wide store of filesystem paths waiting to be delivered to a
/// window that does not exist yet or has not asked for them.
///
/// Paths queued globally are claimed by the first window that drains;
/// paths queued for a specific window are delivered only to it. Draining is
/// destructive: each path is handed out at most once.
#[derive(Debug)]
pub struct PendingOpenPaths {
    pub global_paths: Vec<String>,
    pub by_window: Vec<WindowQueue>,
}

impl PendingOpenPaths {
    /// Each window label keys at most one queue.
    pub open spec fn wf(&self) -> bool {
        queues_wf(self.by_window@)
    }

    /// The globally queued paths, in append order.
    pub open spec fn global(&self) -> Seq<Seq<char>> {
        self.global_paths.deep_view()
    }

    /// The paths queued for window `w`, in append order.
    pub open spec fn for_window(&self, w: Seq<char>) -> Seq<Seq<char>> {
        queued_for(self.by_window@, w)
    }

    /// An empty store: no global paths and no per-window paths.
    pub fn new() -> (r: Self)
        ensures
            r.wf(),
            r.global() == Seq::<Seq<char>>::empty(),
            forall|w: Seq<char>| r.for_window(w) == Seq::<Seq<char>>::empty(),
    {
        let r = PendingOpenPaths { global_paths: Vec::new(), by_window: Vec::new() };
        proof {
            assert(forall|w: Seq<char>| r.for_window(w) == Seq::<Seq<char>>::empty());
            assert(r.global() =~= Seq::<Seq<char>>::empty());
        }
        r
    }

    /// Queue paths for whichever window drains first.
    pub fn queue_open_paths(&mut self, paths: &Vec<String>)
        requires
            old(self).wf(),
        ensures
            final(self).wf(),
            final(self).global() == old(self).global() + paths.deep_view(),
            forall|w: Seq<char>| final(self).for_window(w) == old(self).for_window(w),
    {
        append_cloned(&mut self.global_paths, paths);
    }

    /// Remove and return the queue of window `label`, if it has one.
    fn remove_queue(&mut self, label: &String) -> (r: Option<Vec<String>>)
        requires
            old(self).wf(),
        ensures
            final(self).wf(),
            final(self).global() == old(self).global(),
            match r {
                Some(v) => v.deep_view() == old(self).for_window(label@),
                None => old(self).for_window(label@) == Seq::<Seq<char>>::empty(),
            },
            final(self).for_window(label@) == Seq::<Seq<char>>::empty(),
            forall|w: Seq<char>| w != label@ ==> final(self).for_window(w) == old(self).for_window(w),
            forall|i: int| 0 <= i < final(self).by_window@.len() ==> (#[trigger] final(self).by_window@[i]).label@
                != label@,
    {
        let ghost s0 = self.by_window@;
        let mut k: usize = 0;
        while k < self.by_window.len()
            invariant
                k <= s0.len(),
                self.by_window@ == s0,
                s0 == old(self).by_window@,
                self.global_paths@ == old(self).global_paths@,
                queues_wf(s0),
                forall|i: int| 0 <= i < k ==> (#[trigger] s0[i]).label@ != label@,
            decreases s0.len() - k,
        {
            if str_eq(self.by_window[k].label.as_str(), label.as_str()) {
                proof {
                    lemma_queued_at(s0, k as int, label@);
                }
                let q = self.by_window.remove(k);
                proof {
                    let s1 = self.by_window@;
                    assert(s1 =~= s0.subrange(0, k as int) + s0.subrange(
                        k + 1,
                        s0.len() as int,
                    ));
                    assert(forall|i: int| 0 <= i < k ==> #[trigger] s1[i] == s0[i]);
                    assert(forall|i: int|
                        k <= i < s1.len() ==> #[trigger] s1[i] == s0[i + 1]);
                    // Uniqueness survives deletion.
                    assert(queues_wf(s1));
                    // No queue for `label` remains.
                    assert forall|i: int| 0 <= i < s1.len() implies (#[trigger] s1[i]).label@
                        != label@ by {
                        if i < k {
                            assert(s0[i].label@ != label@);
                        } else {
                            assert(s0[i + 1].label@ != s0[k as int].label@);
                        }
                    }
                    lemma_queued_absent(s1, label@);
                    // Every other window's queue is untouched.
                    assert forall|w: Seq<char>| w != label@ implies queued_for(s1, w)
                        == queued_for(s0, w) by {
                        if exists|i: int| 0 <= i < s0.len() && (#[trigger] s0[i]).label@ == w {
                            let k2 = choose|i: int|
                                0 <= i < s0.len() && (#[trigger] s0[i]).label@ == w;
                            assert(forall|i: int|
                                0 <= i < s0.len() && i != k2 ==> (#[trigger] s0[i]).label@ != w);
                            lemma_queued_at(s0, k2, w);
                            let k2n = if k2 < k { k2 } else { k2 - 1 };
                            assert(s1[k2n] == s0[k2]);
                            assert(forall|i: int|
                                0 <= i < k2n ==> (#[trigger] s1[i]).label@ != w);
                            lemma_queued_at(s1, k2n, w);
                        } else {
                            assert(forall|i: int|
                                0 <= i < s0.len() ==> (#[trigger] s0[i]).label@ != w);
                            lemma_queued_absent(s0, w);
                            assert forall|i: int| 0 <= i < s1.len() implies (#[trigger] s1[i]).label@
                                != w by {
                                if i < k {
                                    assert(s0[i].label@ != w);
                                } else {
                                    assert(s0[i + 1].label@ != w);
                                }
                            }
                            lemma_queued_absent(s1, w);
                        }
                    }
                }
                return Some(q.paths);
            }
            k += 1;
        }
        proof {
            lemma_queued_absent(s0, label@);
        }
        None
    }

    /// Queue paths for a specific window, appending to anything already
    /// queued for it.
    pub fn queue_open_paths_for_window(&mut self, label: &String, paths: &Vec<String>)
        requires
            old(self).wf(),
        ensures
            final(self).wf(),
            final(self).global() == old(self).global(),
            final(self).for_window(label@) == old(self).for_window(label@) + paths.deep_view(),
            forall|w: Seq<char>| w != label@ ==> final(self).for_window(w) == old(self).for_window(w),
    {
        let existing = self.remove_queue(label);
        let ghost s1 = self.by_window@;
        let mut q: Vec<String> = match existing {
            Some(v) => v,
            None => {
                proof {
                    assert(old(self).for_window(label@) =~= Seq::<Seq<char>>::empty());
                }
                Vec::new()
            },
        };
        proof {
            assert(q.deep_view() =~= old(self).for_window(label@));
        }
        append_cloned(&mut q, paths);
        self.by_window.push(WindowQueue { label: label.clone(), paths: q });
        proof {
            let s2 = self.by_window@;
            let n = s1.len() as int;
            assert(s2 =~= s1.push(s2[n]));
            assert(forall|i: int| 0 <= i < n ==> #[trigger] s2[i] == s1[i]);
            assert(s2[n].label@ == label@);
            assert(s2[n].paths.deep_view() == old(self).for_window(label@) + paths.deep_view());
            assert(queues_wf(s2));
            assert(forall|i: int| 0 <= i < n ==> (#[trigger] s2[i]).label@ != label@);
            lemma_queued_at(s2, n, label@);
            assert forall|w: Seq<char>| w != label@ implies queued_for(s2, w) == queued_for(
                s1,
                w,
            ) by {
                if exists|i: int| 0 <= i < s1.len() && (#[trigger] s1[i]).label@ == w {
                    let k2 = choose|i: int| 0 <= i < s1.len() && (#[trigger] s1[i]).label@ == w;
                    assert(forall|i: int|
                        0 <= i < s1.len() && i != k2 ==> (#[trigger] s1[i]).label@ != w);
                    lemma_queued_at(s1, k2, w);
                    assert(s2[k2] == s1[k2]);
                    assert(forall|i: int| 0 <= i < k2 ==> (#[trigger] s2[i]).label@ != w);
                    lemma_queued_at(s2, k2, w);
                } else {
                    lemma_queued_absent(s1, w);
                    assert forall|i: int| 0 <= i < s2.len() implies (#[trigger] s2[i]).label@
                        != w by {
                        if i < n {
                            assert(s1[i].label@ != w);
                        }
                    }
                    lemma_queued_absent(s2, w);
                }
            }
        }
    }

    /// Drop anything queued for window `label`; used to roll back a
    /// reservation when window creation fails.
    pub fn clear_pending_open_paths_for_window(&mut self, label: &String)
        requires
            old(self).wf(),
        ensures
            final(self).wf(),
            final(self).global() == old(self).global(),
            final(self).for_window(label@) == Seq::<Seq<char>>::empty(),
            forall|w: Seq<char>| w != label@ ==> final(self).for_window(w) == old(self).for_window(w),
    {
        let _ = self.remove_queue(label);
    }

    /// Drain everything owed to window `label`: its own queued paths first,
    /// then the entire global queue. Both are emptied; the first window to
    /// drain after an OS open-event claims the global paths.
    pub fn take_pending_open_paths(&mut self, label: &String) -> (r: Vec<String>)
        requires
            old(self).wf(),
        ensures
            final(self).wf(),
            r.deep_view() == old(self).for_window(label@) + old(self).global(),
            final(self).global() == Seq::<Seq<char>>::empty(),
            final(self).for_window(label@) == Seq::<Seq<char>>::empty(),
            forall|w: Seq<char>| w != label@ ==> final(self).for_window(w) == old(self).for_window(w),
    {
        let existing = self.remove_queue(label);
        let mut drained: Vec<String> = match existing {
            Some(v) => v,
            None => {
                proof {
                    assert(old(self).for_window(label@) =~= Seq::<Seq<char>>::empty());
                }
                Vec::new()
            },
        };
        proof {
            assert(drained.deep_view() =~= old(self).for_window(label@));
        }
        let ghost pre = drained.deep_view();
        let ghost g = self.global_paths.deep_view();
        drained.append(&mut self.global_paths);
        proof {
            assert(drained.deep_view() =~= pre + g);
            assert(self.global() =~= Seq::<Seq<char>>::empty());
        }
        drained
    }
}

/// Globally queued paths are delivered exactly once. Starting from an empty
/// store, queue a batch globally; the first drain, for any window, returns
/// exactly that batch in order, and an immediate second drain, for any
/// window, returns nothing. Each state here is related to the previous one
/// exactly as the corresponding operation's contract relates them.
pub proof fn lemma_global_paths_delivered_once(
    s0: PendingOpenPaths,
    s1: PendingOpenPaths,
    s2: PendingOpenPaths,
    ps: Seq<Seq<char>>,
    w: Seq<char>,
    w2: Seq<char>,
    drained: Seq<Seq<char>>,
    drained2: Seq<Seq<char>>,
)
    requires
        // s0 is empty
        s0.global() == Seq::<Seq<char>>::empty(),
        forall|v: Seq<char>| s0.for_window(v) == Seq::<Seq<char>>::empty(),
        // s1 arises from s0 by queue_open_paths(ps)
        s1.global() == s0.global() + ps,
        forall|v: Seq<char>| s1.for_window(v) == s0.for_window(v),
        // drained and s2 arise from s1 by take_pending_open_paths(w)
        drained == s1.for_window(w) + s1.global(),
        s2.global() == Seq::<Seq<char>>::empty(),
        s2.for_window(w) == Seq::<Seq<char>>::empty(),
        forall|v: Seq<char>| v != w ==> s2.for_window(v) == s1.for_window(v),
        // drained2 arises from s2 by take_pending_open_paths(w2)
        drained2 == s2.for_window(w2) + s2.global(),
    ensures
        drained == ps,
        drained2 == Seq::<Seq<char>>::empty(),
{
    assert(drained =~= ps);
    assert(s2.for_window(w2) =~= Seq::<Seq<char>>::empty());
    assert(drained2 =~= Seq::<Seq<char>>::empty());
}

/// Rolling back a reservation is effective. With no global backlog, queue a
/// batch for window `w`, clear `w`, then drain `w`: the drain returns the
/// empty list. Each state is related to the previous one exactly as the
/// corresponding operation's contract relates them.
pub proof fn lemma_clear_rolls_back_reservation(
    s0: PendingOpenPaths,
    s1: PendingOpenPaths,
    s2: PendingOpenPaths,
    ps: Seq<Seq<char>>,
    w: Seq<char>,
    drained: Seq<Seq<char>>,
)
    requires
        s0.global() == Seq::<Seq<char>>::empty(),
        // s1 arises from s0 by queue_open_paths_for_window(w, ps)
        s1.global() == s0.global(),
        s1.for_window(w) == s0.for_window(w) + ps,
        // s2 arises from s1 by clear_pending_open_paths_for_window(w)
        s2.global() == s1.global(),
        s2.for_window(w) == Seq::<Seq<char>>::empty(),
        // drained arises from s2 by take_pending_open_paths(w)
        drained == s2.for_window(w) + s2.global(),
    ensures
        drained == Seq::<Seq<char>>::empty(),
{
    assert(drained =~= Seq::<Seq<char>>::empty());
}

} // verus!
