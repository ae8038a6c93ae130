use crate::text::str_eq;
use vstd::prelude::*;

verus! {

/// A momentary snapshot of one live window: its label and whether the
/// window system reports it focused right now.
#[derive(Debug)]
pub struct WindowProbe {
    pub label: String,
    pub focused: bool,
}

/// How long a freshly created window keeps priority as the action target,
/// in milliseconds.
pub const RECENTLY_CREATED_WINDOW_MS: u64 = 2000;

/// A window the user just asked to be created, and when.
#[derive(Debug)]
pub struct RecentlyCreated {
    pub label: String,
    pub at_ms: u64,
}

/// The process-wide record of which window has (or should get) the user's
/// attention: the last explicitly tracked label, and the most recently
/// created window with its creation time.
#[derive(Debug)]
pub struct FocusTracker {
    pub label: Option<String>,
    pub recently_created: Option<RecentlyCreated>,
}

/// Some probe in `ps` carries the label `w`.
pub open spec fn probes_contain(ps: Seq<WindowProbe>, w: Seq<char>) -> bool {
    exists|i: int| 0 <= i < ps.len() && (#[trigger] ps[i]).label@ == w
}

/// The label of the first probe reporting focus, if any.
pub open spec fn first_focused(ps: Seq<WindowProbe>) -> Option<Seq<char>>
    decreases ps.len(),
{
    if ps.len() == 0 {
        None
    } else if ps[0].focused {
        Some(ps[0].label@)
    } else {
        first_focused(ps.drop_first())
    }
}

proof fn lemma_first_focused_absent(ps: Seq<WindowProbe>)
    requires
        forall|i: int| 0 <= i < ps.len() ==> !(#[trigger] ps[i]).focused,
    ensures
        first_focused(ps) is None,
    decreases ps.len(),
{
    if ps.len() > 0 {
        let d = ps.drop_first();
        assert(forall|i: int| 0 <= i < d.len() ==> #[trigger] d[i] == ps[i + 1]);
        lemma_first_focused_absent(d);
    }
}

proof fn lemma_first_focused_at(ps: Seq<WindowProbe>, k: int)
    requires
        0 <= k < ps.len(),
        ps[k].focused,
        forall|i: int| 0 <= i < k ==> !(#[trigger] ps[i]).focused,
    ensures
        first_focused(ps) == Some(ps[k].label@),
    decreases k,
{
    if k > 0 {
        let d = ps.drop_first();
        assert(forall|i: int| 0 <= i < d.len() ==> #[trigger] d[i] == ps[i + 1]);
        lemma_first_focused_at(d, k - 1);
    }
}

/// The recently-created entry still biases target resolution: it is younger
/// than the expiry and its window is still live.
pub open spec fn recent_target(
    t: FocusTracker,
    ps: Seq<WindowProbe>,
    now_ms: u64,
) -> Option<Seq<char>> {
    match t.recently_created {
        Some(r) => if now_ms < r.at_ms + RECENTLY_CREATED_WINDOW_MS && probes_contain(
            ps,
            r.label@,
        ) {
            Some(r.label@)
        } else {
            None
        },
        None => None,
    }
}

/// The explicitly tracked label, provided its window is still live.
pub open spec fn tracked_target(t: FocusTracker, ps: Seq<WindowProbe>) -> Option<Seq<char>> {
    match t.label {
        Some(l) => if probes_contain(ps, l@) {
            Some(l@)
        } else {
            None
        },
        None => None,
    }
}

/// Which window should receive a user action, given a snapshot of the live
/// windows. Precedence: a fresh recently-created window; then the first
/// window reporting real-time focus; then the tracked label; then any live
/// window; else none.
pub open spec fn resolve_target_spec(
    t: FocusTracker,
    ps: Seq<WindowProbe>,
    now_ms: u64,
) -> Option<Seq<char>> {
    if recent_target(t, ps, now_ms) is Some {
        recent_target(t, ps, now_ms)
    } else if first_focused(ps) is Some {
        first_focused(ps)
    } else if tracked_target(t, ps) is Some {
        tracked_target(t, ps)
    } else if ps.len() > 0 {
        Some(ps[0].label@)
    } else {
        None
    }
}

/// Whether some probe carries the label `w`.
fn probes_contain_label(probes: &Vec<WindowProbe>, w: &String) -> (r: bool)
    ensures
        r == probes_contain(probes@, w@),
{
    let mut i: usize = 0;
    while i < probes.len()
        invariant
            i <= probes@.len(),
            forall|j: int| 0 <= j < i ==> (#[trigger] probes@[j]).label@ != w@,
        decreases probes@.len() - i,
    {
        if str_eq(probes[i].label.as_str(), w.as_str()) {
            return true;
        }
        i += 1;
    }
    false
}

impl FocusTracker {
    /// A tracker with nothing recorded yet.
    pub fn new() -> (r: Self)
        ensures
            r.label is None,
            r.recently_created is None,
    {
        FocusTracker { label: None, recently_created: None }
    }

    /// A tracker that starts out pointing at an initial window, as when the
    /// process opens its first window before any focus event arrives.
    pub fn with_initial_label(label: Option<String>) -> (r: Self)
        ensures
            r.label == label,
            r.recently_created is None,
    {
        FocusTracker { label, recently_created: None }
    }

    /// Record that a window was focused or interacted with.
    pub fn set_tracked_window_label(&mut self, label: String)
        ensures
            final(self).label == Some(label),
            final(self).recently_created == old(self).recently_created,
    {
        self.label = Some(label);
    }

    /// Record that a window was just created at `now_ms`.
    pub fn set_recently_created_window(&mut self, label: String, now_ms: u64)
        ensures
            final(self).label == old(self).label,
            match final(self).recently_created {
                Some(r) => r.label == label && r.at_ms == now_ms,
                None => false,
            },
    {
        self.recently_created = Some(RecentlyCreated { label, at_ms: now_ms });
    }

    /// Record a freshly built window: it becomes both the tracked label and
    /// the recently-created window.
    pub fn note_window_created(&mut self, label: &String, now_ms: u64)
        ensures
            final(self).label.deep_view() == Some(label@),
            match final(self).recently_created {
                Some(r) => r.label@ == label@ && r.at_ms == now_ms,
                None => false,
            },
    {
        self.label = Some(label.clone());
        self.recently_created = Some(RecentlyCreated { label: label.clone(), at_ms: now_ms });
    }

    /// Pick the window that should receive a user action, from a snapshot of
    /// the live windows taken at `now_ms`. Returns `None` only when no
    /// window is live.
    pub fn resolve_target(&self, probes: &Vec<WindowProbe>, now_ms: u64) -> (r: Option<String>)
        ensures
            r.deep_view() == resolve_target_spec(*self, probes@, now_ms),
    {
        if let Some(rc) = &self.recently_created {
            if now_ms < rc.at_ms || now_ms - rc.at_ms < RECENTLY_CREATED_WINDOW_MS {
                if probes_contain_label(probes, &rc.label) {
                    return Some(rc.label.clone());
                }
            }
        }
        let mut i: usize = 0;
        while i < probes.len()
            invariant
                i <= probes@.len(),
                recent_target(*self, probes@, now_ms) is None,
                forall|j: int| 0 <= j < i ==> !(#[trigger] probes@[j]).focused,
            decreases probes@.len() - i,
        {
            if probes[i].focused {
                proof {
                    lemma_first_focused_at(probes@, i as int);
                }
                return Some(probes[i].label.clone());
            }
            i += 1;
        }
        proof {
            lemma_first_focused_absent(probes@);
        }
        if let Some(l) = &self.label {
            if probes_contain_label(probes, l) {
                return Some(l.clone());
            }
        }
        if probes.len() > 0 {
            return Some(probes[0].label.clone());
        }
        None
    }
}

} // verus!
