use teex_core::errors::CoreError;
use teex_core::events::window_event;
use teex_core::focus::{FocusTracker, WindowProbe};
use teex_core::launch::{PathEntry, PathKind};
use teex_core::lifecycle::{begin_open_paths_in_new_window, on_window_destroyed, WindowLabelAllocator};
use teex_core::paths::path_to_string;
use teex_core::pending::PendingOpenPaths;
use teex_core::transfer::{
    merge_all_windows_requests, route_tab_transfer, route_tab_transfer_result,
    TransferIdAllocator, TransferredTab,
};
use teex_core::watch::{FileWatchRegistry, FolderWatchRegistry};

fn s(x: &str) -> String {
    x.to_string()
}

fn probe(label: &str, focused: bool) -> WindowProbe {
    WindowProbe { label: s(label), focused }
}

fn tab(path: &str) -> TransferredTab {
    TransferredTab {
        path: s(path),
        content: s("# body"),
        kind: s("markdown"),
        writable: true,
        is_dirty: false,
        markdown_view_mode: s("edit"),
    }
}

#[test]
fn utility_helpers_build_expected_strings_and_ids() {
    assert_eq!(window_event("teex://open", "teex-window-2"), "teex://open/teex-window-2");
    assert_eq!(path_to_string("/tmp/example.txt"), "/tmp/example.txt");

    let mut alloc = TransferIdAllocator::new();
    let a = alloc.next_transfer_request_id();
    let b = alloc.next_transfer_request_id();
    assert!(a.starts_with("tab-transfer-"));
    assert!(b.starts_with("tab-transfer-"));
    assert_ne!(a, b);
}

#[test]
fn globally_queued_paths_are_drained_exactly_once() {
    let mut pending = PendingOpenPaths::new();
    pending.queue_open_paths(&vec![s("/work/a.md"), s("/work/b.md")]);

    let first = pending.take_pending_open_paths(&s("teex-window-1"));
    assert_eq!(first, vec![s("/work/a.md"), s("/work/b.md")]);

    let second = pending.take_pending_open_paths(&s("teex-window-2"));
    assert!(second.is_empty());
}

#[test]
fn drain_returns_window_paths_before_global_paths() {
    let mut pending = PendingOpenPaths::new();
    pending.queue_open_paths_for_window(&s("teex-window-1"), &vec![s("/mine.md")]);
    pending.queue_open_paths(&vec![s("/global.md")]);

    let drained = pending.take_pending_open_paths(&s("teex-window-1"));
    assert_eq!(drained, vec![s("/mine.md"), s("/global.md")]);
}

#[test]
fn clearing_a_window_queue_rolls_back_its_reservation() {
    let mut pending = PendingOpenPaths::new();
    pending.queue_open_paths_for_window(&s("teex-window-1"), &vec![s("/work/a.md")]);
    pending.clear_pending_open_paths_for_window(&s("teex-window-1"));

    let drained = pending.take_pending_open_paths(&s("teex-window-1"));
    assert!(drained.is_empty());
}

#[test]
fn per_window_queues_do_not_leak_into_other_windows() {
    let mut pending = PendingOpenPaths::new();
    pending.queue_open_paths_for_window(&s("teex-window-1"), &vec![s("/one.md")]);
    pending.queue_open_paths_for_window(&s("teex-window-2"), &vec![s("/two.md")]);

    assert_eq!(pending.take_pending_open_paths(&s("teex-window-2")), vec![s("/two.md")]);
    assert_eq!(pending.take_pending_open_paths(&s("teex-window-1")), vec![s("/one.md")]);
}

#[test]
fn route_transfer_fails_for_a_closed_target() {
    let live = vec![s("teex-window-1")];
    let result = route_tab_transfer(
        &live,
        s("teex-window-1"),
        &s("teex-window-9"),
        s("tab-transfer-5"),
        vec![tab("/doc.md")],
    );
    assert_eq!(result.unwrap_err(), CoreError::TargetUnavailable);
}

#[test]
fn route_transfer_carries_the_correlation_id_unchanged() {
    let live = vec![s("teex-window-1"), s("teex-window-2")];
    let payload = route_tab_transfer(
        &live,
        s("teex-window-1"),
        &s("teex-window-2"),
        s("tab-transfer-17"),
        vec![tab("/doc.md"), tab("/notes.txt")],
    )
    .expect("target is live");
    assert_eq!(payload.request_id, "tab-transfer-17");
    assert_eq!(payload.source_label, "teex-window-1");
    assert_eq!(payload.tabs.len(), 2);
    assert_eq!(payload.tabs[0].path, "/doc.md");
}

#[test]
fn route_transfer_result_is_best_effort_for_a_closed_source() {
    let live = vec![s("teex-window-2")];
    let delivered = route_tab_transfer_result(
        &live,
        &s("teex-window-1"),
        s("teex-window-2"),
        s("tab-transfer-3"),
        2,
    );
    assert!(delivered.is_none());

    let delivered = route_tab_transfer_result(
        &live,
        &s("teex-window-2"),
        s("teex-window-5"),
        s("tab-transfer-4"),
        3,
    )
    .expect("source is live");
    assert_eq!(delivered.request_id, "tab-transfer-4");
    assert_eq!(delivered.target_label, "teex-window-5");
    assert_eq!(delivered.accepted_count, 3);
}

#[test]
fn merge_requests_fan_out_to_every_other_window_with_fresh_ids() {
    let mut alloc = TransferIdAllocator::new();
    let live = vec![s("teex-window-1"), s("teex-window-2"), s("teex-window-3")];
    let requests = merge_all_windows_requests(&mut alloc, &live, &s("teex-window-2"));

    assert_eq!(requests.len(), 2);
    assert_eq!(requests[0].to_label, "teex-window-1");
    assert_eq!(requests[1].to_label, "teex-window-3");
    assert_eq!(requests[0].payload.target_label, "teex-window-2");
    assert_eq!(requests[1].payload.target_label, "teex-window-2");
    assert_eq!(requests[0].payload.request_id, "tab-transfer-1");
    assert_eq!(requests[1].payload.request_id, "tab-transfer-2");
}

#[test]
fn resolve_target_prefers_the_recently_created_window() {
    let mut focus = FocusTracker::new();
    focus.note_window_created(&s("teex-window-1"), 0);
    focus.note_window_created(&s("teex-window-2"), 100);

    let probes = vec![probe("teex-window-1", false), probe("teex-window-2", true)];
    let target = focus.resolve_target(&probes, 150);
    assert_eq!(target, Some(s("teex-window-2")));
}

#[test]
fn resolve_target_falls_back_through_focus_label_and_any_window() {
    let mut focus = FocusTracker::new();
    focus.note_window_created(&s("teex-window-1"), 0);
    focus.note_window_created(&s("teex-window-2"), 100);

    // The recently-created bias has expired; the real-time focus flag wins.
    let probes = vec![probe("teex-window-1", true), probe("teex-window-2", false)];
    assert_eq!(focus.resolve_target(&probes, 2200), Some(s("teex-window-1")));

    // Focus withdrawn from every window: the tracked label is next.
    let probes = vec![probe("teex-window-1", false), probe("teex-window-2", false)];
    assert_eq!(focus.resolve_target(&probes, 2200), Some(s("teex-window-2")));

    // The tracked window closed too: any live window serves.
    let probes = vec![probe("teex-window-1", false)];
    assert_eq!(focus.resolve_target(&probes, 2200), Some(s("teex-window-1")));

    // No window left: no target, and no panic.
    assert_eq!(focus.resolve_target(&vec![], 2200), None);
}

#[test]
fn recently_created_window_must_still_be_live_to_win() {
    let mut focus = FocusTracker::new();
    focus.note_window_created(&s("teex-window-2"), 100);

    let probes = vec![probe("teex-window-1", true)];
    assert_eq!(focus.resolve_target(&probes, 150), Some(s("teex-window-1")));
}

#[test]
fn window_labels_are_unique_and_sequential() {
    let mut alloc = WindowLabelAllocator::new();
    assert_eq!(alloc.next_window_label(), "teex-window-1");
    assert_eq!(alloc.next_window_label(), "teex-window-2");
    assert_eq!(alloc.next_window_label(), "teex-window-3");
}

#[test]
fn opening_paths_in_a_new_window_reserves_a_queue() {
    let mut alloc = WindowLabelAllocator::new();
    let mut pending = PendingOpenPaths::new();
    let entries = vec![
        PathEntry { path: s(""), kind: PathKind::Missing },
        PathEntry { path: s("/work/a.md"), kind: PathKind::File },
        PathEntry { path: s("/work/dir"), kind: PathKind::Dir },
        PathEntry { path: s("/work/gone"), kind: PathKind::Missing },
    ];

    let label = begin_open_paths_in_new_window(&mut alloc, &mut pending, &entries)
        .expect("some paths survive");
    assert_eq!(label, "teex-window-1");
    assert_eq!(
        pending.take_pending_open_paths(&label),
        vec![s("/work/a.md"), s("/work/dir")]
    );

    let nothing = vec![PathEntry { path: s("/work/gone"), kind: PathKind::Missing }];
    assert!(begin_open_paths_in_new_window(&mut alloc, &mut pending, &nothing).is_none());
}

#[test]
fn destroying_a_window_purges_its_registrations() {
    let mut folder_watches = FolderWatchRegistry::new();
    let mut file_watches = FileWatchRegistry::new();
    let mut pending = PendingOpenPaths::new();
    let label = s("teex-window-1");

    assert!(folder_watches.begin_install(&label, &s("/work"), true).unwrap());
    folder_watches.commit_install(&label, &s("/work"));
    file_watches.commit_install(&label, vec![s("/work/a.md")]);
    pending.queue_open_paths_for_window(&label, &vec![s("/work/a.md")]);
    pending.queue_open_paths(&vec![s("/global.md")]);

    on_window_destroyed(&label, &mut folder_watches, &mut file_watches, &mut pending);

    // The per-window state is gone; the global queue is untouched.
    assert!(!folder_watches.on_folder_event(&label, teex_core::watch::FsEventKind::Create, 10_000));
    assert_eq!(pending.take_pending_open_paths(&label), vec![s("/global.md")]);
}

#[test]
fn core_error_messages_name_the_failure() {
    assert_eq!(CoreError::NotADirectory.message(), "Selected path is not a folder");
    assert_eq!(
        CoreError::TargetUnavailable.message(),
        "Target window is no longer available"
    );
}
