use teex_core::capture::OpenPathCapture;
use teex_core::errors::CoreError;
use teex_core::watch::{
    normalize_watched_file_paths, should_emit_file_watch_event, should_emit_folder_watch_event,
    FileInstallStep, FileProbe, FileWatchRegistry, FolderWatchRegistry, FsEventKind,
};

fn s(x: &str) -> String {
    x.to_string()
}

fn probe(canonical: &str, is_file: bool) -> FileProbe {
    FileProbe { canonical: s(canonical), is_file }
}

#[test]
fn folder_watch_rejects_a_non_directory() {
    let watches = FolderWatchRegistry::new();
    let err = watches
        .begin_install(&s("teex-window-1"), &s("/work/file.md"), false)
        .unwrap_err();
    assert_eq!(err, CoreError::NotADirectory);
    assert_eq!(err.message(), "Selected path is not a folder");
}

#[test]
fn folder_watch_reinstall_with_same_root_is_a_noop() {
    let mut watches = FolderWatchRegistry::new();
    let label = s("teex-window-1");

    assert!(watches.begin_install(&label, &s("/work"), true).unwrap());
    watches.commit_install(&label, &s("/work"));

    // Same canonical root again: nothing to start, nothing reset.
    assert!(!watches.begin_install(&label, &s("/work"), true).unwrap());

    // A different root must replace the watch.
    assert!(watches.begin_install(&label, &s("/elsewhere"), true).unwrap());
}

#[test]
fn folder_watch_coalesces_bursts_within_the_debounce_interval() {
    let mut watches = FolderWatchRegistry::new();
    let label = s("teex-window-1");
    watches.commit_install(&label, &s("/work"));

    // A fresh watch emits for the first qualifying event.
    assert!(watches.on_folder_event(&label, FsEventKind::Create, 1_000));
    // A second burst 200ms later is dropped.
    assert!(!watches.on_folder_event(&label, FsEventKind::Create, 1_200));
    // Idempotent re-install does not reset the debounce timer.
    assert!(!watches.begin_install(&label, &s("/work"), true).unwrap());
    assert!(!watches.on_folder_event(&label, FsEventKind::Remove, 1_240));
    // Once the interval has passed, the next event emits again.
    assert!(watches.on_folder_event(&label, FsEventKind::Remove, 1_250));
}

#[test]
fn folder_watch_ignores_content_modifications_and_unknown_windows() {
    let mut watches = FolderWatchRegistry::new();
    let label = s("teex-window-1");
    watches.commit_install(&label, &s("/work"));

    assert!(!watches.on_folder_event(&label, FsEventKind::ModifyOther, 1_000));
    assert!(!watches.on_folder_event(&label, FsEventKind::Access, 1_000));
    assert!(!watches.on_folder_event(&s("teex-window-9"), FsEventKind::Create, 1_000));
    // The dropped kinds did not consume the debounce budget.
    assert!(watches.on_folder_event(&label, FsEventKind::ModifyName, 1_000));
}

#[test]
fn folder_watch_event_kinds_match_the_policy() {
    assert!(should_emit_folder_watch_event(FsEventKind::Create));
    assert!(should_emit_folder_watch_event(FsEventKind::ModifyName));
    assert!(should_emit_folder_watch_event(FsEventKind::Remove));
    assert!(should_emit_folder_watch_event(FsEventKind::Any));
    assert!(should_emit_folder_watch_event(FsEventKind::Other));
    assert!(!should_emit_folder_watch_event(FsEventKind::ModifyOther));
    assert!(!should_emit_folder_watch_event(FsEventKind::Access));

    assert!(should_emit_file_watch_event(FsEventKind::ModifyOther));
    assert!(!should_emit_file_watch_event(FsEventKind::Access));
}

#[test]
fn normalize_watched_file_paths_filters_deduplicates_and_sorts() {
    let probes = vec![
        probe("/work/b.md", true),
        probe("/work/dir", false),
        probe("/work/b.md", true),
        probe("/work/a.md", true),
    ];
    let normalized = normalize_watched_file_paths(&probes);
    assert_eq!(normalized, vec![s("/work/a.md"), s("/work/b.md")]);
}

#[test]
fn file_watch_install_steps_follow_the_normalized_set() {
    let mut watches = FileWatchRegistry::new();
    let label = s("teex-window-1");

    let empty: Vec<String> = Vec::new();
    assert_eq!(watches.begin_install(&label, &empty), FileInstallStep::ClearOnly);

    let set = vec![s("/work/a.md"), s("/work/b.md")];
    assert_eq!(watches.begin_install(&label, &set), FileInstallStep::NeedsWatcher);
    watches.commit_install(&label, set);

    // The same set, in any order, is a no-op.
    let same = vec![s("/work/b.md"), s("/work/a.md")];
    assert_eq!(watches.begin_install(&label, &same), FileInstallStep::AlreadyWatching);

    // A different set needs a new watcher.
    let different = vec![s("/work/a.md")];
    assert_eq!(watches.begin_install(&label, &different), FileInstallStep::NeedsWatcher);
}

#[test]
fn file_watch_debounce_is_per_path_not_per_window() {
    let mut watches = FileWatchRegistry::new();
    let label = s("teex-window-1");
    watches.commit_install(&label, vec![s("/work/a.md"), s("/work/b.md")]);

    // Path A changes, then path B 50ms later: both emit.
    let emitted = watches.on_file_event(&label, FsEventKind::ModifyOther, &vec![s("/work/a.md")], 1_000);
    assert_eq!(emitted, vec![s("/work/a.md")]);
    let emitted = watches.on_file_event(&label, FsEventKind::ModifyOther, &vec![s("/work/b.md")], 1_050);
    assert_eq!(emitted, vec![s("/work/b.md")]);

    // A again within its own interval is suppressed; after it, emits.
    let emitted = watches.on_file_event(&label, FsEventKind::ModifyOther, &vec![s("/work/a.md")], 1_050);
    assert!(emitted.is_empty());
    let emitted = watches.on_file_event(&label, FsEventKind::ModifyOther, &vec![s("/work/a.md")], 1_100);
    assert_eq!(emitted, vec![s("/work/a.md")]);
}

#[test]
fn file_watch_emits_once_per_path_within_one_event() {
    let mut watches = FileWatchRegistry::new();
    let label = s("teex-window-1");
    watches.commit_install(&label, vec![s("/work/a.md"), s("/work/b.md")]);

    let batch = vec![s("/work/a.md"), s("/work/b.md"), s("/work/a.md")];
    let emitted = watches.on_file_event(&label, FsEventKind::Create, &batch, 2_000);
    assert_eq!(emitted, vec![s("/work/a.md"), s("/work/b.md")]);
}

#[test]
fn file_watch_ignores_access_events_and_unknown_windows() {
    let mut watches = FileWatchRegistry::new();
    let label = s("teex-window-1");
    watches.commit_install(&label, vec![s("/work/a.md")]);

    let emitted = watches.on_file_event(&label, FsEventKind::Access, &vec![s("/work/a.md")], 1_000);
    assert!(emitted.is_empty());
    let emitted =
        watches.on_file_event(&s("teex-window-9"), FsEventKind::Create, &vec![s("/work/a.md")], 1_000);
    assert!(emitted.is_empty());
}

#[test]
fn captured_open_paths_are_taken_exactly_once() {
    let mut capture = OpenPathCapture::new();
    capture.push_url(s("file:///work/a.md"));
    capture.push_urls(&vec![s("file:///work/b.md"), s("file:///work/c.md")]);

    let taken = capture.take_paths();
    assert_eq!(taken, vec![s("/work/a.md"), s("/work/b.md"), s("/work/c.md")]);
    assert!(capture.take_paths().is_empty());
}

#[test]
fn captured_urls_are_percent_decoded_and_filtered() {
    let mut capture = OpenPathCapture::new();
    capture.push_url(s("file:///work/a%20b.md"));
    capture.push_url(s("file:///work/caf%C3%A9.md"));
    capture.push_url(s("https://example.test/not-a-file"));
    capture.push_url(s("file:///work/100%25.md"));
    capture.push_url(s("file:///work/odd%2"));
    capture.push_url(s("file:///bad%FF"));

    let taken = capture.take_paths();
    assert_eq!(
        taken,
        vec![
            s("/work/a b.md"),
            s("/work/café.md"),
            s("/work/100%.md"),
            s("/work/odd%2"),
        ]
    );
}
