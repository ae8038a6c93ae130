use teex_core::launch::{
    categorize_paths, launch_context_from_args, plan_os_open_paths, ArgEntry, OsOpenEmission,
    PathEntry, PathKind,
};

fn entry(path: &str, kind: PathKind) -> PathEntry {
    PathEntry { path: path.to_string(), kind }
}

fn arg(text: &str, kind: PathKind) -> ArgEntry {
    ArgEntry { arg: text.to_string(), kind }
}

#[test]
fn categorize_paths_prefers_single_folder_when_no_files() {
    let folder = "/work/project";
    let entries = vec![
        entry("", PathKind::Missing),
        entry("   ", PathKind::Missing),
        entry("/work/missing.txt", PathKind::Missing),
        entry(folder, PathKind::Dir),
    ];

    let result = categorize_paths(&entries);

    assert_eq!(result.mode, "folder");
    assert_eq!(result.path, Some(folder.to_string()));
    assert!(result.paths.is_empty());
}

#[test]
fn categorize_paths_prefers_multiple_files_over_folders() {
    let file_a = "/work/a.md";
    let file_b = "/work/b.txt";
    let entries = vec![
        entry("/work/folder", PathKind::Dir),
        entry(file_a, PathKind::File),
        entry(file_b, PathKind::File),
    ];

    let result = categorize_paths(&entries);

    assert_eq!(result.mode, "files");
    assert_eq!(result.path, None);
    assert_eq!(result.paths, vec![file_a.to_string(), file_b.to_string()]);
}

#[test]
fn categorize_paths_returns_single_file_mode_for_one_valid_file() {
    let file = "/work/note.md";
    let entries = vec![
        entry("/work/missing.md", PathKind::Missing),
        entry(file, PathKind::File),
    ];

    let result = categorize_paths(&entries);

    assert_eq!(result.mode, "file");
    assert_eq!(result.path, Some(file.to_string()));
    assert!(result.paths.is_empty());
}

#[test]
fn categorize_paths_keeps_duplicate_files_in_input_order() {
    let entries = vec![
        entry("/work/one.md", PathKind::File),
        entry("/work/one.md", PathKind::File),
        entry("/work/dir", PathKind::Dir),
    ];

    let result = categorize_paths(&entries);

    assert_eq!(result.mode, "files");
    assert_eq!(
        result.paths,
        vec!["/work/one.md".to_string(), "/work/one.md".to_string()]
    );
}

#[test]
fn categorize_paths_of_nothing_is_empty_intent() {
    let result = categorize_paths(&vec![]);
    assert_eq!(result.mode, "empty");
    assert_eq!(result.path, None);
    assert!(result.paths.is_empty());

    let two_dirs = vec![entry("/a", PathKind::Dir), entry("/b", PathKind::Dir)];
    let result = categorize_paths(&two_dirs);
    assert_eq!(result.mode, "empty");
}

#[test]
fn launch_context_from_args_lets_a_folder_win_over_files() {
    let args = vec![
        arg("--theme", PathKind::Missing),
        arg("/work/a.md", PathKind::File),
        arg("/work/project", PathKind::Dir),
        arg("/work/b.md", PathKind::File),
    ];

    let result = launch_context_from_args(&args);

    assert_eq!(result.mode, "folder");
    assert_eq!(result.path, Some("/work/project".to_string()));
    assert!(result.paths.is_empty());
}

#[test]
fn launch_context_from_args_collects_files_when_no_folder() {
    let args = vec![
        arg("/work/a.md", PathKind::File),
        arg("/work/gone.md", PathKind::Missing),
        arg("/work/b.md", PathKind::File),
    ];

    let result = launch_context_from_args(&args);

    assert_eq!(result.mode, "files");
    assert_eq!(
        result.paths,
        vec!["/work/a.md".to_string(), "/work/b.md".to_string()]
    );

    let one = vec![arg("/work/a.md", PathKind::File)];
    let result = launch_context_from_args(&one);
    assert_eq!(result.mode, "file");
    assert_eq!(result.path, Some("/work/a.md".to_string()));

    let none: Vec<ArgEntry> = Vec::new();
    assert_eq!(launch_context_from_args(&none).mode, "empty");
}

#[test]
fn plan_os_open_paths_emits_folder_for_a_lone_directory() {
    let entries = vec![entry("/work/project", PathKind::Dir)];
    let planned = plan_os_open_paths(&entries, Some("teex-window-1".to_string()));
    match planned {
        Some(OsOpenEmission::Folder { label, path }) => {
            assert_eq!(label, "teex-window-1");
            assert_eq!(path, "/work/project");
        }
        other => panic!("expected a folder emission, got {:?}", other),
    }
}

#[test]
fn plan_os_open_paths_emits_files_and_ignores_extra_folders() {
    let entries = vec![
        entry("/work/project", PathKind::Dir),
        entry("/work/a.md", PathKind::File),
        entry("/work/missing", PathKind::Missing),
    ];
    let planned = plan_os_open_paths(&entries, Some("teex-window-2".to_string()));
    match planned {
        Some(OsOpenEmission::Files { label, paths }) => {
            assert_eq!(label, "teex-window-2");
            assert_eq!(paths, vec!["/work/a.md".to_string()]);
        }
        other => panic!("expected a files emission, got {:?}", other),
    }
}

#[test]
fn plan_os_open_paths_drops_batches_nobody_can_take() {
    let entries = vec![entry("/work/a.md", PathKind::File)];
    assert!(plan_os_open_paths(&entries, None).is_none());

    let two_dirs = vec![entry("/a", PathKind::Dir), entry("/b", PathKind::Dir)];
    assert!(plan_os_open_paths(&two_dirs, Some("teex-window-1".to_string())).is_none());

    let nothing = vec![entry("/gone", PathKind::Missing)];
    assert!(plan_os_open_paths(&nothing, Some("teex-window-1".to_string())).is_none());
}
