use teex_core::cli::{
    app_bundle_for_exe, ensure_cli_source_path_is_stable, parse_startup_action, path_contains_dir,
    preferred_cli_install_dir, StartupAction,
};
use teex_core::paths::{
    accept_project_entry, extension_of, file_kind, is_markdown, is_text_like, should_traverse,
};

fn s(x: &str) -> String {
    x.to_string()
}

#[test]
fn ensure_cli_source_path_is_stable_rejects_transient_locations() {
    let volumes_error = ensure_cli_source_path_is_stable("/Volumes/Teex/Teex.app").unwrap_err();
    assert!(volumes_error.contains("mounted installer image"));

    let translocation_error = ensure_cli_source_path_is_stable(
        "/private/var/folders/.../AppTranslocation/Teex.app/Contents/MacOS/teex",
    )
    .unwrap_err();
    assert!(translocation_error.contains("App Translocation"));

    assert!(ensure_cli_source_path_is_stable("/Applications/Teex.app/Contents/MacOS/teex").is_ok());
}

#[test]
fn preferred_cli_install_dir_respects_existing_path_entries() {
    let home = "/work/home";
    let home_bin = s("/work/home/bin");
    let local_bin = s("/work/home/.local/bin");

    let path_with_home_bin = vec![home_bin.clone(), s("/usr/bin")];
    assert_eq!(preferred_cli_install_dir(home, &path_with_home_bin), home_bin);

    let path_with_local_bin = vec![local_bin.clone(), s("/usr/bin")];
    assert_eq!(preferred_cli_install_dir(home, &path_with_local_bin), local_bin.clone());

    let bare_path = vec![s("/usr/bin")];
    assert_eq!(preferred_cli_install_dir(home, &bare_path), local_bin);
}

#[test]
fn path_contains_dir_requires_exact_path_match() {
    let home_bin = s("/work/home/bin");
    let sibling = s("/work/home/bin-tools");
    let entries = vec![home_bin.clone(), s("/usr/bin")];

    assert!(path_contains_dir(&entries, &home_bin));
    assert!(!path_contains_dir(&entries, &sibling));
}

#[test]
fn app_bundle_is_recognized_three_levels_up() {
    assert_eq!(
        app_bundle_for_exe("/Applications/Teex.app/Contents/MacOS/teex"),
        Some(s("/Applications/Teex.app"))
    );
    assert_eq!(
        app_bundle_for_exe("/opt/Teex.APP/Contents/MacOS/teex"),
        Some(s("/opt/Teex.APP"))
    );
    assert_eq!(app_bundle_for_exe("/usr/local/bin/teex"), None);
    assert_eq!(app_bundle_for_exe("/Applications/Teex/Contents/MacOS/teex"), None);
    assert_eq!(app_bundle_for_exe("teex"), None);
}

#[test]
fn file_type_helpers_are_case_insensitive_for_supported_extensions() {
    assert!(is_markdown("README.MD"));
    assert!(is_markdown("notes.Markdown"));
    assert!(!is_markdown("notes.txt"));

    assert!(is_text_like("data.JSON"));
    assert!(is_text_like("script.TSX"));
    assert!(!is_text_like("archive.zip"));
    assert!(!is_text_like("no_extension"));

    assert_eq!(file_kind("post.md"), "markdown");
    assert_eq!(file_kind("post.txt"), "text");
}

#[test]
fn extension_of_reads_only_the_file_name() {
    assert_eq!(extension_of("/work/notes.tar.gz"), Some(s("gz")));
    assert_eq!(extension_of("/work.d/notes"), None);
    assert_eq!(extension_of(".hidden"), None);
    assert_eq!(extension_of("/work/.hidden.md"), Some(s("md")));
}

#[test]
fn should_traverse_skips_hidden_and_build_directories() {
    assert!(should_traverse("anything.md", false));
    assert!(should_traverse("src", true));
    assert!(!should_traverse(".git", true));
    assert!(!should_traverse("node_modules", true));
    assert!(!should_traverse("target", true));
    assert!(!should_traverse("dist", true));
    assert!(!should_traverse("build", true));
    assert!(!should_traverse(".config", true));
}

#[test]
fn accept_project_entry_wants_visible_text_files() {
    assert!(accept_project_entry("b.txt", "/root/nested/b.txt", true));
    assert!(!accept_project_entry("image.png", "/root/image.png", true));
    assert!(!accept_project_entry(".hidden.md", "/root/.hidden.md", true));
    assert!(!accept_project_entry("nested", "/root/nested", false));
}

#[test]
fn parse_startup_action_handles_help_and_install_skill() {
    let help = parse_startup_action(&vec![s("a.md"), s("--help")]);
    assert!(matches!(help, StartupAction::PrintHelp));
    let help = parse_startup_action(&vec![s("-h")]);
    assert!(matches!(help, StartupAction::PrintHelp));

    let install = parse_startup_action(&vec![s("install-skill")]);
    assert!(matches!(install, StartupAction::InstallSkill));

    match parse_startup_action(&vec![s("install-skill"), s("extra")]) {
        StartupAction::UsageError(m) => {
            assert_eq!(m, "install-skill does not accept additional arguments")
        }
        other => panic!("expected a usage error, got {:?}", other),
    }
}

#[test]
fn parse_startup_action_rejects_unknown_flags_and_collects_paths() {
    match parse_startup_action(&vec![s("a.md"), s("--fast"), s("b.md")]) {
        StartupAction::UsageError(m) => assert_eq!(m, "Unknown flag: --fast"),
        other => panic!("expected a usage error, got {:?}", other),
    }

    match parse_startup_action(&vec![s("--wait"), s("notes.md"), s("config.json")]) {
        StartupAction::LaunchApp { wait, app_args } => {
            assert!(wait);
            assert_eq!(app_args, vec![s("notes.md"), s("config.json")]);
        }
        other => panic!("expected a launch, got {:?}", other),
    }

    match parse_startup_action(&vec![]) {
        StartupAction::LaunchApp { wait, app_args } => {
            assert!(!wait);
            assert!(app_args.is_empty());
        }
        other => panic!("expected a launch, got {:?}", other),
    }
}
