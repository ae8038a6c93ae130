use teex_core::menu::{menu_command_for_id, plan_menu_command, MenuCommand, MenuPlan};

fn s(x: &str) -> String {
    x.to_string()
}

#[test]
fn menu_ids_map_to_their_commands() {
    assert_eq!(menu_command_for_id("new_window"), Some(MenuCommand::NewWindow));
    assert_eq!(
        menu_command_for_id("merge_all_windows_into_this_window"),
        Some(MenuCommand::MergeAllWindowsIntoThisWindow)
    );
    assert_eq!(menu_command_for_id("open_file"), Some(MenuCommand::OpenFile));
    assert_eq!(menu_command_for_id("open_folder"), Some(MenuCommand::OpenFolder));
    assert_eq!(menu_command_for_id("install_cli"), Some(MenuCommand::InstallCli));
    assert_eq!(menu_command_for_id("close_active_file"), Some(MenuCommand::CloseActiveFile));
    assert_eq!(menu_command_for_id("close_window"), Some(MenuCommand::CloseWindow));
    assert_eq!(menu_command_for_id("toggle_sidebar"), Some(MenuCommand::ToggleSidebar));
    assert_eq!(
        menu_command_for_id("toggle_markdown_mode"),
        Some(MenuCommand::ToggleMarkdownMode)
    );
    assert_eq!(menu_command_for_id("quit"), None);
    assert_eq!(menu_command_for_id(""), None);
}

#[test]
fn menu_plans_respect_the_resolved_target() {
    match plan_menu_command(MenuCommand::MergeAllWindowsIntoThisWindow, Some(s("teex-window-2"))) {
        MenuPlan::MergeInto { target_label } => assert_eq!(target_label, "teex-window-2"),
        other => panic!("expected a merge plan, got {:?}", other),
    }
    assert!(matches!(
        plan_menu_command(MenuCommand::MergeAllWindowsIntoThisWindow, None),
        MenuPlan::Nothing
    ));

    assert!(matches!(plan_menu_command(MenuCommand::NewWindow, None), MenuPlan::BuildNewWindow));
    assert!(matches!(plan_menu_command(MenuCommand::InstallCli, None), MenuPlan::RunCliInstall));

    match plan_menu_command(MenuCommand::ToggleSidebar, Some(s("teex-window-1"))) {
        MenuPlan::EmitToggleSidebar { label } => assert_eq!(label, "teex-window-1"),
        other => panic!("expected a sidebar plan, got {:?}", other),
    }
    assert!(matches!(plan_menu_command(MenuCommand::CloseWindow, None), MenuPlan::Nothing));
}
