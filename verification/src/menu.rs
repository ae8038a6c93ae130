use crate::text::str_eq;
use vstd::prelude::*;

verus! {

/// The stable identifiers of the menu items the coordination core reacts
/// to.
pub const MENU_OPEN_FILE: &'static str = "open_file";

pub const MENU_OPEN_FOLDER: &'static str = "open_folder";

pub const MENU_NEW_WINDOW: &'static str = "new_window";

pub const MENU_MERGE_ALL_WINDOWS_INTO_THIS_WINDOW: &'static str =
    "merge_all_windows_into_this_window";

pub const MENU_INSTALL_CLI: &'static str = "install_cli";

pub const MENU_CLOSE_ACTIVE_FILE: &'static str = "close_active_file";

pub const MENU_CLOSE_WINDOW: &'static str = "close_window";

pub const MENU_TOGGLE_SIDEBAR: &'static str = "toggle_sidebar";

pub const MENU_TOGGLE_MARKDOWN_MODE: &'static str = "toggle_markdown_mode";

/// A menu action the coordination core understands.
#[derive(Clone, Copy, Debug, PartialEq, Eq, Structural)]
pub enum MenuCommand {
    NewWindow,
    MergeAllWindowsIntoThisWindow,
    OpenFile,
    OpenFolder,
    InstallCli,
    CloseActiveFile,
    CloseWindow,
    ToggleSidebar,
    ToggleMarkdownMode,
}

/// Map a menu event's identifier to the command it stands for; unknown
/// identifiers (separators, platform items) mean nothing.
pub fn menu_command_for_id(id: &str) -> (r: Option<MenuCommand>)
    ensures
        match r {
            Some(MenuCommand::NewWindow) => id@ == "new_window"@,
            Some(MenuCommand::MergeAllWindowsIntoThisWindow) => id@
                == "merge_all_windows_into_this_window"@,
            Some(MenuCommand::OpenFile) => id@ == "open_file"@,
            Some(MenuCommand::OpenFolder) => id@ == "open_folder"@,
            Some(MenuCommand::InstallCli) => id@ == "install_cli"@,
            Some(MenuCommand::CloseActiveFile) => id@ == "close_active_file"@,
            Some(MenuCommand::CloseWindow) => id@ == "close_window"@,
            Some(MenuCommand::ToggleSidebar) => id@ == "toggle_sidebar"@,
            Some(MenuCommand::ToggleMarkdownMode) => id@ == "toggle_markdown_mode"@,
            None => {
                &&& id@ != "new_window"@
                &&& id@ != "merge_all_windows_into_this_window"@
                &&& id@ != "open_file"@
                &&& id@ != "open_folder"@
                &&& id@ != "install_cli"@
                &&& id@ != "close_active_file"@
                &&& id@ != "close_window"@
                &&& id@ != "toggle_sidebar"@
                &&& id@ != "toggle_markdown_mode"@
            },
        },
{
    if str_eq(id, "new_window") {
        Some(MenuCommand::NewWindow)
    } else if str_eq(id, "merge_all_windows_into_this_window") {
        Some(MenuCommand::MergeAllWindowsIntoThisWindow)
    } else if str_eq(id, "open_file") {
        Some(MenuCommand::OpenFile)
    } else if str_eq(id, "open_folder") {
        Some(MenuCommand::OpenFolder)
    } else if str_eq(id, "install_cli") {
        Some(MenuCommand::InstallCli)
    } else if str_eq(id, "close_active_file") {
        Some(MenuCommand::CloseActiveFile)
    } else if str_eq(id, "close_window") {
        Some(MenuCommand::CloseWindow)
    } else if str_eq(id, "toggle_sidebar") {
        Some(MenuCommand::ToggleSidebar)
    } else if str_eq(id, "toggle_markdown_mode") {
        Some(MenuCommand::ToggleMarkdownMode)
    } else {
        None
    }
}

/// What the shell must do for one menu command, once the target window is
/// resolved.
#[derive(Debug)]
pub enum MenuPlan {
    /// Build a fresh window.
    BuildNewWindow,
    /// Fan out export requests toward this merge target.
    MergeInto { target_label: String },
    /// Tell the target window to close its active file.
    EmitCloseActiveFile { label: String },
    /// Close the target window itself.
    CloseTargetWindow { label: String },
    /// Show the file picker for the target window.
    PickFile { label: String },
    /// Show the folder picker for the target window.
    PickFolder { label: String },
    /// Install the command-line symlink.
    RunCliInstall,
    /// Tell the target window to toggle its sidebar.
    EmitToggleSidebar { label: String },
    /// Tell the target window to flip markdown edit/preview.
    EmitToggleMarkdownMode { label: String },
    /// Do nothing (the command needed a target and none is live).
    Nothing,
}

/// Decide what one menu command does, given the already-resolved target
/// window. Commands that address a window do nothing when no window is
/// live; creating a window and installing the command-line tool never need
/// a target.
pub fn plan_menu_command(cmd: MenuCommand, target: Option<String>) -> (r: MenuPlan)
    ensures
        ({
            let t = target.deep_view();
            match cmd {
                MenuCommand::NewWindow => r is BuildNewWindow,
                MenuCommand::InstallCli => r is RunCliInstall,
                MenuCommand::MergeAllWindowsIntoThisWindow => match r {
                    MenuPlan::MergeInto { target_label } => t == Some(target_label@),
                    MenuPlan::Nothing => t is None,
                    _ => false,
                },
                MenuCommand::CloseActiveFile => match r {
                    MenuPlan::EmitCloseActiveFile { label } => t == Some(label@),
                    MenuPlan::Nothing => t is None,
                    _ => false,
                },
                MenuCommand::CloseWindow => match r {
                    MenuPlan::CloseTargetWindow { label } => t == Some(label@),
                    MenuPlan::Nothing => t is None,
                    _ => false,
                },
                MenuCommand::OpenFile => match r {
                    MenuPlan::PickFile { label } => t == Some(label@),
                    MenuPlan::Nothing => t is None,
                    _ => false,
                },
                MenuCommand::OpenFolder => match r {
                    MenuPlan::PickFolder { label } => t == Some(label@),
                    MenuPlan::Nothing => t is None,
                    _ => false,
                },
                MenuCommand::ToggleSidebar => match r {
                    MenuPlan::EmitToggleSidebar { label } => t == Some(label@),
                    MenuPlan::Nothing => t is None,
                    _ => false,
                },
                MenuCommand::ToggleMarkdownMode => match r {
                    MenuPlan::EmitToggleMarkdownMode { label } => t == Some(label@),
                    MenuPlan::Nothing => t is None,
                    _ => false,
                },
            }
        }),
{
    match cmd {
        MenuCommand::NewWindow => MenuPlan::BuildNewWindow,
        MenuCommand::InstallCli => MenuPlan::RunCliInstall,
        MenuCommand::MergeAllWindowsIntoThisWindow => match target {
            Some(target_label) => MenuPlan::MergeInto { target_label },
            None => MenuPlan::Nothing,
        },
        MenuCommand::CloseActiveFile => match target {
            Some(label) => MenuPlan::EmitCloseActiveFile { label },
            None => MenuPlan::Nothing,
        },
        MenuCommand::CloseWindow => match target {
            Some(label) => MenuPlan::CloseTargetWindow { label },
            None => MenuPlan::Nothing,
        },
        MenuCommand::OpenFile => match target {
            Some(label) => MenuPlan::PickFile { label },
            None => MenuPlan::Nothing,
        },
        MenuCommand::OpenFolder => match target {
            Some(label) => MenuPlan::PickFolder { label },
            None => MenuPlan::Nothing,
        },
        MenuCommand::ToggleSidebar => match target {
            Some(label) => MenuPlan::EmitToggleSidebar { label },
            None => MenuPlan::Nothing,
        },
        MenuCommand::ToggleMarkdownMode => match target {
            Some(label) => MenuPlan::EmitToggleMarkdownMode { label },
            None => MenuPlan::Nothing,
        },
    }
}

} // verus!
