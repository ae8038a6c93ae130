use vstd::prelude::*;

verus! {

/// Emitted to one window when a file was picked for it.
pub const EVENT_OPEN_FILE_SELECTED: &'static str = "teex://open-file-selected";

/// Emitted to one window when a folder was picked for it.
pub const EVENT_OPEN_FOLDER_SELECTED: &'static str = "teex://open-folder-selected";

/// Emitted to one window with a batch of OS-delivered file paths.
pub const EVENT_OS_OPEN_PATHS: &'static str = "teex://os-open-paths";

/// Emitted to one window when its view should toggle the sidebar.
pub const EVENT_TOGGLE_SIDEBAR: &'static str = "teex://toggle-sidebar";

/// Emitted to one window to flip markdown edit/preview.
pub const EVENT_TOGGLE_MARKDOWN_MODE: &'static str = "teex://toggle-markdown-mode";

/// Emitted to one window to close its active file.
pub const EVENT_CLOSE_ACTIVE_FILE: &'static str = "teex://close-active-file";

/// Asks a window to export its open tabs toward a merge target.
pub const EVENT_REQUEST_EXPORT_ALL_TABS: &'static str = "teex://request-export-all-tabs";

/// Delivers transferred tabs to the merge target.
pub const EVENT_RECEIVE_TRANSFERRED_TABS: &'static str = "teex://receive-transferred-tabs";

/// Reports back to the exporting window how many tabs were accepted.
pub const EVENT_TAB_TRANSFER_RESULT: &'static str = "teex://tab-transfer-result";

/// Emitted to one window when its watched project folder changed.
pub const EVENT_PROJECT_FOLDER_CHANGED: &'static str = "teex://project-folder-changed";

/// Emitted to one window when one of its watched files changed.
pub const EVENT_PROJECT_FILE_CHANGED: &'static str = "teex://project-file-changed";

/// The window-scoped name of an event: the base name, a slash, the label.
pub fn window_event(base: &str, label: &str) -> (r: String)
    ensures
        r@ == base@ + seq!['/'] + label@,
{
    let mut s = base.to_owned();
    s.append("/");
    s.append(label);
    proof {
        reveal_strlit("/");
        assert(s@ =~= base@ + seq!['/'] + label@);
    }
    s
}

} // verus!
