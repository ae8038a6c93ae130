use crate::paths::{ext_is, extension, extension_of, split_at_last_sep, split_last_component, str_eq_lower};
use crate::text::{
    has_substring, starts_with, str_contains, str_eq, str_starts_with, vec_contains_string,
};
use vstd::prelude::*;

verus! {

/// The executable runs from a place stable enough to point a symlink at:
/// not a mounted installer image and not an App Translocation copy.
pub fn ensure_cli_source_path_is_stable(exe_path: &str) -> (r: Result<(), String>)
    ensures
        match r {
            Ok(_) => !starts_with(exe_path@, "/Volumes/"@) && !has_substring(
                exe_path@,
                "/AppTranslocation/"@,
            ),
            Err(m) => {
                &&& (starts_with(exe_path@, "/Volumes/"@) || has_substring(
                    exe_path@,
                    "/AppTranslocation/"@,
                ))
                &&& (starts_with(exe_path@, "/Volumes/"@) ==> m@
                    == "Teex appears to be running from the mounted installer image. Drag Teex to Applications, open it from there, then try “Install Command Line Tool...” again."@)
                &&& (!starts_with(exe_path@, "/Volumes/"@) ==> m@
                    == "Teex is running from a temporary App Translocation path. Move it to a permanent location (for example /Applications), reopen it, then try again."@)
            },
        },
{
    if str_starts_with(exe_path, "/Volumes/") {
        return Err(
            "Teex appears to be running from the mounted installer image. Drag Teex to Applications, open it from there, then try “Install Command Line Tool...” again.".to_owned(),
        );
    }
    if str_contains(exe_path, "/AppTranslocation/") {
        return Err(
            "Teex is running from a temporary App Translocation path. Move it to a permanent location (for example /Applications), reopen it, then try again.".to_owned(),
        );
    }
    Ok(())
}

/// The user's `~/bin` directory.
pub open spec fn home_bin_dir(home: Seq<char>) -> Seq<char> {
    home + "/bin"@
}

/// The user's `~/.local/bin` directory.
pub open spec fn local_bin_dir(home: Seq<char>) -> Seq<char> {
    home + "/.local/bin"@
}

/// Where the command-line symlink belongs, given the entries of `PATH`:
/// `~/bin` when `PATH` already holds it, else `~/.local/bin`.
pub open spec fn preferred_dir(home: Seq<char>, entries: Seq<Seq<char>>) -> Seq<char> {
    if entries.contains(home_bin_dir(home)) {
        home_bin_dir(home)
    } else {
        local_bin_dir(home)
    }
}

/// Whether `PATH`'s entries include exactly the directory `dir`.
pub fn path_contains_dir(path_entries: &Vec<String>, dir: &String) -> (r: bool)
    ensures
        r == path_entries.deep_view().contains(dir@),
{
    vec_contains_string(path_entries, dir)
}

/// Pick the directory to install the command-line symlink into.
/// `path_entries` are the entries of the `PATH` environment variable.
pub fn preferred_cli_install_dir(home: &str, path_entries: &Vec<String>) -> (r: String)
    ensures
        r@ == preferred_dir(home@, path_entries.deep_view()),
{
    let mut home_bin = home.to_owned();
    home_bin.append("/bin");
    if path_contains_dir(path_entries, &home_bin) {
        return home_bin;
    }
    let mut local_bin = home.to_owned();
    local_bin.append("/.local/bin");
    local_bin
}

/// The app bundle directory that a canonical executable path sits in, if
/// it has the `<bundle>.app/Contents/MacOS/<exe>` shape.
pub open spec fn app_bundle_spec(exe: Seq<char>) -> Option<Seq<char>> {
    match split_at_last_sep(exe) {
        Some((macos_dir, _)) => match split_at_last_sep(macos_dir) {
            Some((contents_dir, macos_name)) => if macos_name == "MacOS"@ {
                match split_at_last_sep(contents_dir) {
                    Some((app_dir, contents_name)) => if contents_name == "Contents"@ {
                        match extension(app_dir) {
                            Some(e) => if ext_is(e, "app"@) {
                                Some(app_dir)
                            } else {
                                None
                            },
                            None => None,
                        }
                    } else {
                        None
                    },
                    None => None,
                }
            } else {
                None
            },
            None => None,
        },
        None => None,
    }
}

/// The app bundle directory the executable runs from: the directory three
/// levels up, provided the path has the `.app/Contents/MacOS` shape with
/// the bundle extension compared case-insensitively.
pub fn app_bundle_for_exe(exe_path: &str) -> (r: Option<String>)
    ensures
        r.deep_view() == app_bundle_spec(exe_path@),
{
    let Some((macos_dir, _exe_name)) = split_last_component(exe_path) else {
        return None;
    };
    let Some((contents_dir, macos_name)) = split_last_component(macos_dir.as_str()) else {
        return None;
    };
    if !str_eq(macos_name.as_str(), "MacOS") {
        return None;
    }
    let Some((app_dir, contents_name)) = split_last_component(contents_dir.as_str()) else {
        return None;
    };
    if !str_eq(contents_name.as_str(), "Contents") {
        return None;
    }
    match extension_of(app_dir.as_str()) {
        Some(e) => {
            if str_eq_lower(e.as_str(), "app") {
                Some(app_dir)
            } else {
                None
            }
        },
        None => None,
    }
}

/// What the process should do, decided from its command-line arguments.
#[derive(Debug)]
pub enum StartupAction {
    /// Launch the editor, with the paths to open.
    LaunchApp { wait: bool, app_args: Vec<String> },
    /// Install the agent skill files and exit.
    InstallSkill,
    /// Print the usage text and exit.
    PrintHelp,
    /// Reject the invocation with this message.
    UsageError(String),
}

/// The argument asks for the usage text.
pub open spec fn is_help_arg(a: Seq<char>) -> bool {
    a == "--help"@ || a == "-h"@
}

/// Some argument asks for the usage text.
pub open spec fn wants_help(args: Seq<Seq<char>>) -> bool {
    exists|i: int| 0 <= i < args.len() && is_help_arg(#[trigger] args[i])
}

/// The argument is a flag the launcher does not know.
pub open spec fn unknown_flag(a: Seq<char>) -> bool {
    starts_with(a, "-"@) && a != "--wait"@
}

/// The first unknown flag among the arguments, if any.
pub open spec fn first_unknown_flag(args: Seq<Seq<char>>) -> Option<Seq<char>>
    decreases args.len(),
{
    if args.len() == 0 {
        None
    } else if first_unknown_flag(args.drop_last()) is Some {
        first_unknown_flag(args.drop_last())
    } else if unknown_flag(args.last()) {
        Some(args.last())
    } else {
        None
    }
}

proof fn lemma_first_unknown_flag_found(args: Seq<Seq<char>>, i: int)
    requires
        0 <= i < args.len(),
        first_unknown_flag(args.take(i)) is None,
        unknown_flag(args[i]),
    ensures
        first_unknown_flag(args) == Some(args[i]),
    decreases args.len(),
{
    if args.len() == i + 1 {
        assert(args.drop_last() =~= args.take(i));
    } else {
        let d = args.drop_last();
        assert(d.take(i) =~= args.take(i));
        lemma_first_unknown_flag_found(d, i);
    }
}

/// Some argument is `--wait`.
pub open spec fn has_wait(args: Seq<Seq<char>>) -> bool {
    exists|i: int| 0 <= i < args.len() && #[trigger] args[i] == "--wait"@
}

/// The arguments that are not flags, in order.
pub open spec fn plain_args(args: Seq<Seq<char>>) -> Seq<Seq<char>>
    decreases args.len(),
{
    if args.len() == 0 {
        Seq::empty()
    } else if !starts_with(args.last(), "-"@) {
        plain_args(args.drop_last()).push(args.last())
    } else {
        plain_args(args.drop_last())
    }
}

/// Decide what the process does, from its arguments (program name already
/// skipped).
///
/// `--help`/`-h` anywhere wins; `install-skill` as the first argument must
/// stand alone; any other `-` flag but `--wait` is rejected with an
/// unknown-flag message naming it; otherwise the editor launches with the
/// remaining arguments as paths, waiting when `--wait` was given.
pub fn parse_startup_action(args: &Vec<String>) -> (r: StartupAction)
    ensures
        ({
            let av = args.deep_view();
            match r {
                StartupAction::PrintHelp => wants_help(av),
                StartupAction::InstallSkill => {
                    &&& !wants_help(av)
                    &&& av.len() == 1
                    &&& av[0] == "install-skill"@
                },
                StartupAction::UsageError(m) => {
                    &&& !wants_help(av)
                    &&& (if av.len() >= 1 && av[0] == "install-skill"@ {
                        av.len() > 1 && m@
                            == "install-skill does not accept additional arguments"@
                    } else {
                        match first_unknown_flag(av) {
                            Some(f) => m@ == "Unknown flag: "@ + f,
                            None => false,
                        }
                    })
                },
                StartupAction::LaunchApp { wait, app_args } => {
                    &&& !wants_help(av)
                    &&& !(av.len() >= 1 && av[0] == "install-skill"@)
                    &&& first_unknown_flag(av) is None
                    &&& wait == has_wait(av)
                    &&& app_args.deep_view() == plain_args(av)
                },
            }
        }),
{
    let ghost av = args.deep_view();
    let mut i: usize = 0;
    while i < args.len()
        invariant
            i <= av.len(),
            av == args.deep_view(),
            forall|j: int| 0 <= j < i ==> !is_help_arg(#[trigger] av[j]),
        decreases av.len() - i,
    {
        let a = &args[i];
        if str_eq(a.as_str(), "--help") || str_eq(a.as_str(), "-h") {
            proof {
                assert(av[i as int] == args@[i as int]@);
                assert(is_help_arg(av[i as int]));
            }
            return StartupAction::PrintHelp;
        }
        proof {
            assert(av[i as int] == args@[i as int]@);
        }
        i += 1;
    }
    assert(!wants_help(av));
    if args.len() >= 1 && str_eq(args[0].as_str(), "install-skill") {
        if args.len() == 1 {
            return StartupAction::InstallSkill;
        }
        return StartupAction::UsageError(
            "install-skill does not accept additional arguments".to_owned(),
        );
    }
    let mut wait = false;
    let mut app_args: Vec<String> = Vec::new();
    let mut k: usize = 0;
    while k < args.len()
        invariant
            k <= av.len(),
            av == args.deep_view(),
            !wants_help(av),
            !(av.len() >= 1 && av[0] == "install-skill"@),
            first_unknown_flag(av.take(k as int)) is None,
            wait == has_wait(av.take(k as int)),
            app_args.deep_view() == plain_args(av.take(k as int)),
        decreases av.len() - k,
    {
        let ghost pre = av.take(k as int);
        let ghost post = av.take(k + 1);
        proof {
            assert(post.drop_last() =~= pre);
            assert(post.last() == av[k as int]);
            assert(av[k as int] == args@[k as int]@);
        }
        let a = &args[k];
        if str_eq(a.as_str(), "--wait") {
            wait = true;
            proof {
                reveal_strlit("--wait");
                reveal_strlit("-");
                assert(starts_with("--wait"@, "-"@));
                assert(post[k as int] == "--wait"@);
                assert(has_wait(post));
                assert(first_unknown_flag(post) is None);
                assert(app_args.deep_view() == plain_args(post));
            }
        } else if str_starts_with(a.as_str(), "-") {
            proof {
                lemma_first_unknown_flag_found(av, k as int);
            }
            let mut m = "Unknown flag: ".to_owned();
            m.append(a.as_str());
            return StartupAction::UsageError(m);
        } else {
            app_args.push(a.clone());
            proof {
                assert(first_unknown_flag(post) is None);
                assert(av[k as int] != "--wait"@);
                assert(has_wait(post) == has_wait(pre)) by {
                    if has_wait(post) {
                        let j = choose|j: int| 0 <= j < post.len() && #[trigger] post[j]
                            == "--wait"@;
                        assert(j != k);
                        assert(pre[j] == "--wait"@);
                    }
                    if has_wait(pre) {
                        let j = choose|j: int| 0 <= j < pre.len() && #[trigger] pre[j]
                            == "--wait"@;
                        assert(post[j] == "--wait"@);
                    }
                }
                assert(app_args.deep_view() =~= plain_args(post));
            }
        }
        k += 1;
    }
    proof {
        assert(av.take(av.len() as int) =~= av);
    }
    StartupAction::LaunchApp { wait, app_args }
}

} // verus!
