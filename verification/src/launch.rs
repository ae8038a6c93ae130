use crate::text::{is_blank, str_is_blank, str_starts_with, starts_with};
use vstd::prelude::*;

verus! {

/// What the filesystem reported about one raw path at classification time.
#[derive(Clone, Copy, Debug, PartialEq, Eq, Structural)]
pub enum PathKind {
    /// The path exists and is a regular file.
    File,
    /// The path exists and is a directory.
    Dir,
    /// The path does not exist (or could not be classified).
    Missing,
}

/// A raw path string together with what the filesystem said about it.
/// The embedding runtime probes the filesystem once and hands the results in.
#[derive(Debug, Clone)]
pub struct PathEntry {
    pub path: String,
    pub kind: PathKind,
}

/// The launch/open intent derived from a list of paths.
///
/// `mode` is one of `"folder"`, `"files"`, `"file"` and `"empty"`;
/// `path` carries the single folder or file, `paths` the multi-file list.
#[derive(Debug, Clone)]
pub struct LaunchContext {
    pub mode: String,
    pub path: Option<String>,
    pub paths: Vec<String>,
}

/// The entry survives classification as a file: it exists as a regular file
/// and its raw text is not blank.
pub open spec fn entry_is_file(e: PathEntry) -> bool {
    e.kind == PathKind::File && !is_blank(e.path@)
}

/// The entry survives classification as a directory.
pub open spec fn entry_is_dir(e: PathEntry) -> bool {
    e.kind == PathKind::Dir && !is_blank(e.path@)
}

/// The surviving file paths of `s`, in input order, duplicates kept.
pub open spec fn files_of(s: Seq<PathEntry>) -> Seq<Seq<char>>
    decreases s.len(),
{
    if s.len() == 0 {
        Seq::empty()
    } else if entry_is_file(s.last()) {
        files_of(s.drop_last()).push(s.last().path@)
    } else {
        files_of(s.drop_last())
    }
}

/// The surviving directory paths of `s`, in input order.
pub open spec fn folders_of(s: Seq<PathEntry>) -> Seq<Seq<char>>
    decreases s.len(),
{
    if s.len() == 0 {
        Seq::empty()
    } else if entry_is_dir(s.last()) {
        folders_of(s.drop_last()).push(s.last().path@)
    } else {
        folders_of(s.drop_last())
    }
}

/// Classify a list of probed paths into a launch intent.
///
/// Blank and non-existent entries are silently dropped. The policy, in order:
/// no files and exactly one folder gives the folder intent; two or more files
/// give the multi-file intent (folders alongside are ignored, duplicates are
/// kept, input order is kept); exactly one file gives the single-file intent;
/// anything else is empty.
pub fn categorize_paths(entries: &Vec<PathEntry>) -> (r: LaunchContext)
    ensures
        ({
            let fs = files_of(entries@);
            let ds = folders_of(entries@);
            &&& (fs.len() == 0 && ds.len() == 1 ==> {
                &&& r.mode@ == "folder"@
                &&& r.path.deep_view() == Some(ds[0])
                &&& r.paths.deep_view() =~= Seq::<Seq<char>>::empty()
            })
            &&& (fs.len() >= 2 ==> {
                &&& r.mode@ == "files"@
                &&& r.path is None
                &&& r.paths.deep_view() == fs
            })
            &&& (fs.len() == 1 ==> {
                &&& r.mode@ == "file"@
                &&& r.path.deep_view() == Some(fs[0])
                &&& r.paths.deep_view() =~= Seq::<Seq<char>>::empty()
            })
            &&& (fs.len() == 0 && ds.len() != 1 ==> {
                &&& r.mode@ == "empty"@
                &&& r.path is None
                &&& r.paths.deep_view() =~= Seq::<Seq<char>>::empty()
            })
        }),
{
    let mut files: Vec<String> = Vec::new();
    let mut folders: Vec<String> = Vec::new();
    let mut i: usize = 0;
    while i < entries.len()
        invariant
            i <= entries@.len(),
            files.deep_view() == files_of(entries@.take(i as int)),
            folders.deep_view() == folders_of(entries@.take(i as int)),
        decreases entries@.len() - i,
    {
        let e = &entries[i];
        if !str_is_blank(e.path.as_str()) {
            match e.kind {
                PathKind::File => files.push(e.path.clone()),
                PathKind::Dir => folders.push(e.path.clone()),
                PathKind::Missing => {},
            }
        }
        proof {
            let pre = entries@.take(i as int);
            let post = entries@.take(i + 1);
            assert(post.drop_last() =~= pre);
            assert(post.last() == entries@[i as int]);
            assert(files.deep_view() =~= files_of(post));
            assert(folders.deep_view() =~= folders_of(post));
        }
        i += 1;
    }
    proof {
        assert(entries@.take(entries@.len() as int) =~= entries@);
    }
    if files.len() == 0 && folders.len() == 1 {
        let folder = folders.pop().unwrap();
        LaunchContext { mode: "folder".to_owned(), path: Some(folder), paths: Vec::new() }
    } else if files.len() >= 2 {
        LaunchContext { mode: "files".to_owned(), path: None, paths: files }
    } else if files.len() == 1 {
        let file = files.pop().unwrap();
        LaunchContext { mode: "file".to_owned(), path: Some(file), paths: Vec::new() }
    } else {
        LaunchContext { mode: "empty".to_owned(), path: None, paths: Vec::new() }
    }
}

/// A command-line argument together with what the filesystem said about the
/// path it names.
#[derive(Debug, Clone)]
pub struct ArgEntry {
    pub arg: String,
    pub kind: PathKind,
}

/// The argument is considered at all: it is not a `--` flag.
pub open spec fn arg_considered(e: ArgEntry) -> bool {
    !starts_with(e.arg@, "--"@)
}

/// The surviving file arguments, in input order.
pub open spec fn arg_files_of(s: Seq<ArgEntry>) -> Seq<Seq<char>>
    decreases s.len(),
{
    if s.len() == 0 {
        Seq::empty()
    } else if arg_considered(s.last()) && s.last().kind == PathKind::File {
        arg_files_of(s.drop_last()).push(s.last().arg@)
    } else {
        arg_files_of(s.drop_last())
    }
}

/// The first surviving directory argument, if any.
pub open spec fn arg_first_folder_of(s: Seq<ArgEntry>) -> Option<Seq<char>>
    decreases s.len(),
{
    if s.len() == 0 {
        None
    } else if arg_first_folder_of(s.drop_last()) is Some {
        arg_first_folder_of(s.drop_last())
    } else if arg_considered(s.last()) && s.last().kind == PathKind::Dir {
        Some(s.last().arg@)
    } else {
        None
    }
}

/// Classify the command-line arguments into a launch intent.
///
/// Flags (arguments beginning with `--`) and non-existent paths are skipped.
/// Unlike `categorize_paths`, a directory wins outright: the first directory
/// argument gives the folder intent even when file arguments are present.
pub fn launch_context_from_args(args: &Vec<ArgEntry>) -> (r: LaunchContext)
    ensures
        ({
            let fs = arg_files_of(args@);
            let fo = arg_first_folder_of(args@);
            &&& (fo is Some ==> {
                &&& r.mode@ == "folder"@
                &&& r.path.deep_view() == fo
                &&& r.paths.deep_view() =~= Seq::<Seq<char>>::empty()
            })
            &&& (fo is None && fs.len() >= 2 ==> {
                &&& r.mode@ == "files"@
                &&& r.path is None
                &&& r.paths.deep_view() == fs
            })
            &&& (fo is None && fs.len() == 1 ==> {
                &&& r.mode@ == "file"@
                &&& r.path.deep_view() == Some(fs[0])
                &&& r.paths.deep_view() =~= Seq::<Seq<char>>::empty()
            })
            &&& (fo is None && fs.len() == 0 ==> {
                &&& r.mode@ == "empty"@
                &&& r.path is None
                &&& r.paths.deep_view() =~= Seq::<Seq<char>>::empty()
            })
        }),
{
    let mut files: Vec<String> = Vec::new();
    let mut folder: Option<String> = None;
    let mut i: usize = 0;
    while i < args.len()
        invariant
            i <= args@.len(),
            files.deep_view() == arg_files_of(args@.take(i as int)),
            folder.deep_view() == arg_first_folder_of(args@.take(i as int)),
        decreases args@.len() - i,
    {
        let e = &args[i];
        if !str_starts_with(e.arg.as_str(), "--") {
            match e.kind {
                PathKind::File => files.push(e.arg.clone()),
                PathKind::Dir => {
                    if folder.is_none() {
                        folder = Some(e.arg.clone());
                    }
                },
                PathKind::Missing => {},
            }
        }
        proof {
            let pre = args@.take(i as int);
            let post = args@.take(i + 1);
            assert(post.drop_last() =~= pre);
            assert(post.last() == args@[i as int]);
            assert(files.deep_view() =~= arg_files_of(post));
        }
        i += 1;
    }
    proof {
        assert(args@.take(args@.len() as int) =~= args@);
    }
    match folder {
        Some(folder_path) => LaunchContext {
            mode: "folder".to_owned(),
            path: Some(folder_path),
            paths: Vec::new(),
        },
        None => {
            if files.len() >= 2 {
                LaunchContext { mode: "files".to_owned(), path: None, paths: files }
            } else if files.len() == 1 {
                let file = files.pop().unwrap();
                LaunchContext { mode: "file".to_owned(), path: Some(file), paths: Vec::new() }
            } else {
                LaunchContext { mode: "empty".to_owned(), path: None, paths: Vec::new() }
            }
        },
    }
}

/// What should be emitted for a batch of OS-delivered open paths.
#[derive(Debug, Clone)]
pub enum OsOpenEmission {
    /// Emit the folder-selected event for this path to the target window.
    Folder { label: String, path: String },
    /// Emit the os-open-paths event with these file paths to the target window.
    Files { label: String, paths: Vec<String> },
}

/// The existing directories among the probed entries, in order.
pub open spec fn dirs_present(s: Seq<PathEntry>) -> Seq<Seq<char>>
    decreases s.len(),
{
    if s.len() == 0 {
        Seq::empty()
    } else if s.last().kind == PathKind::Dir {
        dirs_present(s.drop_last()).push(s.last().path@)
    } else {
        dirs_present(s.drop_last())
    }
}

/// The existing regular files among the probed entries, in order.
pub open spec fn files_present(s: Seq<PathEntry>) -> Seq<Seq<char>>
    decreases s.len(),
{
    if s.len() == 0 {
        Seq::empty()
    } else if s.last().kind == PathKind::File {
        files_present(s.drop_last()).push(s.last().path@)
    } else {
        files_present(s.drop_last())
    }
}

/// Decide what, if anything, to emit for a batch of paths the OS asked the
/// editor to open.
///
/// With no target window, or nothing that exists, nothing is emitted. A lone
/// directory (and no files) becomes a folder-selected emission; otherwise any
/// existing files become one os-open-paths emission. Several directories with
/// no files are dropped.
pub fn plan_os_open_paths(entries: &Vec<PathEntry>, target: Option<String>) -> (r: Option<
    OsOpenEmission,
>)
    ensures
        ({
            let fs = files_present(entries@);
            let ds = dirs_present(entries@);
            match target {
                None => r is None,
                Some(label) => {
                    &&& (fs.len() == 0 && ds.len() == 1 ==> match r {
                        Some(OsOpenEmission::Folder { label: l, path: p }) => l@ == label@ && p@
                            == ds[0],
                        _ => false,
                    })
                    &&& (fs.len() >= 1 ==> match r {
                        Some(OsOpenEmission::Files { label: l, paths: ps }) => l@ == label@
                            && ps.deep_view() == fs,
                        _ => false,
                    })
                    &&& (fs.len() == 0 && ds.len() != 1 ==> r is None)
                },
            }
        }),
{
    let label = match target {
        Some(label) => label,
        None => {
            return None;
        },
    };
    let mut files: Vec<String> = Vec::new();
    let mut folders: Vec<String> = Vec::new();
    let mut i: usize = 0;
    while i < entries.len()
        invariant
            i <= entries@.len(),
            files.deep_view() == files_present(entries@.take(i as int)),
            folders.deep_view() == dirs_present(entries@.take(i as int)),
        decreases entries@.len() - i,
    {
        let e = &entries[i];
        match e.kind {
            PathKind::File => files.push(e.path.clone()),
            PathKind::Dir => folders.push(e.path.clone()),
            PathKind::Missing => {},
        }
        proof {
            let pre = entries@.take(i as int);
            let post = entries@.take(i + 1);
            assert(post.drop_last() =~= pre);
            assert(post.last() == entries@[i as int]);
            assert(files.deep_view() =~= files_present(post));
            assert(folders.deep_view() =~= dirs_present(post));
        }
        i += 1;
    }
    proof {
        assert(entries@.take(entries@.len() as int) =~= entries@);
    }
    if files.len() == 0 && folders.len() == 1 {
        let folder = folders.pop().unwrap();
        return Some(OsOpenEmission::Folder { label, path: folder });
    }
    if files.len() >= 1 {
        return Some(OsOpenEmission::Files { label, paths: files });
    }
    None
}

/// The entries that may be opened in a new window: non-blank paths that
/// exist as a file or a directory, in order.
pub open spec fn openable_of(s: Seq<PathEntry>) -> Seq<Seq<char>>
    decreases s.len(),
{
    if s.len() == 0 {
        Seq::empty()
    } else if !is_blank(s.last().path@) && s.last().kind != PathKind::Missing {
        openable_of(s.drop_last()).push(s.last().path@)
    } else {
        openable_of(s.drop_last())
    }
}

/// Keep the paths that can be opened in a new window: blank entries and
/// paths that do not exist are dropped.
pub fn filter_openable(entries: &Vec<PathEntry>) -> (r: Vec<String>)
    ensures
        r.deep_view() == openable_of(entries@),
{
    let mut out: Vec<String> = Vec::new();
    let mut i: usize = 0;
    while i < entries.len()
        invariant
            i <= entries@.len(),
            out.deep_view() == openable_of(entries@.take(i as int)),
        decreases entries@.len() - i,
    {
        let e = &entries[i];
        if !str_is_blank(e.path.as_str()) {
            match e.kind {
                PathKind::File | PathKind::Dir => out.push(e.path.clone()),
                PathKind::Missing => {},
            }
        }
        proof {
            let pre = entries@.take(i as int);
            let post = entries@.take(i + 1);
            assert(post.drop_last() =~= pre);
            assert(post.last() == entries@[i as int]);
            assert(out.deep_view() =~= openable_of(post));
        }
        i += 1;
    }
    proof {
        assert(entries@.take(entries@.len() as int) =~= entries@);
    }
    out
}

} // verus!
