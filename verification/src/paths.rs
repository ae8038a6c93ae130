use crate::text::str_eq;
use vstd::prelude::*;

verus! {

/// The index of the last occurrence of `c` in `s`, if any.
pub open spec fn rfind(s: Seq<char>, c: char) -> Option<int>
    decreases s.len(),
{
    if s.len() == 0 {
        None
    } else if s[s.len() - 1] == c {
        Some(s.len() - 1)
    } else {
        rfind(s.drop_last(), c)
    }
}

/// `rfind` returns the largest index holding `c`, or reports that `c` is absent.
pub proof fn lemma_rfind_props(s: Seq<char>, c: char)
    ensures
        match rfind(s, c) {
            Some(i) => 0 <= i < s.len() && s[i] == c && (forall|j: int|
                i < j < s.len() ==> s[j] != c),
            None => forall|j: int| 0 <= j < s.len() ==> s[j] != c,
        },
    decreases s.len(),
{
    if s.len() > 0 && s[s.len() - 1] != c {
        let dl = s.drop_last();
        lemma_rfind_props(dl, c);
        assert(forall|j: int| 0 <= j < dl.len() ==> dl[j] == #[trigger] s[j]);
        match rfind(dl, c) {
            Some(i) => {
                assert(s[i] == c);
                assert forall|j: int| i < j < s.len() implies s[j] != c by {
                    if j < s.len() - 1 {
                        assert(dl[j] != c);
                    }
                }
            },
            None => {
                assert forall|j: int| 0 <= j < s.len() implies s[j] != c by {
                    if j < s.len() - 1 {
                        assert(dl[j] != c);
                    }
                }
            },
        }
    }
}

/// The index of the last `c` in `s`, scanning from the end.
pub fn rfind_char(s: &str, c: char) -> (r: Option<usize>)
    ensures
        match r {
            Some(i) => i < s@.len() && rfind(s@, c) == Some(i as int),
            None => rfind(s@, c) is None,
        },
{
    let n = s.unicode_len();
    let mut i: usize = n;
    while i > 0
        invariant
            i <= n,
            n == s@.len(),
            forall|j: int| i <= j < n ==> s@[j] != c,
        decreases i,
    {
        if s.get_char(i - 1) == c {
            proof {
                lemma_rfind_props(s@, c);
            }
            return Some(i - 1);
        }
        i -= 1;
    }
    proof {
        lemma_rfind_props(s@, c);
    }
    None
}

/// The final component of a path: everything after the last separator.
pub open spec fn file_name(path: Seq<char>) -> Seq<char> {
    match rfind(path, '/') {
        Some(i) => path.subrange(i + 1, path.len() as int),
        None => path,
    }
}

/// The extension of a path: what follows the last dot of the file name,
/// provided that dot is not the name's first character.
pub open spec fn extension(path: Seq<char>) -> Option<Seq<char>> {
    let name = file_name(path);
    match rfind(name, '.') {
        Some(j) => if j > 0 {
            Some(name.subrange(j + 1, name.len() as int))
        } else {
            None
        },
        None => None,
    }
}

/// The extension of `path`, if it has one.
pub fn extension_of(path: &str) -> (r: Option<String>)
    ensures
        match r {
            Some(e) => extension(path@) == Some(e@),
            None => extension(path@) is None,
        },
{
    let n = path.unicode_len();
    let start: usize = match rfind_char(path, '/') {
        Some(i) => i + 1,
        None => 0,
    };
    let name = path.substring_char(start, n);
    proof {
        assert(name@ =~= file_name(path@));
    }
    let m = name.unicode_len();
    match rfind_char(name, '.') {
        Some(j) => {
            if j > 0 {
                let e = name.substring_char(j + 1, m);
                proof {
                    assert(e@ =~= extension(path@).unwrap());
                }
                Some(e.to_owned())
            } else {
                None
            }
        },
        None => None,
    }
}

/// A path split at its last separator: the part before it and the final
/// component after it.
pub open spec fn split_at_last_sep(path: Seq<char>) -> Option<(Seq<char>, Seq<char>)> {
    match rfind(path, '/') {
        Some(i) => Some((path.subrange(0, i), path.subrange(i + 1, path.len() as int))),
        None => None,
    }
}

/// Split a path at its last `/` into the leading part and the final
/// component; a path without a separator has neither.
pub fn split_last_component(path: &str) -> (r: Option<(String, String)>)
    ensures
        match r {
            Some(pair) => split_at_last_sep(path@) == Some((pair.0@, pair.1@)),
            None => split_at_last_sep(path@) is None,
        },
{
    let n = path.unicode_len();
    match rfind_char(path, '/') {
        Some(i) => {
            let head = path.substring_char(0, i).to_owned();
            let name = path.substring_char(i + 1, n).to_owned();
            Some((head, name))
        },
        None => None,
    }
}

/// `c` equals the lowercase letter `l`, either exactly or as its uppercase form.
pub open spec fn lower_eq(c: char, l: char) -> bool {
    c == l || ('A' <= c && c <= 'Z' && c as int + 32 == l as int)
}

/// `e` equals `lit` when ASCII letters are compared case-insensitively.
/// `lit` is expected to be lowercase.
pub open spec fn ext_is(e: Seq<char>, lit: Seq<char>) -> bool {
    e.len() == lit.len() && (forall|i: int| 0 <= i < e.len() ==> lower_eq(#[trigger] e[i], lit[i]))
}

/// Whether `s` equals the lowercase literal `lit`, ignoring ASCII case.
pub fn str_eq_lower(s: &str, lit: &str) -> (r: bool)
    ensures
        r == ext_is(s@, lit@),
{
    let n = s.unicode_len();
    let m = lit.unicode_len();
    if n != m {
        return false;
    }
    let mut i: usize = 0;
    while i < n
        invariant
            i <= n,
            n == s@.len(),
            n == lit@.len(),
            forall|j: int| 0 <= j < i ==> lower_eq(#[trigger] s@[j], lit@[j]),
        decreases n - i,
    {
        let c = s.get_char(i);
        let l = lit.get_char(i);
        if !(c == l || ('A' <= c && c <= 'Z' && c as u32 + 32 == l as u32)) {
            return false;
        }
        i += 1;
    }
    true
}

/// The extension marks the file as markdown.
pub open spec fn is_markdown_ext(e: Seq<char>) -> bool {
    ext_is(e, "md"@) || ext_is(e, "markdown"@)
}

/// The path names a markdown file.
pub open spec fn is_markdown_path(path: Seq<char>) -> bool {
    match extension(path) {
        Some(e) => is_markdown_ext(e),
        None => false,
    }
}

/// Whether `path` has a markdown extension, ignoring ASCII case.
pub fn is_markdown(path: &str) -> (r: bool)
    ensures
        r == is_markdown_path(path@),
{
    match extension_of(path) {
        Some(e) => str_eq_lower(e.as_str(), "md") || str_eq_lower(e.as_str(), "markdown"),
        None => false,
    }
}

/// The extension marks the file as editable text.
pub open spec fn is_text_like_ext(e: Seq<char>) -> bool {
    ||| ext_is(e, "md"@)
    ||| ext_is(e, "markdown"@)
    ||| ext_is(e, "txt"@)
    ||| ext_is(e, "rst"@)
    ||| ext_is(e, "json"@)
    ||| ext_is(e, "toml"@)
    ||| ext_is(e, "yaml"@)
    ||| ext_is(e, "yml"@)
    ||| ext_is(e, "csv"@)
    ||| ext_is(e, "log"@)
    ||| ext_is(e, "js"@)
    ||| ext_is(e, "ts"@)
    ||| ext_is(e, "jsx"@)
    ||| ext_is(e, "tsx"@)
    ||| ext_is(e, "html"@)
    ||| ext_is(e, "css"@)
    ||| ext_is(e, "scss"@)
    ||| ext_is(e, "rs"@)
    ||| ext_is(e, "py"@)
    ||| ext_is(e, "go"@)
    ||| ext_is(e, "java"@)
    ||| ext_is(e, "kt"@)
    ||| ext_is(e, "swift"@)
    ||| ext_is(e, "sh"@)
    ||| ext_is(e, "zsh"@)
}

/// The path names a file whose content the editor treats as text.
pub open spec fn is_text_like_path(path: Seq<char>) -> bool {
    match extension(path) {
        Some(e) => is_text_like_ext(e),
        None => false,
    }
}

/// Whether `path` has one of the supported text extensions, ignoring ASCII case.
pub fn is_text_like(path: &str) -> (r: bool)
    ensures
        r == is_text_like_path(path@),
{
    match extension_of(path) {
        Some(e) => {
            let s = e.as_str();
            str_eq_lower(s, "md") || str_eq_lower(s, "markdown") || str_eq_lower(s, "txt")
                || str_eq_lower(s, "rst") || str_eq_lower(s, "json") || str_eq_lower(s, "toml")
                || str_eq_lower(s, "yaml") || str_eq_lower(s, "yml") || str_eq_lower(s, "csv")
                || str_eq_lower(s, "log") || str_eq_lower(s, "js") || str_eq_lower(s, "ts")
                || str_eq_lower(s, "jsx") || str_eq_lower(s, "tsx") || str_eq_lower(s, "html")
                || str_eq_lower(s, "css") || str_eq_lower(s, "scss") || str_eq_lower(s, "rs")
                || str_eq_lower(s, "py") || str_eq_lower(s, "go") || str_eq_lower(s, "java")
                || str_eq_lower(s, "kt") || str_eq_lower(s, "swift") || str_eq_lower(s, "sh")
                || str_eq_lower(s, "zsh")
        },
        None => false,
    }
}

/// The document kind shown for `path`.
pub open spec fn file_kind_of(path: Seq<char>) -> Seq<char> {
    if is_markdown_path(path) {
        "markdown"@
    } else {
        "text"@
    }
}

/// The document kind for `path`: `"markdown"` or `"text"`.
pub fn file_kind(path: &str) -> (r: String)
    ensures
        r@ == file_kind_of(path@),
{
    if is_markdown(path) {
        "markdown".to_owned()
    } else {
        "text".to_owned()
    }
}

/// A directory entry with this name should be descended into while listing
/// a project tree.
pub open spec fn should_traverse_spec(name: Seq<char>, is_dir: bool) -> bool {
    if !is_dir {
        true
    } else {
        &&& name != ".git"@
        &&& name != "node_modules"@
        &&& name != "target"@
        &&& name != "dist"@
        &&& name != "build"@
        &&& !(name.len() > 0 && name[0] == '.')
    }
}

/// Whether a tree walk should descend into the entry named `name`.
/// Non-directories are always accepted; well-known build and VCS
/// directories and hidden directories are skipped.
pub fn should_traverse(name: &str, is_dir: bool) -> (r: bool)
    ensures
        r == should_traverse_spec(name@, is_dir),
{
    if !is_dir {
        return true;
    }
    if str_eq(name, ".git") || str_eq(name, "node_modules") || str_eq(name, "target")
        || str_eq(name, "dist") || str_eq(name, "build") {
        return false;
    }
    if name.unicode_len() > 0 && name.get_char(0) == '.' {
        return false;
    }
    true
}

/// A path already held as a string; the identity conversion.
pub fn path_to_string(path: &str) -> (r: String)
    ensures
        r@ == path@,
{
    path.to_owned()
}

/// A file met during a project walk belongs in the listing when it is a
/// text-like file whose name is not hidden.
pub open spec fn project_entry_accepted(name: Seq<char>, path: Seq<char>, is_file: bool) -> bool {
    &&& is_file
    &&& is_text_like_path(path)
    &&& !(name.len() > 0 && name[0] == '.')
}

/// Whether a walked file belongs in a project listing: it must be a regular
/// file, have a supported text extension, and not be hidden.
pub fn accept_project_entry(name: &str, path: &str, is_file: bool) -> (r: bool)
    ensures
        r == project_entry_accepted(name@, path@, is_file),
{
    if !is_file {
        return false;
    }
    if !is_text_like(path) {
        return false;
    }
    if name.unicode_len() > 0 && name.get_char(0) == '.' {
        return false;
    }
    true
}

} // verus!
