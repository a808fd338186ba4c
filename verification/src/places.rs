//! Where the tools that the debugger drives are looked for, and how lldb
//! learns to show Rust values.

use vstd::prelude::*;
use crate::session::opt_text;
use crate::text::{
    opt_str, owned, trim, trimmed, trimming_takes_white_space_off, views, white,
};
use crate::util::{join_path, joined};

verus! {

/// A place to look for a tool.
#[derive(Clone, Copy)]
pub enum Place {
    /// The file that `RDBG_CODELLDB` names.
    Override,
    /// The codelldb that the installer keeps below the home directory.
    Bundled,
    /// A program of that name on the search path.
    OnPath(&'static str),
    /// The newest version-suffixed adapter on the search path.
    Suffixed,
    /// What `xcrun -f lldb-dap` names.
    Xcrun,
    /// What `rustup which rust-analyzer` names.
    Rustup,
}

/// A search: the next place to look at, or what was found.
pub enum Search {
    Look(Place),
    Found(Option<String>),
}

/// The first of the finds so far.
pub open spec fn first_find(finds: Seq<Option<Seq<char>>>, i: int) -> Option<Seq<char>>
    decreases finds.len() - i,
{
    if i < 0 || i >= finds.len() {
        None
    } else {
        match finds[i] {
            Some(p) => Some(p),
            None => first_find(finds, i + 1),
        }
    }
}

pub open spec fn finds_in(v: Seq<Option<String>>) -> Seq<Option<Seq<char>>> {
    Seq::new(v.len(), |i: int| opt_text(v[i]))
}

/// The places where a debug adapter is looked for, in order.
pub open spec fn adapter_place(i: int) -> Option<Place> {
    if i == 0 {
        Some(Place::Override)
    } else if i == 1 {
        Some(Place::Bundled)
    } else if i == 2 {
        Some(Place::OnPath("codelldb"))
    } else if i == 3 {
        Some(Place::OnPath("lldb-dap"))
    } else if i == 4 {
        Some(Place::OnPath("lldb-vscode"))
    } else if i == 5 {
        Some(Place::Suffixed)
    } else if i == 6 {
        Some(Place::Xcrun)
    } else {
        None
    }
}

/// The places where rust-analyzer is looked for, in order.
pub open spec fn analyzer_place(i: int) -> Option<Place> {
    if i == 0 {
        Some(Place::Rustup)
    } else if i == 1 {
        Some(Place::OnPath("rust-analyzer"))
    } else {
        None
    }
}

/// Where a search stands, given the next place to look at: it ends with the
/// first find, or where no place is left.
pub open spec fn searched(
    finds: Seq<Option<Seq<char>>>,
    next: Option<Place>,
    r: Search,
) -> bool {
    match first_find(finds, 0) {
        Some(p) => r matches Search::Found(Some(q)) && q@ == p,
        None => match next {
            Some(place) => r == Search::Look(place),
            None => r == Search::Found(None),
        },
    }
}

fn first_found(finds: &Vec<Option<String>>) -> (r: Option<String>)
    ensures
        opt_text(r) == first_find(finds_in(finds@), 0),
{
    let mut i: usize = 0;
    while i < finds.len()
        invariant
            i <= finds.len(),
            first_find(finds_in(finds@), 0) == first_find(finds_in(finds@), i as int),
        decreases finds.len() - i,
    {
        assert(finds_in(finds@)[i as int] == opt_text(finds@[i as int]));
        if let Some(p) = &finds[i] {
            return Some(owned(p.as_str()));
        }
        i += 1;
    }
    None
}

/// Prefer `codelldb` (full Rust expression eval), then `lldb-dap`, then the
/// older `lldb-vscode`, including version-suffixed names on Linux
/// (`lldb-dap-18`, `lldb-vscode-14`, ...). On macOS, fall back to `xcrun`.
/// `finds` says what the places looked at so far gave.
pub fn find_lldb_dap(finds: &Vec<Option<String>>) -> (r: Search)
    ensures
        searched(finds_in(finds@), adapter_place(finds.len() as int), r),
{
    if let Some(p) = first_found(finds) {
        return Search::Found(Some(p));
    }
    // an explicit override, then a codelldb installed into its own dir (so it
    // finds its bundled liblldb) — both preferred over PATH lldb-dap because
    // codelldb evaluates comparisons (`a == b`), arithmetic, and field access
    // (`p.0`), which lldb-dap's C++ evaluator rejects.
    let n: usize = finds.len();
    if n == 0 {
        Search::Look(Place::Override)
    } else if n == 1 {
        Search::Look(Place::Bundled)
    } else if n == 2 {
        Search::Look(Place::OnPath("codelldb"))
    } else if n == 3 {
        Search::Look(Place::OnPath("lldb-dap"))
    } else if n == 4 {
        Search::Look(Place::OnPath("lldb-vscode"))
    } else if n == 5 {
        Search::Look(Place::Suffixed)
    } else if n == 6 {
        Search::Look(Place::Xcrun)
    } else {
        Search::Found(None)
    }
}

/// The rust-analyzer of the toolchain, or else one on the search path. `finds`
/// says what the places looked at so far gave.
pub fn find_rust_analyzer(finds: &Vec<Option<String>>) -> (r: Search)
    ensures
        searched(finds_in(finds@), analyzer_place(finds.len() as int), r),
{
    if let Some(p) = first_found(finds) {
        return Search::Found(Some(p));
    }
    let n: usize = finds.len();
    if n == 0 {
        Search::Look(Place::Rustup)
    } else if n == 1 {
        Search::Look(Place::OnPath("rust-analyzer"))
    } else {
        Search::Found(None)
    }
}

/// Why an adapter could not be started, given the one that was found and what
/// came of launching it.
pub open spec fn start_failure(
    adapter: Option<Seq<char>>,
    failure: Option<Seq<char>>,
) -> Option<Seq<char>> {
    match adapter {
        Some(a) => match failure {
            Some(e) => Some("failed to launch "@ + a + ": "@ + e),
            None => None,
        },
        None => Some(
            "no lldb-dap adapter found (install LLVM/lldb, or Xcode command line tools)"@,
        ),
    }
}

/// Why an adapter could not be started; `None` where it was.
pub fn start_error(adapter: Option<&str>, failure: Option<&str>) -> (r: Option<String>)
    ensures
        opt_text(r) == start_failure(opt_str(adapter), opt_str(failure)),
{
    match adapter {
        Some(a) => match failure {
            Some(e) => {
                let mut t = String::from_str("failed to launch ");
                t.append(a);
                t.append(": ");
                t.append(e);
                Some(t)
            },
            None => None,
        },
        None => Some(
            owned("no lldb-dap adapter found (install LLVM/lldb, or Xcode command line tools)"),
        ),
    }
}

/// Why rust-analyzer could not be started, given whether it was found and what
/// came of launching it.
pub open spec fn analyzer_failure(found: bool, failure: Option<Seq<char>>) -> Option<Seq<char>> {
    if !found {
        Some("rust-analyzer not found (rustup component add rust-analyzer)"@)
    } else {
        match failure {
            Some(e) => Some("failed to launch rust-analyzer: "@ + e),
            None => None,
        }
    }
}

/// Why rust-analyzer could not be started; `None` where it was.
pub fn analyzer_error(found: bool, failure: Option<&str>) -> (r: Option<String>)
    ensures
        opt_text(r) == analyzer_failure(found, opt_str(failure)),
{
    if !found {
        return Some(owned("rust-analyzer not found (rustup component add rust-analyzer)"));
    }
    match failure {
        Some(e) => {
            let mut t = String::from_str("failed to launch rust-analyzer: ");
            t.append(e);
            Some(t)
        },
        None => None,
    }
}

/// Where the installer keeps codelldb.
pub fn bundled_adapter(home: &str) -> (r: String)
    ensures
        r@ == joined(home@, ".local/share/rdbg/codelldb/extension/adapter/codelldb"@),
{
    join_path(home, ".local/share/rdbg/codelldb/extension/adapter/codelldb")
}

/// The path that a tool printed, where it printed one.
pub open spec fn printed(out: Option<Seq<char>>) -> Option<Seq<char>> {
    match out {
        Some(t) => if trimmed(t).len() > 0 {
            Some(trimmed(t))
        } else {
            None
        },
        None => None,
    }
}

/// The path that a tool printed on its standard output, where it printed one.
pub fn printed_path(out: Option<&str>) -> (r: Option<String>)
    ensures
        opt_text(r) == printed(opt_str(out)),
{
    match out {
        Some(t) => {
            let p = trim(t);
            if p.as_str().is_empty() {
                None
            } else {
                Some(p)
            }
        },
        None => None,
    }
}

/// The files with the Rust value formatters, below a sysroot.
pub open spec fn formatter_paths(sysroot: Seq<char>) -> (Seq<char>, Seq<char>) {
    let etc = joined(sysroot, "lib/rustlib/etc"@);
    (joined(etc, "lldb_lookup.py"@), joined(etc, "lldb_commands"@))
}

/// The files with the Rust value formatters, below a sysroot.
pub fn formatter_files(sysroot: &str) -> (r: (String, String))
    ensures
        (r.0@, r.1@) == formatter_paths(sysroot@),
{
    let etc = join_path(sysroot, "lib/rustlib/etc");
    (join_path(etc.as_str(), "lldb_lookup.py"), join_path(etc.as_str(), "lldb_commands"))
}

/// The commands that load the formatters.
pub open spec fn formatter_commands(lookup: Seq<char>, commands: Seq<char>) -> Seq<Seq<char>> {
    seq!["command script import "@ + lookup, "command source -s 0 "@ + commands]
}

/// lldb commands that load the Rust value formatters (Vec/String/enum/... render
/// readably). The commands file references the python module but does not import
/// it, so import first, then source.
pub fn rust_formatter_commands(lookup: &str, commands: &str, present: bool) -> (r: Vec<String>)
    ensures
        views(r@) == if present {
            formatter_commands(lookup@, commands@)
        } else {
            Seq::empty()
        },
{
    let mut v: Vec<String> = Vec::new();
    if present {
        let mut import = String::from_str("command script import ");
        import.append(lookup);
        let mut source = String::from_str("command source -s 0 ");
        source.append(commands);
        let ghost a = import@;
        let ghost b = source@;
        v.push(import);
        v.push(source);
        assert(views(v@) =~= seq![a, b]);
    } else {
        assert(views(v@) =~= Seq::empty());
    }
    v
}

/// The root of a workspace, from what `git rev-parse --show-toplevel` printed
/// where it succeeded: the current directory where it printed nothing.
pub open spec fn workspace(git: Option<Seq<char>>, cwd: Seq<char>) -> Seq<char> {
    match printed(git) {
        Some(p) => p,
        None => cwd,
    }
}

/// The root of a workspace, from what `git rev-parse --show-toplevel` printed
/// where it succeeded.
pub fn ws_root(git: Option<&str>, cwd: &str) -> (r: String)
    ensures
        r@ == workspace(opt_str(git), cwd@),
{
    match printed_path(git) {
        Some(p) => p,
        None => owned(cwd),
    }
}

proof fn lemma_first_find(finds: Seq<Option<Seq<char>>>, i: int)
    requires
        0 <= i <= finds.len(),
    ensures
        match first_find(finds, i) {
            Some(p) => exists|k: int|
                i <= k < finds.len() && #[trigger] finds[k] == Some(p) && forall|j: int|
                    i <= j < k ==> #[trigger] finds[j] is None,
            None => forall|j: int| i <= j < finds.len() ==> #[trigger] finds[j] is None,
        },
    decreases finds.len() - i,
{
    if i < finds.len() {
        if finds[i] is Some {
            assert(finds[i] == Some(finds[i]->0));
        } else {
            lemma_first_find(finds, i + 1);
            if let Some(p) = first_find(finds, i + 1) {
                let k = choose|k: int|
                    i + 1 <= k < finds.len() && #[trigger] finds[k] == Some(p) && forall|j: int|
                        i + 1 <= j < k ==> #[trigger] finds[j] is None;
                assert(finds[k] == Some(p));
            }
        }
    }
}

/// What is found first is taken, and nothing more is looked for; as long as
/// nothing is found, the next place is looked at; and when there is none left,
/// nothing has been found.
pub proof fn what_is_found_first_is_taken(
    finds: Seq<Option<Seq<char>>>,
    next: Option<Place>,
    r: Search,
    k: int,
)
    requires
        searched(finds, next, r),
    ensures
        0 <= k < finds.len() && finds[k] is Some && (forall|j: int|
            0 <= j < k ==> #[trigger] finds[j] is None) ==> (r matches Search::Found(Some(q)) && q@
            == finds[k]->0),
        (forall|j: int| 0 <= j < finds.len() ==> #[trigger] finds[j] is None) ==> match next {
            Some(place) => r == Search::Look(place),
            None => r == Search::Found(None),
        },
{
    lemma_first_find(finds, 0);
    if 0 <= k < finds.len() && finds[k] is Some && (forall|j: int|
        0 <= j < k ==> #[trigger] finds[j] is None) {
        let p = first_find(finds, 0)->0;
        let i = choose|i: int|
            0 <= i < finds.len() && #[trigger] finds[i] == Some(p) && forall|j: int|
                0 <= j < i ==> #[trigger] finds[j] is None;
        assert(finds[i] is Some);
        assert(i == k);
    }
}

/// The adapter that the user names goes before the one that is installed with
/// the debugger, and that before any on the search path, among which codelldb
/// comes first and a name with a version behind those without; what Xcode has
/// comes last. The analyzer of the toolchain goes before one on the path.
pub proof fn the_users_choice_goes_first()
    ensures
        adapter_place(0) == Some(Place::Override),
        adapter_place(1) == Some(Place::Bundled),
        adapter_place(2) == Some(Place::OnPath("codelldb")),
        adapter_place(3) == Some(Place::OnPath("lldb-dap")),
        adapter_place(4) == Some(Place::OnPath("lldb-vscode")),
        adapter_place(5) == Some(Place::Suffixed),
        adapter_place(6) == Some(Place::Xcrun),
        adapter_place(7) is None,
        analyzer_place(0) == Some(Place::Rustup),
        analyzer_place(1) == Some(Place::OnPath("rust-analyzer")),
        analyzer_place(2) is None,
{
}

/// The workspace is what git prints as its root, white space around it apart,
/// and the current directory where git prints nothing.
pub proof fn the_workspace_is_gits_or_the_directory(
    before: Seq<char>,
    root: Seq<char>,
    after: Seq<char>,
    cwd: Seq<char>,
)
    requires
        root.len() > 0,
        !white(root[0]),
        !white(root.last()),
        forall|i: int| 0 <= i < before.len() ==> white(#[trigger] before[i]),
        forall|i: int| 0 <= i < after.len() ==> white(#[trigger] after[i]),
    ensures
        workspace(Some(before + root + after), cwd) == root,
        workspace(Some(after), cwd) == cwd,
        workspace(None, cwd) == cwd,
{
    trimming_takes_white_space_off(before, root, after, after);
}

/// A list is seen item by item, in its order.
pub proof fn finds_are_seen_one_by_one(v: Seq<Option<String>>, i: int)
    ensures
        finds_in(v).len() == v.len(),
        0 <= i < v.len() ==> finds_in(v)[i] == opt_text(v[i]),
{
}

} // verus!
