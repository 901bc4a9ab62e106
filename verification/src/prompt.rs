//! The top of the engine: compile the ignore lists, auto-exclude
//! previously generated output, walk the tree and assemble the document.

use vstd::prelude::*;

use crate::EngineError;
use crate::assemble::assemble;
use crate::assemble::document;
use crate::cleanup::prompt_suffix;
use crate::cleanup::valid_names;
use crate::collect::collect_dir_names;
use crate::pattern::CompiledPattern;
use crate::pattern::all_valid;
use crate::pattern::compile;
use crate::pattern::pat_views;
use crate::pattern::views_of;
use crate::tree::FsEntry;
use crate::tree::name_of;
use crate::tree::rec_views;
use crate::walker::MatchMode;
use crate::walker::WalkConfig;
use crate::walker::WalkView;
use crate::walker::files_spec;
use crate::walker::tree_spec;
use crate::walker::walk;

verus! {

/// The two configured ignore lists, as loaded from configuration and
/// extended from the command line: directory entries and file entries.
pub struct IgnoreConfig {
    pub dirs: Vec<String>,
    pub files: Vec<String>,
}

impl IgnoreConfig {
    /// The built-in default ignore lists, constructed explicitly so that
    /// embedders and tests can substitute their own.
    pub fn default_config() -> (r: IgnoreConfig)
        ensures
            views_of(r.dirs@) == seq![
                "node_modules"@,
                "__pycache__"@,
                "venv"@,
                "env"@,
                "target"@,
                "dist"@,
                "build"@,
            ],
            views_of(r.files@) == seq![
                "package-lock.json"@,
                "yarn.lock"@,
                "Cargo.lock"@,
                "pyc"@,
            ],
    {
        let mut dirs: Vec<String> = Vec::new();
        dirs.push(String::from_str("node_modules"));
        dirs.push(String::from_str("__pycache__"));
        dirs.push(String::from_str("venv"));
        dirs.push(String::from_str("env"));
        dirs.push(String::from_str("target"));
        dirs.push(String::from_str("dist"));
        dirs.push(String::from_str("build"));
        let mut files: Vec<String> = Vec::new();
        files.push(String::from_str("package-lock.json"));
        files.push(String::from_str("yarn.lock"));
        files.push(String::from_str("Cargo.lock"));
        files.push(String::from_str("pyc"));
        proof {
            assert(views_of(dirs@) =~= seq![
                "node_modules"@,
                "__pycache__"@,
                "venv"@,
                "env"@,
                "target"@,
                "dist"@,
                "build"@,
            ]);
            assert(views_of(files@) =~= seq![
                "package-lock.json"@,
                "yarn.lock"@,
                "Cargo.lock"@,
                "pyc"@,
            ]);
        }
        IgnoreConfig { dirs, files }
    }
}

/// The names of generated output files that a scan must never ingest:
/// one for the root and one for every valid directory name.
pub open spec fn auto_set(root: FsEntry, dirs: Seq<Seq<char>>) -> Set<Seq<char>> {
    Set::new(
        |y: Seq<char>|
            exists|n: Seq<char>|
                valid_names(root, dirs).contains(n) && y == n + prompt_suffix(),
    )
}

/// The walker configuration a generation run uses.
pub open spec fn prompt_view(
    root: FsEntry,
    dirs: Seq<Seq<char>>,
    files: Seq<Seq<char>>,
    mode: MatchMode,
) -> WalkView {
    WalkView { dirs, files, exts: files, autos: auto_set(root, dirs), mode }
}

/// The full document a generation run produces.
pub open spec fn generation_spec(
    root: FsEntry,
    filters: Seq<Seq<char>>,
    dirs: Seq<Seq<char>>,
    files: Seq<Seq<char>>,
    mode: MatchMode,
) -> Seq<char> {
    let v = prompt_view(root, dirs, files, mode);
    document(tree_spec(root, v), files_spec(root, v), filters)
}

fn clone_strings(v: &Vec<String>) -> (r: Vec<String>)
    ensures
        r@ == v@,
{
    let mut out: Vec<String> = Vec::new();
    let mut i: usize = 0;
    while i < v.len()
        invariant
            i <= v@.len(),
            out@ == v@.take(i as int),
        decreases v@.len() - i,
    {
        out.push(v[i].clone());
        proof {
            assert(v@.take(i + 1) =~= v@.take(i as int).push(v@[i as int]));
        }
        i = i + 1;
    }
    proof {
        assert(v@.take(v@.len() as int) =~= v@);
    }
    out
}

fn auto_excludes_for(root: &FsEntry, dir_pats: &Vec<CompiledPattern>) -> (r: Vec<String>)
    ensures
        views_of(r@).to_set() == auto_set(*root, pat_views(dir_pats@)),
{
    let mut names = collect_dir_names(root, dir_pats);
    let ghost names0 = views_of(names@);
    proof {
        crate::collect::lemma_to_set_push(names0, name_of(*root));
    }
    names.push(root.name().clone());
    proof {
        assert(views_of(names@) =~= names0.push(name_of(*root)));
        assert(views_of(names@).to_set() =~= valid_names(*root, pat_views(dir_pats@)));
    }
    let mut out: Vec<String> = Vec::new();
    let mut i: usize = 0;
    while i < names.len()
        invariant
            i <= names@.len(),
            out@.len() == i,
            views_of(names@).to_set() == valid_names(*root, pat_views(dir_pats@)),
            forall|j: int|
                0 <= j < i ==> #[trigger] views_of(out@)[j] == views_of(names@)[j]
                    + prompt_suffix(),
        decreases names@.len() - i,
    {
        let mut s = String::from_str(names[i].as_str());
        s.append("_prompt.txt");
        let ghost prev = out@;
        out.push(s);
        proof {
            assert(s@ == views_of(names@)[i as int] + prompt_suffix());
            assert(out@ == prev.push(s));
            assert(forall|j: int| 0 <= j < prev.len() ==> out@[j] == prev[j]);
            assert(views_of(out@)[i as int] == s@);
            assert(forall|j: int|
                0 <= j < prev.len() ==> #[trigger] views_of(out@)[j] == views_of(prev)[j]);
        }
        i = i + 1;
    }
    proof {
        let vset = valid_names(*root, pat_views(dir_pats@));
        assert forall|y: Seq<char>|
            views_of(out@).to_set().contains(y) implies auto_set(
            *root,
            pat_views(dir_pats@),
        ).contains(y) by {
            let j = choose|j: int| 0 <= j < views_of(out@).len() && views_of(out@)[j] == y;
            assert(views_of(names@).contains(views_of(names@)[j]));
            assert(vset.contains(views_of(names@)[j]));
        }
        assert forall|y: Seq<char>|
            auto_set(*root, pat_views(dir_pats@)).contains(y) implies views_of(
            out@,
        ).to_set().contains(y) by {
            let n = choose|n: Seq<char>| vset.contains(n) && y == n + prompt_suffix();
            let j = choose|j: int| 0 <= j < views_of(names@).len() && views_of(names@)[j] == n;
            assert(views_of(out@)[j] == y);
            assert(views_of(out@).contains(y));
        }
        assert(views_of(out@).to_set() =~= auto_set(*root, pat_views(dir_pats@)));
    }
    out
}

/// A previously generated output file is invisible to a generation
/// walk: a file named `<d>_prompt.txt`, where `d` is the root's name or
/// any collected directory name, fails the visibility test under every
/// prefix. With `walker::lemma_ignored_entry_not_rendered` this says
/// such a file reaches neither the rendered tree nor any `<path>` tag.
pub proof fn lemma_output_file_invisible(
    root: FsEntry,
    dirs: Seq<Seq<char>>,
    files: Seq<Seq<char>>,
    mode: MatchMode,
    f: FsEntry,
    n: Seq<char>,
    prefix: Seq<char>,
)
    requires
        f is File,
        valid_names(root, dirs).contains(n),
        name_of(f) == n + prompt_suffix(),
    ensures
        !crate::walker::is_visible(f, prompt_view(root, dirs, files, mode), prefix),
{
    assert(auto_set(root, dirs).contains(name_of(f)));
    assert(crate::walker::file_ignored(prompt_view(root, dirs, files, mode), prefix, name_of(f)));
}

/// Generating twice in a row is idempotent: let the first run's output
/// document be written into the root under its default name, and a
/// second run over the grown tree produces the very same document. The
/// generated file's name is auto-excluded, so a previous prompt is never
/// ingested as input.
pub proof fn lemma_generation_idempotent(
    root: FsEntry,
    root2: FsEntry,
    out: FsEntry,
    filters: Seq<Seq<char>>,
    dirs: Seq<Seq<char>>,
    files: Seq<Seq<char>>,
    mode: MatchMode,
)
    requires
        root is Dir,
        root2 is Dir,
        out is File,
        name_of(root2) == name_of(root),
        name_of(out) == name_of(root) + prompt_suffix(),
        root2->children@ == root->children@.push(out),
    ensures
        generation_spec(root2, filters, dirs, files, mode) == generation_spec(
            root,
            filters,
            dirs,
            files,
            mode,
        ),
{
    crate::collect::lemma_collect_append_file(root->children@, out, dirs, 0);
    assert(crate::collect::collect_spec(root2, dirs) == crate::collect::collect_spec(root, dirs));
    assert(valid_names(root2, dirs) =~= valid_names(root, dirs));
    assert(auto_set(root2, dirs) =~= auto_set(root, dirs));
    let v1 = prompt_view(root, dirs, files, mode);
    let v2 = prompt_view(root2, dirs, files, mode);
    assert(v2 =~= v1);
    assert(v1.autos.contains(name_of(out))) by {
        assert(valid_names(root, dirs).contains(name_of(root)));
    }
    assert(crate::walker::file_ignored(v1, Seq::empty(), name_of(out)));
    assert(!crate::walker::is_visible(out, v1, Seq::empty()));
    crate::walker::lemma_walk_ignores_invisible(root, root2, v1, out);
}

/// Build the prompt document (or, in tree-only mode, just the rendered
/// tree) for an in-memory scan root. Succeeds exactly when the root is a
/// directory and every ignore entry is a valid glob; a file root reports
/// invalid input, an invalid glob reports an invalid pattern.
pub fn build_prompt(
    root: &FsEntry,
    filter: &Vec<String>,
    ignore_dirs: &Vec<String>,
    ignore_files: &Vec<String>,
    tree_only: bool,
    mode: MatchMode,
) -> (r: Result<String, EngineError>)
    ensures
        r is Ok <==> *root is Dir && all_valid(views_of(ignore_dirs@)) && all_valid(
            views_of(ignore_files@),
        ),
        r matches Err(e) ==> e == (if !(*root is Dir) {
            EngineError::InvalidInput
        } else {
            EngineError::InvalidPattern
        }),
        r matches Ok(s) ==> s@ == (if tree_only {
            tree_spec(
                *root,
                prompt_view(*root, views_of(ignore_dirs@), views_of(ignore_files@), mode),
            )
        } else {
            generation_spec(
                *root,
                views_of(filter@),
                views_of(ignore_dirs@),
                views_of(ignore_files@),
                mode,
            )
        }),
{
    if !root.is_dir() {
        return Err(EngineError::InvalidInput);
    }
    let dir_pats = match compile(ignore_dirs) {
        Ok(p) => p,
        Err(_) => {
            return Err(EngineError::InvalidPattern);
        },
    };
    let file_pats = match compile(ignore_files) {
        Ok(p) => p,
        Err(_) => {
            return Err(EngineError::InvalidPattern);
        },
    };
    let auto_excludes = auto_excludes_for(root, &dir_pats);
    let ext_entries = clone_strings(ignore_files);
    let cfg = WalkConfig {
        dir_patterns: dir_pats,
        file_patterns: file_pats,
        ext_entries,
        auto_excludes,
        mode,
    };
    let ghost pv = prompt_view(*root, views_of(ignore_dirs@), views_of(ignore_files@), mode);
    proof {
        assert(pat_views(cfg.dir_patterns@) =~= views_of(ignore_dirs@));
        assert(pat_views(cfg.file_patterns@) =~= views_of(ignore_files@));
        assert(cfg@ =~= pv);
    }
    let walked = match walk(root, &cfg) {
        Ok(p) => p,
        Err(_) => {
            return Err(EngineError::InvalidInput);
        },
    };
    let (tree, records) = walked;
    if tree_only {
        return Ok(tree);
    }
    let doc = assemble(tree.as_str(), &records, filter);
    proof {
        assert(doc@ == document(tree_spec(*root, pv), rec_views(records@), views_of(filter@)));
    }
    Ok(doc)
}

} // verus!
