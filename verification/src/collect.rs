//! The directory-name collector: the names (not paths) of every
//! directory that is neither a dot-directory nor ignored, gathered
//! recursively. Every name that begins with a dot is skipped here — the
//! walker's two example-env exceptions are for files and do not apply —
//! and ignore entries are matched against bare directory names, whatever
//! granularity the walker uses for globs. The collection seeds the
//! auto-exclusion of previously generated output files and validates
//! cleanup targets.

use vstd::prelude::*;

use crate::pattern::CompiledPattern;
use crate::pattern::any_match;
use crate::pattern::any_matches;
use crate::pattern::pat_views;
use crate::pattern::views_of;
use crate::text::dot_name;
use crate::tree::FsEntry;
use crate::tree::name_of;

verus! {

/// A directory whose name the collector keeps: not dot-named (without
/// exception) and not ignored.
pub open spec fn dir_collectible(e: FsEntry, dirs: Seq<Seq<char>>) -> bool {
    e is Dir && !dot_name(name_of(e)) && !any_match(dirs, name_of(e))
}

/// The names collected from the children `s[i..]`, descending only into
/// collectible directories.
pub open spec fn collect_from(s: Seq<FsEntry>, dirs: Seq<Seq<char>>, i: int) -> Set<Seq<char>>
    decreases s, s.len() - i,
    when 0 <= i
{
    if i >= s.len() {
        Set::empty()
    } else {
        let here = if dir_collectible(s[i], dirs) {
            set!{name_of(s[i])}.union(collect_from(s[i]->children@, dirs, 0))
        } else {
            Set::<Seq<char>>::empty()
        };
        here.union(collect_from(s, dirs, i + 1))
    }
}

/// Every collected name of a whole scan root (the root's own name not
/// included).
pub open spec fn collect_spec(root: FsEntry, dirs: Seq<Seq<char>>) -> Set<Seq<char>> {
    if root is Dir {
        collect_from(root->children@, dirs, 0)
    } else {
        Set::empty()
    }
}

pub proof fn lemma_to_set_push<A>(s: Seq<A>, x: A)
    ensures
        s.push(x).to_set() =~= s.to_set().insert(x),
{
    assert forall|y: A| s.push(x).to_set().contains(y) implies s.to_set().insert(x).contains(y) by {
        let k = choose|k: int| 0 <= k < s.push(x).len() && s.push(x)[k] == y;
        if k < s.len() {
            assert(s[k] == y);
        }
    }
    assert forall|y: A| s.to_set().insert(x).contains(y) implies s.push(x).to_set().contains(y) by {
        if s.to_set().contains(y) {
            let k = choose|k: int| 0 <= k < s.len() && s[k] == y;
            assert(s.push(x)[k] == y);
        } else {
            assert(s.push(x)[s.len() as int] == x);
        }
    }
}

fn collect_at(
    children: &Vec<FsEntry>,
    pats: &Vec<CompiledPattern>,
    i: usize,
    out: &mut Vec<String>,
)
    requires
        i <= children@.len(),
    ensures
        views_of(final(out)@).to_set() == views_of(old(out)@).to_set().union(
            collect_from(children@, pat_views(pats@), i as int),
        ),
    decreases children@, children@.len() - i,
{
    if i == children.len() {
        proof {
            assert(views_of(out@).to_set() =~= views_of(out@).to_set().union(
                collect_from(children@, pat_views(pats@), i as int),
            ));
        }
        return ;
    }
    let ghost dirs = pat_views(pats@);
    let ghost out0 = views_of(out@).to_set();
    match &children[i] {
        FsEntry::Dir { dname, children: sub } => {
            let n_len = dname.as_str().unicode_len();
            let dotted = n_len > 0 && dname.as_str().get_char(0) == '.';
            if !dotted && !any_matches(pats, dname.as_str()) {
                out.push(dname.clone());
                proof {
                    lemma_to_set_push(views_of(old(out)@), dname@);
                    assert(views_of(out@) =~= views_of(old(out)@).push(dname@));
                    assert(views_of(out@).to_set() =~= out0.insert(dname@));
                }
                collect_at(sub, pats, 0, out);
                proof {
                    assert(views_of(out@).to_set() =~= out0.union(
                        set!{name_of(children@[i as int])}.union(
                            collect_from(children@[i as int]->children@, dirs, 0),
                        ),
                    ));
                }
            } else {
                proof {
                    assert(!dir_collectible(children@[i as int], dirs));
                }
            }
        },
        FsEntry::File { .. } => {
        },
    }
    let ghost out1 = views_of(out@).to_set();
    collect_at(children, pats, i + 1, out);
    proof {
        assert(views_of(out@).to_set() =~= out1.union(collect_from(children@, dirs, i + 1)));
        let here = if dir_collectible(children@[i as int], dirs) {
            set!{name_of(children@[i as int])}.union(
                collect_from(children@[i as int]->children@, dirs, 0),
            )
        } else {
            Set::<Seq<char>>::empty()
        };
        assert(out1 =~= out0.union(here));
        assert(collect_from(children@, dirs, i as int) == here.union(
            collect_from(children@, dirs, i + 1),
        ));
        assert(views_of(out@).to_set() =~= out0.union(collect_from(children@, dirs, i as int)));
    }
}

/// Appending a file to the children leaves the collected directory
/// names unchanged: the collector only reads directories.
pub proof fn lemma_collect_append_file(s: Seq<FsEntry>, x: FsEntry, dirs: Seq<Seq<char>>, i: int)
    requires
        0 <= i <= s.len(),
        x is File,
    ensures
        collect_from(s.push(x), dirs, i) == collect_from(s, dirs, i),
    decreases s.len() - i,
{
    let s2 = s.push(x);
    if i == s.len() {
        assert(s2[i] == x);
        assert(!dir_collectible(x, dirs));
        assert(collect_from(s2, dirs, i + 1) =~= Set::<Seq<char>>::empty());
        assert(collect_from(s2, dirs, i) =~= collect_from(s, dirs, i));
    } else {
        assert(s2[i] == s[i]);
        lemma_collect_append_file(s, x, dirs, i + 1);
        assert(collect_from(s2, dirs, i) =~= collect_from(s, dirs, i));
    }
}

/// Collect the names of every reachable, non-ignored, non-dot directory
/// under the root. A root that is itself a file yields nothing.
pub fn collect_dir_names(root: &FsEntry, pats: &Vec<CompiledPattern>) -> (r: Vec<String>)
    ensures
        views_of(r@).to_set() == collect_spec(*root, pat_views(pats@)),
{
    let mut out: Vec<String> = Vec::new();
    match root {
        FsEntry::Dir { children, .. } => {
            collect_at(children, pats, 0, &mut out);
            proof {
                assert(views_of(Seq::<String>::empty()).to_set() =~= Set::<Seq<char>>::empty());
                assert(views_of(out@).to_set() =~= collect_spec(*root, pat_views(pats@)));
            }
        },
        FsEntry::File { .. } => {
            proof {
                assert(views_of(out@).to_set() =~= Set::<Seq<char>>::empty());
            }
        },
    }
    out
}

} // verus!
