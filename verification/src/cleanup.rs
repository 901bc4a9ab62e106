//! The cleanup scanner: find previously generated prompt documents and
//! decide which are safe to delete.
//!
//! The scan descends into every directory, ignored or not, and keeps
//! each file whose name ends with the output suffix. A candidate may be
//! deleted only when its base name (the name with the suffix stripped)
//! is the name of a currently valid directory: the root itself or any
//! directory the collector lists. The engine only plans; the caller
//! performs the deletions.

use vstd::prelude::*;

use crate::EngineError;
use crate::collect::collect_dir_names;
use crate::collect::collect_spec;
use crate::pattern::all_valid;
use crate::pattern::compile;
use crate::pattern::views_of;
use crate::text::is_suffix;
use crate::text::str_eq;
use crate::text::str_ends_with;
use crate::tree::FsEntry;
use crate::tree::name_of;

verus! {

/// The suffix that marks a generated prompt document.
pub open spec fn prompt_suffix() -> Seq<char> {
    "_prompt.txt"@
}

/// The abstract values of the collected candidates: relative path and
/// bare file name.
pub open spec fn hit_views(s: Seq<(String, String)>) -> Seq<(Seq<char>, Seq<char>)> {
    s.map_values(|p: (String, String)| (p.0@, p.1@))
}

/// Every prompt-suffixed file under the children `s[i..]`, descending
/// into all directories.
pub open spec fn prompts_from(s: Seq<FsEntry>, prefix: Seq<char>, i: int) -> Seq<
    (Seq<char>, Seq<char>),
>
    decreases s, s.len() - i,
    when 0 <= i
{
    if i >= s.len() {
        Seq::empty()
    } else {
        let here: Seq<(Seq<char>, Seq<char>)> = match s[i] {
            FsEntry::Dir { dname, children } => prompts_from(
                children@,
                prefix + dname@ + "/"@,
                0,
            ),
            FsEntry::File { fname, .. } => if is_suffix(prompt_suffix(), fname@) {
                seq![(prefix + fname@, fname@)]
            } else {
                Seq::empty()
            },
        };
        here + prompts_from(s, prefix, i + 1)
    }
}

/// The candidates of a whole scan.
pub open spec fn prompts_spec(root: FsEntry) -> Seq<(Seq<char>, Seq<char>)> {
    if root is Dir {
        prompts_from(root->children@, Seq::empty(), 0)
    } else {
        Seq::empty()
    }
}

/// The candidate's name with the suffix stripped.
pub open spec fn base_of(name: Seq<char>) -> Seq<char> {
    name.take(name.len() - prompt_suffix().len())
}

/// The directory names a candidate may claim: the root's own name and
/// every collected directory name.
pub open spec fn valid_names(root: FsEntry, dirs: Seq<Seq<char>>) -> Set<Seq<char>> {
    collect_spec(root, dirs).insert(name_of(root))
}

/// The paths to delete among the candidates from `i` on: those whose
/// base name is valid, in scan order.
pub open spec fn plan_from(
    prompts: Seq<(Seq<char>, Seq<char>)>,
    valid: Set<Seq<char>>,
    i: int,
) -> Seq<Seq<char>>
    decreases prompts.len() - i,
    when 0 <= i
{
    if i >= prompts.len() {
        Seq::empty()
    } else {
        (if valid.contains(base_of(prompts[i].1)) {
            seq![prompts[i].0]
        } else {
            Seq::<Seq<char>>::empty()
        }) + plan_from(prompts, valid, i + 1)
    }
}

/// The whole cleanup decision for one scan.
pub open spec fn plan_spec(root: FsEntry, dirs: Seq<Seq<char>>) -> Seq<Seq<char>> {
    plan_from(prompts_spec(root), valid_names(root, dirs), 0)
}

/// Every candidate the scan lists carries the prompt suffix.
pub proof fn lemma_prompts_suffixed(s: Seq<FsEntry>, prefix: Seq<char>, i: int, j: int)
    requires
        0 <= i,
        0 <= j < prompts_from(s, prefix, i).len(),
    ensures
        is_suffix(prompt_suffix(), prompts_from(s, prefix, i)[j].1),
    decreases s, s.len() - i,
{
    if i < s.len() {
        let here: Seq<(Seq<char>, Seq<char>)> = match s[i] {
            FsEntry::Dir { dname, children } => prompts_from(children@, prefix + dname@ + "/"@, 0),
            FsEntry::File { fname, .. } => if is_suffix(prompt_suffix(), fname@) {
                seq![(prefix + fname@, fname@)]
            } else {
                Seq::empty()
            },
        };
        if j < here.len() {
            match s[i] {
                FsEntry::Dir { dname, children } => {
                    lemma_prompts_suffixed(children@, prefix + dname@ + "/"@, 0, j);
                },
                FsEntry::File { fname, .. } => {
                },
            }
        } else {
            lemma_prompts_suffixed(s, prefix, i + 1, j - here.len());
        }
    }
}

fn find_prompts_at(
    children: &Vec<FsEntry>,
    prefix: &str,
    i: usize,
    out: &mut Vec<(String, String)>,
)
    requires
        i <= children@.len(),
    ensures
        hit_views(final(out)@) == hit_views(old(out)@) + prompts_from(
            children@,
            prefix@,
            i as int,
        ),
    decreases children@, children@.len() - i,
{
    if i == children.len() {
        proof {
            assert(hit_views(out@) + prompts_from(children@, prefix@, i as int) =~= hit_views(
                out@,
            ));
        }
        return ;
    }
    let ghost out0 = hit_views(out@);
    match &children[i] {
        FsEntry::Dir { dname, children: sub } => {
            let mut sub_prefix = String::from_str(prefix);
            sub_prefix.append(dname.as_str());
            sub_prefix.append("/");
            proof {
                assert(sub_prefix@ =~= prefix@ + dname@ + "/"@);
            }
            find_prompts_at(sub, sub_prefix.as_str(), 0, out);
        },
        FsEntry::File { fname, .. } => {
            if str_ends_with(fname.as_str(), "_prompt.txt") {
                let mut path = String::from_str(prefix);
                path.append(fname.as_str());
                out.push((path, fname.clone()));
                proof {
                    assert(hit_views(out@) =~= out0 + seq![
                        (prefix@ + fname@, fname@),
                    ]);
                }
            }
        },
    }
    let ghost out1 = hit_views(out@);
    find_prompts_at(children, prefix, i + 1, out);
    proof {
        let here: Seq<(Seq<char>, Seq<char>)> = match children@[i as int] {
            FsEntry::Dir { dname, children: sub } => prompts_from(sub@, prefix@ + dname@ + "/"@, 0),
            FsEntry::File { fname, .. } => if is_suffix(prompt_suffix(), fname@) {
                seq![(prefix@ + fname@, fname@)]
            } else {
                Seq::empty()
            },
        };
        assert(out1 =~= out0 + here);
        assert(hit_views(out@) =~= out1 + prompts_from(children@, prefix@, i + 1));
        assert(hit_views(out@) =~= out0 + (here + prompts_from(children@, prefix@, i + 1)));
        assert(prompts_from(children@, prefix@, i as int) == here + prompts_from(
            children@,
            prefix@,
            i + 1,
        ));
    }
}

fn name_is_valid(valid: &Vec<String>, base: &str) -> (r: bool)
    ensures
        r == views_of(valid@).to_set().contains(base@),
{
    let mut i: usize = 0;
    while i < valid.len()
        invariant
            i <= valid@.len(),
            forall|j: int| 0 <= j < i ==> #[trigger] views_of(valid@)[j] != base@,
        decreases valid@.len() - i,
    {
        let same = str_eq(valid[i].as_str(), base);
        proof {
            assert(views_of(valid@)[i as int] == valid@[i as int]@);
        }
        if same {
            proof {
                assert(views_of(valid@).contains(base@));
            }
            return true;
        }
        i = i + 1;
    }
    proof {
        if views_of(valid@).to_set().contains(base@) {
            let j = choose|j: int|
                0 <= j < views_of(valid@).len() && views_of(valid@)[j] == base@;
            assert(false);
        }
    }
    false
}

fn plan_at(
    hits: &Vec<(String, String)>,
    valid: &Vec<String>,
    i: usize,
    out: &mut Vec<String>,
)
    requires
        i <= hits@.len(),
        forall|j: int|
            0 <= j < hits@.len() ==> is_suffix(prompt_suffix(), #[trigger] hit_views(hits@)[j].1),
    ensures
        views_of(final(out)@) == views_of(old(out)@) + plan_from(
            hit_views(hits@),
            views_of(valid@).to_set(),
            i as int,
        ),
    decreases hits@.len() - i,
{
    let ghost prompts = hit_views(hits@);
    let ghost vset = views_of(valid@).to_set();
    if i == hits.len() {
        proof {
            assert(views_of(out@) + plan_from(prompts, vset, i as int) =~= views_of(out@));
        }
        return ;
    }
    let ghost out0 = views_of(out@);
    let name = &hits[i].1;
    let name_len = name.as_str().unicode_len();
    proof {
        assert(prompts[i as int].1 == name@);
        assert(is_suffix(prompt_suffix(), name@));
        reveal_strlit("_prompt.txt");
        assert(prompt_suffix().len() == 11);
    }
    let base = name.as_str().substring_char(0, name_len - 11);
    proof {
        assert(base@ =~= base_of(prompts[i as int].1));
    }
    if name_is_valid(valid, base) {
        out.push(hits[i].0.clone());
        proof {
            assert(views_of(out@) =~= out0 + seq![prompts[i as int].0]);
        }
    }
    let ghost out1 = views_of(out@);
    plan_at(hits, valid, i + 1, out);
    proof {
        let here: Seq<Seq<char>> = if vset.contains(base_of(prompts[i as int].1)) {
            seq![prompts[i as int].0]
        } else {
            Seq::empty()
        };
        assert(out1 =~= out0 + here);
        assert(views_of(out@) =~= out1 + plan_from(prompts, vset, i + 1));
        assert(views_of(out@) =~= out0 + (here + plan_from(prompts, vset, i + 1)));
    }
}

/// Decide which generated prompt documents under the root may be
/// deleted. Succeeds exactly when the root is a directory and every
/// directory ignore entry is a valid glob; the result lists the relative
/// paths to delete, in scan order.
pub fn cleanup_plan(root: &FsEntry, ignore_dirs: &Vec<String>) -> (r: Result<
    Vec<String>,
    EngineError,
>)
    ensures
        r is Ok <==> *root is Dir && all_valid(views_of(ignore_dirs@)),
        r matches Ok(v) ==> views_of(v@) == plan_spec(*root, views_of(ignore_dirs@)),
        r matches Err(e) ==> e == (if *root is Dir {
            EngineError::InvalidPattern
        } else {
            EngineError::InvalidInput
        }),
{
    let children = match root {
        FsEntry::File { .. } => {
            return Err(EngineError::InvalidInput);
        },
        FsEntry::Dir { children, .. } => children,
    };
    let pats = match compile(ignore_dirs) {
        Ok(p) => p,
        Err(_) => {
            return Err(EngineError::InvalidPattern);
        },
    };
    let mut valid = collect_dir_names(root, &pats);
    let ghost valid0 = views_of(valid@);
    proof {
        assert(crate::pattern::pat_views(pats@) =~= views_of(ignore_dirs@));
        crate::collect::lemma_to_set_push(valid0, name_of(*root));
    }
    valid.push(root.name().clone());
    proof {
        assert(views_of(valid@) =~= valid0.push(name_of(*root)));
    }
    let mut hits: Vec<(String, String)> = Vec::new();
    find_prompts_at(children, "", 0, &mut hits);
    proof {
        reveal_strlit("");
        assert(""@ =~= Seq::<char>::empty());
        assert(hit_views(Seq::<(String, String)>::empty()) =~= Seq::<
            (Seq<char>, Seq<char>),
        >::empty());
        assert(hit_views(hits@) =~= prompts_spec(*root));
        assert forall|j: int|
            0 <= j < hits@.len() implies is_suffix(
            prompt_suffix(),
            #[trigger] hit_views(hits@)[j].1,
        ) by {
            lemma_prompts_suffixed(children@, Seq::empty(), 0, j);
        }
    }
    let mut plan: Vec<String> = Vec::new();
    plan_at(&hits, &valid, 0, &mut plan);
    proof {
        assert(views_of(Seq::<String>::empty()) =~= Seq::<Seq<char>>::empty());
        assert(views_of(valid@).to_set() =~= valid_names(*root, views_of(ignore_dirs@)));
        assert(views_of(plan@) =~= plan_spec(*root, views_of(ignore_dirs@)));
    }
    Ok(plan)
}

/// A planned deletion always claims a currently valid directory name:
/// for every path the plan lists there is a candidate with that path
/// whose base name is in the valid set. A candidate whose base name is
/// not valid is never planned.
pub proof fn lemma_cleanup_safe(
    prompts: Seq<(Seq<char>, Seq<char>)>,
    valid: Set<Seq<char>>,
    i: int,
    x: Seq<char>,
)
    requires
        0 <= i,
        plan_from(prompts, valid, i).contains(x),
    ensures
        exists|k: int|
            i <= k < prompts.len() && #[trigger] prompts[k].0 == x && valid.contains(
                base_of(prompts[k].1),
            ),
    decreases prompts.len() - i,
{
    if i < prompts.len() {
        let here: Seq<Seq<char>> = if valid.contains(base_of(prompts[i].1)) {
            seq![prompts[i].0]
        } else {
            Seq::empty()
        };
        let rest = plan_from(prompts, valid, i + 1);
        let j = choose|j: int|
            0 <= j < plan_from(prompts, valid, i).len() && plan_from(prompts, valid, i)[j] == x;
        if j < here.len() {
            assert(prompts[i].0 == x && valid.contains(base_of(prompts[i].1)));
        } else {
            assert(rest[j - here.len()] == x);
            assert(rest.contains(x));
            lemma_cleanup_safe(prompts, valid, i + 1, x);
        }
    }
}

} // verus!
