//! The tree walker: which entries of a directory are visible, and in what
//! order the visible siblings are listed.
//!
//! Visibility drops dot-entries (with two literal exceptions for example
//! environment files), directories matched by the directory ignore list,
//! and files matched by the file ignore list, the extension list, or the
//! auto-excluded generated-output names. Surviving siblings are ordered
//! lexicographically by codepoint, files and directories together.

use vstd::prelude::*;

use crate::pattern::CompiledPattern;
use crate::pattern::any_match;
use crate::pattern::any_matches;
use crate::pattern::ext_match;
use crate::pattern::ext_matches;
use crate::pattern::pat_views;
use crate::pattern::views_of;
use crate::text::lex_le;
use crate::text::str_eq;
use crate::text::str_lex_lt;
use crate::tree::FileRecord;
use crate::tree::FsEntry;
use crate::tree::content_view;
use crate::tree::name_of;
use crate::tree::rec_views;

verus! {

/// What a glob ignore entry is matched against: the bare entry name, or
/// the entry's path relative to the scan root. The two granularities must
/// not be mixed within one run; the choice is made here, once.
#[derive(Clone, Copy, Debug, PartialEq, Eq, Structural)]
pub enum MatchMode {
    Name,
    RelativePath,
}

/// The walker's whole configuration, compiled.
pub struct WalkConfig {
    /// Globs that ignore directories.
    pub dir_patterns: Vec<CompiledPattern>,
    /// Globs that ignore files.
    pub file_patterns: Vec<CompiledPattern>,
    /// Raw file ignore entries, read again as extensions.
    pub ext_entries: Vec<String>,
    /// Exact file names excluded automatically (previously generated
    /// output documents); matched literally, never as globs.
    pub auto_excludes: Vec<String>,
    /// The glob matching granularity.
    pub mode: MatchMode,
}

/// The abstract walker configuration that all specifications speak of.
#[verifier::ext_equal]
pub ghost struct WalkView {
    pub dirs: Seq<Seq<char>>,
    pub files: Seq<Seq<char>>,
    pub exts: Seq<Seq<char>>,
    pub autos: Set<Seq<char>>,
    pub mode: MatchMode,
}

impl View for WalkConfig {
    type V = WalkView;

    open spec fn view(&self) -> WalkView {
        WalkView {
            dirs: pat_views(self.dir_patterns@),
            files: pat_views(self.file_patterns@),
            exts: views_of(self.ext_entries@),
            autos: views_of(self.auto_excludes@).to_set(),
            mode: self.mode,
        }
    }
}

/// What a glob is matched against for an entry called `name` whose parent
/// lies at `prefix` (empty at the root, otherwise ending in `/`).
pub open spec fn candidate(mode: MatchMode, prefix: Seq<char>, name: Seq<char>) -> Seq<char> {
    if mode == MatchMode::Name {
        name
    } else {
        prefix + name
    }
}

/// A dot-entry that is not one of the two allowed example-env names.
pub open spec fn hidden_name(n: Seq<char>) -> bool {
    crate::text::dot_name(n) && n != ".env.example"@ && n != ".example.env"@
}

/// A directory called `name` is ignored.
pub open spec fn dir_ignored(v: WalkView, prefix: Seq<char>, name: Seq<char>) -> bool {
    any_match(v.dirs, candidate(v.mode, prefix, name))
}

/// A file called `name` is ignored.
pub open spec fn file_ignored(v: WalkView, prefix: Seq<char>, name: Seq<char>) -> bool {
    ||| any_match(v.files, candidate(v.mode, prefix, name))
    ||| exists|i: int| 0 <= i < v.exts.len() && ext_match(#[trigger] v.exts[i], name)
    ||| v.autos.contains(name)
}

/// The entry survives every ignore rule of this listing.
pub open spec fn is_visible(e: FsEntry, v: WalkView, prefix: Seq<char>) -> bool {
    &&& !hidden_name(name_of(e))
    &&& (e is Dir ==> !dir_ignored(v, prefix, name_of(e)))
    &&& (e is File ==> !file_ignored(v, prefix, name_of(e)))
}

impl WalkConfig {
    /// Whether one directory entry survives the ignore rules.
    pub fn entry_visible(&self, e: &FsEntry, prefix: &str) -> (r: bool)
        ensures
            r == is_visible(*e, self@, prefix@),
    {
        let name = e.name();
        let n_len = name.as_str().unicode_len();
        if n_len > 0 && name.as_str().get_char(0) == '.' && !str_eq(name.as_str(), ".env.example")
            && !str_eq(name.as_str(), ".example.env") {
            return false;
        }
        let cand: String = if matches!(self.mode, MatchMode::Name) {
            name.clone()
        } else {
            let mut c = String::from_str(prefix);
            c.append(name.as_str());
            c
        };
        proof {
            assert(cand@ == candidate(self@.mode, prefix@, name_of(*e)));
        }
        if e.is_dir() {
            !any_matches(&self.dir_patterns, cand.as_str())
        } else {
            if any_matches(&self.file_patterns, cand.as_str()) {
                return false;
            }
            let mut i: usize = 0;
            while i < self.ext_entries.len()
                invariant
                    i <= self.ext_entries@.len(),
                    name@ == name_of(*e),
                    *e is File,
                    forall|j: int|
                        0 <= j < i ==> !ext_match(#[trigger] views_of(self.ext_entries@)[j], name_of(*e)),
                decreases self.ext_entries@.len() - i,
            {
                let entry_i = self.ext_entries[i].as_str();
                proof {
                    assert(entry_i@ == self.ext_entries@[i as int]@);
                }
                let hit = ext_matches(entry_i, name.as_str());
                proof {
                    assert(name@ == name_of(*e));
                    assert(hit == ext_match(entry_i@, name@));
                    assert(views_of(self.ext_entries@)[i as int] == self.ext_entries@[i as int]@);
                    assert(hit == ext_match(views_of(self.ext_entries@)[i as int], name_of(*e)));
                }
                if hit {
                    proof {
                        assert(ext_match(self@.exts[i as int], name_of(*e)));
                        assert(file_ignored(self@, prefix@, name_of(*e)));
                    }
                    return false;
                }
                i = i + 1;
            }
            let mut k: usize = 0;
            while k < self.auto_excludes.len()
                invariant
                    k <= self.auto_excludes@.len(),
                    name@ == name_of(*e),
                    *e is File,
                    forall|j: int|
                        0 <= j < k ==> #[trigger] views_of(self.auto_excludes@)[j] != name_of(*e),
                decreases self.auto_excludes@.len() - k,
            {
                let same = str_eq(self.auto_excludes[k].as_str(), name.as_str());
                proof {
                    assert(views_of(self.auto_excludes@)[k as int] == self.auto_excludes@[k as int]@);
                }
                if same {
                    proof {
                        assert(views_of(self.auto_excludes@).contains(name_of(*e)));
                        assert(self@.autos.contains(name_of(*e)));
                    }
                    return false;
                }
                k = k + 1;
            }
            proof {
                if self@.autos.contains(name_of(*e)) {
                    let j = choose|j: int|
                        0 <= j < views_of(self.auto_excludes@).len() && views_of(
                            self.auto_excludes@,
                        )[j] == name_of(*e);
                    assert(false);
                }
            }
            true
        }
    }
}

/// The indices below `n` of the children that are visible, in index order.
pub open spec fn visible_idxs(s: Seq<FsEntry>, v: WalkView, prefix: Seq<char>, n: int) -> Seq<
    usize,
>
    decreases n,
{
    if n <= 0 {
        Seq::empty()
    } else {
        visible_idxs(s, v, prefix, n - 1) + if is_visible(s[n - 1], v, prefix) {
            seq![(n - 1) as usize]
        } else {
            Seq::empty()
        }
    }
}

/// The name of the child at index `i`.
pub open spec fn name_at(s: Seq<FsEntry>, i: usize) -> Seq<char> {
    name_of(s[i as int])
}

/// Insert index `x` into an already sorted index sequence, before the
/// first entry whose name is not smaller.
pub open spec fn insert_idx(s: Seq<FsEntry>, sorted: Seq<usize>, x: usize) -> Seq<usize>
    decreases sorted.len(),
{
    if sorted.len() == 0 {
        seq![x]
    } else if lex_le(name_at(s, x), name_at(s, sorted[0])) {
        seq![x] + sorted
    } else {
        seq![sorted[0]] + insert_idx(s, sorted.drop_first(), x)
    }
}

/// Insertion sort of child indices by name.
pub open spec fn sort_idxs(s: Seq<FsEntry>, idxs: Seq<usize>) -> Seq<usize>
    decreases idxs.len(),
{
    if idxs.len() == 0 {
        Seq::empty()
    } else {
        insert_idx(s, sort_idxs(s, idxs.drop_first()), idxs[0])
    }
}

/// The listing order of one directory: its visible children, sorted by
/// name.
pub open spec fn ordering(s: Seq<FsEntry>, v: WalkView, prefix: Seq<char>) -> Seq<usize> {
    sort_idxs(s, visible_idxs(s, v, prefix, s.len() as int))
}

proof fn lemma_contains_head_tail<A>(s: Seq<A>, y: A)
    requires
        s.len() > 0,
    ensures
        s.contains(y) <==> (s[0] == y || s.drop_first().contains(y)),
{
    if s.contains(y) {
        let k = choose|k: int| 0 <= k < s.len() && s[k] == y;
        if k > 0 {
            assert(s.drop_first()[k - 1] == y);
        }
    }
    if s.drop_first().contains(y) {
        let k = choose|k: int| 0 <= k < s.drop_first().len() && s.drop_first()[k] == y;
        assert(s[k + 1] == y);
    }
}

pub proof fn lemma_insert_idx_elems(s: Seq<FsEntry>, sorted: Seq<usize>, x: usize, y: usize)
    ensures
        insert_idx(s, sorted, x).contains(y) <==> (sorted.contains(y) || y == x),
    decreases sorted.len(),
{
    if sorted.len() == 0 {
        if y == x {
            assert(insert_idx(s, sorted, x)[0] == x);
        }
        if insert_idx(s, sorted, x).contains(y) {
            let k = choose|k: int|
                0 <= k < insert_idx(s, sorted, x).len() && insert_idx(s, sorted, x)[k] == y;
            assert(y == x);
        }
    } else if lex_le(name_at(s, x), name_at(s, sorted[0])) {
        lemma_contains_head_tail(seq![x] + sorted, y);
        assert((seq![x] + sorted).drop_first() =~= sorted);
        assert((seq![x] + sorted)[0] == x);
    } else {
        lemma_insert_idx_elems(s, sorted.drop_first(), x, y);
        lemma_contains_head_tail(sorted, y);
        lemma_contains_head_tail(seq![sorted[0]] + insert_idx(s, sorted.drop_first(), x), y);
        assert((seq![sorted[0]] + insert_idx(s, sorted.drop_first(), x)).drop_first() =~= insert_idx(
            s,
            sorted.drop_first(),
            x,
        ));
        assert((seq![sorted[0]] + insert_idx(s, sorted.drop_first(), x))[0] == sorted[0]);
    }
}

pub proof fn lemma_sort_idxs_elems(s: Seq<FsEntry>, idxs: Seq<usize>, y: usize)
    ensures
        sort_idxs(s, idxs).contains(y) <==> idxs.contains(y),
    decreases idxs.len(),
{
    if idxs.len() > 0 {
        lemma_sort_idxs_elems(s, idxs.drop_first(), y);
        lemma_insert_idx_elems(s, sort_idxs(s, idxs.drop_first()), idxs[0], y);
        lemma_contains_head_tail(idxs, y);
    }
}

pub proof fn lemma_visible_idxs_elems(
    s: Seq<FsEntry>,
    v: WalkView,
    prefix: Seq<char>,
    n: int,
    y: usize,
)
    requires
        n <= s.len(),
        n <= usize::MAX,
    ensures
        visible_idxs(s, v, prefix, n).contains(y) ==> y < n && is_visible(s[y as int], v, prefix),
    decreases n,
{
    if n > 0 {
        lemma_visible_idxs_elems(s, v, prefix, n - 1, y);
        let tail: Seq<usize> = if is_visible(s[n - 1], v, prefix) {
            seq![(n - 1) as usize]
        } else {
            Seq::empty()
        };
        if visible_idxs(s, v, prefix, n).contains(y) {
            let k = choose|k: int|
                0 <= k < visible_idxs(s, v, prefix, n).len() && visible_idxs(s, v, prefix, n)[k]
                    == y;
            if k < visible_idxs(s, v, prefix, n - 1).len() {
                assert(visible_idxs(s, v, prefix, n - 1).contains(y));
            } else {
                assert(tail[k - visible_idxs(s, v, prefix, n - 1).len()] == y);
            }
        }
    }
}

/// The ordering of any sibling list only addresses elements of the list.
pub proof fn lemma_ordering_in_range(s: Seq<FsEntry>, v: WalkView, prefix: Seq<char>)
    requires
        s.len() <= usize::MAX,
    ensures
        order_in_range(s, ordering(s, v, prefix)),
{
    let order = ordering(s, v, prefix);
    assert forall|k: int| 0 <= k < order.len() implies (#[trigger] order[k]) < s.len() by {
        assert(order.contains(order[k]));
        lemma_ordering_elems(s, v, prefix, order[k]);
    }
}

/// Every index the ordering lists is in range and names a visible child.
pub proof fn lemma_ordering_elems(s: Seq<FsEntry>, v: WalkView, prefix: Seq<char>, y: usize)
    requires
        s.len() <= usize::MAX,
    ensures
        ordering(s, v, prefix).contains(y) ==> y < s.len() && is_visible(s[y as int], v, prefix),
{
    lemma_sort_idxs_elems(s, visible_idxs(s, v, prefix, s.len() as int), y);
    lemma_visible_idxs_elems(s, v, prefix, s.len() as int, y);
}

fn insert_sorted(s: &Vec<FsEntry>, out: &mut Vec<usize>, x: usize)
    requires
        x < s@.len(),
        forall|k: int| 0 <= k < old(out)@.len() ==> #[trigger] old(out)@[k] < s@.len(),
    ensures
        final(out)@ == insert_idx(s@, old(out)@, x),
        forall|k: int| 0 <= k < final(out)@.len() ==> #[trigger] final(out)@[k] < s@.len(),
{
    let mut j: usize = 0;
    loop
        invariant
            j <= out@.len(),
            out@ == old(out)@,
            x < s@.len(),
            forall|k: int| 0 <= k < out@.len() ==> #[trigger] out@[k] < s@.len(),
            forall|k: int|
                0 <= k < j ==> !lex_le(name_at(s@, x), name_at(s@, #[trigger] out@[k])),
        ensures
            j <= out@.len(),
            out@ == old(out)@,
            forall|k: int|
                0 <= k < j ==> !lex_le(name_at(s@, x), name_at(s@, #[trigger] out@[k])),
            j < out@.len() ==> lex_le(name_at(s@, x), name_at(s@, out@[j as int])),
        decreases out@.len() - j,
    {
        if j == out.len() {
            break;
        }
        let xi = out[j];
        if str_lex_lt(s[x].name().as_str(), s[xi].name().as_str()) || str_eq(
            s[x].name().as_str(),
            s[xi].name().as_str(),
        ) {
            break;
        }
        j = j + 1;
    }
    proof {
        lemma_insert_idx_split(s@, out@, x, j as int);
    }
    out.insert(j, x);
    proof {
        assert(out@ =~= old(out)@.take(j as int) + seq![x] + old(out)@.skip(j as int));
        lemma_insert_idx_elems_all(s@, old(out)@, x);
    }
}

proof fn lemma_insert_idx_elems_all(s: Seq<FsEntry>, sorted: Seq<usize>, x: usize)
    ensures
        forall|y: usize|
            insert_idx(s, sorted, x).contains(y) <==> (sorted.contains(y) || y == x),
{
    assert forall|y: usize|
        insert_idx(s, sorted, x).contains(y) <==> (sorted.contains(y) || y == x) by {
        lemma_insert_idx_elems(s, sorted, x, y);
    }
}

proof fn lemma_insert_idx_split(s: Seq<FsEntry>, sorted: Seq<usize>, x: usize, j: int)
    requires
        0 <= j <= sorted.len(),
        forall|k: int| 0 <= k < j ==> !lex_le(name_at(s, x), name_at(s, #[trigger] sorted[k])),
        j < sorted.len() ==> lex_le(name_at(s, x), name_at(s, sorted[j])),
    ensures
        insert_idx(s, sorted, x) =~= sorted.take(j) + seq![x] + sorted.skip(j),
    decreases sorted.len(),
{
    if sorted.len() == 0 {
    } else if lex_le(name_at(s, x), name_at(s, sorted[0])) {
        assert(j == 0);
    } else {
        assert(j >= 1);
        lemma_insert_idx_split(s, sorted.drop_first(), x, j - 1);
        assert(sorted.drop_first().take(j - 1) =~= sorted.take(j).drop_first());
        assert(sorted.drop_first().skip(j - 1) =~= sorted.skip(j));
    }
}

/// Compute the listing order of one directory.
fn visible_sorted(children: &Vec<FsEntry>, cfg: &WalkConfig, prefix: &str) -> (order: Vec<usize>)
    ensures
        order@ == ordering(children@, cfg@, prefix@),
        forall|k: int| 0 <= k < order@.len() ==> #[trigger] order@[k] < children@.len(),
{
    let mut vis: Vec<usize> = Vec::new();
    let mut i: usize = 0;
    while i < children.len()
        invariant
            i <= children@.len(),
            vis@ == visible_idxs(children@, cfg@, prefix@, i as int),
            forall|k: int| 0 <= k < vis@.len() ==> #[trigger] vis@[k] < i,
        decreases children@.len() - i,
    {
        if cfg.entry_visible(&children[i], prefix) {
            vis.push(i);
            proof {
                assert(visible_idxs(children@, cfg@, prefix@, i + 1) =~= vis@);
            }
        } else {
            proof {
                assert(visible_idxs(children@, cfg@, prefix@, i + 1) =~= vis@);
            }
        }
        i = i + 1;
    }
    let mut out: Vec<usize> = Vec::new();
    let mut k: usize = vis.len();
    proof {
        assert(vis@.skip(k as int) =~= Seq::<usize>::empty());
    }
    while k > 0
        invariant
            k <= vis@.len(),
            out@ == sort_idxs(children@, vis@.skip(k as int)),
            forall|t: int| 0 <= t < vis@.len() ==> #[trigger] vis@[t] < children@.len(),
            forall|t: int| 0 <= t < out@.len() ==> #[trigger] out@[t] < children@.len(),
        decreases k,
    {
        let x = vis[k - 1];
        insert_sorted(children, &mut out, x);
        proof {
            assert(vis@.skip(k - 1).drop_first() =~= vis@.skip(k as int));
            assert(vis@.skip(k - 1)[0] == vis@[k - 1]);
        }
        k = k - 1;
    }
    proof {
        assert(vis@.skip(0) =~= vis@);
    }
    out
}

/// The listed siblings stand in non-decreasing name order.
pub open spec fn sorted_by_name(s: Seq<FsEntry>, order: Seq<usize>) -> bool {
    forall|a: int, b: int|
        0 <= a < b < order.len() ==> lex_le(
            name_at(s, #[trigger] order[a]),
            name_at(s, #[trigger] order[b]),
        )
}

proof fn lemma_insert_idx_sorted(s: Seq<FsEntry>, sorted: Seq<usize>, x: usize)
    requires
        sorted_by_name(s, sorted),
    ensures
        sorted_by_name(s, insert_idx(s, sorted, x)),
    decreases sorted.len(),
{
    if sorted.len() == 0 {
    } else if lex_le(name_at(s, x), name_at(s, sorted[0])) {
        let res = seq![x] + sorted;
        assert forall|a: int, b: int| 0 <= a < b < res.len() implies lex_le(
            name_at(s, #[trigger] res[a]),
            name_at(s, #[trigger] res[b]),
        ) by {
            if a == 0 {
                assert(res[b] == sorted[b - 1]);
                if b - 1 > 0 {
                    assert(lex_le(name_at(s, sorted[0]), name_at(s, sorted[b - 1])));
                }
                crate::text::lemma_lex_trans(
                    name_at(s, x),
                    name_at(s, sorted[0]),
                    name_at(s, sorted[b - 1]),
                );
            } else {
                assert(res[a] == sorted[a - 1]);
                assert(res[b] == sorted[b - 1]);
            }
        }
    } else {
        crate::text::lemma_lex_total(name_at(s, x), name_at(s, sorted[0]));
        assert(lex_le(name_at(s, sorted[0]), name_at(s, x)));
        let tail = sorted.drop_first();
        assert(sorted_by_name(s, tail)) by {
            assert(forall|a: int, b: int|
                0 <= a < b < tail.len() ==> tail[a] == sorted[a + 1] && tail[b] == sorted[b + 1]);
        }
        lemma_insert_idx_sorted(s, tail, x);
        let inner = insert_idx(s, tail, x);
        let res = seq![sorted[0]] + inner;
        assert forall|a: int, b: int| 0 <= a < b < res.len() implies lex_le(
            name_at(s, #[trigger] res[a]),
            name_at(s, #[trigger] res[b]),
        ) by {
            if a == 0 {
                assert(res[b] == inner[b - 1]);
                assert(inner.contains(inner[b - 1]));
                lemma_insert_idx_elems(s, tail, x, inner[b - 1]);
                if inner[b - 1] == x {
                } else {
                    let k = choose|k: int| 0 <= k < tail.len() && tail[k] == inner[b - 1];
                    assert(tail[k] == sorted[k + 1]);
                    assert(lex_le(name_at(s, sorted[0]), name_at(s, sorted[k + 1])));
                }
            } else {
                assert(res[a] == inner[a - 1]);
                assert(res[b] == inner[b - 1]);
            }
        }
    }
}

proof fn lemma_sort_idxs_sorted(s: Seq<FsEntry>, idxs: Seq<usize>)
    ensures
        sorted_by_name(s, sort_idxs(s, idxs)),
    decreases idxs.len(),
{
    if idxs.len() > 0 {
        lemma_sort_idxs_sorted(s, idxs.drop_first());
        lemma_insert_idx_sorted(s, sort_idxs(s, idxs.drop_first()), idxs[0]);
    }
}

proof fn lemma_visible_idxs_complete(
    s: Seq<FsEntry>,
    v: WalkView,
    prefix: Seq<char>,
    n: int,
    y: usize,
)
    requires
        n <= s.len(),
        n <= usize::MAX,
        y < n,
        is_visible(s[y as int], v, prefix),
    ensures
        visible_idxs(s, v, prefix, n).contains(y),
    decreases n,
{
    let head = visible_idxs(s, v, prefix, n - 1);
    let tail: Seq<usize> = if is_visible(s[n - 1], v, prefix) {
        seq![(n - 1) as usize]
    } else {
        Seq::empty()
    };
    if y == n - 1 {
        assert(tail[0] == y);
        assert((head + tail)[head.len() as int] == y);
    } else {
        lemma_visible_idxs_complete(s, v, prefix, n - 1, y);
        let k = choose|k: int| 0 <= k < head.len() && head[k] == y;
        assert((head + tail)[k] == y);
    }
}

/// The listing order of a sibling list is sorted by name, and it lists
/// exactly the visible children: an index appears in it if and only if
/// it addresses a visible entry. Together with the walker's functional
/// contract this pins the sibling order: the same tree and configuration
/// always render the same text.
pub proof fn lemma_ordering_correct(s: Seq<FsEntry>, v: WalkView, prefix: Seq<char>, y: usize)
    requires
        s.len() <= usize::MAX,
    ensures
        sorted_by_name(s, ordering(s, v, prefix)),
        ordering(s, v, prefix).contains(y) <==> (y < s.len() && is_visible(
            s[y as int],
            v,
            prefix,
        )),
{
    lemma_sort_idxs_sorted(s, visible_idxs(s, v, prefix, s.len() as int));
    lemma_sort_idxs_elems(s, visible_idxs(s, v, prefix, s.len() as int), y);
    lemma_visible_idxs_elems(s, v, prefix, s.len() as int, y);
    if y < s.len() && is_visible(s[y as int], v, prefix) {
        lemma_visible_idxs_complete(s, v, prefix, s.len() as int, y);
    }
}

/// The branch drawn before an entry: a tee, or an elbow for the last
/// sibling.
pub open spec fn connector(last: bool) -> Seq<char> {
    if last {
        "└── "@
    } else {
        "├── "@
    }
}

/// What one level adds to the indent of its children.
pub open spec fn indent_ext(last: bool) -> Seq<char> {
    if last {
        "    "@
    } else {
        "│   "@
    }
}

/// Every index in `order` addresses an element of `s`.
pub open spec fn order_in_range(s: Seq<FsEntry>, order: Seq<usize>) -> bool {
    forall|k: int| 0 <= k < order.len() ==> (#[trigger] order[k]) < s.len()
}

/// The tree text for the children of one directory, listed in `order`:
/// one connector line per entry, a directory followed by the rendering of
/// its own visible children under a grown indent.
pub open spec fn render_dir(
    s: Seq<FsEntry>,
    order: Seq<usize>,
    indent: Seq<char>,
    prefix: Seq<char>,
    v: WalkView,
) -> Seq<char>
    decreases s, order.len(),
    when order_in_range(s, order)
    via render_dir_decreases
{
    if order.len() == 0 {
        Seq::empty()
    } else {
        let e = s[order[0] as int];
        let last = order.len() == 1;
        let line = indent + connector(last) + name_of(e) + (if e is Dir {
            "/\n"@
        } else {
            "\n"@
        });
        let sub = if e is Dir {
            render_dir(
                e->children@,
                ordering(e->children@, v, prefix + name_of(e) + "/"@),
                indent + indent_ext(last),
                prefix + name_of(e) + "/"@,
                v,
            )
        } else {
            Seq::empty()
        };
        line + sub + render_dir(s, order.drop_first(), indent, prefix, v)
    }
}

#[via_fn]
proof fn render_dir_decreases(
    s: Seq<FsEntry>,
    order: Seq<usize>,
    indent: Seq<char>,
    prefix: Seq<char>,
    v: WalkView,
) {
    if order.len() > 0 {
        let i = order[0] as int;
        assert(0 <= i < s.len());
        let e = s[i];
        if e is Dir {
            assert(decreases_to!(s => s[i]));
            assert(decreases_to!(s[i] => s[i]->children));
            assert(decreases_to!(s[i]->children => s[i]->children@));
        }
    }
}

/// The relative paths and contents of the visible files under one
/// directory, in rendering order.
pub open spec fn files_dir(
    s: Seq<FsEntry>,
    order: Seq<usize>,
    prefix: Seq<char>,
    v: WalkView,
) -> Seq<(Seq<char>, Option<Seq<char>>)>
    decreases s, order.len(),
    when order_in_range(s, order)
    via files_dir_decreases
{
    if order.len() == 0 {
        Seq::empty()
    } else {
        let e = s[order[0] as int];
        let here: Seq<(Seq<char>, Option<Seq<char>>)> = match e {
            FsEntry::File { fname, content } => seq![(prefix + fname@, content_view(content))],
            FsEntry::Dir { dname, children } => files_dir(
                children@,
                ordering(children@, v, prefix + dname@ + "/"@),
                prefix + dname@ + "/"@,
                v,
            ),
        };
        here + files_dir(s, order.drop_first(), prefix, v)
    }
}

#[via_fn]
proof fn files_dir_decreases(
    s: Seq<FsEntry>,
    order: Seq<usize>,
    prefix: Seq<char>,
    v: WalkView,
) {
    if order.len() > 0 {
        let i = order[0] as int;
        assert(0 <= i < s.len());
        let e = s[i];
        if e is Dir {
            assert(decreases_to!(s => s[i]));
            assert(decreases_to!(s[i] => s[i]->children));
            assert(decreases_to!(s[i]->children => s[i]->children@));
        }
    }
}

/// The record `r` names a visible file: some file entry, visible under
/// some prefix, supplies its path and content.
pub open spec fn names_visible_file(r: (Seq<char>, Option<Seq<char>>), v: WalkView) -> bool {
    exists|p: Seq<char>, e: FsEntry|
        #![trigger is_visible(e, v, p)]
        e is File && is_visible(e, v, p) && r == (p + name_of(e), content_view(e->content))
}

proof fn lemma_files_dir_visible(
    s: Seq<FsEntry>,
    order: Seq<usize>,
    prefix: Seq<char>,
    v: WalkView,
    j: int,
)
    requires
        order_in_range(s, order),
        forall|k: int|
            0 <= k < order.len() ==> is_visible(s[(#[trigger] order[k]) as int], v, prefix),
        0 <= j < files_dir(s, order, prefix, v).len(),
    ensures
        names_visible_file(files_dir(s, order, prefix, v)[j], v),
    decreases s, order.len(),
{
    assert(order.len() > 0);
    let e = s[order[0] as int];
    let rest = files_dir(s, order.drop_first(), prefix, v);
    assert(order_in_range(s, order.drop_first())) by {
        assert(forall|k: int|
            0 <= k < order.drop_first().len() ==> #[trigger] order.drop_first()[k] == order[k
                + 1]);
    }
    assert(forall|k: int|
        0 <= k < order.drop_first().len() ==> is_visible(
            s[(#[trigger] order.drop_first()[k]) as int],
            v,
            prefix,
        )) by {
        assert(forall|k: int|
            0 <= k < order.drop_first().len() ==> #[trigger] order.drop_first()[k] == order[k
                + 1]);
    }
    match e {
        FsEntry::File { fname, content } => {
            let here: Seq<(Seq<char>, Option<Seq<char>>)> = seq![
                (prefix + fname@, content_view(content)),
            ];
            assert(files_dir(s, order, prefix, v) == here + rest);
            if j < here.len() {
                assert(files_dir(s, order, prefix, v)[j] == here[0]);
                assert(is_visible(e, v, prefix));
                assert(here[0] == (prefix + name_of(e), content_view(e->content)));
            } else {
                assert(files_dir(s, order, prefix, v)[j] == rest[j - here.len()]);
                lemma_files_dir_visible(s, order.drop_first(), prefix, v, j - here.len());
            }
        },
        FsEntry::Dir { dname, children } => {
            let sub = children@;
            let p2 = prefix + dname@ + "/"@;
            assert(sub.len() <= usize::MAX) by {
                assert(vstd::std_specs::vec::spec_vec_len(&children) == sub.len());
            }
            lemma_ordering_in_range(sub, v, p2);
            let here = files_dir(sub, ordering(sub, v, p2), p2, v);
            assert(files_dir(s, order, prefix, v) == here + rest);
            if j < here.len() {
                assert(files_dir(s, order, prefix, v)[j] == here[j]);
                assert forall|k: int|
                    0 <= k < ordering(sub, v, p2).len() implies is_visible(
                    sub[(#[trigger] ordering(sub, v, p2)[k]) as int],
                    v,
                    p2,
                ) by {
                    assert(ordering(sub, v, p2).contains(ordering(sub, v, p2)[k]));
                    lemma_ordering_correct(sub, v, p2, ordering(sub, v, p2)[k]);
                }
                lemma_files_dir_visible(sub, ordering(sub, v, p2), p2, v, j);
            } else {
                assert(files_dir(s, order, prefix, v)[j] == rest[j - here.len()]);
                lemma_files_dir_visible(s, order.drop_first(), prefix, v, j - here.len());
            }
        },
    }
}

/// Nothing the walker lists is ignored: every record of a scan's file
/// list is a visible file — its name is no dot name, no file ignore
/// entry and no extension entry matches it, and it is not an
/// auto-excluded output name.
pub proof fn lemma_ignored_never_listed(root: FsEntry, v: WalkView, j: int)
    requires
        root is Dir,
        0 <= j < files_spec(root, v).len(),
    ensures
        names_visible_file(files_spec(root, v)[j], v),
{
    let s = root->children;
    let sub = s@;
    assert(sub.len() <= usize::MAX) by {
        assert(vstd::std_specs::vec::spec_vec_len(&s) == sub.len());
    }
    lemma_ordering_in_range(sub, v, Seq::empty());
    assert forall|k: int|
        0 <= k < ordering(sub, v, Seq::empty()).len() implies is_visible(
        sub[(#[trigger] ordering(sub, v, Seq::empty())[k]) as int],
        v,
        Seq::empty(),
    ) by {
        assert(ordering(sub, v, Seq::empty()).contains(ordering(sub, v, Seq::empty())[k]));
        lemma_ordering_correct(sub, v, Seq::empty(), ordering(sub, v, Seq::empty())[k]);
    }
    lemma_files_dir_visible(sub, ordering(sub, v, Seq::empty()), Seq::empty(), v, j);
}

/// The rendered tree of a whole scan: the root's own line, then its
/// children.
pub open spec fn tree_spec(root: FsEntry, v: WalkView) -> Seq<char> {
    name_of(root) + "/\n"@ + render_dir(
        root->children@,
        ordering(root->children@, v, Seq::empty()),
        Seq::empty(),
        Seq::empty(),
        v,
    )
}

/// The file list of a whole scan.
pub open spec fn files_spec(root: FsEntry, v: WalkView) -> Seq<(Seq<char>, Option<Seq<char>>)> {
    files_dir(
        root->children@,
        ordering(root->children@, v, Seq::empty()),
        Seq::empty(),
        v,
    )
}

fn walk_at(
    children: &Vec<FsEntry>,
    cfg: &WalkConfig,
    order: &Vec<usize>,
    pos: usize,
    indent: &str,
    prefix: &str,
    tree: &mut String,
    files: &mut Vec<FileRecord>,
)
    requires
        pos <= order@.len(),
        order_in_range(children@, order@),
    ensures
        final(tree)@ == old(tree)@ + render_dir(
            children@,
            order@.skip(pos as int),
            indent@,
            prefix@,
            cfg@,
        ),
        rec_views(final(files)@) == rec_views(old(files)@) + files_dir(
            children@,
            order@.skip(pos as int),
            prefix@,
            cfg@,
        ),
    decreases children@, order@.len() - pos,
{
    let ghost rest = order@.skip(pos as int);
    if pos == order.len() {
        proof {
            assert(rest =~= Seq::<usize>::empty());
            assert(old(tree)@ + render_dir(children@, rest, indent@, prefix@, cfg@) =~= old(
                tree,
            )@);
            assert(rec_views(files@) + files_dir(children@, rest, prefix@, cfg@) =~= rec_views(
                files@,
            ));
        }
        return ;
    }
    proof {
        assert(rest[0] == order@[pos as int]);
        assert(rest.drop_first() =~= order@.skip(pos + 1));
        assert(rest.len() == order@.len() - pos);
    }
    let idx = order[pos];
    let last = pos + 1 == order.len();
    let ghost e = children@[idx as int];
    let ghost tree0 = tree@;
    let ghost files0 = files@;
    tree.append(indent);
    tree.append(if last {
        "└── "
    } else {
        "├── "
    });
    tree.append(children[idx].name().as_str());
    let ghost line = indent@ + connector(last) + name_of(e);
    proof {
        assert(tree@ =~= tree0 + line);
    }
    match &children[idx] {
        FsEntry::Dir { dname, children: sub } => {
            tree.append("/\n");
            proof {
                assert(tree@ =~= tree0 + (line + "/\n"@));
            }
            let mut child_indent = String::from_str(indent);
            child_indent.append(if last {
                "    "
            } else {
                "│   "
            });
            let mut child_prefix = String::from_str(prefix);
            child_prefix.append(dname.as_str());
            child_prefix.append("/");
            proof {
                assert(child_indent@ == indent@ + indent_ext(last));
                assert(child_prefix@ =~= prefix@ + name_of(e) + "/"@);
            }
            let sub_order = visible_sorted(sub, cfg, child_prefix.as_str());
            proof {
                assert(decreases_to!(children@ => children@[idx as int]));
                assert(decreases_to!(children@[idx as int] => children@[idx as int]->children));
                assert(decreases_to!(children@[idx as int]->children => children@[idx as int]->children@));
            }
            walk_at(
                sub,
                cfg,
                &sub_order,
                0,
                child_indent.as_str(),
                child_prefix.as_str(),
                tree,
                files,
            );
            proof {
                assert(sub_order@.skip(0) =~= sub_order@);
                let sub_tree = render_dir(
                    e->children@,
                    ordering(e->children@, cfg@, prefix@ + name_of(e) + "/"@),
                    indent@ + indent_ext(last),
                    prefix@ + name_of(e) + "/"@,
                    cfg@,
                );
                assert(tree@ =~= tree0 + (line + "/\n"@ + sub_tree));
                let sub_files = files_dir(
                    e->children@,
                    ordering(e->children@, cfg@, prefix@ + name_of(e) + "/"@),
                    prefix@ + name_of(e) + "/"@,
                    cfg@,
                );
                assert(rec_views(files@) =~= rec_views(files0) + sub_files);
            }
        },
        FsEntry::File { fname, content } => {
            tree.append("\n");
            let mut path = String::from_str(prefix);
            path.append(fname.as_str());
            let rec = FileRecord { path, content: content.dup() };
            proof {
                assert(rec@ == (prefix@ + fname@, content_view(*content)));
            }
            files.push(rec);
            proof {
                assert(tree@ =~= tree0 + (line + "\n"@));
                assert(rec_views(files@) =~= rec_views(files0) + seq![
                    (prefix@ + name_of(e), content_view(*content)),
                ]);
            }
        },
    }
    let ghost tree1 = tree@;
    let ghost files1 = files@;
    walk_at(children, cfg, order, pos + 1, indent, prefix, tree, files);
    proof {
        let lastg = pos + 1 == order@.len();
        let line_full = indent@ + connector(lastg) + name_of(e) + (if e is Dir {
            "/\n"@
        } else {
            "\n"@
        });
        let sub = if e is Dir {
            render_dir(
                e->children@,
                ordering(e->children@, cfg@, prefix@ + name_of(e) + "/"@),
                indent@ + indent_ext(lastg),
                prefix@ + name_of(e) + "/"@,
                cfg@,
            )
        } else {
            Seq::<char>::empty()
        };
        let rest_tree = render_dir(children@, order@.skip(pos + 1), indent@, prefix@, cfg@);
        assert(render_dir(children@, rest, indent@, prefix@, cfg@) == line_full + sub
            + rest_tree);
        assert(tree1 =~= tree0 + (line_full + sub));
        assert(tree@ =~= tree1 + rest_tree);
        assert(tree@ =~= tree0 + (line_full + sub + rest_tree));
        let here_files: Seq<(Seq<char>, Option<Seq<char>>)> = match e {
            FsEntry::File { fname, content } => seq![(prefix@ + fname@, content_view(content))],
            FsEntry::Dir { dname, children: sub_c } => files_dir(
                sub_c@,
                ordering(sub_c@, cfg@, prefix@ + dname@ + "/"@),
                prefix@ + dname@ + "/"@,
                cfg@,
            ),
        };
        let rest_files = files_dir(children@, order@.skip(pos + 1), prefix@, cfg@);
        assert(files_dir(children@, rest, prefix@, cfg@) == here_files + rest_files);
        assert(rec_views(files1) =~= rec_views(files0) + here_files);
        assert(rec_views(files@) =~= rec_views(files1) + rest_files);
        assert(rec_views(files@) =~= rec_views(files0) + (here_files + rest_files));
    }
}

proof fn lemma_visible_idxs_append(
    s: Seq<FsEntry>,
    x: FsEntry,
    v: WalkView,
    prefix: Seq<char>,
    n: int,
)
    requires
        0 <= n <= s.len(),
    ensures
        visible_idxs(s.push(x), v, prefix, n) == visible_idxs(s, v, prefix, n),
    decreases n,
{
    if n > 0 {
        lemma_visible_idxs_append(s, x, v, prefix, n - 1);
        assert(s.push(x)[n - 1] == s[n - 1]);
    }
}

proof fn lemma_insert_idx_append(s: Seq<FsEntry>, x: FsEntry, sorted: Seq<usize>, y: usize)
    requires
        y < s.len(),
        forall|k: int| 0 <= k < sorted.len() ==> (#[trigger] sorted[k]) < s.len(),
    ensures
        insert_idx(s.push(x), sorted, y) == insert_idx(s, sorted, y),
    decreases sorted.len(),
{
    if sorted.len() > 0 {
        assert(name_at(s.push(x), y) == name_at(s, y));
        assert(name_at(s.push(x), sorted[0]) == name_at(s, sorted[0]));
        assert(forall|k: int|
            0 <= k < sorted.drop_first().len() ==> #[trigger] sorted.drop_first()[k] == sorted[k
                + 1]);
        lemma_insert_idx_append(s, x, sorted.drop_first(), y);
    }
}

proof fn lemma_sort_idxs_append(s: Seq<FsEntry>, x: FsEntry, idxs: Seq<usize>)
    requires
        forall|k: int| 0 <= k < idxs.len() ==> (#[trigger] idxs[k]) < s.len(),
    ensures
        sort_idxs(s.push(x), idxs) == sort_idxs(s, idxs),
    decreases idxs.len(),
{
    if idxs.len() > 0 {
        assert(forall|k: int|
            0 <= k < idxs.drop_first().len() ==> #[trigger] idxs.drop_first()[k] == idxs[k + 1]);
        lemma_sort_idxs_append(s, x, idxs.drop_first());
        let inner = sort_idxs(s, idxs.drop_first());
        assert forall|k: int| 0 <= k < inner.len() implies (#[trigger] inner[k]) < s.len() by {
            assert(inner.contains(inner[k]));
            lemma_sort_idxs_elems(s, idxs.drop_first(), inner[k]);
            let m = choose|m: int|
                0 <= m < idxs.drop_first().len() && idxs.drop_first()[m] == inner[k];
            assert(idxs[m + 1] == inner[k]);
        }
        lemma_insert_idx_append(s, x, inner, idxs[0]);
    }
}

/// Appending an entry that is not visible leaves a directory's listing
/// order unchanged.
pub proof fn lemma_ordering_append_invisible(
    s: Seq<FsEntry>,
    x: FsEntry,
    v: WalkView,
    prefix: Seq<char>,
)
    requires
        s.len() < usize::MAX,
        !is_visible(x, v, prefix),
    ensures
        ordering(s.push(x), v, prefix) == ordering(s, v, prefix),
{
    let s2 = s.push(x);
    let n = s.len() as int;
    assert(s2[n] == x);
    assert(visible_idxs(s2, v, prefix, n + 1) =~= visible_idxs(s2, v, prefix, n));
    lemma_visible_idxs_append(s, x, v, prefix, n);
    let vi = visible_idxs(s, v, prefix, n);
    assert forall|k: int| 0 <= k < vi.len() implies (#[trigger] vi[k]) < s.len() by {
        assert(vi.contains(vi[k]));
        lemma_visible_idxs_elems(s, v, prefix, n, vi[k]);
    }
    lemma_sort_idxs_append(s, x, vi);
}

proof fn lemma_render_dir_append(
    s: Seq<FsEntry>,
    x: FsEntry,
    order: Seq<usize>,
    indent: Seq<char>,
    prefix: Seq<char>,
    v: WalkView,
)
    requires
        order_in_range(s, order),
    ensures
        render_dir(s.push(x), order, indent, prefix, v) == render_dir(s, order, indent, prefix, v),
    decreases order.len(),
{
    assert(order_in_range(s.push(x), order)) by {
        assert(forall|k: int| 0 <= k < order.len() ==> (#[trigger] order[k]) < s.push(x).len());
    }
    if order.len() > 0 {
        assert(s.push(x)[order[0] as int] == s[order[0] as int]);
        let e = s[order[0] as int];
        if e is Dir {
            let sub = e->children;
            assert(sub@.len() <= usize::MAX) by {
                assert(vstd::std_specs::vec::spec_vec_len(&sub) == sub@.len());
            }
            lemma_ordering_in_range(sub@, v, prefix + name_of(e) + "/"@);
        }
        assert(order_in_range(s, order.drop_first())) by {
            assert(forall|k: int|
                0 <= k < order.drop_first().len() ==> #[trigger] order.drop_first()[k] == order[k
                    + 1]);
        }
        lemma_render_dir_append(s, x, order.drop_first(), indent, prefix, v);
    }
}

proof fn lemma_files_dir_append(
    s: Seq<FsEntry>,
    x: FsEntry,
    order: Seq<usize>,
    prefix: Seq<char>,
    v: WalkView,
)
    requires
        order_in_range(s, order),
    ensures
        files_dir(s.push(x), order, prefix, v) == files_dir(s, order, prefix, v),
    decreases order.len(),
{
    assert(order_in_range(s.push(x), order)) by {
        assert(forall|k: int| 0 <= k < order.len() ==> (#[trigger] order[k]) < s.push(x).len());
    }
    if order.len() > 0 {
        assert(s.push(x)[order[0] as int] == s[order[0] as int]);
        let e = s[order[0] as int];
        if e is Dir {
            let sub = e->children;
            assert(sub@.len() <= usize::MAX) by {
                assert(vstd::std_specs::vec::spec_vec_len(&sub) == sub@.len());
            }
            lemma_ordering_in_range(sub@, v, prefix + name_of(e) + "/"@);
        }
        assert(order_in_range(s, order.drop_first())) by {
            assert(forall|k: int|
                0 <= k < order.drop_first().len() ==> #[trigger] order.drop_first()[k] == order[k
                    + 1]);
        }
        lemma_files_dir_append(s, x, order.drop_first(), prefix, v);
    }
}

/// An entry that any ignore rule drops contributes nothing at its own
/// level: with it appended to the sibling list, the listing order, the
/// rendered tree text and the file list are all unchanged. In
/// particular, a file or directory whose name matches an ignore entry
/// never yields a rendered entry line in the tree diagram.
pub proof fn lemma_ignored_entry_not_rendered(
    s: Seq<FsEntry>,
    x: FsEntry,
    v: WalkView,
    indent: Seq<char>,
    prefix: Seq<char>,
)
    requires
        s.len() < usize::MAX,
        !is_visible(x, v, prefix),
    ensures
        ordering(s.push(x), v, prefix) == ordering(s, v, prefix),
        render_dir(s.push(x), ordering(s, v, prefix), indent, prefix, v) == render_dir(
            s,
            ordering(s, v, prefix),
            indent,
            prefix,
            v,
        ),
        files_dir(s.push(x), ordering(s, v, prefix), prefix, v) == files_dir(
            s,
            ordering(s, v, prefix),
            prefix,
            v,
        ),
{
    lemma_ordering_append_invisible(s, x, v, prefix);
    lemma_ordering_in_range(s, v, prefix);
    lemma_render_dir_append(s, x, ordering(s, v, prefix), indent, prefix, v);
    lemma_files_dir_append(s, x, ordering(s, v, prefix), prefix, v);
}

/// Adding an invisible entry to the root's children changes neither the
/// rendered tree nor the file list.
pub proof fn lemma_walk_ignores_invisible(root: FsEntry, root2: FsEntry, v: WalkView, x: FsEntry)
    requires
        root is Dir,
        root2 is Dir,
        name_of(root2) == name_of(root),
        root2->children@ == root->children@.push(x),
        !is_visible(x, v, Seq::empty()),
    ensures
        tree_spec(root2, v) == tree_spec(root, v),
        files_spec(root2, v) == files_spec(root, v),
{
    let s = root->children@;
    assert(s.len() < usize::MAX) by {
        let c = root->children;
        assert(vstd::std_specs::vec::spec_vec_len(&c) == s.len());
        let c2 = root2->children;
        assert(vstd::std_specs::vec::spec_vec_len(&c2) == root2->children@.len());
    }
    lemma_ordering_append_invisible(s, x, v, Seq::empty());
    lemma_ordering_in_range(s, v, Seq::empty());
    lemma_render_dir_append(s, x, ordering(s, v, Seq::empty()), Seq::empty(), Seq::empty(), v);
    lemma_files_dir_append(s, x, ordering(s, v, Seq::empty()), Seq::empty(), v);
}

/// Walk a scan root: the rendered tree and the visible files with their
/// contents. Succeeds exactly when the root is a directory.
pub fn walk(root: &FsEntry, cfg: &WalkConfig) -> (r: Result<
    (String, Vec<FileRecord>),
    crate::EngineError,
>)
    ensures
        r is Ok <==> *root is Dir,
        r matches Ok(p) ==> p.0@ == tree_spec(*root, cfg@) && rec_views(p.1@) == files_spec(
            *root,
            cfg@,
        ),
        r matches Err(e) ==> e == crate::EngineError::InvalidInput,
{
    match root {
        FsEntry::File { .. } => Err(crate::EngineError::InvalidInput),
        FsEntry::Dir { dname, children } => {
            let mut tree = String::from_str(dname.as_str());
            tree.append("/\n");
            let mut files: Vec<FileRecord> = Vec::new();
            let order = visible_sorted(children, cfg, "");
            proof {
                reveal_strlit("");
                assert(""@ =~= Seq::<char>::empty());
                assert(ordering(children@, cfg@, ""@) == ordering(
                    children@,
                    cfg@,
                    Seq::<char>::empty(),
                ));
            }
            walk_at(children, cfg, &order, 0, "", "", &mut tree, &mut files);
            proof {
                assert(order@.skip(0) =~= order@);
                assert(rec_views(Seq::<FileRecord>::empty()) =~= Seq::<
                    (Seq<char>, Option<Seq<char>>),
                >::empty());
                assert(tree@ =~= tree_spec(*root, cfg@));
                assert(rec_views(files@) =~= files_spec(*root, cfg@));
            }
            Ok((tree, files))
        },
    }
}

} // verus!
