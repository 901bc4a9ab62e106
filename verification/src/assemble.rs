//! The prompt assembler: stitches the rendered tree and the collected
//! file contents into the final document. A non-empty filter list keeps
//! exactly the files whose relative path ends with one of the filter
//! strings; an empty list keeps every file. Unreadable content degrades
//! to a placeholder instead of failing, and blank content is replaced by
//! a placeholder of its own.

use vstd::prelude::*;

use crate::pattern::views_of;
use crate::text::all_whitespace;
use crate::text::is_space_char;
use crate::text::is_suffix;
use crate::text::str_ends_with;
use crate::tree::FileRecord;
use crate::tree::rec_views;

verus! {

/// A file is kept: no filters were given, or some filter string ends its
/// relative path.
pub open spec fn matches_filters(path: Seq<char>, filters: Seq<Seq<char>>) -> bool {
    filters.len() == 0 || exists|i: int|
        0 <= i < filters.len() && is_suffix(#[trigger] filters[i], path)
}

/// What stands inside a `<content>` block: the text itself, or a
/// placeholder for unreadable or blank content.
pub open spec fn body_of(content: Option<Seq<char>>) -> Seq<char> {
    match content {
        Option::None => "BINARY OR UNREADABLE"@,
        Option::Some(s) => if all_whitespace(s) {
            "EMPTY FILE"@
        } else {
            s
        },
    }
}

/// One file's block in the document.
pub open spec fn file_block(path: Seq<char>, content: Option<Seq<char>>) -> Seq<char> {
    "<file>\n<path>"@ + path + "</path>\n<content>\n"@ + body_of(content) + "\n</content>\n</file>\n\n"@
}

/// The blocks of the records from `i` on, filters applied.
pub open spec fn blocks_from(
    recs: Seq<(Seq<char>, Option<Seq<char>>)>,
    filters: Seq<Seq<char>>,
    i: int,
) -> Seq<char>
    decreases recs.len() - i,
    when 0 <= i
{
    if i >= recs.len() {
        Seq::empty()
    } else {
        (if matches_filters(recs[i].0, filters) {
            file_block(recs[i].0, recs[i].1)
        } else {
            Seq::<char>::empty()
        }) + blocks_from(recs, filters, i + 1)
    }
}

/// The whole document, byte for byte.
pub open spec fn document(
    tree: Seq<char>,
    recs: Seq<(Seq<char>, Option<Seq<char>>)>,
    filters: Seq<Seq<char>>,
) -> Seq<char> {
    "<context>\n<directory_tree>\n"@ + tree + "</directory_tree>\n\n<files>\n\n"@ + blocks_from(
        recs,
        filters,
        0,
    ) + "</files>\n</context>"@
}

/// The blocks of the records from `i` on, with no filtering at all.
pub open spec fn all_blocks(recs: Seq<(Seq<char>, Option<Seq<char>>)>, i: int) -> Seq<char>
    decreases recs.len() - i,
    when 0 <= i
{
    if i >= recs.len() {
        Seq::empty()
    } else {
        file_block(recs[i].0, recs[i].1) + all_blocks(recs, i + 1)
    }
}

/// The records from `i` on that the filters keep, in order.
pub open spec fn selected_from(
    recs: Seq<(Seq<char>, Option<Seq<char>>)>,
    filters: Seq<Seq<char>>,
    i: int,
) -> Seq<(Seq<char>, Option<Seq<char>>)>
    decreases recs.len() - i,
    when 0 <= i
{
    if i >= recs.len() {
        Seq::empty()
    } else {
        (if matches_filters(recs[i].0, filters) {
            seq![recs[i]]
        } else {
            Seq::<(Seq<char>, Option<Seq<char>>)>::empty()
        }) + selected_from(recs, filters, i + 1)
    }
}

proof fn lemma_all_blocks_concat(
    x: Seq<(Seq<char>, Option<Seq<char>>)>,
    y: Seq<(Seq<char>, Option<Seq<char>>)>,
    i: int,
)
    requires
        0 <= i <= x.len(),
    ensures
        all_blocks(x + y, i) == all_blocks(x, i) + all_blocks(y, 0),
    decreases x.len() - i,
{
    let c = x + y;
    if i == x.len() {
        if y.len() == 0 {
            assert(c =~= x);
            assert(all_blocks(c, i) =~= all_blocks(x, i) + all_blocks(y, 0));
        } else {
            assert(all_blocks(x, i) == Seq::<char>::empty());
            assert forall|k: int| i <= k < c.len() implies #[trigger] c[k] == y[k - i] by {}
            lemma_all_blocks_shift(y, c, i);
            assert(all_blocks(c, i) =~= all_blocks(x, i) + all_blocks(y, 0));
        }
    } else {
        assert(c[i] == x[i]);
        lemma_all_blocks_concat(x, y, i + 1);
        assert(all_blocks(c, i) =~= all_blocks(x, i) + all_blocks(y, 0));
    }
}

proof fn lemma_all_blocks_shift(y: Seq<(Seq<char>, Option<Seq<char>>)>, c: Seq<(Seq<char>, Option<Seq<char>>)>, off: int)
    requires
        0 <= off,
        c.len() == off + y.len(),
        forall|k: int| off <= k < c.len() ==> #[trigger] c[k] == y[k - off],
    ensures
        all_blocks(c, off) == all_blocks(y, 0),
    decreases y.len(),
{
    lemma_all_blocks_shift_at(y, c, off, 0);
}

proof fn lemma_all_blocks_shift_at(
    y: Seq<(Seq<char>, Option<Seq<char>>)>,
    c: Seq<(Seq<char>, Option<Seq<char>>)>,
    off: int,
    j: int,
)
    requires
        0 <= off,
        0 <= j <= y.len(),
        c.len() == off + y.len(),
        forall|k: int| off <= k < c.len() ==> #[trigger] c[k] == y[k - off],
    ensures
        all_blocks(c, off + j) == all_blocks(y, j),
    decreases y.len() - j,
{
    if j < y.len() {
        lemma_all_blocks_shift_at(y, c, off, j + 1);
        assert(c[off + j] == y[j]);
    }
}

/// The document's file section is exactly the blocks of the selected
/// records: with no filters every discovered file, otherwise precisely
/// those whose relative path ends with one of the filter strings, in
/// walker order. Every selected record matches the filters.
pub proof fn lemma_filter_selection(
    recs: Seq<(Seq<char>, Option<Seq<char>>)>,
    filters: Seq<Seq<char>>,
    i: int,
)
    requires
        0 <= i <= recs.len(),
    ensures
        blocks_from(recs, filters, i) == all_blocks(selected_from(recs, filters, i), 0),
        filters.len() == 0 ==> selected_from(recs, filters, i) == recs.skip(i),
        forall|j: int|
            0 <= j < selected_from(recs, filters, i).len() ==> matches_filters(
                (#[trigger] selected_from(recs, filters, i)[j]).0,
                filters,
            ),
    decreases recs.len() - i,
{
    if i == recs.len() {
        assert(blocks_from(recs, filters, i) =~= all_blocks(
            selected_from(recs, filters, i),
            0,
        ));
        if filters.len() == 0 {
            assert(selected_from(recs, filters, i) =~= recs.skip(i));
        }
    } else {
        lemma_filter_selection(recs, filters, i + 1);
        let h: Seq<(Seq<char>, Option<Seq<char>>)> = if matches_filters(recs[i].0, filters) {
            seq![recs[i]]
        } else {
            Seq::empty()
        };
        let tail = selected_from(recs, filters, i + 1);
        lemma_all_blocks_concat(h, tail, 0);
        if matches_filters(recs[i].0, filters) {
            assert(h[0] == recs[i]);
            assert(all_blocks(h, 1) == Seq::<char>::empty());
            assert(all_blocks(h, 0) == file_block(h[0].0, h[0].1) + all_blocks(h, 1));
            assert(all_blocks(h, 0) =~= file_block(recs[i].0, recs[i].1));
        } else {
            assert(all_blocks(h, 0) =~= Seq::<char>::empty());
        }
        assert(blocks_from(recs, filters, i) =~= all_blocks(selected_from(recs, filters, i), 0));
        if filters.len() == 0 {
            assert(selected_from(recs, filters, i) =~= recs.skip(i)) by {
                assert(h[0] == recs[i]);
                assert(forall|k: int|
                    0 <= k < tail.len() ==> #[trigger] tail[k] == recs.skip(i + 1)[k]);
                assert(forall|k: int|
                    0 <= k < recs.skip(i + 1).len() ==> #[trigger] recs.skip(i + 1)[k] == recs[i
                        + 1 + k]);
            }
        }
        assert(forall|j: int|
            0 <= j < selected_from(recs, filters, i).len() ==> matches_filters(
                (#[trigger] selected_from(recs, filters, i)[j]).0,
                filters,
            )) by {
            assert(forall|j: int|
                0 <= j < tail.len() ==> selected_from(recs, filters, i)[h.len() + j] == tail[j]);
        }
    }
}

/// Whether the whole string is whitespace.
fn is_blank(s: &str) -> (r: bool)
    ensures
        r == all_whitespace(s@),
{
    let len = s.unicode_len();
    let mut i: usize = 0;
    while i < len
        invariant
            i <= len,
            len == s@.len(),
            forall|j: int| 0 <= j < i ==> is_space_char(#[trigger] s@[j]),
        decreases len - i,
    {
        let c = s.get_char(i);
        if !crate::text::is_space(c) {
            return false;
        }
        i = i + 1;
    }
    true
}

/// Whether the record's path ends with one of the filter strings, or the
/// filter list is empty.
fn filters_keep(path: &str, filters: &Vec<String>) -> (r: bool)
    ensures
        r == matches_filters(path@, views_of(filters@)),
{
    if filters.len() == 0 {
        return true;
    }
    let mut i: usize = 0;
    while i < filters.len()
        invariant
            i <= filters@.len(),
            forall|j: int| 0 <= j < i ==> !is_suffix(#[trigger] views_of(filters@)[j], path@),
        decreases filters@.len() - i,
    {
        if str_ends_with(path, filters[i].as_str()) {
            proof {
                assert(is_suffix(views_of(filters@)[i as int], path@));
            }
            return true;
        }
        i = i + 1;
    }
    false
}

fn assemble_at(records: &Vec<FileRecord>, filters: &Vec<String>, i: usize, out: &mut String)
    requires
        i <= records@.len(),
    ensures
        final(out)@ == old(out)@ + blocks_from(rec_views(records@), views_of(filters@), i as int),
    decreases records@.len() - i,
{
    let ghost recs = rec_views(records@);
    let ghost fls = views_of(filters@);
    if i == records.len() {
        proof {
            assert(out@ + blocks_from(recs, fls, i as int) =~= out@);
        }
        return ;
    }
    let ghost out0 = out@;
    let rec = &records[i];
    let keep = filters_keep(rec.path.as_str(), filters);
    proof {
        assert(recs[i as int] == records@[i as int]@);
        assert(keep == matches_filters(recs[i as int].0, fls));
    }
    if keep {
        out.append("<file>\n<path>");
        out.append(rec.path.as_str());
        out.append("</path>\n<content>\n");
        match &rec.content {
            crate::tree::FileContent::Text(s) => {
                if is_blank(s.as_str()) {
                    out.append("EMPTY FILE");
                } else {
                    out.append(s.as_str());
                }
            },
            crate::tree::FileContent::Unreadable => {
                out.append("BINARY OR UNREADABLE");
            },
        }
        out.append("\n</content>\n</file>\n\n");
        proof {
            assert(out@ =~= out0 + file_block(recs[i as int].0, recs[i as int].1));
        }
    }
    let ghost out1 = out@;
    assemble_at(records, filters, i + 1, out);
    proof {
        assert(out@ == out1 + blocks_from(recs, fls, i + 1));
        if keep {
            assert(out@ =~= out0 + (file_block(recs[i as int].0, recs[i as int].1) + blocks_from(
                recs,
                fls,
                i + 1,
            )));
        } else {
            assert(out@ =~= out0 + (Seq::<char>::empty() + blocks_from(recs, fls, i + 1)));
        }
    }
}

/// Stitch tree text and file records into the final document.
pub fn assemble(tree: &str, records: &Vec<FileRecord>, filters: &Vec<String>) -> (r: String)
    ensures
        r@ == document(tree@, rec_views(records@), views_of(filters@)),
{
    let mut out = String::from_str("<context>\n<directory_tree>\n");
    out.append(tree);
    out.append("</directory_tree>\n\n<files>\n\n");
    assemble_at(records, filters, 0, &mut out);
    out.append("</files>\n</context>");
    proof {
        assert(out@ =~= document(tree@, rec_views(records@), views_of(filters@)));
    }
    out
}

} // verus!
