//! The mathematical model of the store: row and link views, lookup
//! functions over them, and the well-formedness the engine maintains.
use vstd::prelude::*;

use crate::kinds::Kind;

verus! {

/// The view of one resource row: every column of the unified table.
pub struct RowV {
    pub id: Seq<char>,
    pub kind: Kind,
    pub path: Option<Seq<char>>,
    pub title: Seq<char>,
    pub content: Seq<char>,
    pub created_at: Seq<char>,
    pub updated_at: Seq<char>,
    pub meta: Option<Seq<char>>,
}

/// The view of one directed link between two resources.
pub struct LinkV {
    pub source: Seq<char>,
    pub target: Seq<char>,
    pub kind: Seq<char>,
}

/// One stored resource row.
#[derive(Debug)]
pub struct Row {
    pub id: String,
    pub kind: Kind,
    pub path: Option<String>,
    pub title: String,
    pub content: String,
    pub created_at: String,
    pub updated_at: String,
    pub meta: Option<String>,
}

/// One stored directed link.
#[derive(Debug)]
pub struct LinkRow {
    pub source_id: String,
    pub target_id: String,
    pub link_type: String,
}

/// The view of an optional piece of text.
pub open spec fn opt_v(o: Option<String>) -> Option<Seq<char>> {
    match o {
        Option::Some(s) => Option::Some(s@),
        Option::None => Option::None,
    }
}

impl View for Row {
    type V = RowV;

    open spec fn view(&self) -> RowV {
        RowV {
            id: self.id@,
            kind: self.kind,
            path: opt_v(self.path),
            title: self.title@,
            content: self.content@,
            created_at: self.created_at@,
            updated_at: self.updated_at@,
            meta: opt_v(self.meta),
        }
    }
}

impl View for LinkRow {
    type V = LinkV;

    open spec fn view(&self) -> LinkV {
        LinkV { source: self.source_id@, target: self.target_id@, kind: self.link_type@ }
    }
}

/// The index of the first row carrying the identifier, or -1 if none does.
pub open spec fn id_index(rs: Seq<RowV>, id: Seq<char>) -> int
    decreases rs.len(),
{
    if rs.len() == 0 {
        -1
    } else if rs[0].id == id {
        0
    } else if id_index(rs.drop_first(), id) < 0 {
        -1
    } else {
        id_index(rs.drop_first(), id) + 1
    }
}

/// The index of the first row stored under the path, or -1 if none is.
pub open spec fn path_index(rs: Seq<RowV>, path: Seq<char>) -> int
    decreases rs.len(),
{
    if rs.len() == 0 {
        -1
    } else if rs[0].path == Option::Some(path) {
        0
    } else if path_index(rs.drop_first(), path) < 0 {
        -1
    } else {
        path_index(rs.drop_first(), path) + 1
    }
}

/// Whether some row carries the identifier.
pub open spec fn has_id(rs: Seq<RowV>, id: Seq<char>) -> bool {
    exists|i: int| 0 <= i < rs.len() && (#[trigger] rs[i]).id == id
}

/// What `id_index` finds: the first row with the identifier, if any.
pub proof fn lemma_id_index(rs: Seq<RowV>, id: Seq<char>)
    ensures
        id_index(rs, id) < 0 ==> forall|i: int|
            0 <= i < rs.len() ==> (#[trigger] rs[i]).id != id,
        id_index(rs, id) >= 0 ==> id_index(rs, id) < rs.len() && rs[id_index(rs, id)].id == id,
        forall|i: int| 0 <= i < id_index(rs, id) ==> (#[trigger] rs[i]).id != id,
    decreases rs.len(),
{
    if rs.len() > 0 && rs[0].id != id {
        let d = rs.drop_first();
        lemma_id_index(d, id);
        if id_index(rs, id) < 0 {
            assert forall|i: int| 0 <= i < rs.len() implies (#[trigger] rs[i]).id != id by {
                if i > 0 {
                    assert(rs[i] == d[i - 1]);
                }
            }
        } else {
            assert forall|i: int| 0 <= i < id_index(rs, id) implies (#[trigger] rs[i]).id
                != id by {
                if i > 0 {
                    assert(rs[i] == d[i - 1]);
                }
            }
            assert(rs[id_index(rs, id)] == d[id_index(rs, id) - 1]);
        }
    }
}

/// What `path_index` finds: the first row with the path, if any.
pub proof fn lemma_path_index(rs: Seq<RowV>, path: Seq<char>)
    ensures
        path_index(rs, path) < 0 ==> forall|i: int|
            0 <= i < rs.len() ==> (#[trigger] rs[i]).path != Option::Some(path),
        path_index(rs, path) >= 0 ==> path_index(rs, path) < rs.len() && rs[path_index(
            rs,
            path,
        )].path == Option::Some(path),
        forall|i: int|
            0 <= i < path_index(rs, path) ==> (#[trigger] rs[i]).path != Option::Some(path),
    decreases rs.len(),
{
    if rs.len() > 0 && rs[0].path != Option::Some(path) {
        let d = rs.drop_first();
        lemma_path_index(d, path);
        if path_index(rs, path) < 0 {
            assert forall|i: int| 0 <= i < rs.len() implies (#[trigger] rs[i]).path
                != Option::Some(path) by {
                if i > 0 {
                    assert(rs[i] == d[i - 1]);
                }
            }
        } else {
            assert forall|i: int| 0 <= i < path_index(rs, path) implies (#[trigger] rs[i]).path
                != Option::Some(path) by {
                if i > 0 {
                    assert(rs[i] == d[i - 1]);
                }
            }
            assert(rs[path_index(rs, path)] == d[path_index(rs, path) - 1]);
        }
    }
}

/// No two rows share an identifier.
pub open spec fn ids_unique(rs: Seq<RowV>) -> bool {
    forall|i: int, j: int|
        #![trigger rs[i], rs[j]]
        0 <= i < j < rs.len() ==> rs[i].id != rs[j].id
}

/// Every link's endpoints exist, and no two links join the same ordered
/// pair of resources.
pub open spec fn links_ok(rs: Seq<RowV>, ls: Seq<LinkV>) -> bool {
    &&& forall|i: int|
        0 <= i < ls.len() ==> has_id(rs, (#[trigger] ls[i]).source) && has_id(rs, ls[i].target)
    &&& forall|i: int, j: int|
        #![trigger ls[i], ls[j]]
        0 <= i < j < ls.len() ==> !(ls[i].source == ls[j].source && ls[i].target == ls[j].target)
}

/// A row after a content refresh: only `content` and `updated_at` change.
pub open spec fn refreshed(r: RowV, content: Seq<char>, now: Seq<char>) -> RowV {
    RowV {
        id: r.id,
        kind: r.kind,
        path: r.path,
        title: r.title,
        content: content,
        created_at: r.created_at,
        updated_at: now,
        meta: r.meta,
    }
}

/// The rows after an upsert: if a row already carries the identifier it
/// keeps its kind, path, title and creation time, takes the new content
/// and timestamp, and moves to the most-recently-touched position;
/// otherwise the full new row is appended.
pub open spec fn upsert_rows(rs: Seq<RowV>, row: RowV) -> Seq<RowV> {
    let k = id_index(rs, row.id);
    if k >= 0 {
        rs.remove(k).push(refreshed(rs[k], row.content, row.updated_at))
    } else {
        rs.push(row)
    }
}

/// The rows that survive deleting the resource with the identifier:
/// exactly those that do not carry it, in their stored order.
pub open spec fn rows_without(rs: Seq<RowV>, id: Seq<char>) -> Seq<RowV>
    decreases rs.len(),
{
    if rs.len() == 0 {
        Seq::empty()
    } else if rs.last().id != id {
        rows_without(rs.drop_last(), id).push(rs.last())
    } else {
        rows_without(rs.drop_last(), id)
    }
}

/// The links that survive deleting the resource with the identifier:
/// exactly those that touch it at neither endpoint, in their stored
/// order.
pub open spec fn links_without(ls: Seq<LinkV>, id: Seq<char>) -> Seq<LinkV>
    decreases ls.len(),
{
    if ls.len() == 0 {
        Seq::empty()
    } else if ls.last().source != id && ls.last().target != id {
        links_without(ls.drop_last(), id).push(ls.last())
    } else {
        links_without(ls.drop_last(), id)
    }
}

/// When no row carries the identifier, deletion keeps every row.
pub proof fn lemma_filter_all_kept(rs: Seq<RowV>, id: Seq<char>)
    requires
        forall|i: int| 0 <= i < rs.len() ==> (#[trigger] rs[i]).id != id,
    ensures
        rows_without(rs, id) == rs,
    decreases rs.len(),
{
    if rs.len() > 0 {
        let d = rs.drop_last();
        assert(forall|i: int| 0 <= i < d.len() ==> #[trigger] d[i] == rs[i]);
        lemma_filter_all_kept(d, id);
        assert(rows_without(rs, id) =~= rs);
    }
}

/// With unique identifiers, deleting the row at the identifier's
/// position is exactly the filtered row sequence.
pub proof fn lemma_remove_unique_is_filter(rs: Seq<RowV>, k: int, id: Seq<char>)
    requires
        ids_unique(rs),
        0 <= k < rs.len(),
        rs[k].id == id,
    ensures
        rows_without(rs, id) == rs.remove(k),
    decreases rs.len(),
{
    let d = rs.drop_last();
    assert(forall|i: int| 0 <= i < d.len() ==> #[trigger] d[i] == rs[i]);
    if k == rs.len() - 1 {
        assert forall|i: int| 0 <= i < d.len() implies (#[trigger] d[i]).id != id by {
            assert(rs[i].id != rs[k].id);
        }
        lemma_filter_all_kept(d, id);
        assert(rows_without(rs, id) == d);
        assert(rs.remove(k) =~= d);
    } else {
        assert(rs.last().id != id) by {
            assert(rs[k].id != rs[rs.len() - 1].id);
        }
        lemma_remove_unique_is_filter(d, k, id);
        assert(rows_without(rs, id) == d.remove(k).push(rs.last()));
        assert(rs.remove(k) =~= d.remove(k).push(rs.last()));
    }
}

/// Identifiers present after a deletion: every identifier but the
/// deleted one, each still unique; and each kept row was stored before.
pub proof fn lemma_rows_without_wf(rs: Seq<RowV>, id: Seq<char>)
    requires
        ids_unique(rs),
    ensures
        ids_unique(rows_without(rs, id)),
        forall|x: Seq<char>|
            #[trigger] has_id(rows_without(rs, id), x) <==> has_id(rs, x) && x != id,
    decreases rs.len(),
{
    let out = rows_without(rs, id);
    if rs.len() == 0 {
        assert forall|x: Seq<char>|
            #[trigger] has_id(out, x) <==> has_id(rs, x) && x != id by {}
    } else {
        let d = rs.drop_last();
        assert(forall|i: int| 0 <= i < d.len() ==> #[trigger] d[i] == rs[i]);
        lemma_rows_without_wf(d, id);
        let outd = rows_without(d, id);
        if rs.last().id != id {
            assert(out == outd.push(rs.last()));
            assert(!has_id(outd, rs.last().id)) by {
                if has_id(outd, rs.last().id) {
                    assert(has_id(d, rs.last().id));
                    let w = choose|w: int| 0 <= w < d.len() && (#[trigger] d[w]).id == rs.last().id;
                    assert(rs[w].id != rs[rs.len() - 1].id);
                }
            }
            assert forall|i: int, j: int|
                #![trigger out[i], out[j]]
                0 <= i < j < out.len() implies out[i].id != out[j].id by {
                if j == out.len() - 1 {
                    assert(has_id(outd, out[i].id)) by {
                        assert(outd[i].id == out[i].id);
                    }
                }
            }
            assert forall|x: Seq<char>|
                #[trigger] has_id(out, x) <==> has_id(rs, x) && x != id by {
                if has_id(out, x) {
                    let w = choose|w: int| 0 <= w < out.len() && (#[trigger] out[w]).id == x;
                    if w < out.len() - 1 {
                        assert(has_id(outd, x));
                        assert(has_id(d, x));
                        let v = choose|v: int| 0 <= v < d.len() && (#[trigger] d[v]).id == x;
                        assert(rs[v].id == x);
                    } else {
                        assert(rs[rs.len() - 1].id == x);
                    }
                }
                if has_id(rs, x) && x != id {
                    let w = choose|w: int| 0 <= w < rs.len() && (#[trigger] rs[w]).id == x;
                    if w < rs.len() - 1 {
                        assert(d[w].id == x);
                        assert(has_id(d, x));
                        assert(has_id(outd, x));
                        let v = choose|v: int|
                            0 <= v < outd.len() && (#[trigger] outd[v]).id == x;
                        assert(out[v].id == x);
                    } else {
                        assert(out[out.len() - 1].id == x);
                    }
                }
            }
        } else {
            assert(out == outd);
            assert forall|x: Seq<char>|
                #[trigger] has_id(out, x) <==> has_id(rs, x) && x != id by {
                if has_id(out, x) {
                    assert(has_id(d, x));
                    let v = choose|v: int| 0 <= v < d.len() && (#[trigger] d[v]).id == x;
                    assert(rs[v].id == x);
                    assert(x != id) by {
                        if x == id {
                            assert(rs[v].id != rs[rs.len() - 1].id);
                        }
                    }
                }
                if has_id(rs, x) && x != id {
                    let w = choose|w: int| 0 <= w < rs.len() && (#[trigger] rs[w]).id == x;
                    if w < rs.len() - 1 {
                        assert(d[w].id == x);
                        assert(has_id(d, x));
                    } else {
                        assert(x == id);
                    }
                    assert(has_id(outd, x));
                }
            }
        }
    }
}

/// Links that survive a deletion: a subsequence of the stored links,
/// each touching the deleted resource at neither endpoint, with no
/// ordered pair joined twice.
pub proof fn lemma_links_without_wf(ls: Seq<LinkV>, id: Seq<char>)
    ensures
        forall|j: int|
            0 <= j < links_without(ls, id).len() ==> ls.contains(
                #[trigger] links_without(ls, id)[j],
            ),
        forall|j: int|
            0 <= j < links_without(ls, id).len() ==> (#[trigger] links_without(ls, id)[j]).source
                != id && links_without(ls, id)[j].target != id,
        (forall|i: int, j: int|
            #![trigger ls[i], ls[j]]
            0 <= i < j < ls.len() ==> !(ls[i].source == ls[j].source && ls[i].target
                == ls[j].target)) ==> (forall|i: int, j: int|
            #![trigger links_without(ls, id)[i], links_without(ls, id)[j]]
            0 <= i < j < links_without(ls, id).len() ==> !(links_without(ls, id)[i].source
                == links_without(ls, id)[j].source && links_without(ls, id)[i].target
                == links_without(ls, id)[j].target)),
    decreases ls.len(),
{
    let out = links_without(ls, id);
    if ls.len() > 0 {
        let d = ls.drop_last();
        assert(forall|i: int| 0 <= i < d.len() ==> #[trigger] d[i] == ls[i]);
        lemma_links_without_wf(d, id);
        let outd = links_without(d, id);
        assert forall|j: int| 0 <= j < out.len() implies ls.contains(#[trigger] out[j]) by {
            if j < outd.len() {
                assert(out[j] == outd[j]);
                let w = choose|w: int| 0 <= w < d.len() && d[w] == outd[j];
                assert(ls[w] == out[j]);
            } else {
                assert(out[j] == ls[ls.len() - 1]);
            }
        }
        if forall|i: int, j: int|
            #![trigger ls[i], ls[j]]
            0 <= i < j < ls.len() ==> !(ls[i].source == ls[j].source && ls[i].target
                == ls[j].target) {
            assert forall|i: int, j: int|
                #![trigger out[i], out[j]]
                0 <= i < j < out.len() implies !(out[i].source == out[j].source && out[i].target
                == out[j].target) by {
                if j == out.len() - 1 && out.len() > outd.len() {
                    let w = choose|w: int| 0 <= w < d.len() && d[w] == outd[i];
                    assert(!(ls[w].source == ls[ls.len() - 1].source && ls[w].target
                        == ls[ls.len() - 1].target));
                } else {
                    assert(out[i] == outd[i] && out[j] == outd[j]);
                }
            }
        }
    }
}

/// Cascade deletion keeps the store well formed.
pub proof fn lemma_delete_wf(rs: Seq<RowV>, ls: Seq<LinkV>, id: Seq<char>)
    requires
        ids_unique(rs),
        links_ok(rs, ls),
    ensures
        ids_unique(rows_without(rs, id)),
        links_ok(rows_without(rs, id), links_without(ls, id)),
{
    lemma_rows_without_wf(rs, id);
    lemma_links_without_wf(ls, id);
    let out = links_without(ls, id);
    assert forall|i: int|
        0 <= i < out.len() implies has_id(rows_without(rs, id), (#[trigger] out[i]).source)
        && has_id(rows_without(rs, id), out[i].target) by {
        assert(ls.contains(out[i]));
        let w = choose|w: int| 0 <= w < ls.len() && ls[w] == out[i];
        assert(has_id(rs, ls[w].source));
        assert(has_id(rs, ls[w].target));
    }
}

/// Whether some row is stored under the path.
pub open spec fn path_present(rs: Seq<RowV>, path: Seq<char>) -> bool {
    exists|i: int| 0 <= i < rs.len() && (#[trigger] rs[i]).path == Option::Some(path)
}

/// What an upsert does to the row population: a fresh identifier
/// appends the row; a known identifier touches one row in place, so the
/// row count, the identifiers and the stored paths all stay exactly as
/// they were.
pub proof fn lemma_upsert_row_effects(rs: Seq<RowV>, row: RowV)
    ensures
        id_index(rs, row.id) < 0 ==> upsert_rows(rs, row) == rs.push(row),
        id_index(rs, row.id) >= 0 ==> upsert_rows(rs, row).len() == rs.len(),
        id_index(rs, row.id) >= 0 ==> forall|x: Seq<char>|
            #[trigger] has_id(upsert_rows(rs, row), x) <==> has_id(rs, x),
        id_index(rs, row.id) >= 0 ==> forall|p: Seq<char>|
            #[trigger] path_present(upsert_rows(rs, row), p) <==> path_present(rs, p),
        forall|p: Seq<char>|
            path_present(rs, p) ==> #[trigger] path_present(upsert_rows(rs, row), p),
{
    let out = upsert_rows(rs, row);
    let k = id_index(rs, row.id);
    lemma_id_index(rs, row.id);
    if k >= 0 {
        let u = refreshed(rs[k], row.content, row.updated_at);
        assert forall|x: Seq<char>| #[trigger] has_id(out, x) <==> has_id(rs, x) by {
            if has_id(out, x) {
                let w = choose|w: int| 0 <= w < out.len() && (#[trigger] out[w]).id == x;
                if w == out.len() - 1 {
                    assert(rs[k].id == x);
                } else if w < k {
                    assert(rs[w].id == x);
                } else {
                    assert(rs[w + 1].id == x);
                }
            }
            if has_id(rs, x) {
                let w = choose|w: int| 0 <= w < rs.len() && (#[trigger] rs[w]).id == x;
                if w == k {
                    assert(out[out.len() - 1].id == x);
                } else if w < k {
                    assert(out[w].id == x);
                } else {
                    assert(out[w - 1].id == x);
                }
            }
        }
        assert forall|p: Seq<char>| #[trigger] path_present(out, p) <==> path_present(rs, p) by {
            if path_present(out, p) {
                let w = choose|w: int|
                    0 <= w < out.len() && (#[trigger] out[w]).path == Option::Some(p);
                if w == out.len() - 1 {
                    assert(rs[k].path == Option::Some(p));
                } else if w < k {
                    assert(rs[w].path == Option::Some(p));
                } else {
                    assert(rs[w + 1].path == Option::Some(p));
                }
            }
            if path_present(rs, p) {
                let w = choose|w: int|
                    0 <= w < rs.len() && (#[trigger] rs[w]).path == Option::Some(p);
                if w == k {
                    assert(out[out.len() - 1].path == Option::Some(p));
                } else if w < k {
                    assert(out[w].path == Option::Some(p));
                } else {
                    assert(out[w - 1].path == Option::Some(p));
                }
            }
        }
    } else {
        assert forall|p: Seq<char>|
            path_present(rs, p) implies #[trigger] path_present(out, p) by {
            let w = choose|w: int|
                0 <= w < rs.len() && (#[trigger] rs[w]).path == Option::Some(p);
            assert(out[w].path == Option::Some(p));
        }
    }
}

/// A known identifier's upsert only refreshes: the touched row keeps
/// its identifier, kind, path, title and creation time, and takes
/// exactly the new content and touch time.
pub proof fn lemma_upsert_content_only(rs: Seq<RowV>, row: RowV)
    requires
        id_index(rs, row.id) >= 0,
    ensures
        upsert_rows(rs, row).len() == rs.len(),
        upsert_rows(rs, row).last() == refreshed(
            rs[id_index(rs, row.id)],
            row.content,
            row.updated_at,
        ),
        upsert_rows(rs, row).last().id == rs[id_index(rs, row.id)].id,
        upsert_rows(rs, row).last().kind == rs[id_index(rs, row.id)].kind,
        upsert_rows(rs, row).last().path == rs[id_index(rs, row.id)].path,
        upsert_rows(rs, row).last().title == rs[id_index(rs, row.id)].title,
        upsert_rows(rs, row).last().created_at == rs[id_index(rs, row.id)].created_at,
        upsert_rows(rs, row).last().content == row.content,
        upsert_rows(rs, row).last().updated_at == row.updated_at,
{
    lemma_id_index(rs, row.id);
}

/// Every stored row survives an upsert with its identity intact: some
/// row after the upsert carries the same identifier, kind, path, title
/// and creation time.
pub proof fn lemma_upsert_keeps_identity(rs: Seq<RowV>, row: RowV, i: int)
    requires
        0 <= i < rs.len(),
    ensures
        exists|j: int|
            0 <= j < upsert_rows(rs, row).len() && row_same_identity(
                rs[i],
                #[trigger] upsert_rows(rs, row)[j],
            ),
{
    let out = upsert_rows(rs, row);
    let k = id_index(rs, row.id);
    lemma_id_index(rs, row.id);
    if k >= 0 {
        if i == k {
            assert(row_same_identity(rs[i], out[out.len() - 1]));
        } else if i < k {
            assert(row_same_identity(rs[i], out[i]));
        } else {
            assert(row_same_identity(rs[i], out[i - 1]));
        }
    } else {
        assert(row_same_identity(rs[i], out[i]));
    }
}

/// Replacing a row with one carrying the same identifier — wherever it
/// is reinserted — keeps identifiers unique and every identifier
/// present, so links stay well formed.
pub proof fn lemma_replace_wf(rs: Seq<RowV>, ls: Seq<LinkV>, k: int, r2: RowV)
    requires
        ids_unique(rs),
        links_ok(rs, ls),
        0 <= k < rs.len(),
        r2.id == rs[k].id,
    ensures
        ids_unique(rs.remove(k).push(r2)),
        links_ok(rs.remove(k).push(r2), ls),
{
    let out = rs.remove(k).push(r2);
    assert forall|i: int, j: int|
        #![trigger out[i], out[j]]
        0 <= i < j < out.len() implies out[i].id != out[j].id by {
        if j == out.len() - 1 {
            if i < k {
                assert(out[i] == rs[i]);
            } else {
                assert(out[i] == rs[i + 1]);
            }
        }
    }
    assert forall|i: int|
        0 <= i < ls.len() implies has_id(out, (#[trigger] ls[i]).source) && has_id(
        out,
        ls[i].target,
    ) by {
        assert(has_id(rs, ls[i].source));
        assert(has_id(rs, ls[i].target));
        lemma_replace_keeps_ids(rs, k, r2, ls[i].source);
        lemma_replace_keeps_ids(rs, k, r2, ls[i].target);
    }
}

/// Replacing a row with one carrying the same identifier keeps every
/// stored identifier present.
proof fn lemma_replace_keeps_ids(rs: Seq<RowV>, k: int, r2: RowV, x: Seq<char>)
    requires
        0 <= k < rs.len(),
        r2.id == rs[k].id,
        has_id(rs, x),
    ensures
        has_id(rs.remove(k).push(r2), x),
{
    let out = rs.remove(k).push(r2);
    let w = choose|w: int| 0 <= w < rs.len() && (#[trigger] rs[w]).id == x;
    if w == k {
        assert(out[out.len() - 1].id == x);
    } else if w < k {
        assert(out[w].id == x);
    } else {
        assert(out[w - 1].id == x);
    }
}

/// Two rows carrying the same identity: identifier, kind, path, title
/// and creation time all agree.
pub open spec fn row_same_identity(a: RowV, b: RowV) -> bool {
    a.id == b.id && a.kind == b.kind && a.path == b.path && a.title == b.title && a.created_at
        == b.created_at
}

/// An upsert keeps identifiers unique and never removes an identifier,
/// so links stay well formed.
pub proof fn lemma_upsert_wf(rs: Seq<RowV>, ls: Seq<LinkV>, row: RowV)
    requires
        ids_unique(rs),
        links_ok(rs, ls),
    ensures
        ids_unique(upsert_rows(rs, row)),
        links_ok(upsert_rows(rs, row), ls),
        forall|x: Seq<char>| has_id(rs, x) ==> #[trigger] has_id(upsert_rows(rs, row), x),
{
    let out = upsert_rows(rs, row);
    let k = id_index(rs, row.id);
    lemma_id_index(rs, row.id);
    if k >= 0 {
        let rest = rs.remove(k);
        assert forall|i: int| 0 <= i < rest.len() implies #[trigger] rest[i] == if i < k {
            rs[i]
        } else {
            rs[i + 1]
        } by {}
        assert forall|i: int, j: int|
            #![trigger out[i], out[j]]
            0 <= i < j < out.len() implies out[i].id != out[j].id by {
            if j == out.len() - 1 {
                assert(out[j].id == rs[k].id);
                assert(out[i] == rest[i]);
            }
        }
        assert forall|x: Seq<char>| has_id(rs, x) implies #[trigger] has_id(out, x) by {
            let w = choose|w: int| 0 <= w < rs.len() && (#[trigger] rs[w]).id == x;
            if w == k {
                assert(out[out.len() - 1].id == x);
            } else if w < k {
                assert(out[w].id == x);
            } else {
                assert(out[w - 1].id == x);
            }
        }
    } else {
        assert forall|x: Seq<char>| has_id(rs, x) implies #[trigger] has_id(out, x) by {
            let w = choose|w: int| 0 <= w < rs.len() && (#[trigger] rs[w]).id == x;
            assert(out[w].id == x);
        }
    }
    assert forall|i: int|
        0 <= i < ls.len() implies has_id(out, (#[trigger] ls[i]).source) && has_id(
        out,
        ls[i].target,
    ) by {
        assert(has_id(rs, ls[i].source));
        assert(has_id(rs, ls[i].target));
    }
}

} // verus!
