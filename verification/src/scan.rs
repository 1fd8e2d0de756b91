//! The ingestion reconciler: classifies scanned entries, resolves each
//! entry's identity by its path, and upserts it into the store — with
//! the laws that rescans are idempotent and identity is path-stable.
use vstd::prelude::*;

use crate::ext::fresh_id;
use crate::ext::now_rfc3339;
use crate::kinds::Kind;
use crate::model::RowV;
use crate::model::has_id;
use crate::model::id_index;
use crate::model::lemma_id_index;
use crate::model::lemma_path_index;
use crate::model::lemma_upsert_keeps_identity;
use crate::model::lemma_upsert_row_effects;
use crate::model::path_index;
use crate::model::path_present;
use crate::model::row_same_identity;
use crate::model::upsert_rows;
use crate::store::Database;
use crate::store::Error;
use crate::text::is_note_file;
use crate::text::is_note_name;

verus! {

/// One directory entry as the scanner reports it.
#[derive(Debug)]
pub struct FileInfo {
    pub path: String,
    pub name: String,
    pub is_dir: bool,
}

/// The view of a directory entry.
pub struct FileInfoV {
    pub path: Seq<char>,
    pub name: Seq<char>,
    pub is_dir: bool,
}

impl View for FileInfo {
    type V = FileInfoV;

    open spec fn view(&self) -> FileInfoV {
        FileInfoV { path: self.path@, name: self.name@, is_dir: self.is_dir }
    }
}

/// The views of a sequence of entries.
pub open spec fn infos_v(es: Seq<FileInfo>) -> Seq<FileInfoV> {
    es.map_values(|e: FileInfo| e@)
}

/// The views of a sequence of texts.
pub open spec fn texts_v(ss: Seq<String>) -> Seq<Seq<char>> {
    ss.map_values(|s: String| s@)
}

/// How an entry is classified: a `.md` name is a note, anything else an
/// opaque file.
pub open spec fn entry_kind(name: Seq<char>) -> Kind {
    if is_note_name(name) {
        Kind::Note
    } else {
        Kind::File
    }
}

/// The row a file entry upserts: notes carry the text read for them,
/// other files carry empty content; the title is the file name and both
/// timestamps are the scan's clock reading.
pub open spec fn entry_row(e: FileInfoV, content: Seq<char>, id: Seq<char>, now: Seq<char>) -> RowV {
    RowV {
        id: id,
        kind: entry_kind(e.name),
        path: Option::Some(e.path),
        title: e.name,
        content: if entry_kind(e.name) is Note {
            content
        } else {
            Seq::empty()
        },
        created_at: now,
        updated_at: now,
        meta: Option::None,
    }
}

/// What one entry does to the rows: directories are skipped; a file
/// entry reuses the identifier already stored under its path, or the
/// freshly minted one, and upserts its row.
pub open spec fn scan_step_rows(
    rs: Seq<RowV>,
    e: FileInfoV,
    content: Seq<char>,
    id: Seq<char>,
    now: Seq<char>,
) -> Seq<RowV> {
    if e.is_dir {
        rs
    } else {
        let j = path_index(rs, e.path);
        let rid = if j >= 0 {
            rs[j].id
        } else {
            id
        };
        upsert_rows(rs, entry_row(e, content, rid, now))
    }
}

/// What a whole scan does to the rows, entry by entry in order.
pub open spec fn scan_rows(
    rs: Seq<RowV>,
    es: Seq<FileInfoV>,
    cs: Seq<Seq<char>>,
    ids: Seq<Seq<char>>,
    now: Seq<char>,
) -> Seq<RowV>
    decreases es.len(),
{
    if es.len() == 0 {
        rs
    } else {
        scan_rows(
            scan_step_rows(rs, es[0], cs[0], ids[0], now),
            es.drop_first(),
            cs.drop_first(),
            ids.drop_first(),
            now,
        )
    }
}

/// How many entries a scan counts: every entry that is not a directory.
pub open spec fn file_count(es: Seq<FileInfoV>) -> nat
    decreases es.len(),
{
    if es.len() == 0 {
        0
    } else {
        (if es[0].is_dir {
            0nat
        } else {
            1nat
        }) + file_count(es.drop_first())
    }
}

impl Database {
    /// Reconciles one scanned entry into the store.
    fn scan_one(&mut self, e: &FileInfo, content: &String, id: &String, now: &String)
        requires
            old(self).wf(),
        ensures
            final(self).rows() == scan_step_rows(old(self).rows(), e@, content@, id@, now@),
            final(self).edges() == old(self).edges(),
            final(self).root() == old(self).root(),
            final(self).wf(),
    {
        if e.is_dir {
            return ;
        }
        let kind = if is_note_file(e.name.as_str()) {
            Kind::Note
        } else {
            Kind::File
        };
        let content_used = if is_note_file(e.name.as_str()) {
            content.clone()
        } else {
            String::new()
        };
        let rid = match self.find_resource_id_by_path(&e.path) {
            Option::Some(x) => x,
            Option::None => id.clone(),
        };
        self.upsert_resource(
            rid,
            kind,
            Option::Some(e.path.clone()),
            e.name.clone(),
            content_used,
            Option::None,
            now,
        );
    }

    /// Reconciles a directory listing into the store with the caller's
    /// identifiers and clock reading: one minted identifier and one
    /// piece of read text per entry, used only where the entry needs
    /// them. Returns how many file entries were processed.
    pub fn scan_vault_with(
        &mut self,
        entries: &Vec<FileInfo>,
        contents: &Vec<String>,
        ids: &Vec<String>,
        now: &String,
    ) -> (count: usize)
        requires
            old(self).wf(),
            entries@.len() == contents@.len(),
            entries@.len() == ids@.len(),
        ensures
            final(self).rows() == scan_rows(
                old(self).rows(),
                infos_v(entries@),
                texts_v(contents@),
                texts_v(ids@),
                now@,
            ),
            final(self).edges() == old(self).edges(),
            final(self).root() == old(self).root(),
            final(self).wf(),
            count == file_count(infos_v(entries@)),
    {
        let ghost es = infos_v(entries@);
        let ghost cs = texts_v(contents@);
        let ghost is_ = texts_v(ids@);
        let ghost rs0 = self.rows();
        let n = entries.len();
        proof {
            assert(es.skip(0) =~= es);
            assert(cs.skip(0) =~= cs);
            assert(is_.skip(0) =~= is_);
        }
        let mut count: usize = 0;
        let mut i: usize = 0;
        while i < n
            invariant
                n == entries@.len(),
                n == contents@.len(),
                n == ids@.len(),
                es == infos_v(entries@),
                cs == texts_v(contents@),
                is_ == texts_v(ids@),
                i <= n,
                count <= i,
                self.wf(),
                self.edges() == old(self).edges(),
                self.root() == old(self).root(),
                scan_rows(self.rows(), es.skip(i as int), cs.skip(i as int), is_.skip(i as int), now@)
                    == scan_rows(rs0, es, cs, is_, now@),
                count + file_count(es.skip(i as int)) == file_count(es),
                rs0 == old(self).rows(),
            decreases n - i,
        {
            proof {
                assert(es.skip(i as int)[0] == entries@[i as int]@);
                assert(cs.skip(i as int)[0] == contents@[i as int]@);
                assert(is_.skip(i as int)[0] == ids@[i as int]@);
                assert(es.skip(i as int).drop_first() =~= es.skip(i + 1));
                assert(cs.skip(i as int).drop_first() =~= cs.skip(i + 1));
                assert(is_.skip(i as int).drop_first() =~= is_.skip(i + 1));
            }
            let e = &entries[i];
            self.scan_one(e, &contents[i], &ids[i], now);
            if !e.is_dir {
                count += 1;
            }
            i += 1;
        }
        proof {
            assert(es.skip(n as int) =~= Seq::<FileInfoV>::empty());
            assert(cs.skip(n as int) =~= Seq::<Seq<char>>::empty());
            assert(is_.skip(n as int) =~= Seq::<Seq<char>>::empty());
        }
        count
    }

    /// Ingests a directory listing: entries and the text read for each
    /// (consulted only for notes), minting identifiers and reading the
    /// clock itself. Returns how many file entries were processed.
    pub fn scan_vault(&mut self, entries: &Vec<FileInfo>, contents: &Vec<String>) -> (r: Result<
        usize,
        Error,
    >)
        requires
            old(self).wf(),
            entries@.len() == contents@.len(),
        ensures
            final(self).edges() == old(self).edges(),
            final(self).root() == old(self).root(),
            final(self).wf(),
            r matches Ok(count) && count == file_count(infos_v(entries@)),
            exists|ids: Seq<Seq<char>>, ts: Seq<char>|
                ids.len() == entries@.len() && final(self).rows() == #[trigger] scan_rows(
                    old(self).rows(),
                    infos_v(entries@),
                    texts_v(contents@),
                    ids,
                    ts,
                ),
    {
        let n = entries.len();
        let mut ids: Vec<String> = Vec::new();
        let mut i: usize = 0;
        while i < n
            invariant
                i <= n,
                ids@.len() == i,
            decreases n - i,
        {
            ids.push(fresh_id());
            i += 1;
        }
        let now = now_rfc3339();
        let count = self.scan_vault_with(entries, contents, &ids, &now);
        proof {
            assert(texts_v(ids@).len() == entries@.len());
        }
        Result::Ok(count)
    }
}

/// One scan step never loses a stored path.
proof fn lemma_step_path_monotone(
    rs: Seq<RowV>,
    e: FileInfoV,
    content: Seq<char>,
    id: Seq<char>,
    now: Seq<char>,
    p: Seq<char>,
)
    requires
        path_present(rs, p),
    ensures
        path_present(scan_step_rows(rs, e, content, id, now), p),
{
    if !e.is_dir {
        let j = path_index(rs, e.path);
        let rid = if j >= 0 {
            rs[j].id
        } else {
            id
        };
        lemma_upsert_row_effects(rs, entry_row(e, content, rid, now));
    }
}

/// Identifiers a scan step can store: those already stored and the
/// minted one.
proof fn lemma_step_id_growth(
    rs: Seq<RowV>,
    e: FileInfoV,
    content: Seq<char>,
    id: Seq<char>,
    now: Seq<char>,
)
    ensures
        forall|x: Seq<char>|
            #[trigger] has_id(scan_step_rows(rs, e, content, id, now), x) ==> has_id(rs, x) || x
                == id,
{
    if !e.is_dir {
        let j = path_index(rs, e.path);
        lemma_path_index(rs, e.path);
        let rid = if j >= 0 {
            rs[j].id
        } else {
            id
        };
        let row = entry_row(e, content, rid, now);
        lemma_upsert_row_effects(rs, row);
        let out = upsert_rows(rs, row);
        assert forall|x: Seq<char>| #[trigger] has_id(out, x) implies has_id(rs, x) || x
            == id by {
            if id_index(rs, rid) < 0 {
                let w = choose|w: int| 0 <= w < out.len() && (#[trigger] out[w]).id == x;
                if w < rs.len() {
                    assert(rs[w].id == x);
                } else {
                    assert(x == rid);
                    if j >= 0 {
                        assert(has_id(rs, rs[j].id));
                    }
                }
            }
        }
    }
}

/// After its scan step, a file entry's path is stored — provided the
/// minted identifier does not collide with a stored one.
proof fn lemma_step_establishes_path(
    rs: Seq<RowV>,
    e: FileInfoV,
    content: Seq<char>,
    id: Seq<char>,
    now: Seq<char>,
)
    requires
        !e.is_dir,
        path_present(rs, e.path) || !has_id(rs, id),
    ensures
        path_present(scan_step_rows(rs, e, content, id, now), e.path),
{
    let j = path_index(rs, e.path);
    lemma_path_index(rs, e.path);
    let rid = if j >= 0 {
        rs[j].id
    } else {
        id
    };
    let row = entry_row(e, content, rid, now);
    lemma_upsert_row_effects(rs, row);
    if j >= 0 {
        assert(path_present(rs, e.path));
    } else {
        assert(!path_present(rs, e.path));
        let out = upsert_rows(rs, row);
        lemma_id_index(rs, id);
        if id_index(rs, id) >= 0 {
            assert(has_id(rs, id)) by {
                assert(rs[id_index(rs, id)].id == id);
            }
        }
        assert(out == rs.push(row));
        assert(out[out.len() - 1].path == Option::Some(e.path));
    }
}

/// A whole scan never loses a stored path.
proof fn lemma_scan_path_monotone(
    rs: Seq<RowV>,
    es: Seq<FileInfoV>,
    cs: Seq<Seq<char>>,
    ids: Seq<Seq<char>>,
    now: Seq<char>,
    p: Seq<char>,
)
    requires
        es.len() == cs.len(),
        es.len() == ids.len(),
        path_present(rs, p),
    ensures
        path_present(scan_rows(rs, es, cs, ids, now), p),
    decreases es.len(),
{
    if es.len() > 0 {
        lemma_step_path_monotone(rs, es[0], cs[0], ids[0], now, p);
        lemma_scan_path_monotone(
            scan_step_rows(rs, es[0], cs[0], ids[0], now),
            es.drop_first(),
            cs.drop_first(),
            ids.drop_first(),
            now,
            p,
        );
    }
}

/// Minted identifiers fit for a scan: none is already stored and no
/// two are the same. Identifiers drawn at random satisfy this only
/// with overwhelming probability, not with certainty, so the laws that
/// rest on it carry it as a hypothesis.
pub open spec fn ids_fresh(rs: Seq<RowV>, ids: Seq<Seq<char>>) -> bool {
    &&& forall|m: int| 0 <= m < ids.len() ==> !has_id(rs, #[trigger] ids[m])
    &&& forall|a: int, b: int|
        #![trigger ids[a], ids[b]]
        0 <= a < b < ids.len() ==> ids[a] != ids[b]
}

/// After a scan with fresh identifiers, every file entry's path is
/// stored.
proof fn lemma_scan_establishes_paths(
    rs: Seq<RowV>,
    es: Seq<FileInfoV>,
    cs: Seq<Seq<char>>,
    ids: Seq<Seq<char>>,
    now: Seq<char>,
)
    requires
        es.len() == cs.len(),
        es.len() == ids.len(),
        ids_fresh(rs, ids),
    ensures
        forall|m: int|
            0 <= m < es.len() && !(#[trigger] es[m]).is_dir ==> path_present(
                scan_rows(rs, es, cs, ids, now),
                es[m].path,
            ),
    decreases es.len(),
{
    if es.len() > 0 {
        let stepped = scan_step_rows(rs, es[0], cs[0], ids[0], now);
        lemma_step_id_growth(rs, es[0], cs[0], ids[0], now);
        assert forall|m: int|
            0 <= m < ids.drop_first().len() implies !has_id(
            stepped,
            #[trigger] ids.drop_first()[m],
        ) by {
            assert(ids.drop_first()[m] == ids[m + 1]);
            assert(!has_id(rs, ids[m + 1]));
            assert(ids[0] != ids[m + 1]);
        }
        assert forall|a: int, b: int|
            #![trigger ids.drop_first()[a], ids.drop_first()[b]]
            0 <= a < b < ids.drop_first().len() implies ids.drop_first()[a]
            != ids.drop_first()[b] by {
            assert(ids.drop_first()[a] == ids[a + 1]);
            assert(ids.drop_first()[b] == ids[b + 1]);
        }
        lemma_scan_establishes_paths(
            stepped,
            es.drop_first(),
            cs.drop_first(),
            ids.drop_first(),
            now,
        );
        assert forall|m: int|
            0 <= m < es.len() && !(#[trigger] es[m]).is_dir implies path_present(
            scan_rows(rs, es, cs, ids, now),
            es[m].path,
        ) by {
            if m == 0 {
                lemma_step_establishes_path(rs, es[0], cs[0], ids[0], now);
                lemma_scan_path_monotone(
                    stepped,
                    es.drop_first(),
                    cs.drop_first(),
                    ids.drop_first(),
                    now,
                    es[0].path,
                );
            } else {
                assert(es.drop_first()[m - 1] == es[m]);
            }
        }
    }
}

/// A scan step on an entry whose path is already stored only touches:
/// the row count, the identifiers and the stored paths all stay.
proof fn lemma_step_touch_only(
    rs: Seq<RowV>,
    e: FileInfoV,
    content: Seq<char>,
    id: Seq<char>,
    now: Seq<char>,
)
    requires
        !e.is_dir ==> path_present(rs, e.path),
    ensures
        scan_step_rows(rs, e, content, id, now).len() == rs.len(),
        forall|x: Seq<char>|
            #[trigger] has_id(scan_step_rows(rs, e, content, id, now), x) <==> has_id(rs, x),
        forall|p: Seq<char>|
            #[trigger] path_present(scan_step_rows(rs, e, content, id, now), p) <==> path_present(
                rs,
                p,
            ),
{
    if !e.is_dir {
        let j = path_index(rs, e.path);
        lemma_path_index(rs, e.path);
        if j < 0 {
            assert(!path_present(rs, e.path));
        }
        let rid = rs[j].id;
        lemma_id_index(rs, rid);
        if id_index(rs, rid) < 0 {
            assert(rs[j].id != rid);
        }
        lemma_upsert_row_effects(rs, entry_row(e, content, rid, now));
    }
}

/// A scan all of whose file entries' paths are already stored only
/// touches: the row count, the identifiers and the stored paths stay.
proof fn lemma_scan_touch_only(
    rs: Seq<RowV>,
    es: Seq<FileInfoV>,
    cs: Seq<Seq<char>>,
    ids: Seq<Seq<char>>,
    now: Seq<char>,
)
    requires
        es.len() == cs.len(),
        es.len() == ids.len(),
        forall|m: int|
            0 <= m < es.len() && !(#[trigger] es[m]).is_dir ==> path_present(rs, es[m].path),
    ensures
        scan_rows(rs, es, cs, ids, now).len() == rs.len(),
        forall|x: Seq<char>|
            #[trigger] has_id(scan_rows(rs, es, cs, ids, now), x) <==> has_id(rs, x),
        forall|p: Seq<char>|
            #[trigger] path_present(scan_rows(rs, es, cs, ids, now), p) <==> path_present(rs, p),
    decreases es.len(),
{
    if es.len() > 0 {
        let stepped = scan_step_rows(rs, es[0], cs[0], ids[0], now);
        lemma_step_touch_only(rs, es[0], cs[0], ids[0], now);
        assert forall|m: int|
            0 <= m < es.drop_first().len() && !(#[trigger] es.drop_first()[m]).is_dir implies
            path_present(stepped, es.drop_first()[m].path) by {
            assert(es.drop_first()[m] == es[m + 1]);
            assert(path_present(rs, es[m + 1].path));
        }
        lemma_scan_touch_only(stepped, es.drop_first(), cs.drop_first(), ids.drop_first(), now);
    }
}

/// Idempotent rescan: when the first scan's minted identifiers are
/// fresh, scanning the same listing again — with any identifiers and
/// any clock reading — changes neither the row count nor the set of
/// stored identifiers.
pub proof fn lemma_rescan_idempotent(
    rs: Seq<RowV>,
    es: Seq<FileInfoV>,
    cs: Seq<Seq<char>>,
    ids1: Seq<Seq<char>>,
    ids2: Seq<Seq<char>>,
    now1: Seq<char>,
    now2: Seq<char>,
)
    requires
        es.len() == cs.len(),
        es.len() == ids1.len(),
        es.len() == ids2.len(),
        ids_fresh(rs, ids1),
    ensures
        scan_rows(scan_rows(rs, es, cs, ids1, now1), es, cs, ids2, now2).len() == scan_rows(
            rs,
            es,
            cs,
            ids1,
            now1,
        ).len(),
        forall|x: Seq<char>|
            #[trigger] has_id(scan_rows(scan_rows(rs, es, cs, ids1, now1), es, cs, ids2, now2), x)
                <==> has_id(scan_rows(rs, es, cs, ids1, now1), x),
{
    let once = scan_rows(rs, es, cs, ids1, now1);
    lemma_scan_establishes_paths(rs, es, cs, ids1, now1);
    lemma_scan_touch_only(once, es, cs, ids2, now2);
}

/// Path-stable identity: every stored row survives a scan with its
/// identifier, kind, path, title and creation time intact — in
/// particular, retitling a resource does not change its identity
/// across rescans of the same paths.
pub proof fn lemma_scan_keeps_identity(
    rs: Seq<RowV>,
    es: Seq<FileInfoV>,
    cs: Seq<Seq<char>>,
    ids: Seq<Seq<char>>,
    now: Seq<char>,
    i: int,
)
    requires
        es.len() == cs.len(),
        es.len() == ids.len(),
        0 <= i < rs.len(),
    ensures
        exists|j: int|
            0 <= j < scan_rows(rs, es, cs, ids, now).len() && row_same_identity(
                rs[i],
                #[trigger] scan_rows(rs, es, cs, ids, now)[j],
            ),
    decreases es.len(),
{
    if es.len() == 0 {
        assert(row_same_identity(rs[i], scan_rows(rs, es, cs, ids, now)[i]));
    } else {
        let stepped = scan_step_rows(rs, es[0], cs[0], ids[0], now);
        if es[0].is_dir {
            assert(row_same_identity(rs[i], stepped[i]));
        } else {
            let j = path_index(rs, es[0].path);
            let rid = if j >= 0 {
                rs[j].id
            } else {
                ids[0]
            };
            lemma_upsert_keeps_identity(rs, entry_row(es[0], cs[0], rid, now), i);
        }
        let w = choose|w: int|
            0 <= w < stepped.len() && row_same_identity(rs[i], #[trigger] stepped[w]);
        lemma_scan_keeps_identity(
            stepped,
            es.drop_first(),
            cs.drop_first(),
            ids.drop_first(),
            now,
            w,
        );
        let v = choose|v: int|
            0 <= v < scan_rows(stepped, es.drop_first(), cs.drop_first(), ids.drop_first(), now).len()
                && row_same_identity(
                stepped[w],
                #[trigger] scan_rows(
                    stepped,
                    es.drop_first(),
                    cs.drop_first(),
                    ids.drop_first(),
                    now,
                )[v],
            );
        assert(row_same_identity(rs[i], scan_rows(rs, es, cs, ids, now)[v]));
    }
}

} // verus!
