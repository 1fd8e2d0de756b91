//! The storage engine: a unified table of resources and a table of
//! directed links, with idempotent upsert, lookup, listing, cascade
//! deletion and referential integrity.
use vstd::prelude::*;

use crate::kinds::Kind;
use crate::kinds::kind_name;
use crate::model::LinkRow;
use crate::model::LinkV;
use crate::model::Row;
use crate::model::RowV;
use crate::model::has_id;
use crate::model::id_index;
use crate::model::ids_unique;
use crate::model::lemma_id_index;
use crate::model::lemma_path_index;
use crate::model::lemma_upsert_wf;
use crate::model::links_ok;
use crate::model::opt_v;
use crate::model::path_index;
use crate::model::refreshed;
use crate::model::upsert_rows;

verus! {

/// How a request fails: the requested row is absent, a file operation
/// failed, the store itself failed (a constraint among else), or the
/// input was rejected.
#[derive(Clone, Copy, PartialEq, Eq, Structural, Debug)]
pub enum Error {
    NotFound,
    IoFailure,
    StorageFailure,
    ValidationFailure,
}

/// A resource summary as listings hand it out: everything but the
/// content body.
#[derive(Debug)]
pub struct Resource {
    pub id: String,
    pub path: Option<String>,
    pub title: String,
    pub resource_type: String,
    pub extra_metadata: Option<String>,
}

/// A note body as single-resource reads hand it out.
#[derive(Debug)]
pub struct NoteContent {
    pub id: String,
    pub title: String,
    pub content: String,
}

/// Whether some link joins the ordered pair of resources.
pub open spec fn has_pair(ls: Seq<LinkV>, source: Seq<char>, target: Seq<char>) -> bool {
    exists|i: int|
        0 <= i < ls.len() && (#[trigger] ls[i]).source == source && ls[i].target == target
}

/// The in-memory store: resources ordered by last touch (least recent
/// first), the links between them, and the configured vault root under
/// which note files live.
pub struct Database {
    pub resources: Vec<Row>,
    pub links: Vec<LinkRow>,
    pub vault_root: String,
}

impl Database {
    /// The resource rows, least recently touched first.
    pub open spec fn rows(self) -> Seq<RowV> {
        self.resources@.map_values(|r: Row| r@)
    }

    /// The directed links.
    pub open spec fn edges(self) -> Seq<LinkV> {
        self.links@.map_values(|l: LinkRow| l@)
    }

    /// The configured vault root.
    pub open spec fn root(self) -> Seq<char> {
        self.vault_root@
    }

    /// Well-formedness: identifiers are unique, every link's endpoints
    /// exist, and no two links join the same ordered pair.
    pub open spec fn wf(self) -> bool {
        ids_unique(self.rows()) && links_ok(self.rows(), self.edges())
    }

    /// Opens an empty store configured with the given vault root.
    pub fn init(vault_root: String) -> (db: Database)
        ensures
            db.rows() == Seq::<RowV>::empty(),
            db.edges() == Seq::<LinkV>::empty(),
            db.root() == vault_root@,
            db.wf(),
    {
        let db = Database { resources: Vec::new(), links: Vec::new(), vault_root };
        proof {
            assert(db.rows() =~= Seq::<RowV>::empty());
            assert(db.edges() =~= Seq::<LinkV>::empty());
        }
        db
    }

    /// How many resources are stored.
    pub fn resource_count(&self) -> (n: usize)
        ensures
            n == self.rows().len(),
    {
        self.resources.len()
    }

    /// The position of the row carrying the identifier, if any.
    pub(crate) fn find_by_id(&self, id: &String) -> (r: Option<usize>)
        ensures
            match r {
                Option::Some(k) => k < self.rows().len() && k as int == id_index(
                    self.rows(),
                    id@,
                ),
                Option::None => id_index(self.rows(), id@) < 0,
            },
    {
        let ghost rs = self.rows();
        let n = self.resources.len();
        let mut i: usize = 0;
        while i < n
            invariant
                n == self.resources.len(),
                i <= n,
                rs == self.rows(),
                forall|m: int| 0 <= m < i ==> (#[trigger] rs[m]).id != id@,
            decreases n - i,
        {
            proof {
                assert(rs[i as int] == self.resources@[i as int]@);
            }
            if self.resources[i].id == *id {
                proof {
                    lemma_id_index(rs, id@);
                    let k = id_index(rs, id@);
                    if k < 0 {
                        assert(rs[i as int].id != id@);
                    } else if k < i {
                        assert(rs[k].id != id@);
                    } else if k > i {
                        assert(rs[i as int].id != id@);
                    }
                }
                return Option::Some(i);
            }
            i += 1;
        }
        proof {
            lemma_id_index(rs, id@);
            if id_index(rs, id@) >= 0 {
                assert(rs[id_index(rs, id@)].id != id@);
            }
        }
        Option::None
    }

    /// Exact-match lookup of a resource identifier by path; absence is
    /// not an error.
    pub fn find_resource_id_by_path(&self, path: &String) -> (r: Option<String>)
        ensures
            match r {
                Option::Some(id) => path_index(self.rows(), path@) >= 0 && id@ == self.rows()[
                    path_index(self.rows(), path@)
                ].id,
                Option::None => path_index(self.rows(), path@) < 0,
            },
    {
        let ghost rs = self.rows();
        let n = self.resources.len();
        let mut i: usize = 0;
        while i < n
            invariant
                n == self.resources.len(),
                i <= n,
                rs == self.rows(),
                forall|m: int| 0 <= m < i ==> (#[trigger] rs[m]).path != Option::Some(path@),
            decreases n - i,
        {
            proof {
                assert(rs[i as int] == self.resources@[i as int]@);
            }
            let hit = match &self.resources[i].path {
                Option::Some(p) => *p == *path,
                Option::None => false,
            };
            if hit {
                proof {
                    lemma_path_index(rs, path@);
                    let k = path_index(rs, path@);
                    if k < 0 {
                        assert(rs[i as int].path != Option::Some(path@));
                    } else if k < i {
                        assert(rs[k].path != Option::Some(path@));
                    } else if k > i {
                        assert(rs[i as int].path != Option::Some(path@));
                    }
                }
                return Option::Some(self.resources[i].id.clone());
            }
            i += 1;
        }
        proof {
            lemma_path_index(rs, path@);
            if path_index(rs, path@) >= 0 {
                assert(rs[path_index(rs, path@)].path != Option::Some(path@));
            }
        }
        Option::None
    }

    /// Inserts the row, or — if a row with this identifier exists —
    /// updates only its content and touch time, leaving kind, path,
    /// title, creation time and metadata untouched.
    pub fn upsert_resource(
        &mut self,
        id: String,
        kind: Kind,
        path: Option<String>,
        title: String,
        content: String,
        meta: Option<String>,
        now: &String,
    )
        requires
            old(self).wf(),
        ensures
            final(self).rows() == upsert_rows(
                old(self).rows(),
                RowV {
                    id: id@,
                    kind: kind,
                    path: opt_v(path),
                    title: title@,
                    content: content@,
                    created_at: now@,
                    updated_at: now@,
                    meta: opt_v(meta),
                },
            ),
            final(self).edges() == old(self).edges(),
            final(self).root() == old(self).root(),
            final(self).wf(),
    {
        let ghost rs = self.rows();
        let ghost x = RowV {
            id: id@,
            kind: kind,
            path: opt_v(path),
            title: title@,
            content: content@,
            created_at: now@,
            updated_at: now@,
            meta: opt_v(meta),
        };
        proof {
            lemma_upsert_wf(rs, self.edges(), x);
        }
        match self.find_by_id(&id) {
            Option::Some(k) => {
                let old_row = self.resources.remove(k);
                let new_row = Row {
                    id: old_row.id,
                    kind: old_row.kind,
                    path: old_row.path,
                    title: old_row.title,
                    content: content,
                    created_at: old_row.created_at,
                    updated_at: now.clone(),
                    meta: old_row.meta,
                };
                self.resources.push(new_row);
                proof {
                    let target = upsert_rows(rs, x);
                    assert forall|i: int| 0 <= i < self.rows().len() implies self.rows()[i]
                        == target[i] by {
                        assert(self.rows()[i] == self.resources@[i]@);
                        if i < self.rows().len() - 1 {
                            if i < k {
                                assert(self.rows()[i] == rs[i]);
                                assert(target[i] == rs[i]);
                            } else {
                                assert(self.rows()[i] == rs[i + 1]);
                                assert(target[i] == rs[i + 1]);
                            }
                        }
                    }
                    assert(self.rows() =~= target);
                }
            },
            Option::None => {
                self.resources.push(
                    Row { id, kind, path, title, content, created_at: now.clone(), updated_at: now.clone(), meta },
                );
                proof {
                    assert(self.rows() =~= rs.push(x));
                }
            },
        }
    }

    /// The stored title and content of a resource; fails with NotFound
    /// when no row carries the identifier.
    pub fn get_note_content(&self, id: &String) -> (r: Result<NoteContent, Error>)
        ensures
            match r {
                Result::Ok(nc) => {
                    let k = id_index(self.rows(), id@);
                    &&& k >= 0
                    &&& nc.id@ == id@
                    &&& nc.title@ == self.rows()[k].title
                    &&& nc.content@ == self.rows()[k].content
                },
                Result::Err(e) => id_index(self.rows(), id@) < 0 && e == Error::NotFound,
            },
    {
        match self.find_by_id(id) {
            Option::Some(k) => {
                proof {
                    assert(self.rows()[k as int] == self.resources@[k as int]@);
                }
                let row = &self.resources[k];
                Result::Ok(
                    NoteContent {
                        id: id.clone(),
                        title: row.title.clone(),
                        content: row.content.clone(),
                    },
                )
            },
            Option::None => Result::Err(Error::NotFound),
        }
    }

    /// The stored path of a resource, absent when the resource has
    /// none; fails with NotFound when no row carries the identifier.
    pub fn get_resource_path(&self, id: &String) -> (r: Result<Option<String>, Error>)
        ensures
            match r {
                Result::Ok(p) => id_index(self.rows(), id@) >= 0 && opt_v(p) == self.rows()[
                    id_index(self.rows(), id@)
                ].path,
                Result::Err(e) => id_index(self.rows(), id@) < 0 && e == Error::NotFound,
            },
    {
        match self.find_by_id(id) {
            Option::Some(k) => {
                proof {
                    assert(self.rows()[k as int] == self.resources@[k as int]@);
                }
                let p = match &self.resources[k].path {
                    Option::Some(p) => Option::Some(p.clone()),
                    Option::None => Option::None,
                };
                Result::Ok(p)
            },
            Option::None => Result::Err(Error::NotFound),
        }
    }

    /// Every resource summary, most recently touched first; content is
    /// left out of list views.
    pub fn get_all_resources(&self) -> (r: Vec<Resource>)
        ensures
            r@.len() == self.rows().len(),
            forall|i: int|
                0 <= i < r@.len() ==> {
                    let row = self.rows()[self.rows().len() - 1 - i];
                    &&& (#[trigger] r@[i]).id@ == row.id
                    &&& opt_v(r@[i].path) == row.path
                    &&& r@[i].title@ == row.title
                    &&& r@[i].resource_type@ == kind_name(row.kind)
                    &&& opt_v(r@[i].extra_metadata) == row.meta
                },
    {
        let n = self.resources.len();
        let mut r: Vec<Resource> = Vec::new();
        let mut i: usize = 0;
        while i < n
            invariant
                n == self.resources.len(),
                i <= n,
                r@.len() == i,
                forall|m: int|
                    0 <= m < i ==> {
                        let row = self.rows()[self.rows().len() - 1 - m];
                        &&& (#[trigger] r@[m]).id@ == row.id
                        &&& opt_v(r@[m].path) == row.path
                        &&& r@[m].title@ == row.title
                        &&& r@[m].resource_type@ == kind_name(row.kind)
                        &&& opt_v(r@[m].extra_metadata) == row.meta
                    },
            decreases n - i,
        {
            proof {
                assert(self.rows()[n - 1 - i as int] == self.resources@[n - 1 - i as int]@);
            }
            let row = &self.resources[n - 1 - i];
            let path = match &row.path {
                Option::Some(p) => Option::Some(p.clone()),
                Option::None => Option::None,
            };
            let meta = match &row.meta {
                Option::Some(m) => Option::Some(m.clone()),
                Option::None => Option::None,
            };
            r.push(
                Resource {
                    id: row.id.clone(),
                    path,
                    title: row.title.clone(),
                    resource_type: row.kind.as_string(),
                    extra_metadata: meta,
                },
            );
            i += 1;
        }
        r
    }

    /// Removes the resource if present and cascades: exactly the links
    /// touching it are removed, and no others. Deleting an absent
    /// identifier is not an error.
    pub fn delete_resource(&mut self, id: &String)
        requires
            old(self).wf(),
        ensures
            final(self).rows() == crate::model::rows_without(old(self).rows(), id@),
            final(self).edges() == crate::model::links_without(old(self).edges(), id@),
            final(self).root() == old(self).root(),
            final(self).wf(),
    {
        let ghost rs = self.rows();
        let ghost ls = self.edges();
        match self.find_by_id(id) {
            Option::Some(k) => {
                proof {
                    lemma_id_index(rs, id@);
                }
                self.resources.remove(k);
                proof {
                    crate::model::lemma_remove_unique_is_filter(rs, k as int, id@);
                    assert(self.rows() =~= rs.remove(k as int));
                }
            },
            Option::None => {
                proof {
                    lemma_id_index(rs, id@);
                    crate::model::lemma_filter_all_kept(rs, id@);
                }
            },
        }
        let n = self.links.len();
        let mut kept: Vec<LinkRow> = Vec::new();
        let mut i: usize = 0;
        while i < n
            invariant
                n == self.links.len(),
                i <= n,
                ls == self.links@.map_values(|l: LinkRow| l@),
                kept@.map_values(|l: LinkRow| l@) == crate::model::links_without(
                    ls.subrange(0, i as int),
                    id@,
                ),
            decreases n - i,
        {
            proof {
                assert(ls[i as int] == self.links@[i as int]@);
                assert(ls.subrange(0, i + 1).drop_last() =~= ls.subrange(0, i as int));
                assert(ls.subrange(0, i + 1).last() == ls[i as int]);
            }
            let l = &self.links[i];
            if !(l.source_id == *id || l.target_id == *id) {
                kept.push(
                    LinkRow {
                        source_id: l.source_id.clone(),
                        target_id: l.target_id.clone(),
                        link_type: l.link_type.clone(),
                    },
                );
            }
            proof {
                assert(kept@.map_values(|l: LinkRow| l@) =~= crate::model::links_without(
                    ls.subrange(0, i + 1),
                    id@,
                ));
            }
            i += 1;
        }
        proof {
            assert(ls.subrange(0, n as int) =~= ls);
        }
        self.links = kept;
        proof {
            crate::model::lemma_delete_wf(rs, ls, id@);
        }
    }

    /// Adds a directed link. Succeeds exactly when both endpoints exist
    /// and no link already joins the pair; a missing endpoint or a
    /// duplicate pair is a constraint violation, reported as a storage
    /// failure, and changes nothing.
    pub fn insert_link(&mut self, source_id: String, target_id: String, link_type: String) -> (r:
        Result<(), Error>)
        requires
            old(self).wf(),
        ensures
            final(self).rows() == old(self).rows(),
            final(self).root() == old(self).root(),
            final(self).wf(),
            r is Ok <==> has_id(old(self).rows(), source_id@) && has_id(
                old(self).rows(),
                target_id@,
            ) && !has_pair(old(self).edges(), source_id@, target_id@),
            r is Ok ==> final(self).edges() == old(self).edges().push(
                LinkV { source: source_id@, target: target_id@, kind: link_type@ },
            ),
            r is Err ==> final(self).edges() == old(self).edges() && r == Result::<
                (),
                Error,
            >::Err(Error::StorageFailure),
    {
        let ghost rs = self.rows();
        let ghost ls = self.edges();
        let src_ok = self.find_by_id(&source_id).is_some();
        let tgt_ok = self.find_by_id(&target_id).is_some();
        proof {
            lemma_id_index(rs, source_id@);
            lemma_id_index(rs, target_id@);
        }
        if !src_ok || !tgt_ok {
            return Result::Err(Error::StorageFailure);
        }
        let n = self.links.len();
        let mut i: usize = 0;
        while i < n
            invariant
                self == old(self),
                old(self).wf(),
                n == self.links.len(),
                ls == self.links@.map_values(|l: LinkRow| l@),
                i <= n,
                forall|m: int|
                    0 <= m < i ==> !((#[trigger] ls[m]).source == source_id@ && ls[m].target
                        == target_id@),
            decreases n - i,
        {
            proof {
                assert(ls[i as int] == self.links@[i as int]@);
            }
            let l = &self.links[i];
            if l.source_id == source_id && l.target_id == target_id {
                return Result::Err(Error::StorageFailure);
            }
            i += 1;
        }
        self.links.push(LinkRow { source_id, target_id, link_type });
        proof {
            assert(self.edges() =~= ls.push(
                LinkV { source: source_id@, target: target_id@, kind: link_type@ },
            ));
            assert forall|a: int, b: int|
                #![trigger self.edges()[a], self.edges()[b]]
                0 <= a < b < self.edges().len() implies !(self.edges()[a].source
                == self.edges()[b].source && self.edges()[a].target == self.edges()[b].target) by {
                if b == self.edges().len() - 1 {
                    assert(!(ls[a].source == source_id@ && ls[a].target == target_id@));
                }
            }
        }
        Result::Ok(())
    }
}

} // verus!
