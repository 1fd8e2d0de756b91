//! The note lifecycle and the metadata-only resource creators: note
//! rows live under a path derived from the vault root and the sanitized
//! title; links and tasks carry structured metadata and no file.
use vstd::prelude::*;

use crate::ext::fresh_id;
use crate::ext::json_quote;
use crate::ext::json_str_of;
use crate::ext::now_rfc3339;
use crate::kinds::Kind;
use crate::model::Row;
use crate::model::RowV;
use crate::model::has_id;
use crate::model::id_index;
use crate::model::lemma_id_index;
use crate::model::lemma_replace_wf;
use crate::model::lemma_upsert_wf;
use crate::model::links_without;
use crate::model::rows_without;
use crate::model::upsert_rows;
use crate::store::Database;
use crate::store::Error;
use crate::text::safe_file_name;
use crate::text::sanitize_file_name;
use vstd::string::StringExecFns;

verus! {

/// The path a note is stored under: the vault root, a separator, and
/// the file name derived from the title.
pub open spec fn note_path_v(root: Seq<char>, title: Seq<char>) -> Seq<char> {
    root + "/"@ + safe_file_name(title)
}

/// The row a freshly created note gets.
pub open spec fn note_row(
    id: Seq<char>,
    root: Seq<char>,
    title: Seq<char>,
    content: Seq<char>,
    now: Seq<char>,
) -> RowV {
    RowV {
        id: id,
        kind: Kind::Note,
        path: Option::Some(note_path_v(root, title)),
        title: title,
        content: content,
        created_at: now,
        updated_at: now,
        meta: Option::None,
    }
}

/// The metadata a link resource carries: a JSON object holding its URL.
pub open spec fn link_meta(url: Seq<char>) -> Seq<char> {
    "{\"url\":"@ + json_str_of(url) + "}"@
}

/// The row a freshly created link resource gets.
pub open spec fn link_row(id: Seq<char>, title: Seq<char>, url: Seq<char>, now: Seq<char>) -> RowV {
    RowV {
        id: id,
        kind: Kind::Link,
        path: Option::None,
        title: title,
        content: Seq::empty(),
        created_at: now,
        updated_at: now,
        meta: Option::Some(link_meta(url)),
    }
}

/// The row a freshly created task resource gets.
pub open spec fn task_row(id: Seq<char>, title: Seq<char>, now: Seq<char>) -> RowV {
    RowV {
        id: id,
        kind: Kind::Task,
        path: Option::None,
        title: title,
        content: Seq::empty(),
        created_at: now,
        updated_at: now,
        meta: Option::Some("{\"status\":\"todo\"}"@),
    }
}

/// A row after an explicit note update: title, content and touch time
/// are replaced; identifier, kind, path, creation time and metadata
/// stay.
pub open spec fn retitled(r: RowV, title: Seq<char>, content: Seq<char>, now: Seq<char>) -> RowV {
    RowV {
        id: r.id,
        kind: r.kind,
        path: r.path,
        title: title,
        content: content,
        created_at: r.created_at,
        updated_at: now,
        meta: r.meta,
    }
}

impl Database {
    /// The path a note with this title is written under.
    pub fn note_path(&self, title: &String) -> (r: String)
        ensures
            r@ == note_path_v(self.root(), title@),
    {
        let mut p = self.vault_root.clone();
        p.append("/");
        let f = sanitize_file_name(title.as_str());
        p.append(f.as_str());
        proof {
            assert(p@ =~= note_path_v(self.root(), title@));
        }
        p
    }

    /// Inserts a note row under the caller's identifier and clock
    /// reading. Succeeds exactly when the identifier is not yet stored;
    /// a collision is a constraint violation and changes nothing. The
    /// caller is responsible for having written the file at
    /// `note_path(title)` first.
    pub fn create_note_with(&mut self, id: String, title: &String, content: &String, now: &String)
        -> (r: Result<String, Error>)
        requires
            old(self).wf(),
        ensures
            final(self).edges() == old(self).edges(),
            final(self).root() == old(self).root(),
            final(self).wf(),
            match r {
                Result::Ok(out) => id_index(old(self).rows(), id@) < 0 && out@ == id@ && final(self).rows() == old(self).rows().push(
                    note_row(id@, old(self).root(), title@, content@, now@),
                ),
                Result::Err(e) => id_index(old(self).rows(), id@) >= 0 && e
                    == Error::StorageFailure && final(self).rows() == old(self).rows(),
            },
    {
        let ghost rs = self.rows();
        let ghost x = note_row(id@, self.root(), title@, content@, now@);
        if self.find_by_id(&id).is_some() {
            return Result::Err(Error::StorageFailure);
        }
        proof {
            lemma_upsert_wf(rs, self.edges(), x);
        }
        let out = id.clone();
        let path = self.note_path(title);
        self.resources.push(
            Row {
                id,
                kind: Kind::Note,
                path: Option::Some(path),
                title: title.clone(),
                content: content.clone(),
                created_at: now.clone(),
                updated_at: now.clone(),
                meta: Option::None,
            },
        );
        proof {
            assert(self.rows() =~= rs.push(x));
            assert(upsert_rows(rs, x) == rs.push(x));
        }
        Result::Ok(out)
    }

    /// Creates a note: mints an identifier, reads the clock, computes
    /// the path from the title and stores the row. Fails only when the
    /// minted identifier collides with a stored one, which changes
    /// nothing — so on an empty store it always succeeds.
    pub fn create_note(&mut self, title: &String, content: &String) -> (r: Result<String, Error>)
        requires
            old(self).wf(),
        ensures
            final(self).edges() == old(self).edges(),
            final(self).root() == old(self).root(),
            final(self).wf(),
            match r {
                Result::Ok(out) => !has_id(old(self).rows(), out@) && exists|ts: Seq<char>|
                    final(self).rows() == old(self).rows().push(
                        #[trigger] note_row(out@, old(self).root(), title@, content@, ts),
                    ),
                Result::Err(e) => e == Error::StorageFailure && final(self).rows() == old(self).rows()
                    && old(self).rows().len() > 0,
            },
    {
        let id = fresh_id();
        let ghost idv = id@;
        let now = now_rfc3339();
        let ghost rs = self.rows();
        let r = self.create_note_with(id, title, content, &now);
        proof {
            if r is Ok {
                lemma_id_index(rs, r->Ok_0@);
            } else {
                assert(id_index(rs, idv) >= 0);
                if rs.len() == 0 {
                    assert(id_index(rs, idv) == -1);
                }
            }
        }
        r
    }

    /// Replaces a note's title, content and touch time with the
    /// caller's clock reading; the row keeps its identifier, kind,
    /// path, creation time and metadata, and moves to the
    /// most-recently-touched position. Fails with NotFound, changing
    /// nothing, exactly when the identifier is not stored.
    pub fn update_note_with(&mut self, id: &String, title: &String, content: &String, now: &String)
        -> (r: Result<(), Error>)
        requires
            old(self).wf(),
        ensures
            final(self).edges() == old(self).edges(),
            final(self).root() == old(self).root(),
            final(self).wf(),
            match r {
                Result::Ok(u) => {
                    let k = id_index(old(self).rows(), id@);
                    &&& k >= 0
                    &&& final(self).rows() == old(self).rows().remove(k).push(
                        retitled(old(self).rows()[k], title@, content@, now@),
                    )
                },
                Result::Err(e) => e == Error::NotFound && id_index(old(self).rows(), id@) < 0
                    && final(self).rows() == old(self).rows(),
            },
    {
        let ghost rs = self.rows();
        match self.find_by_id(id) {
            Option::Some(k) => {
                proof {
                    assert(rs[k as int] == self.resources@[k as int]@);
                    lemma_replace_wf(
                        rs,
                        self.edges(),
                        k as int,
                        retitled(rs[k as int], title@, content@, now@),
                    );
                }
                let old_row = self.resources.remove(k);
                let new_row = Row {
                    id: old_row.id,
                    kind: old_row.kind,
                    path: old_row.path,
                    title: title.clone(),
                    content: content.clone(),
                    created_at: old_row.created_at,
                    updated_at: now.clone(),
                    meta: old_row.meta,
                };
                self.resources.push(new_row);
                proof {
                    let target = rs.remove(k as int).push(
                        retitled(rs[k as int], title@, content@, now@),
                    );
                    assert forall|i: int| 0 <= i < self.rows().len() implies self.rows()[i]
                        == target[i] by {
                        assert(self.rows()[i] == self.resources@[i]@);
                        if i < self.rows().len() - 1 {
                            if i < k {
                                assert(self.rows()[i] == rs[i]);
                                assert(target[i] == rs[i]);
                            } else {
                                assert(self.rows()[i] == rs[i + 1]);
                                assert(target[i] == rs[i + 1]);
                            }
                        }
                    }
                    assert(self.rows() =~= target);
                }
                Result::Ok(())
            },
            Option::None => Result::Err(Error::NotFound),
        }
    }

    /// Replaces a note's title and content, reading the clock itself.
    /// Fails with NotFound, changing nothing, exactly when the
    /// identifier is not stored.
    pub fn update_note(&mut self, id: &String, title: &String, content: &String) -> (r: Result<
        (),
        Error,
    >)
        requires
            old(self).wf(),
        ensures
            final(self).edges() == old(self).edges(),
            final(self).root() == old(self).root(),
            final(self).wf(),
            match r {
                Result::Ok(u) => {
                    let k = id_index(old(self).rows(), id@);
                    &&& k >= 0
                    &&& exists|ts: Seq<char>|
                        final(self).rows() == old(self).rows().remove(k).push(
                            #[trigger] retitled(old(self).rows()[k], title@, content@, ts),
                        )
                },
                Result::Err(e) => e == Error::NotFound && id_index(old(self).rows(), id@) < 0
                    && final(self).rows() == old(self).rows(),
            },
    {
        let now = now_rfc3339();
        self.update_note_with(id, title, content, &now)
    }

    /// Deletes a note row and cascades to its links; a missing backing
    /// file is the caller's concern and a missing row is tolerated, so
    /// this always succeeds.
    pub fn delete_note(&mut self, id: &String) -> (r: Result<(), Error>)
        requires
            old(self).wf(),
        ensures
            r == Result::<(), Error>::Ok(()),
            final(self).rows() == rows_without(old(self).rows(), id@),
            final(self).edges() == links_without(old(self).edges(), id@),
            final(self).root() == old(self).root(),
            final(self).wf(),
    {
        self.delete_resource(id);
        Result::Ok(())
    }

    /// Inserts a metadata-only link resource under the caller's
    /// identifier and clock reading. Succeeds exactly when the
    /// identifier is not yet stored.
    pub fn create_link_with(&mut self, id: String, title: &String, url: &String, now: &String)
        -> (r: Result<String, Error>)
        requires
            old(self).wf(),
        ensures
            final(self).edges() == old(self).edges(),
            final(self).root() == old(self).root(),
            final(self).wf(),
            match r {
                Result::Ok(out) => id_index(old(self).rows(), id@) < 0 && out@ == id@ && final(self).rows() == old(self).rows().push(link_row(id@, title@, url@, now@)),
                Result::Err(e) => id_index(old(self).rows(), id@) >= 0 && e
                    == Error::StorageFailure && final(self).rows() == old(self).rows(),
            },
    {
        let ghost rs = self.rows();
        let ghost x = link_row(id@, title@, url@, now@);
        if self.find_by_id(&id).is_some() {
            return Result::Err(Error::StorageFailure);
        }
        proof {
            lemma_upsert_wf(rs, self.edges(), x);
        }
        let out = id.clone();
        let mut meta = String::from_str("{\"url\":");
        meta.append(json_quote(url.as_str()).as_str());
        meta.append("}");
        proof {
            assert(meta@ =~= link_meta(url@));
        }
        self.resources.push(
            Row {
                id,
                kind: Kind::Link,
                path: Option::None,
                title: title.clone(),
                content: String::new(),
                created_at: now.clone(),
                updated_at: now.clone(),
                meta: Option::Some(meta),
            },
        );
        proof {
            assert(self.rows() =~= rs.push(x));
            assert(upsert_rows(rs, x) == rs.push(x));
        }
        Result::Ok(out)
    }

    /// Creates a link resource: mints an identifier, reads the clock,
    /// and stores a row whose metadata holds the URL. Fails only when
    /// the minted identifier collides with a stored one — so on an
    /// empty store it always succeeds.
    pub fn create_link(&mut self, title: &String, url: &String) -> (r: Result<String, Error>)
        requires
            old(self).wf(),
        ensures
            final(self).edges() == old(self).edges(),
            final(self).root() == old(self).root(),
            final(self).wf(),
            match r {
                Result::Ok(out) => !has_id(old(self).rows(), out@) && exists|ts: Seq<char>|
                    final(self).rows() == old(self).rows().push(
                        #[trigger] link_row(out@, title@, url@, ts),
                    ),
                Result::Err(e) => e == Error::StorageFailure && final(self).rows() == old(self).rows()
                    && old(self).rows().len() > 0,
            },
    {
        let id = fresh_id();
        let ghost idv = id@;
        let now = now_rfc3339();
        let ghost rs = self.rows();
        let r = self.create_link_with(id, title, url, &now);
        proof {
            if r is Ok {
                lemma_id_index(rs, r->Ok_0@);
            } else {
                assert(id_index(rs, idv) >= 0);
                if rs.len() == 0 {
                    assert(id_index(rs, idv) == -1);
                }
            }
        }
        r
    }

    /// Inserts a metadata-only task resource under the caller's
    /// identifier and clock reading. Succeeds exactly when the
    /// identifier is not yet stored.
    pub fn create_task_with(&mut self, id: String, title: &String, now: &String) -> (r: Result<
        String,
        Error,
    >)
        requires
            old(self).wf(),
        ensures
            final(self).edges() == old(self).edges(),
            final(self).root() == old(self).root(),
            final(self).wf(),
            match r {
                Result::Ok(out) => id_index(old(self).rows(), id@) < 0 && out@ == id@ && final(self).rows() == old(self).rows().push(task_row(id@, title@, now@)),
                Result::Err(e) => id_index(old(self).rows(), id@) >= 0 && e
                    == Error::StorageFailure && final(self).rows() == old(self).rows(),
            },
    {
        let ghost rs = self.rows();
        let ghost x = task_row(id@, title@, now@);
        if self.find_by_id(&id).is_some() {
            return Result::Err(Error::StorageFailure);
        }
        proof {
            lemma_upsert_wf(rs, self.edges(), x);
        }
        let out = id.clone();
        self.resources.push(
            Row {
                id,
                kind: Kind::Task,
                path: Option::None,
                title: title.clone(),
                content: String::new(),
                created_at: now.clone(),
                updated_at: now.clone(),
                meta: Option::Some(String::from_str("{\"status\":\"todo\"}")),
            },
        );
        proof {
            assert(self.rows() =~= rs.push(x));
            assert(upsert_rows(rs, x) == rs.push(x));
        }
        Result::Ok(out)
    }

    /// Creates a task resource: mints an identifier, reads the clock,
    /// and stores a row whose metadata holds the initial status. Fails
    /// only when the minted identifier collides with a stored one — so
    /// on an empty store it always succeeds.
    pub fn create_task(&mut self, title: &String) -> (r: Result<String, Error>)
        requires
            old(self).wf(),
        ensures
            final(self).edges() == old(self).edges(),
            final(self).root() == old(self).root(),
            final(self).wf(),
            match r {
                Result::Ok(out) => !has_id(old(self).rows(), out@) && exists|ts: Seq<char>|
                    final(self).rows() == old(self).rows().push(
                        #[trigger] task_row(out@, title@, ts),
                    ),
                Result::Err(e) => e == Error::StorageFailure && final(self).rows() == old(self).rows()
                    && old(self).rows().len() > 0,
            },
    {
        let id = fresh_id();
        let ghost idv = id@;
        let now = now_rfc3339();
        let ghost rs = self.rows();
        let r = self.create_task_with(id, title, &now);
        proof {
            if r is Ok {
                lemma_id_index(rs, r->Ok_0@);
            } else {
                assert(id_index(rs, idv) >= 0);
                if rs.len() == 0 {
                    assert(id_index(rs, idv) == -1);
                }
            }
        }
        r
    }
}

/// Note round-trip: reading a freshly created note under its returned
/// identifier finds exactly the stored title and content.
pub proof fn lemma_note_round_trip(
    rs: Seq<RowV>,
    id: Seq<char>,
    root: Seq<char>,
    title: Seq<char>,
    content: Seq<char>,
    now: Seq<char>,
)
    requires
        !has_id(rs, id),
    ensures
        id_index(rs.push(note_row(id, root, title, content, now)), id) == rs.len(),
        rs.push(note_row(id, root, title, content, now))[rs.len() as int].title == title,
        rs.push(note_row(id, root, title, content, now))[rs.len() as int].content == content,
{
    let out = rs.push(note_row(id, root, title, content, now));
    lemma_id_index(out, id);
    let k = id_index(out, id);
    if k < 0 {
        assert(out[rs.len() as int].id != id);
    } else if k < rs.len() {
        assert(out[k].id == id);
        assert(rs[k].id == id);
        assert(has_id(rs, id));
    }
}

} // verus!
