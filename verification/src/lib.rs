//! A local-first personal knowledge base core: a unified resource store,
//! directory-scan reconciliation, link tracking with cascade deletion, a
//! graph projection, and note lifecycle bookkeeping.
use vstd::prelude::*;

mod ext;
mod graph;
mod kinds;
mod model;
mod notes;
mod scan;
mod store;
mod text;

pub use graph::GraphData;
pub use graph::GraphEdge;
pub use graph::GraphNode;
pub use model::lemma_upsert_content_only;
pub use notes::lemma_note_round_trip;
pub use notes::link_meta;
pub use notes::link_row;
pub use notes::note_path_v;
pub use notes::note_row;
pub use notes::retitled;
pub use notes::task_row;

pub use scan::FileInfo;
pub use scan::FileInfoV;
pub use scan::entry_kind;
pub use scan::entry_row;
pub use scan::file_count;
pub use scan::ids_fresh;
pub use scan::infos_v;
pub use scan::lemma_rescan_idempotent;
pub use scan::lemma_scan_keeps_identity;
pub use scan::scan_rows;
pub use scan::scan_step_rows;
pub use scan::texts_v;

pub use model::LinkRow;
pub use model::LinkV;
pub use model::Row;
pub use model::RowV;
pub use model::has_id;
pub use model::id_index;
pub use model::ids_unique;
pub use model::links_ok;
pub use model::links_without;
pub use model::opt_v;
pub use model::path_index;
pub use model::refreshed;
pub use model::rows_without;
pub use model::upsert_rows;
pub use store::Database;
pub use store::Error;
pub use store::NoteContent;
pub use store::Resource;
pub use store::has_pair;

pub use ext::is_alnum;
pub use ext::json_str_of;
pub use kinds::Kind;
pub use kinds::kind_name;
pub use text::is_note_file;
pub use text::is_note_name;
pub use text::safe_file_name;
pub use text::sanitize_file_name;

verus! {

} // verus!
