//! The trash lifecycle: an entity moves Active -> Trashed and from there
//! either back (restore) or out for good (purge). Soft delete and restore
//! live on the store itself; this module holds the permanent-deletion
//! policy that spans the store and the remote gateway. Every function hands
//! the removed file rows back so the caller can ask the remote service to
//! drop their blobs; that remote deletion is best-effort and the local
//! removal is never rolled back on its account.

use vstd::prelude::*;
use crate::store::Database;
use crate::store::FileMetadata;
use crate::store::file_child_of;
use crate::store::file_has_id;
use crate::store::file_keeps_id;
use crate::store::file_kept_by_sweep;
use crate::store::file_not_child_of;
use crate::store::file_swept;
use crate::store::folder_keeps_id;
use crate::store::folder_unexpired;
use crate::store::lemma_filter_id_empty;
use crate::store::lemma_filter_id_singleton;

verus! {

/// How many days a trashed entity is kept before the automatic sweep
/// purges it.
pub const TRASH_RETENTION_DAYS: i64 = 30;

/// Permanent deletion of a single item. A folder goes together with its
/// direct child files (one level, as the store's hard delete works); a file
/// goes alone. The removed file rows come back so the caller can request
/// remote deletion of their blobs.
pub fn purge_item(db: &mut Database, id: &String, is_folder: bool) -> (removed: Vec<FileMetadata>)
    requires
        old(db).wf(),
    ensures
        final(db).wf(),
        is_folder ==> final(db).folders() == old(db).folders().filter(folder_keeps_id(id@))
            && final(db).files() == old(db).files().filter(file_not_child_of(id@)) && removed@
            == old(db).files().filter(file_child_of(id@)),
        !is_folder ==> final(db).folders() == old(db).folders() && final(db).files() == old(
            db,
        ).files().filter(file_keeps_id(id@)) && removed@ == old(db).files().filter(
            file_has_id(id@),
        ),
{
    if is_folder {
        db.delete_folder(id)
    } else {
        let found = db.get_file(id);
        db.delete_file(id);
        match found {
            Some(row) => {
                proof {
                    let s = old(db).files();
                    let k = choose|k: int| 0 <= k < s.len() && s[k] == row;
                    lemma_filter_id_singleton(s, k, id@);
                }
                let mut out: Vec<FileMetadata> = Vec::new();
                out.push(row);
                out
            },
            None => {
                proof {
                    lemma_filter_id_empty(old(db).files(), id@);
                }
                Vec::new()
            },
        }
    }
}

/// Empties the trash: purges everything whose trash timestamp lies before
/// `now`, that is a sweep with a retention window of zero. An entity
/// trashed at `now` itself survives, as a cutoff comparison that is
/// strict must have it.
pub fn empty_trash(db: &mut Database, now: i64) -> (removed: Vec<FileMetadata>)
    requires
        old(db).wf(),
        0 <= now,
    ensures
        final(db).wf(),
        final(db).folders() == old(db).folders().filter(folder_unexpired(now as int)),
        final(db).files() == old(db).files().filter(
            file_kept_by_sweep(old(db).folders(), now as int),
        ),
        removed@ == old(db).files().filter(file_swept(old(db).folders(), now as int)),
{
    db.cleanup_trash(0, now)
}

/// The opportunistic sweep: once the caller has confirmed that the remote
/// side is authorized, trashed entities older than the retention window are
/// purged; without authorization nothing moves, since the removed blobs
/// could not be reported to the remote side anyway.
pub fn sweep_trash(db: &mut Database, authorized: bool, now: i64) -> (removed: Vec<FileMetadata>)
    requires
        old(db).wf(),
        0 <= now,
    ensures
        final(db).wf(),
        authorized ==> final(db).folders() == old(db).folders().filter(
            folder_unexpired(now - TRASH_RETENTION_DAYS * 86400),
        ) && final(db).files() == old(db).files().filter(
            file_kept_by_sweep(old(db).folders(), now - TRASH_RETENTION_DAYS * 86400),
        ) && removed@ == old(db).files().filter(
            file_swept(old(db).folders(), now - TRASH_RETENTION_DAYS * 86400),
        ),
        !authorized ==> *final(db) == *old(db) && removed@ == Seq::<FileMetadata>::empty(),
{
    if authorized {
        db.cleanup_trash(TRASH_RETENTION_DAYS, now)
    } else {
        Vec::new()
    }
}

} // verus!
