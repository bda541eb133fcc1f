//! The metadata store: an in-memory index of folders and files with
//! soft-delete (trash), starring and usage accounting.
//!
//! Persistence and remote-blob traffic live outside this crate; the store
//! itself is pure data manipulation and is verified in full.
#![verifier::loop_isolation(false)]

use vstd::prelude::*;
use crate::ids::fresh_id;
use crate::text::contains_substring;
use crate::text::is_substring;

verus! {

/// A folder row. `parent_id == None` means the folder sits at the root.
/// A present parent reference is expected to name an existing folder at
/// creation time; the store does not re-check it afterwards, so a dangling
/// parent is representable (and arises after a one-level folder deletion).
pub struct Folder {
    pub id: String,
    pub parent_id: Option<String>,
    pub name: String,
    pub created_at: i64,
    pub trashed: bool,
    pub trashed_at: Option<i64>,
    pub is_starred: bool,
}

/// A file row. `message_id` is the opaque remote reference under which the
/// blob was registered with the remote service.
pub struct FileMetadata {
    pub id: String,
    pub folder_id: Option<String>,
    pub name: String,
    pub size: u64,
    pub mime_type: String,
    pub message_id: i32,
    pub created_at: i64,
    pub trashed: bool,
    pub trashed_at: Option<i64>,
    pub is_starred: bool,
}

impl Clone for Folder {
    fn clone(&self) -> (res: Self)
        ensures
            res == *self,
    {
        Folder {
            id: self.id.clone(),
            parent_id: self.parent_id.clone(),
            name: self.name.clone(),
            created_at: self.created_at,
            trashed: self.trashed,
            trashed_at: self.trashed_at,
            is_starred: self.is_starred,
        }
    }
}

impl Clone for FileMetadata {
    fn clone(&self) -> (res: Self)
        ensures
            res == *self,
    {
        FileMetadata {
            id: self.id.clone(),
            folder_id: self.folder_id.clone(),
            name: self.name.clone(),
            size: self.size,
            mime_type: self.mime_type.clone(),
            message_id: self.message_id,
            created_at: self.created_at,
            trashed: self.trashed,
            trashed_at: self.trashed_at,
            is_starred: self.is_starred,
        }
    }
}

/// An optional id, by its text: what comparisons of parent and folder
/// references go by.
pub open spec fn opt_id_view(o: Option<String>) -> Option<Seq<char>> {
    match o {
        Some(s) => Some(s@),
        None => None,
    }
}

/// Every folder carries its trash timestamp exactly when it is trashed,
/// and no two folders share an id.
pub open spec fn folders_wf(s: Seq<Folder>) -> bool {
    &&& forall|i: int, j: int|
        0 <= i < j < s.len() ==> s[i].id@ != s[j].id@
    &&& forall|i: int| 0 <= i < s.len() ==> ((#[trigger] s[i].trashed_at) is Some <==> s[i].trashed)
}

/// Every file carries its trash timestamp exactly when it is trashed,
/// and no two files share an id.
pub open spec fn files_wf(s: Seq<FileMetadata>) -> bool {
    &&& forall|i: int, j: int|
        0 <= i < j < s.len() ==> s[i].id@ != s[j].id@
    &&& forall|i: int| 0 <= i < s.len() ==> ((#[trigger] s[i].trashed_at) is Some <==> s[i].trashed)
}

/// Some folder in `s` carries the id `id`.
pub open spec fn has_folder_id(s: Seq<Folder>, id: Seq<char>) -> bool {
    exists|i: int| 0 <= i < s.len() && (#[trigger] s[i].id)@ == id
}

/// Some file in `s` carries the id `id`.
pub open spec fn has_file_id(s: Seq<FileMetadata>, id: Seq<char>) -> bool {
    exists|i: int| 0 <= i < s.len() && (#[trigger] s[i].id)@ == id
}

/// The folder row that a creation at time `now` stores.
pub open spec fn folder_row(id: String, name: String, parent_id: Option<String>, now: i64) -> Folder {
    Folder {
        id,
        parent_id,
        name,
        created_at: now,
        trashed: false,
        trashed_at: None,
        is_starred: false,
    }
}

/// The file row that a registration at time `now` stores.
pub open spec fn file_row(
    id: String,
    folder_id: Option<String>,
    name: String,
    size: u64,
    mime_type: String,
    message_id: i32,
    now: i64,
) -> FileMetadata {
    FileMetadata {
        id,
        folder_id,
        name,
        size,
        mime_type,
        message_id,
        created_at: now,
        trashed: false,
        trashed_at: None,
        is_starred: false,
    }
}

/// The byte total of every file row, trashed or not.
pub open spec fn sum_sizes(s: Seq<FileMetadata>) -> int
    decreases s.len(),
{
    if s.len() == 0 {
        0
    } else {
        sum_sizes(s.drop_last()) + s.last().size
    }
}

/// The byte total of the file rows that are not in the trash: what usage
/// accounting reports.
pub open spec fn usage_of(s: Seq<FileMetadata>) -> int
    decreases s.len(),
{
    if s.len() == 0 {
        0
    } else {
        usage_of(s.drop_last()) + if s.last().trashed {
            0
        } else {
            s.last().size as int
        }
    }
}

pub proof fn lemma_sum_sizes_push(s: Seq<FileMetadata>, f: FileMetadata)
    ensures
        sum_sizes(s.push(f)) == sum_sizes(s) + f.size,
{
    assert(s.push(f).drop_last() =~= s);
}

pub proof fn lemma_sum_sizes_nonneg(s: Seq<FileMetadata>)
    ensures
        0 <= sum_sizes(s),
    decreases s.len(),
{
    if s.len() > 0 {
        lemma_sum_sizes_nonneg(s.drop_last());
    }
}

pub proof fn lemma_usage_nonneg(s: Seq<FileMetadata>)
    ensures
        0 <= usage_of(s),
    decreases s.len(),
{
    if s.len() > 0 {
        lemma_usage_nonneg(s.drop_last());
    }
}

/// Leaving a row out of the trash total never raises it above the raw total.
pub proof fn lemma_usage_le_sum(s: Seq<FileMetadata>)
    ensures
        usage_of(s) <= sum_sizes(s),
    decreases s.len(),
{
    if s.len() > 0 {
        lemma_usage_le_sum(s.drop_last());
    }
}

pub proof fn lemma_sum_sizes_take_succ(s: Seq<FileMetadata>, i: int)
    requires
        0 <= i < s.len(),
    ensures
        sum_sizes(s.take(i + 1)) == sum_sizes(s.take(i)) + s[i].size,
{
    assert(s.take(i + 1).drop_last() =~= s.take(i));
    assert(s.take(i + 1).last() == s[i]);
}

pub proof fn lemma_usage_take_succ(s: Seq<FileMetadata>, i: int)
    requires
        0 <= i < s.len(),
    ensures
        usage_of(s.take(i + 1)) == usage_of(s.take(i)) + if s[i].trashed {
            0
        } else {
            s[i].size as int
        },
{
    assert(s.take(i + 1).drop_last() =~= s.take(i));
    assert(s.take(i + 1).last() == s[i]);
}

/// The folders after the one carrying `id`, if any, is moved to the trash
/// at time `now`.
pub open spec fn folders_trashed_at(s: Seq<Folder>, id: Seq<char>, now: i64) -> Seq<Folder> {
    s.map_values(
        |f: Folder|
            if f.id@ == id {
                Folder {
                    id: f.id,
                    parent_id: f.parent_id,
                    name: f.name,
                    created_at: f.created_at,
                    trashed: true,
                    trashed_at: Some(now),
                    is_starred: f.is_starred,
                }
            } else {
                f
            },
    )
}

/// The files after the one carrying `id`, if any, is moved to the trash
/// at time `now`.
pub open spec fn files_trashed_at(s: Seq<FileMetadata>, id: Seq<char>, now: i64) -> Seq<
    FileMetadata,
> {
    s.map_values(
        |f: FileMetadata|
            if f.id@ == id {
                FileMetadata {
                    id: f.id,
                    folder_id: f.folder_id,
                    name: f.name,
                    size: f.size,
                    mime_type: f.mime_type,
                    message_id: f.message_id,
                    created_at: f.created_at,
                    trashed: true,
                    trashed_at: Some(now),
                    is_starred: f.is_starred,
                }
            } else {
                f
            },
    )
}

/// The folders after the one carrying `id`, if any, is taken out of the
/// trash.
pub open spec fn folders_restored(s: Seq<Folder>, id: Seq<char>) -> Seq<Folder> {
    s.map_values(
        |f: Folder|
            if f.id@ == id {
                Folder {
                    id: f.id,
                    parent_id: f.parent_id,
                    name: f.name,
                    created_at: f.created_at,
                    trashed: false,
                    trashed_at: None,
                    is_starred: f.is_starred,
                }
            } else {
                f
            },
    )
}

/// The files after the one carrying `id`, if any, is taken out of the trash.
pub open spec fn files_restored(s: Seq<FileMetadata>, id: Seq<char>) -> Seq<FileMetadata> {
    s.map_values(
        |f: FileMetadata|
            if f.id@ == id {
                FileMetadata {
                    id: f.id,
                    folder_id: f.folder_id,
                    name: f.name,
                    size: f.size,
                    mime_type: f.mime_type,
                    message_id: f.message_id,
                    created_at: f.created_at,
                    trashed: false,
                    trashed_at: None,
                    is_starred: f.is_starred,
                }
            } else {
                f
            },
    )
}

/// The folders after the star of the one carrying `id`, if any, is flipped.
pub open spec fn folders_star_flipped(s: Seq<Folder>, id: Seq<char>) -> Seq<Folder> {
    s.map_values(
        |f: Folder|
            if f.id@ == id {
                Folder {
                    id: f.id,
                    parent_id: f.parent_id,
                    name: f.name,
                    created_at: f.created_at,
                    trashed: f.trashed,
                    trashed_at: f.trashed_at,
                    is_starred: !f.is_starred,
                }
            } else {
                f
            },
    )
}

/// The files after the star of the one carrying `id`, if any, is flipped.
pub open spec fn files_star_flipped(s: Seq<FileMetadata>, id: Seq<char>) -> Seq<FileMetadata> {
    s.map_values(
        |f: FileMetadata|
            if f.id@ == id {
                FileMetadata {
                    id: f.id,
                    folder_id: f.folder_id,
                    name: f.name,
                    size: f.size,
                    mime_type: f.mime_type,
                    message_id: f.message_id,
                    created_at: f.created_at,
                    trashed: f.trashed,
                    trashed_at: f.trashed_at,
                    is_starred: !f.is_starred,
                }
            } else {
                f
            },
    )
}

/// The folders after the one carrying `id`, if any, is renamed.
pub open spec fn folders_renamed(s: Seq<Folder>, id: Seq<char>, name: String) -> Seq<Folder> {
    s.map_values(
        |f: Folder|
            if f.id@ == id {
                Folder {
                    id: f.id,
                    parent_id: f.parent_id,
                    name,
                    created_at: f.created_at,
                    trashed: f.trashed,
                    trashed_at: f.trashed_at,
                    is_starred: f.is_starred,
                }
            } else {
                f
            },
    )
}

/// The files after the one carrying `id`, if any, is renamed.
pub open spec fn files_renamed(s: Seq<FileMetadata>, id: Seq<char>, name: String) -> Seq<
    FileMetadata,
> {
    s.map_values(
        |f: FileMetadata|
            if f.id@ == id {
                FileMetadata {
                    id: f.id,
                    folder_id: f.folder_id,
                    name,
                    size: f.size,
                    mime_type: f.mime_type,
                    message_id: f.message_id,
                    created_at: f.created_at,
                    trashed: f.trashed,
                    trashed_at: f.trashed_at,
                    is_starred: f.is_starred,
                }
            } else {
                f
            },
    )
}

/// Two file sequences of equal length and equal sizes weigh the same.
pub proof fn lemma_sum_sizes_pointwise(s: Seq<FileMetadata>, t: Seq<FileMetadata>)
    requires
        s.len() == t.len(),
        forall|i: int| 0 <= i < s.len() ==> (#[trigger] s[i]).size == t[i].size,
    ensures
        sum_sizes(s) == sum_sizes(t),
    decreases s.len(),
{
    if s.len() > 0 {
        lemma_sum_sizes_pointwise(s.drop_last(), t.drop_last());
    }
}

/// A prefix never outweighs the whole sequence.
pub proof fn lemma_sum_sizes_take_le(s: Seq<FileMetadata>, i: int)
    requires
        0 <= i <= s.len(),
    ensures
        sum_sizes(s.take(i)) <= sum_sizes(s),
    decreases s.len() - i,
{
    if i == s.len() {
        assert(s.take(i) =~= s);
    } else {
        lemma_sum_sizes_take_succ(s, i);
        lemma_sum_sizes_take_le(s, i + 1);
    }
}

/// The folders that a listing under `parent` shows: not trashed, direct
/// children of `parent` (`None` lists the root).
pub open spec fn folder_listed_in(parent: Option<String>) -> spec_fn(Folder) -> bool {
    |f: Folder| !f.trashed && opt_id_view(f.parent_id) == opt_id_view(parent)
}

/// The files that a listing under `folder` shows.
pub open spec fn file_listed_in(folder: Option<String>) -> spec_fn(FileMetadata) -> bool {
    |f: FileMetadata| !f.trashed && opt_id_view(f.folder_id) == opt_id_view(folder)
}

/// The folders that the trash view shows.
pub open spec fn folder_trashed() -> spec_fn(Folder) -> bool {
    |f: Folder| f.trashed
}

/// The files that the trash view shows.
pub open spec fn file_trashed() -> spec_fn(FileMetadata) -> bool {
    |f: FileMetadata| f.trashed
}

/// The folders that the starred view shows: starred and not trashed.
pub open spec fn folder_starred() -> spec_fn(Folder) -> bool {
    |f: Folder| f.is_starred && !f.trashed
}

/// The files that the starred view shows.
pub open spec fn file_starred() -> spec_fn(FileMetadata) -> bool {
    |f: FileMetadata| f.is_starred && !f.trashed
}

/// The folders that a search for `q` shows: not trashed, name carrying the
/// query as a substring.
pub open spec fn folder_name_matches(q: Seq<char>) -> spec_fn(Folder) -> bool {
    |f: Folder| !f.trashed && is_substring(q, f.name@)
}

/// The files that a search for `q` shows.
pub open spec fn file_name_matches(q: Seq<char>) -> spec_fn(FileMetadata) -> bool {
    |f: FileMetadata| !f.trashed && is_substring(q, f.name@)
}

/// The folders that survive a hard delete of the folder carrying `id`.
pub open spec fn folder_keeps_id(id: Seq<char>) -> spec_fn(Folder) -> bool {
    |f: Folder| f.id@ != id
}

/// The files that survive a hard delete of the file carrying `id`.
pub open spec fn file_keeps_id(id: Seq<char>) -> spec_fn(FileMetadata) -> bool {
    |f: FileMetadata| f.id@ != id
}

/// The files carrying exactly the id `id`.
pub open spec fn file_has_id(id: Seq<char>) -> spec_fn(FileMetadata) -> bool {
    |f: FileMetadata| f.id@ == id
}

/// The files stored directly under the folder carrying `id`.
pub open spec fn file_child_of(id: Seq<char>) -> spec_fn(FileMetadata) -> bool {
    |f: FileMetadata| opt_id_view(f.folder_id) == Some(id)
}

/// The files not stored directly under the folder carrying `id`.
pub open spec fn file_not_child_of(id: Seq<char>) -> spec_fn(FileMetadata) -> bool {
    |f: FileMetadata| opt_id_view(f.folder_id) != Some(id)
}

/// The trash timestamp of a row, a missing one counting as zero.
pub open spec fn trash_time(t: Option<i64>) -> int {
    match t {
        Some(x) => x as int,
        None => 0,
    }
}

/// The folders that a sweep with cutoff `limit` purges: trashed earlier
/// than the cutoff.
pub open spec fn folder_expired(limit: int) -> spec_fn(Folder) -> bool {
    |f: Folder| f.trashed && trash_time(f.trashed_at) < limit
}

/// The folders that a sweep with cutoff `limit` keeps.
pub open spec fn folder_unexpired(limit: int) -> spec_fn(Folder) -> bool {
    |f: Folder| !(f.trashed && trash_time(f.trashed_at) < limit)
}

/// The files that a sweep with cutoff `limit` purges on their own account.
pub open spec fn file_expired(limit: int) -> spec_fn(FileMetadata) -> bool {
    |f: FileMetadata| f.trashed && trash_time(f.trashed_at) < limit
}

/// Whether `f` sits directly inside some folder of `folders` that a sweep
/// with cutoff `limit` purges.
pub open spec fn in_expired_folder(folders: Seq<Folder>, f: FileMetadata, limit: int) -> bool {
    exists|i: int|
        0 <= i < folders.len() && (folder_expired(limit))(#[trigger] folders[i]) && opt_id_view(
            f.folder_id,
        ) == Some(folders[i].id@)
}

/// The files that a sweep with cutoff `limit` purges: expired themselves,
/// or direct children of a purged folder.
pub open spec fn file_swept(folders: Seq<Folder>, limit: int) -> spec_fn(FileMetadata) -> bool {
    |f: FileMetadata| (file_expired(limit))(f) || in_expired_folder(folders, f, limit)
}

/// The files that a sweep with cutoff `limit` keeps.
pub open spec fn file_kept_by_sweep(folders: Seq<Folder>, limit: int) -> spec_fn(
    FileMetadata,
) -> bool {
    |f: FileMetadata| !((file_expired(limit))(f) || in_expired_folder(folders, f, limit))
}

/// Dropping folder rows keeps ids distinct and trash timestamps consistent.
pub proof fn lemma_folders_wf_filter(s: Seq<Folder>, pred: spec_fn(Folder) -> bool)
    requires
        folders_wf(s),
    ensures
        folders_wf(s.filter(pred)),
    decreases s.len(),
{
    reveal(Seq::filter);
    if s.len() > 0 {
        let dl = s.drop_last();
        let last = s.last();
        assert(folders_wf(dl));
        lemma_folders_wf_filter(dl, pred);
        let fd = dl.filter(pred);
        if pred(last) {
            assert(s.filter(pred) == fd.push(last));
            assert forall|i: int| 0 <= i < fd.len() implies (#[trigger] fd[i]).id@ != last.id@ by {
                assert(fd.contains(fd[i]));
                dl.lemma_filter_contains_rev(pred, fd[i]);
                let k = choose|k: int| 0 <= k < dl.len() && dl[k] == fd[i];
                assert(s[k] == fd[i]);
                assert(s[k].id@ != s[s.len() - 1].id@);
            }
            let t = fd.push(last);
            assert forall|i: int, j: int| 0 <= i < j < t.len() implies t[i].id@ != t[j].id@ by {
                if j < fd.len() {
                    assert(fd[i].id@ != fd[j].id@);
                } else {
                    assert(fd[i].id@ != last.id@);
                }
            }
        }
    }
}

/// Dropping file rows keeps ids distinct and trash timestamps consistent.
pub proof fn lemma_files_wf_filter(s: Seq<FileMetadata>, pred: spec_fn(FileMetadata) -> bool)
    requires
        files_wf(s),
    ensures
        files_wf(s.filter(pred)),
    decreases s.len(),
{
    reveal(Seq::filter);
    if s.len() > 0 {
        let dl = s.drop_last();
        let last = s.last();
        assert(files_wf(dl));
        lemma_files_wf_filter(dl, pred);
        let fd = dl.filter(pred);
        if pred(last) {
            assert(s.filter(pred) == fd.push(last));
            assert forall|i: int| 0 <= i < fd.len() implies (#[trigger] fd[i]).id@ != last.id@ by {
                assert(fd.contains(fd[i]));
                dl.lemma_filter_contains_rev(pred, fd[i]);
                let k = choose|k: int| 0 <= k < dl.len() && dl[k] == fd[i];
                assert(s[k] == fd[i]);
                assert(s[k].id@ != s[s.len() - 1].id@);
            }
            let t = fd.push(last);
            assert forall|i: int, j: int| 0 <= i < j < t.len() implies t[i].id@ != t[j].id@ by {
                if j < fd.len() {
                    assert(fd[i].id@ != fd[j].id@);
                } else {
                    assert(fd[i].id@ != last.id@);
                }
            }
        }
    }
}

/// Dropping file rows never raises the byte total.
pub proof fn lemma_sum_sizes_filter_le(s: Seq<FileMetadata>, pred: spec_fn(FileMetadata) -> bool)
    ensures
        sum_sizes(s.filter(pred)) <= sum_sizes(s),
    decreases s.len(),
{
    reveal(Seq::filter);
    if s.len() > 0 {
        let dl = s.drop_last();
        lemma_sum_sizes_filter_le(dl, pred);
        if pred(s.last()) {
            lemma_sum_sizes_push(dl.filter(pred), s.last());
        }
    }
}

/// The local metadata index: an ordered collection of folder rows and one of
/// file rows. All operations keep `wf()`: ids stay unique, trash timestamps
/// stay in step with the trash flag, and the byte total of all files stays
/// within `u64`.
pub struct Database {
    folders: Vec<Folder>,
    files: Vec<FileMetadata>,
}

impl Database {
    /// The folder rows, in insertion order.
    pub closed spec fn folders(&self) -> Seq<Folder> {
        self.folders@
    }

    /// The file rows, in insertion order.
    pub closed spec fn files(&self) -> Seq<FileMetadata> {
        self.files@
    }

    /// The store's invariant.
    pub open spec fn wf(&self) -> bool {
        &&& folders_wf(self.folders())
        &&& files_wf(self.files())
        &&& sum_sizes(self.files()) <= u64::MAX
    }

    /// An empty store.
    pub fn new() -> (db: Database)
        ensures
            db.wf(),
            db.folders() == Seq::<Folder>::empty(),
            db.files() == Seq::<FileMetadata>::empty(),
    {
        Database { folders: Vec::new(), files: Vec::new() }
    }

    /// Whether some folder already carries `id`.
    fn folder_id_used(&self, id: &String) -> (r: bool)
        ensures
            r == has_folder_id(self.folders(), id@),
    {
        let n = self.folders.len();
        let mut i: usize = 0;
        while i < n
            invariant
                n == self.folders@.len(),
                0 <= i <= n,
                forall|j: int| 0 <= j < i ==> (#[trigger] self.folders@[j].id)@ != id@,
            decreases n - i,
        {
            if self.folders[i].id == *id {
                return true;
            }
            i += 1;
        }
        false
    }

    /// Whether some file already carries `id`.
    fn file_id_used(&self, id: &String) -> (r: bool)
        ensures
            r == has_file_id(self.files(), id@),
    {
        let n = self.files.len();
        let mut i: usize = 0;
        while i < n
            invariant
                n == self.files@.len(),
                0 <= i <= n,
                forall|j: int| 0 <= j < i ==> (#[trigger] self.files@[j].id)@ != id@,
            decreases n - i,
        {
            if self.files[i].id == *id {
                return true;
            }
            i += 1;
        }
        false
    }

    /// The byte total over every file row, trashed rows as well; the
    /// invariant keeps it within `u64`.
    pub fn total_bytes(&self) -> (r: u64)
        requires
            self.wf(),
        ensures
            r == sum_sizes(self.files()),
    {
        let n = self.files.len();
        let mut total: u64 = 0;
        let mut i: usize = 0;
        proof {
            assert(self.files@.take(0) =~= Seq::<FileMetadata>::empty());
        }
        while i < n
            invariant
                self.wf(),
                n == self.files@.len(),
                0 <= i <= n,
                total == sum_sizes(self.files@.take(i as int)),
            decreases n - i,
        {
            proof {
                lemma_sum_sizes_take_succ(self.files@, i as int);
                lemma_sum_sizes_take_le(self.files@, i + 1);
                lemma_sum_sizes_nonneg(self.files@.take(i as int));
            }
            total = total + self.files[i].size;
            i += 1;
        }
        proof {
            assert(self.files@.take(n as int) =~= self.files@);
        }
        total
    }

    /// Inserts a folder row under the given id, at time `now`. The row is
    /// stored exactly when no folder carries the id yet; otherwise the store
    /// is left untouched.
    pub fn create_folder_with_id(
        &mut self,
        id: String,
        name: &String,
        parent_id: Option<String>,
        now: i64,
    ) -> (added: bool)
        requires
            old(self).wf(),
        ensures
            final(self).wf(),
            added == !has_folder_id(old(self).folders(), id@),
            final(self).files() == old(self).files(),
            added ==> final(self).folders() == old(self).folders().push(
                folder_row(id, *name, parent_id, now),
            ),
            !added ==> final(self).folders() == old(self).folders(),
    {
        if self.folder_id_used(&id) {
            return false;
        }
        let row = Folder {
            id,
            parent_id,
            name: name.clone(),
            created_at: now,
            trashed: false,
            trashed_at: None,
            is_starred: false,
        };
        self.folders.push(row);
        proof {
            let s = old(self).folders();
            let t = self.folders@;
            assert forall|i: int, j: int| 0 <= i < j < t.len() implies t[i].id@ != t[j].id@ by {
                if j < s.len() {
                    assert(s[i].id@ != s[j].id@);
                } else {
                    assert(t[j] == folder_row(id, *name, parent_id, now));
                    assert(!has_folder_id(s, id@));
                    assert(s[i].id@ != id@);
                }
            }
        }
        true
    }

    /// Inserts a file row under the given id, at time `now`. The row is
    /// stored exactly when no file carries the id yet and the byte total
    /// still fits; otherwise the store is left untouched.
    pub fn add_file_with_id(
        &mut self,
        id: String,
        folder_id: Option<String>,
        name: &String,
        size: u64,
        mime_type: &String,
        message_id: i32,
        now: i64,
    ) -> (added: bool)
        requires
            old(self).wf(),
        ensures
            final(self).wf(),
            added == (!has_file_id(old(self).files(), id@) && sum_sizes(old(self).files()) + size
                <= u64::MAX),
            final(self).folders() == old(self).folders(),
            added ==> final(self).files() == old(self).files().push(
                file_row(id, folder_id, *name, size, *mime_type, message_id, now),
            ),
            !added ==> final(self).files() == old(self).files(),
    {
        if self.file_id_used(&id) {
            return false;
        }
        let total = self.total_bytes();
        if size > u64::MAX - total {
            return false;
        }
        let row = FileMetadata {
            id,
            folder_id,
            name: name.clone(),
            size,
            mime_type: mime_type.clone(),
            message_id,
            created_at: now,
            trashed: false,
            trashed_at: None,
            is_starred: false,
        };
        self.files.push(row);
        proof {
            let s = old(self).files();
            let t = self.files@;
            lemma_sum_sizes_push(s, t[t.len() - 1]);
            assert forall|i: int, j: int| 0 <= i < j < t.len() implies t[i].id@ != t[j].id@ by {
                if j < s.len() {
                    assert(s[i].id@ != s[j].id@);
                } else {
                    assert(!has_file_id(s, id@));
                    assert(s[i].id@ != id@);
                }
            }
        }
        true
    }

    /// Creates a folder: draws a fresh id, stamps it with `now`, stores the
    /// row and hands the id back. The freshly drawn id is random; in the
    /// vanishingly rare event that it is already in use, nothing is stored
    /// and `None` comes back. Only a collision can refuse, and every drawn
    /// id is 36 characters long, so a store holding no id of that length —
    /// the empty store above all — is never refused.
    pub fn create_folder(&mut self, name: &String, parent_id: Option<String>, now: i64) -> (r:
        Option<String>)
        requires
            old(self).wf(),
        ensures
            final(self).wf(),
            final(self).files() == old(self).files(),
            match r {
                Some(id) => !has_folder_id(old(self).folders(), id@) && final(self).folders()
                    == old(self).folders().push(folder_row(id, *name, parent_id, now)),
                None => final(self).folders() == old(self).folders(),
            },
            r is None ==> exists|i: int|
                0 <= i < old(self).folders().len() && (#[trigger] old(self).folders()[i].id)@.len()
                    == 36,
    {
        let id = fresh_id();
        let handed_back = id.clone();
        if self.create_folder_with_id(id, name, parent_id, now) {
            Some(handed_back)
        } else {
            proof {
                let s = old(self).folders();
                assert(has_folder_id(s, handed_back@));
                let i = choose|i: int| 0 <= i < s.len() && (#[trigger] s[i].id)@ == handed_back@;
                assert(s[i].id@.len() == 36);
            }
            None
        }
    }

    /// Registers a file: draws a fresh id, stamps it with `now`, stores the
    /// row and hands it back. `None` comes back without storing anything
    /// only when the drawn id is already in use — which takes a stored id of
    /// the drawn 36-character length — or the byte total would no longer
    /// fit in `u64`.
    pub fn add_file(
        &mut self,
        folder_id: Option<String>,
        name: &String,
        size: u64,
        mime_type: &String,
        message_id: i32,
        now: i64,
    ) -> (r: Option<FileMetadata>)
        requires
            old(self).wf(),
        ensures
            final(self).wf(),
            final(self).folders() == old(self).folders(),
            match r {
                Some(row) => !has_file_id(old(self).files(), row.id@) && sum_sizes(
                    old(self).files(),
                ) + size <= u64::MAX && row == file_row(
                    row.id,
                    folder_id,
                    *name,
                    size,
                    *mime_type,
                    message_id,
                    now,
                ) && final(self).files() == old(self).files().push(row),
                None => final(self).files() == old(self).files(),
            },
            r is None ==> (exists|i: int|
                0 <= i < old(self).files().len() && (#[trigger] old(self).files()[i].id)@.len()
                    == 36) || sum_sizes(old(self).files()) + size > u64::MAX,
    {
        let id = fresh_id();
        let row_id = id.clone();
        let folder_ref = clone_opt_string(&folder_id);
        if self.add_file_with_id(id, folder_id, name, size, mime_type, message_id, now) {
            let row = FileMetadata {
                id: row_id,
                folder_id: folder_ref,
                name: name.clone(),
                size,
                mime_type: mime_type.clone(),
                message_id,
                created_at: now,
                trashed: false,
                trashed_at: None,
                is_starred: false,
            };
            Some(row)
        } else {
            proof {
                let s = old(self).files();
                if sum_sizes(s) + size <= u64::MAX {
                    assert(has_file_id(s, row_id@));
                    let i = choose|i: int|
                        0 <= i < s.len() && (#[trigger] s[i].id)@ == row_id@;
                    assert(s[i].id@.len() == 36);
                }
            }
            None
        }
    }

    /// Soft delete: marks the matching entity as trashed and stamps it with
    /// `now`. A folder's children are not marked; they merely stop being
    /// reachable through listings once their parent is hidden. An unknown id
    /// leaves the store as it was.
    pub fn trash_item(&mut self, id: &String, is_folder: bool, now: i64)
        requires
            old(self).wf(),
        ensures
            final(self).wf(),
            is_folder ==> final(self).folders() == folders_trashed_at(
                old(self).folders(),
                id@,
                now,
            ) && final(self).files() == old(self).files(),
            !is_folder ==> final(self).files() == files_trashed_at(old(self).files(), id@, now)
                && final(self).folders() == old(self).folders(),
    {
        if is_folder {
            let ghost s = self.folders@;
            let ghost t = folders_trashed_at(s, id@, now);
            let n = self.folders.len();
            let mut i: usize = 0;
            while i < n
                invariant
                    self == old(self),
                    n == self.folders@.len(),
                    0 <= i <= n,
                    forall|j: int| 0 <= j < i ==> (#[trigger] self.folders@[j].id)@ != id@,
                decreases n - i,
            {
                if self.folders[i].id == *id {
                    let mut row = self.folders[i].clone();
                    row.trashed = true;
                    row.trashed_at = Some(now);
                    self.folders.set(i, row);
                    proof {
                        assert forall|k: int| 0 <= k < s.len() implies self.folders@[k] == t[k] by {
                            if k != i {
                                assert(s[i as int].id@ == id@);
                                if k < i {
                                    assert(s[k].id@ != s[i as int].id@);
                                } else {
                                    assert(s[i as int].id@ != s[k].id@);
                                }
                            }
                        }
                        assert(self.folders@ =~= t);
                    }
                    return ;
                }
                i += 1;
            }
            proof {
                assert forall|k: int| 0 <= k < s.len() implies t[k] == s[k] by {
                    assert(s[k].id@ != id@);
                }
                assert(self.folders@ =~= t);
            }
        } else {
            let ghost s = self.files@;
            let ghost t = files_trashed_at(s, id@, now);
            let n = self.files.len();
            let mut i: usize = 0;
            while i < n
                invariant
                    self == old(self),
                    n == self.files@.len(),
                    0 <= i <= n,
                    forall|j: int| 0 <= j < i ==> (#[trigger] self.files@[j].id)@ != id@,
                decreases n - i,
            {
                if self.files[i].id == *id {
                    let mut row = self.files[i].clone();
                    row.trashed = true;
                    row.trashed_at = Some(now);
                    self.files.set(i, row);
                    proof {
                        assert forall|k: int| 0 <= k < s.len() implies self.files@[k] == t[k] by {
                            if k != i {
                                assert(s[i as int].id@ == id@);
                                if k < i {
                                    assert(s[k].id@ != s[i as int].id@);
                                } else {
                                    assert(s[i as int].id@ != s[k].id@);
                                }
                            }
                        }
                        assert(self.files@ =~= t);
                        lemma_sum_sizes_pointwise(s, t);
                    }
                    return ;
                }
                i += 1;
            }
            proof {
                assert forall|k: int| 0 <= k < s.len() implies t[k] == s[k] by {
                    assert(s[k].id@ != id@);
                }
                assert(self.files@ =~= t);
            }
        }
    }

    /// Takes the matching entity out of the trash and clears its trash
    /// timestamp. The star is untouched. An unknown id leaves the store as
    /// it was.
    pub fn restore_item(&mut self, id: &String, is_folder: bool)
        requires
            old(self).wf(),
        ensures
            final(self).wf(),
            is_folder ==> final(self).folders() == folders_restored(old(self).folders(), id@)
                && final(self).files() == old(self).files(),
            !is_folder ==> final(self).files() == files_restored(old(self).files(), id@)
                && final(self).folders() == old(self).folders(),
    {
        if is_folder {
            let ghost s = self.folders@;
            let ghost t = folders_restored(s, id@);
            let n = self.folders.len();
            let mut i: usize = 0;
            while i < n
                invariant
                    self == old(self),
                    n == self.folders@.len(),
                    0 <= i <= n,
                    forall|j: int| 0 <= j < i ==> (#[trigger] self.folders@[j].id)@ != id@,
                decreases n - i,
            {
                if self.folders[i].id == *id {
                    let mut row = self.folders[i].clone();
                    row.trashed = false;
                    row.trashed_at = None;
                    self.folders.set(i, row);
                    proof {
                        assert forall|k: int| 0 <= k < s.len() implies self.folders@[k] == t[k] by {
                            if k != i {
                                assert(s[i as int].id@ == id@);
                                if k < i {
                                    assert(s[k].id@ != s[i as int].id@);
                                } else {
                                    assert(s[i as int].id@ != s[k].id@);
                                }
                            }
                        }
                        assert(self.folders@ =~= t);
                    }
                    return ;
                }
                i += 1;
            }
            proof {
                assert forall|k: int| 0 <= k < s.len() implies t[k] == s[k] by {
                    assert(s[k].id@ != id@);
                }
                assert(self.folders@ =~= t);
            }
        } else {
            let ghost s = self.files@;
            let ghost t = files_restored(s, id@);
            let n = self.files.len();
            let mut i: usize = 0;
            while i < n
                invariant
                    self == old(self),
                    n == self.files@.len(),
                    0 <= i <= n,
                    forall|j: int| 0 <= j < i ==> (#[trigger] self.files@[j].id)@ != id@,
                decreases n - i,
            {
                if self.files[i].id == *id {
                    let mut row = self.files[i].clone();
                    row.trashed = false;
                    row.trashed_at = None;
                    self.files.set(i, row);
                    proof {
                        assert forall|k: int| 0 <= k < s.len() implies self.files@[k] == t[k] by {
                            if k != i {
                                assert(s[i as int].id@ == id@);
                                if k < i {
                                    assert(s[k].id@ != s[i as int].id@);
                                } else {
                                    assert(s[i as int].id@ != s[k].id@);
                                }
                            }
                        }
                        assert(self.files@ =~= t);
                        lemma_sum_sizes_pointwise(s, t);
                    }
                    return ;
                }
                i += 1;
            }
            proof {
                assert forall|k: int| 0 <= k < s.len() implies t[k] == s[k] by {
                    assert(s[k].id@ != id@);
                }
                assert(self.files@ =~= t);
            }
        }
    }

    /// Flips the star on the matching entity; reports whether it exists.
    /// The trash state is untouched.
    pub fn toggle_star(&mut self, id: &String, is_folder: bool) -> (found: bool)
        requires
            old(self).wf(),
        ensures
            final(self).wf(),
            is_folder ==> found == has_folder_id(old(self).folders(), id@)
                && final(self).folders() == folders_star_flipped(old(self).folders(), id@)
                && final(self).files() == old(self).files(),
            !is_folder ==> found == has_file_id(old(self).files(), id@)
                && final(self).files() == files_star_flipped(old(self).files(), id@)
                && final(self).folders() == old(self).folders(),
    {
        if is_folder {
            let ghost s = self.folders@;
            let ghost t = folders_star_flipped(s, id@);
            let n = self.folders.len();
            let mut i: usize = 0;
            while i < n
                invariant
                    self == old(self),
                    n == self.folders@.len(),
                    0 <= i <= n,
                    forall|j: int| 0 <= j < i ==> (#[trigger] self.folders@[j].id)@ != id@,
                decreases n - i,
            {
                if self.folders[i].id == *id {
                    let mut row = self.folders[i].clone();
                    row.is_starred = !row.is_starred;
                    self.folders.set(i, row);
                    proof {
                        assert forall|k: int| 0 <= k < s.len() implies self.folders@[k] == t[k] by {
                            if k != i {
                                assert(s[i as int].id@ == id@);
                                if k < i {
                                    assert(s[k].id@ != s[i as int].id@);
                                } else {
                                    assert(s[i as int].id@ != s[k].id@);
                                }
                            }
                        }
                        assert(self.folders@ =~= t);
                    }
                    return true;
                }
                i += 1;
            }
            proof {
                assert forall|k: int| 0 <= k < s.len() implies t[k] == s[k] by {
                    assert(s[k].id@ != id@);
                }
                assert(self.folders@ =~= t);
            }
            false
        } else {
            let ghost s = self.files@;
            let ghost t = files_star_flipped(s, id@);
            let n = self.files.len();
            let mut i: usize = 0;
            while i < n
                invariant
                    self == old(self),
                    n == self.files@.len(),
                    0 <= i <= n,
                    forall|j: int| 0 <= j < i ==> (#[trigger] self.files@[j].id)@ != id@,
                decreases n - i,
            {
                if self.files[i].id == *id {
                    let mut row = self.files[i].clone();
                    row.is_starred = !row.is_starred;
                    self.files.set(i, row);
                    proof {
                        assert forall|k: int| 0 <= k < s.len() implies self.files@[k] == t[k] by {
                            if k != i {
                                assert(s[i as int].id@ == id@);
                                if k < i {
                                    assert(s[k].id@ != s[i as int].id@);
                                } else {
                                    assert(s[i as int].id@ != s[k].id@);
                                }
                            }
                        }
                        assert(self.files@ =~= t);
                        lemma_sum_sizes_pointwise(s, t);
                    }
                    return true;
                }
                i += 1;
            }
            proof {
                assert forall|k: int| 0 <= k < s.len() implies t[k] == s[k] by {
                    assert(s[k].id@ != id@);
                }
                assert(self.files@ =~= t);
            }
            false
        }
    }

    /// Renames the matching file; reports whether it exists.
    pub fn rename_file(&mut self, id: &String, new_name: &String) -> (found: bool)
        requires
            old(self).wf(),
        ensures
            final(self).wf(),
            found == has_file_id(old(self).files(), id@),
            final(self).files() == files_renamed(old(self).files(), id@, *new_name),
            final(self).folders() == old(self).folders(),
    {
        let ghost s = self.files@;
        let ghost t = files_renamed(s, id@, *new_name);
        let n = self.files.len();
        let mut i: usize = 0;
        while i < n
            invariant
                self == old(self),
                n == self.files@.len(),
                0 <= i <= n,
                forall|j: int| 0 <= j < i ==> (#[trigger] self.files@[j].id)@ != id@,
            decreases n - i,
        {
            if self.files[i].id == *id {
                let mut row = self.files[i].clone();
                row.name = new_name.clone();
                self.files.set(i, row);
                proof {
                    assert forall|k: int| 0 <= k < s.len() implies self.files@[k] == t[k] by {
                        if k != i {
                            assert(s[i as int].id@ == id@);
                            if k < i {
                                assert(s[k].id@ != s[i as int].id@);
                            } else {
                                assert(s[i as int].id@ != s[k].id@);
                            }
                        }
                    }
                    assert(self.files@ =~= t);
                    lemma_sum_sizes_pointwise(s, t);
                }
                return true;
            }
            i += 1;
        }
        proof {
            assert forall|k: int| 0 <= k < s.len() implies t[k] == s[k] by {
                assert(s[k].id@ != id@);
            }
            assert(self.files@ =~= t);
        }
        false
    }

    /// Renames the matching folder; reports whether it exists.
    pub fn rename_folder(&mut self, id: &String, new_name: &String) -> (found: bool)
        requires
            old(self).wf(),
        ensures
            final(self).wf(),
            found == has_folder_id(old(self).folders(), id@),
            final(self).folders() == folders_renamed(old(self).folders(), id@, *new_name),
            final(self).files() == old(self).files(),
    {
        let ghost s = self.folders@;
        let ghost t = folders_renamed(s, id@, *new_name);
        let n = self.folders.len();
        let mut i: usize = 0;
        while i < n
            invariant
                self == old(self),
                n == self.folders@.len(),
                0 <= i <= n,
                forall|j: int| 0 <= j < i ==> (#[trigger] self.folders@[j].id)@ != id@,
            decreases n - i,
        {
            if self.folders[i].id == *id {
                let mut row = self.folders[i].clone();
                row.name = new_name.clone();
                self.folders.set(i, row);
                proof {
                    assert forall|k: int| 0 <= k < s.len() implies self.folders@[k] == t[k] by {
                        if k != i {
                            assert(s[i as int].id@ == id@);
                            if k < i {
                                assert(s[k].id@ != s[i as int].id@);
                            } else {
                                assert(s[i as int].id@ != s[k].id@);
                            }
                        }
                    }
                    assert(self.folders@ =~= t);
                }
                return true;
            }
            i += 1;
        }
        proof {
            assert forall|k: int| 0 <= k < s.len() implies t[k] == s[k] by {
                assert(s[k].id@ != id@);
            }
            assert(self.folders@ =~= t);
        }
        false
    }

    /// Looks a file up by id.
    pub fn get_file(&self, id: &String) -> (r: Option<FileMetadata>)
        requires
            self.wf(),
        ensures
            match r {
                Some(f) => f.id@ == id@ && self.files().contains(f),
                None => !has_file_id(self.files(), id@),
            },
    {
        let n = self.files.len();
        let mut i: usize = 0;
        while i < n
            invariant
                n == self.files@.len(),
                0 <= i <= n,
                forall|j: int| 0 <= j < i ==> (#[trigger] self.files@[j].id)@ != id@,
            decreases n - i,
        {
            if self.files[i].id == *id {
                let row = self.files[i].clone();
                proof {
                    assert(self.files@.contains(self.files@[i as int]));
                }
                return Some(row);
            }
            i += 1;
        }
        None
    }
    /// Lists the non-trashed folders and files that sit directly under
    /// `folder_id` (`None` for the root), in store order: exactly those and
    /// nothing else.
    pub fn list_contents(&self, folder_id: Option<String>) -> (r: (Vec<Folder>, Vec<
        FileMetadata,
    >))
        requires
            self.wf(),
        ensures
            r.0@ == self.folders().filter(folder_listed_in(folder_id)),
            r.1@ == self.files().filter(file_listed_in(folder_id)),
    {
        let ghost pf = folder_listed_in(folder_id);
        let ghost pg = file_listed_in(folder_id);
        let mut out_folders: Vec<Folder> = Vec::new();
        let n = self.folders.len();
        let mut i: usize = 0;
        proof {
            reveal(Seq::filter);
            assert(self.folders@.take(0).filter(pf) =~= out_folders@);
        }
        while i < n
            invariant
                0 <= i <= n,
                out_folders@ == self.folders@.take(i as int).filter(pf),
            decreases n - i,
        {
            proof {
                assert(self.folders@.take(i as int + 1) =~= self.folders@.take(i as int).push(
                    self.folders@[i as int],
                ));
                self.folders@.take(i as int).lemma_filter_push(self.folders@[i as int], pf);
            }
            let f = &self.folders[i];
            if !f.trashed && opt_id_eq(&f.parent_id, &folder_id) {
                out_folders.push(f.clone());
            }
            i += 1;
        }
        let mut out_files: Vec<FileMetadata> = Vec::new();
        let m = self.files.len();
        let mut j: usize = 0;
        proof {
            reveal(Seq::filter);
            assert(self.files@.take(0).filter(pg) =~= out_files@);
            assert(self.folders@.take(n as int) =~= self.folders@);
        }
        while j < m
            invariant
                0 <= j <= m,
                out_files@ == self.files@.take(j as int).filter(pg),
            decreases m - j,
        {
            proof {
                assert(self.files@.take(j as int + 1) =~= self.files@.take(j as int).push(
                    self.files@[j as int],
                ));
                self.files@.take(j as int).lemma_filter_push(self.files@[j as int], pg);
            }
            let f = &self.files[j];
            if !f.trashed && opt_id_eq(&f.folder_id, &folder_id) {
                out_files.push(f.clone());
            }
            j += 1;
        }
        proof {
            assert(self.files@.take(m as int) =~= self.files@);
        }
        (out_folders, out_files)
    }

    /// Lists every trashed folder and file across the whole tree, in store
    /// order.
    pub fn list_trash(&self) -> (r: (Vec<Folder>, Vec<FileMetadata>))
        requires
            self.wf(),
        ensures
            r.0@ == self.folders().filter(folder_trashed()),
            r.1@ == self.files().filter(file_trashed()),
    {
        let ghost pf = folder_trashed();
        let ghost pg = file_trashed();
        let mut out_folders: Vec<Folder> = Vec::new();
        let n = self.folders.len();
        let mut i: usize = 0;
        proof {
            reveal(Seq::filter);
            assert(self.folders@.take(0).filter(pf) =~= out_folders@);
        }
        while i < n
            invariant
                0 <= i <= n,
                out_folders@ == self.folders@.take(i as int).filter(pf),
            decreases n - i,
        {
            proof {
                assert(self.folders@.take(i as int + 1) =~= self.folders@.take(i as int).push(
                    self.folders@[i as int],
                ));
                self.folders@.take(i as int).lemma_filter_push(self.folders@[i as int], pf);
            }
            let f = &self.folders[i];
            if f.trashed {
                out_folders.push(f.clone());
            }
            i += 1;
        }
        let mut out_files: Vec<FileMetadata> = Vec::new();
        let m = self.files.len();
        let mut j: usize = 0;
        proof {
            reveal(Seq::filter);
            assert(self.files@.take(0).filter(pg) =~= out_files@);
            assert(self.folders@.take(n as int) =~= self.folders@);
        }
        while j < m
            invariant
                0 <= j <= m,
                out_files@ == self.files@.take(j as int).filter(pg),
            decreases m - j,
        {
            proof {
                assert(self.files@.take(j as int + 1) =~= self.files@.take(j as int).push(
                    self.files@[j as int],
                ));
                self.files@.take(j as int).lemma_filter_push(self.files@[j as int], pg);
            }
            let f = &self.files[j];
            if f.trashed {
                out_files.push(f.clone());
            }
            j += 1;
        }
        proof {
            assert(self.files@.take(m as int) =~= self.files@);
        }
        (out_folders, out_files)
    }

    /// Lists every starred, non-trashed folder and file, in store order.
    pub fn get_starred(&self) -> (r: (Vec<Folder>, Vec<FileMetadata>))
        requires
            self.wf(),
        ensures
            r.0@ == self.folders().filter(folder_starred()),
            r.1@ == self.files().filter(file_starred()),
    {
        let ghost pf = folder_starred();
        let ghost pg = file_starred();
        let mut out_folders: Vec<Folder> = Vec::new();
        let n = self.folders.len();
        let mut i: usize = 0;
        proof {
            reveal(Seq::filter);
            assert(self.folders@.take(0).filter(pf) =~= out_folders@);
        }
        while i < n
            invariant
                0 <= i <= n,
                out_folders@ == self.folders@.take(i as int).filter(pf),
            decreases n - i,
        {
            proof {
                assert(self.folders@.take(i as int + 1) =~= self.folders@.take(i as int).push(
                    self.folders@[i as int],
                ));
                self.folders@.take(i as int).lemma_filter_push(self.folders@[i as int], pf);
            }
            let f = &self.folders[i];
            if f.is_starred && !f.trashed {
                out_folders.push(f.clone());
            }
            i += 1;
        }
        let mut out_files: Vec<FileMetadata> = Vec::new();
        let m = self.files.len();
        let mut j: usize = 0;
        proof {
            reveal(Seq::filter);
            assert(self.files@.take(0).filter(pg) =~= out_files@);
            assert(self.folders@.take(n as int) =~= self.folders@);
        }
        while j < m
            invariant
                0 <= j <= m,
                out_files@ == self.files@.take(j as int).filter(pg),
            decreases m - j,
        {
            proof {
                assert(self.files@.take(j as int + 1) =~= self.files@.take(j as int).push(
                    self.files@[j as int],
                ));
                self.files@.take(j as int).lemma_filter_push(self.files@[j as int], pg);
            }
            let f = &self.files[j];
            if f.is_starred && !f.trashed {
                out_files.push(f.clone());
            }
            j += 1;
        }
        proof {
            assert(self.files@.take(m as int) =~= self.files@);
        }
        (out_folders, out_files)
    }

    /// The byte total over the files that are not in the trash.
    pub fn get_total_usage(&self) -> (r: u64)
        requires
            self.wf(),
        ensures
            r == usage_of(self.files()),
    {
        let n = self.files.len();
        let mut total: u64 = 0;
        let mut i: usize = 0;
        proof {
            assert(self.files@.take(0) =~= Seq::<FileMetadata>::empty());
        }
        while i < n
            invariant
                0 <= i <= n,
                total == usage_of(self.files@.take(i as int)),
            decreases n - i,
        {
            proof {
                lemma_usage_take_succ(self.files@, i as int);
                lemma_usage_le_sum(self.files@.take(i as int + 1));
                lemma_sum_sizes_take_le(self.files@, i as int + 1);
                lemma_usage_nonneg(self.files@.take(i as int));
            }
            if !self.files[i].trashed {
                total = total + self.files[i].size;
            }
            i += 1;
        }
        proof {
            assert(self.files@.take(n as int) =~= self.files@);
        }
        total
    }

    /// Hard delete of a file row; reports whether it existed.
    pub fn delete_file(&mut self, id: &String) -> (deleted: bool)
        requires
            old(self).wf(),
        ensures
            final(self).wf(),
            deleted == has_file_id(old(self).files(), id@),
            final(self).files() == old(self).files().filter(file_keeps_id(id@)),
            final(self).folders() == old(self).folders(),
    {
        let ghost s = self.files@;
        let ghost pred = file_keeps_id(id@);
        let mut kept: Vec<FileMetadata> = Vec::new();
        let mut found = false;
        let n = self.files.len();
        let mut i: usize = 0;
        proof {
            reveal(Seq::filter);
            assert(s.take(0).filter(pred) =~= kept@);
        }
        while i < n
            invariant
                0 <= i <= n,
                kept@ == s.take(i as int).filter(pred),
                found == has_file_id(s.take(i as int), id@),
            decreases n - i,
        {
            proof {
                assert(s.take(i as int + 1) =~= s.take(i as int).push(s[i as int]));
                s.take(i as int).lemma_filter_push(s[i as int], pred);
            }
            let f = &self.files[i];
            if f.id == *id {
                found = true;
                proof {
                    assert(s.take(i as int + 1)[i as int].id@ == id@);
                }
            } else {
                kept.push(f.clone());
                proof {
                    assert forall|k: int| 0 <= k < i as int + 1 implies (#[trigger] s.take(
                        i as int + 1,
                    )[k].id)@ == s[k].id@ by {}
                }
            }
            i += 1;
        }
        proof {
            assert(s.take(n as int) =~= s);
            lemma_files_wf_filter(s, pred);
            lemma_sum_sizes_filter_le(s, pred);
        }
        self.files = kept;
        found
    }

    /// Hard delete of a folder row together with its direct child files;
    /// hands back the removed file rows so the caller can ask the remote
    /// service to drop their blobs. Subfolders stay, their parent reference
    /// left dangling: the cascade is deliberately one level deep.
    pub fn delete_folder(&mut self, id: &String) -> (removed: Vec<FileMetadata>)
        requires
            old(self).wf(),
        ensures
            final(self).wf(),
            final(self).folders() == old(self).folders().filter(folder_keeps_id(id@)),
            final(self).files() == old(self).files().filter(file_not_child_of(id@)),
            removed@ == old(self).files().filter(file_child_of(id@)),
    {
        let ghost s = self.files@;
        let ghost keep = file_not_child_of(id@);
        let ghost gone = file_child_of(id@);
        let some_id = Some(id.clone());
        let mut kept: Vec<FileMetadata> = Vec::new();
        let mut removed: Vec<FileMetadata> = Vec::new();
        let n = self.files.len();
        let mut i: usize = 0;
        proof {
            reveal(Seq::filter);
            assert(s.take(0).filter(keep) =~= kept@);
            assert(s.take(0).filter(gone) =~= removed@);
        }
        while i < n
            invariant
                0 <= i <= n,
                kept@ == s.take(i as int).filter(keep),
                removed@ == s.take(i as int).filter(gone),
            decreases n - i,
        {
            proof {
                assert(s.take(i as int + 1) =~= s.take(i as int).push(s[i as int]));
                s.take(i as int).lemma_filter_push(s[i as int], keep);
                s.take(i as int).lemma_filter_push(s[i as int], gone);
            }
            let f = &self.files[i];
            if opt_id_eq(&f.folder_id, &some_id) {
                removed.push(f.clone());
            } else {
                kept.push(f.clone());
            }
            i += 1;
        }
        proof {
            assert(s.take(n as int) =~= s);
            lemma_files_wf_filter(s, keep);
            lemma_sum_sizes_filter_le(s, keep);
        }
        self.files = kept;
        let ghost t = self.folders@;
        let ghost fkeep = folder_keeps_id(id@);
        let mut folders_kept: Vec<Folder> = Vec::new();
        let m = self.folders.len();
        let mut j: usize = 0;
        proof {
            reveal(Seq::filter);
            assert(t.take(0).filter(fkeep) =~= folders_kept@);
        }
        while j < m
            invariant
                0 <= j <= m,
                folders_kept@ == t.take(j as int).filter(fkeep),
            decreases m - j,
        {
            proof {
                assert(t.take(j as int + 1) =~= t.take(j as int).push(t[j as int]));
                t.take(j as int).lemma_filter_push(t[j as int], fkeep);
            }
            let f = &self.folders[j];
            if !(f.id == *id) {
                folders_kept.push(f.clone());
            }
            j += 1;
        }
        proof {
            assert(t.take(m as int) =~= t);
            lemma_folders_wf_filter(t, fkeep);
        }
        self.folders = folders_kept;
        removed
    }
    /// Whether `f` sits directly inside some folder that a sweep with
    /// cutoff `limit` would purge.
    fn file_in_expired_folder(&self, f: &FileMetadata, limit: i64) -> (r: bool)
        ensures
            r == in_expired_folder(self.folders(), *f, limit as int),
    {
        let n = self.folders.len();
        let mut i: usize = 0;
        while i < n
            invariant
                0 <= i <= n,
                forall|j: int|
                    0 <= j < i ==> !((folder_expired(limit as int))(#[trigger] self.folders@[j])
                        && opt_id_view(f.folder_id) == Some(self.folders@[j].id@)),
            decreases n - i,
        {
            let g = &self.folders[i];
            let expired = g.trashed && (match g.trashed_at {
                Some(t) => t,
                None => 0,
            }) < limit;
            if expired {
                let same = match &f.folder_id {
                    Some(fid) => *fid == g.id,
                    None => false,
                };
                if same {
                    return true;
                }
            }
            i += 1;
        }
        false
    }

    /// Age-based trash sweep: permanently removes every folder and file
    /// whose trash timestamp lies before `now - days * 86400`, and, for each
    /// purged folder, its direct child files as well (one level only, as in
    /// the hard folder delete). Hands back every removed file row so the
    /// caller can ask the remote service to drop the blobs.
    pub fn cleanup_trash(&mut self, days: i64, now: i64) -> (removed: Vec<FileMetadata>)
        requires
            old(self).wf(),
            0 <= days,
            0 <= now,
            days * 86400 <= i64::MAX,
        ensures
            final(self).wf(),
            final(self).folders() == old(self).folders().filter(
                folder_unexpired(now - days * 86400),
            ),
            final(self).files() == old(self).files().filter(
                file_kept_by_sweep(old(self).folders(), now - days * 86400),
            ),
            removed@ == old(self).files().filter(
                file_swept(old(self).folders(), now - days * 86400),
            ),
    {
        let limit: i64 = now - days * 86400;
        let ghost s = self.files@;
        let ghost keep = file_kept_by_sweep(self.folders@, limit as int);
        let ghost gone = file_swept(self.folders@, limit as int);
        let mut kept: Vec<FileMetadata> = Vec::new();
        let mut removed: Vec<FileMetadata> = Vec::new();
        let n = self.files.len();
        let mut i: usize = 0;
        proof {
            reveal(Seq::filter);
            assert(s.take(0).filter(keep) =~= kept@);
            assert(s.take(0).filter(gone) =~= removed@);
        }
        while i < n
            invariant
                0 <= i <= n,
                kept@ == s.take(i as int).filter(keep),
                removed@ == s.take(i as int).filter(gone),
            decreases n - i,
        {
            proof {
                assert(s.take(i as int + 1) =~= s.take(i as int).push(s[i as int]));
                s.take(i as int).lemma_filter_push(s[i as int], keep);
                s.take(i as int).lemma_filter_push(s[i as int], gone);
            }
            let f = &self.files[i];
            let expired = f.trashed && (match f.trashed_at {
                Some(t) => t,
                None => 0,
            }) < limit;
            if expired || self.file_in_expired_folder(f, limit) {
                removed.push(f.clone());
            } else {
                kept.push(f.clone());
            }
            i += 1;
        }
        proof {
            assert(s.take(n as int) =~= s);
            lemma_files_wf_filter(s, keep);
            lemma_sum_sizes_filter_le(s, keep);
        }
        self.files = kept;
        let ghost t = self.folders@;
        let ghost fkeep = folder_unexpired(limit as int);
        let mut folders_kept: Vec<Folder> = Vec::new();
        let m = self.folders.len();
        let mut j: usize = 0;
        proof {
            reveal(Seq::filter);
            assert(t.take(0).filter(fkeep) =~= folders_kept@);
        }
        while j < m
            invariant
                0 <= j <= m,
                folders_kept@ == t.take(j as int).filter(fkeep),
            decreases m - j,
        {
            proof {
                assert(t.take(j as int + 1) =~= t.take(j as int).push(t[j as int]));
                t.take(j as int).lemma_filter_push(t[j as int], fkeep);
            }
            let g = &self.folders[j];
            let expired = g.trashed && (match g.trashed_at {
                Some(x) => x,
                None => 0,
            }) < limit;
            if !expired {
                folders_kept.push(g.clone());
            }
            j += 1;
        }
        proof {
            assert(t.take(m as int) =~= t);
            lemma_folders_wf_filter(t, fkeep);
        }
        self.folders = folders_kept;
        removed
    }
    /// Searches names by substring, case-sensitively, over everything not
    /// in the trash, in store order.
    pub fn search_items(&self, query: &String) -> (r: (Vec<Folder>, Vec<FileMetadata>))
        requires
            self.wf(),
        ensures
            r.0@ == self.folders().filter(folder_name_matches(query@)),
            r.1@ == self.files().filter(file_name_matches(query@)),
    {
        let ghost pf = folder_name_matches(query@);
        let ghost pg = file_name_matches(query@);
        let mut out_folders: Vec<Folder> = Vec::new();
        let n = self.folders.len();
        let mut i: usize = 0;
        proof {
            reveal(Seq::filter);
            assert(self.folders@.take(0).filter(pf) =~= out_folders@);
        }
        while i < n
            invariant
                0 <= i <= n,
                out_folders@ == self.folders@.take(i as int).filter(pf),
            decreases n - i,
        {
            proof {
                assert(self.folders@.take(i as int + 1) =~= self.folders@.take(i as int).push(
                    self.folders@[i as int],
                ));
                self.folders@.take(i as int).lemma_filter_push(self.folders@[i as int], pf);
            }
            let f = &self.folders[i];
            if !f.trashed && contains_substring(f.name.as_str(), query.as_str()) {
                out_folders.push(f.clone());
            }
            i += 1;
        }
        let mut out_files: Vec<FileMetadata> = Vec::new();
        let m = self.files.len();
        let mut j: usize = 0;
        proof {
            reveal(Seq::filter);
            assert(self.files@.take(0).filter(pg) =~= out_files@);
            assert(self.folders@.take(n as int) =~= self.folders@);
        }
        while j < m
            invariant
                0 <= j <= m,
                out_files@ == self.files@.take(j as int).filter(pg),
            decreases m - j,
        {
            proof {
                assert(self.files@.take(j as int + 1) =~= self.files@.take(j as int).push(
                    self.files@[j as int],
                ));
                self.files@.take(j as int).lemma_filter_push(self.files@[j as int], pg);
            }
            let f = &self.files[j];
            if !f.trashed && contains_substring(f.name.as_str(), query.as_str()) {
                out_files.push(f.clone());
            }
            j += 1;
        }
        proof {
            assert(self.files@.take(m as int) =~= self.files@);
        }
        (out_folders, out_files)
    }

    /// Every row as stored, trashed rows as well: what a persistence layer
    /// writes out.
    pub fn snapshot(&self) -> (r: (Vec<Folder>, Vec<FileMetadata>))
        ensures
            r.0@ == self.folders(),
            r.1@ == self.files(),
    {
        let mut out_folders: Vec<Folder> = Vec::new();
        let n = self.folders.len();
        let mut i: usize = 0;
        while i < n
            invariant
                0 <= i <= n,
                out_folders@ == self.folders@.take(i as int),
            decreases n - i,
        {
            out_folders.push(self.folders[i].clone());
            proof {
                assert(out_folders@ =~= self.folders@.take(i as int + 1));
            }
            i += 1;
        }
        let mut out_files: Vec<FileMetadata> = Vec::new();
        let m = self.files.len();
        let mut j: usize = 0;
        while j < m
            invariant
                0 <= j <= m,
                out_files@ == self.files@.take(j as int),
            decreases m - j,
        {
            out_files.push(self.files[j].clone());
            proof {
                assert(out_files@ =~= self.files@.take(j as int + 1));
            }
            j += 1;
        }
        proof {
            assert(self.folders@.take(n as int) =~= self.folders@);
            assert(self.files@.take(m as int) =~= self.files@);
        }
        (out_folders, out_files)
    }

    /// Rebuilds a store from previously persisted rows. The rows are taken
    /// exactly when they satisfy the store's invariant: distinct ids, trash
    /// timestamps in step with the trash flag, byte total within `u64`.
    /// Anything else is refused, and the caller falls back to an empty
    /// store.
    pub fn load(folders: Vec<Folder>, files: Vec<FileMetadata>) -> (r: Option<Database>)
        ensures
            match r {
                Some(db) => db.wf() && db.folders() == folders@ && db.files() == files@,
                None => !(folders_wf(folders@) && files_wf(files@) && sum_sizes(files@)
                    <= u64::MAX),
            },
    {
        if !folder_ids_distinct(&folders) {
            return None;
        }
        if !folders_consistent(&folders) {
            return None;
        }
        if !file_ids_distinct(&files) {
            return None;
        }
        if !files_consistent(&files) {
            return None;
        }
        if !files_total_fits(&files) {
            return None;
        }
        Some(Database { folders, files })
    }
}

/// Whether no two folder rows share an id.
fn folder_ids_distinct(v: &Vec<Folder>) -> (r: bool)
    ensures
        r == (forall|i: int, j: int| 0 <= i < j < v@.len() ==> v@[i].id@ != v@[j].id@),
{
    let n = v.len();
    let mut i: usize = 0;
    while i < n
        invariant
            0 <= i <= n,
            forall|a: int, b: int| 0 <= a < b < n && a < i ==> v@[a].id@ != v@[b].id@,
        decreases n - i,
    {
        let mut j: usize = i + 1;
        while j < n
            invariant
                i < j <= n,
                forall|b: int| i < b < j ==> v@[i as int].id@ != v@[b].id@,
            decreases n - j,
        {
            if v[i].id == v[j].id {
                return false;
            }
            j += 1;
        }
        i += 1;
    }
    true
}

/// Whether no two file rows share an id.
fn file_ids_distinct(v: &Vec<FileMetadata>) -> (r: bool)
    ensures
        r == (forall|i: int, j: int| 0 <= i < j < v@.len() ==> v@[i].id@ != v@[j].id@),
{
    let n = v.len();
    let mut i: usize = 0;
    while i < n
        invariant
            0 <= i <= n,
            forall|a: int, b: int| 0 <= a < b < n && a < i ==> v@[a].id@ != v@[b].id@,
        decreases n - i,
    {
        let mut j: usize = i + 1;
        while j < n
            invariant
                i < j <= n,
                forall|b: int| i < b < j ==> v@[i as int].id@ != v@[b].id@,
            decreases n - j,
        {
            if v[i].id == v[j].id {
                return false;
            }
            j += 1;
        }
        i += 1;
    }
    true
}

/// Whether every folder row carries its trash timestamp exactly when it is
/// trashed.
fn folders_consistent(v: &Vec<Folder>) -> (r: bool)
    ensures
        r == (forall|i: int|
            0 <= i < v@.len() ==> ((#[trigger] v@[i].trashed_at) is Some <==> v@[i].trashed)),
{
    let n = v.len();
    let mut i: usize = 0;
    while i < n
        invariant
            0 <= i <= n,
            forall|j: int| 0 <= j < i ==> ((#[trigger] v@[j].trashed_at) is Some <==> v@[j].trashed),
        decreases n - i,
    {
        let ok = match v[i].trashed_at {
            Some(_) => v[i].trashed,
            None => !v[i].trashed,
        };
        if !ok {
            return false;
        }
        i += 1;
    }
    true
}

/// Whether every file row carries its trash timestamp exactly when it is
/// trashed.
fn files_consistent(v: &Vec<FileMetadata>) -> (r: bool)
    ensures
        r == (forall|i: int|
            0 <= i < v@.len() ==> ((#[trigger] v@[i].trashed_at) is Some <==> v@[i].trashed)),
{
    let n = v.len();
    let mut i: usize = 0;
    while i < n
        invariant
            0 <= i <= n,
            forall|j: int| 0 <= j < i ==> ((#[trigger] v@[j].trashed_at) is Some <==> v@[j].trashed),
        decreases n - i,
    {
        let ok = match v[i].trashed_at {
            Some(_) => v[i].trashed,
            None => !v[i].trashed,
        };
        if !ok {
            return false;
        }
        i += 1;
    }
    true
}

/// Whether the byte total of the rows fits in `u64`.
fn files_total_fits(v: &Vec<FileMetadata>) -> (r: bool)
    ensures
        r == (sum_sizes(v@) <= u64::MAX),
{
    let n = v.len();
    let mut total: u64 = 0;
    let mut i: usize = 0;
    proof {
        assert(v@.take(0) =~= Seq::<FileMetadata>::empty());
    }
    while i < n
        invariant
            0 <= i <= n,
            total == sum_sizes(v@.take(i as int)),
        decreases n - i,
    {
        proof {
            lemma_sum_sizes_take_succ(v@, i as int);
            lemma_sum_sizes_nonneg(v@.take(i as int));
        }
        if v[i].size > u64::MAX - total {
            proof {
                lemma_sum_sizes_take_le(v@, i as int + 1);
            }
            return false;
        }
        total = total + v[i].size;
        i += 1;
    }
    proof {
        assert(v@.take(n as int) =~= v@);
    }
    true
}

/// Whether two optional ids name the same thing: both absent, or both
/// present with equal text.
fn opt_id_eq(a: &Option<String>, b: &Option<String>) -> (r: bool)
    ensures
        r == (opt_id_view(*a) == opt_id_view(*b)),
{
    match (a, b) {
        (Some(x), Some(y)) => *x == *y,
        (None, None) => true,
        _ => false,
    }
}

/// A clone of an optional id, equal to the one given.
fn clone_opt_string(o: &Option<String>) -> (r: Option<String>)
    ensures
        r == *o,
{
    match o {
        Some(s) => Some(s.clone()),
        None => None,
    }
}

/// The files that usage accounting counts: everything not in the trash.
pub open spec fn file_untrashed() -> spec_fn(FileMetadata) -> bool {
    |f: FileMetadata| !f.trashed
}

/// The usage total is exactly the byte total of the non-trashed files.
pub proof fn lemma_usage_is_untrashed_sum(s: Seq<FileMetadata>)
    ensures
        usage_of(s) == sum_sizes(s.filter(file_untrashed())),
    decreases s.len(),
{
    reveal(Seq::filter);
    if s.len() > 0 {
        let dl = s.drop_last();
        lemma_usage_is_untrashed_sum(dl);
        if !s.last().trashed {
            lemma_sum_sizes_push(dl.filter(file_untrashed()), s.last());
        }
    }
}

/// When no file carries `id`, selecting by that id selects nothing.
pub proof fn lemma_filter_id_empty(s: Seq<FileMetadata>, id: Seq<char>)
    requires
        !has_file_id(s, id),
    ensures
        s.filter(file_has_id(id)) == Seq::<FileMetadata>::empty(),
    decreases s.len(),
{
    reveal(Seq::filter);
    if s.len() > 0 {
        let dl = s.drop_last();
        assert(!has_file_id(dl, id)) by {
            assert forall|i: int| 0 <= i < dl.len() implies (#[trigger] dl[i].id)@ != id by {
                assert(s[i].id@ != id);
            }
        }
        lemma_filter_id_empty(dl, id);
        assert(s.last().id@ != id) by {
            assert(s[s.len() - 1].id@ != id);
        }
    }
}

/// With distinct ids, selecting by the id of the row at position `k`
/// selects exactly that one row.
pub proof fn lemma_filter_id_singleton(s: Seq<FileMetadata>, k: int, id: Seq<char>)
    requires
        files_wf(s),
        0 <= k < s.len(),
        s[k].id@ == id,
    ensures
        s.filter(file_has_id(id)) == seq![s[k]],
    decreases s.len(),
{
    reveal(Seq::filter);
    let dl = s.drop_last();
    if k == s.len() - 1 {
        assert(!has_file_id(dl, id)) by {
            assert forall|i: int| 0 <= i < dl.len() implies (#[trigger] dl[i].id)@ != id by {
                assert(s[i].id@ != s[k].id@);
            }
        }
        lemma_filter_id_empty(dl, id);
        assert(s.filter(file_has_id(id)) =~= seq![s[k]]);
    } else {
        assert(files_wf(dl));
        lemma_filter_id_singleton(dl, k, id);
        assert(s.last().id@ != id) by {
            assert(s[k].id@ != s[s.len() - 1].id@);
        }
    }
}

/// Trashing a folder that is not yet in the trash and then restoring it
/// hands the folder rows back exactly as they were: the trash flag and
/// timestamp return to their pre-trash state, and the star, name and every
/// other field are untouched. (A row that is already trashed loses its old
/// timestamp to the re-trash, so such rows are left out here.)
pub proof fn lemma_trash_then_restore_folders(s: Seq<Folder>, id: Seq<char>, now: i64)
    requires
        folders_wf(s),
        forall|i: int| 0 <= i < s.len() && (#[trigger] s[i].id)@ == id ==> !s[i].trashed,
    ensures
        folders_restored(folders_trashed_at(s, id, now), id) == s,
{
    let u = folders_restored(folders_trashed_at(s, id, now), id);
    assert forall|k: int| 0 <= k < s.len() implies u[k] == s[k] by {
        if s[k].id@ == id {
            assert(!s[k].trashed);
            assert(!(s[k].trashed_at is Some));
        }
    }
    assert(u =~= s);
}

/// Trashing a file that is not yet in the trash and then restoring it hands
/// the file rows back exactly as they were.
pub proof fn lemma_trash_then_restore_files(s: Seq<FileMetadata>, id: Seq<char>, now: i64)
    requires
        files_wf(s),
        forall|i: int| 0 <= i < s.len() && (#[trigger] s[i].id)@ == id ==> !s[i].trashed,
    ensures
        files_restored(files_trashed_at(s, id, now), id) == s,
{
    let u = files_restored(files_trashed_at(s, id, now), id);
    assert forall|k: int| 0 <= k < s.len() implies u[k] == s[k] by {
        if s[k].id@ == id {
            assert(!s[k].trashed);
            assert(!(s[k].trashed_at is Some));
        }
    }
    assert(u =~= s);
}

/// Flipping a folder's star twice hands the folder rows back unchanged,
/// whatever the id names.
pub proof fn lemma_toggle_star_twice_folders(s: Seq<Folder>, id: Seq<char>)
    ensures
        folders_star_flipped(folders_star_flipped(s, id), id) == s,
{
    let u = folders_star_flipped(folders_star_flipped(s, id), id);
    assert forall|k: int| 0 <= k < s.len() implies u[k] == s[k] by {}
    assert(u =~= s);
}

/// Flipping a file's star twice hands the file rows back unchanged.
pub proof fn lemma_toggle_star_twice_files(s: Seq<FileMetadata>, id: Seq<char>)
    ensures
        files_star_flipped(files_star_flipped(s, id), id) == s,
{
    let u = files_star_flipped(files_star_flipped(s, id), id);
    assert forall|k: int| 0 <= k < s.len() implies u[k] == s[k] by {}
    assert(u =~= s);
}

/// Trashing the file at position `k` lowers the usage total by exactly that
/// file's size; with a non-zero size the fall is strict.
pub proof fn lemma_trash_file_usage(s: Seq<FileMetadata>, k: int, now: i64)
    requires
        files_wf(s),
        0 <= k < s.len(),
        !s[k].trashed,
    ensures
        usage_of(files_trashed_at(s, s[k].id@, now)) == usage_of(s) - s[k].size,
    decreases s.len(),
{
    let id = s[k].id@;
    let t = files_trashed_at(s, id, now);
    let dl = s.drop_last();
    assert(files_wf(dl));
    assert(t.drop_last() =~= files_trashed_at(dl, id, now));
    if k == s.len() - 1 {
        assert forall|i: int| 0 <= i < dl.len() implies files_trashed_at(dl, id, now)[i]
            == dl[i] by {
            assert(s[i].id@ != s[k].id@);
        }
        assert(files_trashed_at(dl, id, now) =~= dl);
        assert(t.last().trashed);
        assert(usage_of(t) == usage_of(dl));
    } else {
        lemma_trash_file_usage(dl, k, now);
        assert(s.last().id@ != id);
        assert(t.last() == s.last());
    }
}

/// Restoring the trashed file at position `k` raises the usage total by
/// exactly that file's size.
pub proof fn lemma_restore_file_usage(s: Seq<FileMetadata>, k: int)
    requires
        files_wf(s),
        0 <= k < s.len(),
        s[k].trashed,
    ensures
        usage_of(files_restored(s, s[k].id@)) == usage_of(s) + s[k].size,
    decreases s.len(),
{
    let id = s[k].id@;
    let t = files_restored(s, id);
    let dl = s.drop_last();
    assert(files_wf(dl));
    assert(t.drop_last() =~= files_restored(dl, id));
    if k == s.len() - 1 {
        assert forall|i: int| 0 <= i < dl.len() implies files_restored(dl, id)[i] == dl[i] by {
            assert(s[i].id@ != s[k].id@);
        }
        assert(files_restored(dl, id) =~= dl);
        assert(!t.last().trashed);
        assert(usage_of(t) == usage_of(dl) + s[k].size);
    } else {
        lemma_restore_file_usage(dl, k);
        assert(s.last().id@ != id);
        assert(t.last() == s.last());
    }
}

} // verus!
