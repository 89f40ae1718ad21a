//! The image record store: the repository model the indexer writes through.
//!
//! Records are keyed by content hash — at most one record per hash. `insert`
//! is insert-or-ignore (the first writer for a hash wins), `update` is an
//! upsert keyed by hash that overwrites path and metadata while keeping the
//! record's id and tags.

use crate::error::{AppError, AppResult};
use crate::like::{like_match, like_match_exec};
use crate::strutil::{
    ascii_lower,
    ascii_lower_exec,
    contains_exec,
    contains_seq,
    lower_of,
    lowercase,
    push_char,
    str_eq_str,
};
use crate::tags::{dedup, decode_tags, encode_tags, lemma_dedup_contains, process_tag_list, spec_decode_tags, spec_encode_tags, spec_process_tags};
use vstd::prelude::*;

verus! {

/// A stored image record.
#[derive(Debug)]
pub struct FileSchema {
    pub id: Option<i32>,
    pub path: String,
    pub hash: String,
    pub extension: String,
    pub filename: String,
    pub folder_name: String,
    pub width: i32,
    pub height: i32,
    pub tags: Option<String>,
    pub root: String,
}

/// The fields the indexer hands to the store for one image.
#[derive(Debug)]
pub struct Image {
    pub path: String,
    pub hash: String,
    pub extension: String,
    pub filename: String,
    pub folder_name: String,
    pub width: i32,
    pub height: i32,
    pub root: String,
}

/// One folder with its record count.
#[derive(Debug)]
pub struct FolderInfo {
    pub folder_name: String,
    pub count: i64,
    pub root: String,
}

/// One scan root with its record and folder-row counts.
#[derive(Debug)]
pub struct FolderRootsInfo {
    pub count: i64,
    pub root: String,
    pub f_count: i64,
}

/// A record's hash together with its tags column.
#[derive(Debug)]
pub struct FileUpdateTags {
    pub hash: String,
    pub tags: Option<String>,
}

/// The mathematical value of a stored record.
pub ghost struct FileRec {
    pub id: Option<i32>,
    pub path: Seq<char>,
    pub hash: Seq<char>,
    pub extension: Seq<char>,
    pub filename: Seq<char>,
    pub folder_name: Seq<char>,
    pub width: i32,
    pub height: i32,
    pub tags: Option<Seq<char>>,
    pub root: Seq<char>,
}

/// The mathematical value of an insert request.
pub ghost struct ImgRec {
    pub path: Seq<char>,
    pub hash: Seq<char>,
    pub extension: Seq<char>,
    pub filename: Seq<char>,
    pub folder_name: Seq<char>,
    pub width: i32,
    pub height: i32,
    pub root: Seq<char>,
}

impl View for FileSchema {
    type V = FileRec;

    open spec fn view(&self) -> FileRec {
        FileRec {
            id: self.id,
            path: self.path@,
            hash: self.hash@,
            extension: self.extension@,
            filename: self.filename@,
            folder_name: self.folder_name@,
            width: self.width,
            height: self.height,
            tags: match self.tags {
                Some(t) => Some(t@),
                None => None,
            },
            root: self.root@,
        }
    }
}

impl View for Image {
    type V = ImgRec;

    open spec fn view(&self) -> ImgRec {
        ImgRec {
            path: self.path@,
            hash: self.hash@,
            extension: self.extension@,
            filename: self.filename@,
            folder_name: self.folder_name@,
            width: self.width,
            height: self.height,
            root: self.root@,
        }
    }
}

impl FileSchema {
    /// A field-by-field copy whose value equals this record.
    pub fn duplicate(&self) -> (r: FileSchema)
        ensures
            r == *self,
    {
        FileSchema {
            id: self.id,
            path: self.path.clone(),
            hash: self.hash.clone(),
            extension: self.extension.clone(),
            filename: self.filename.clone(),
            folder_name: self.folder_name.clone(),
            width: self.width,
            height: self.height,
            tags: match &self.tags {
                Some(t) => Some(t.clone()),
                None => None,
            },
            root: self.root.clone(),
        }
    }
}

/// The mathematical state of the store: the records in insertion order and
/// the next id to assign.
pub ghost struct StoreModel {
    pub recs: Seq<FileRec>,
    pub next_id: int,
}

/// Whether some record carries the given hash.
pub open spec fn contains_hash(recs: Seq<FileRec>, h: Seq<char>) -> bool {
    exists|i: int| 0 <= i < recs.len() && recs[i].hash == h
}

/// The index of the record carrying the given hash (unique under
/// well-formedness).
pub open spec fn hash_index(recs: Seq<FileRec>, h: Seq<char>) -> int {
    choose|i: int| 0 <= i < recs.len() && recs[i].hash == h
}

/// Well-formedness: hashes are unique, ids stay in range, and the store is
/// small enough for its counts to fit the count types.
pub open spec fn store_wf(m: StoreModel) -> bool {
    &&& 1 <= m.next_id <= i32::MAX
    &&& m.recs.len() < m.next_id
    &&& forall|i: int, j: int|
        0 <= i < j < m.recs.len() ==> m.recs[i].hash != m.recs[j].hash
}

/// The record that `insert` creates: filename and folder name lowercased,
/// no tags, a fresh id.
pub open spec fn insert_rec_of(img: ImgRec, id: int) -> FileRec {
    FileRec {
        id: Some(id as i32),
        path: img.path,
        hash: img.hash,
        extension: img.extension,
        filename: lower_of(img.filename),
        folder_name: lower_of(img.folder_name),
        width: img.width,
        height: img.height,
        tags: None,
        root: img.root,
    }
}

/// The record that `update` creates when the hash is new: as `insert`, with
/// the root lowercased too.
pub open spec fn update_rec_of_new(img: ImgRec, id: int) -> FileRec {
    FileRec {
        id: Some(id as i32),
        path: img.path,
        hash: img.hash,
        extension: img.extension,
        filename: lower_of(img.filename),
        folder_name: lower_of(img.folder_name),
        width: img.width,
        height: img.height,
        tags: None,
        root: lower_of(img.root),
    }
}

/// The record that `update` leaves when the hash exists: every field
/// overwritten except the id and the tags, which are kept.
pub open spec fn update_rec_of_old(img: ImgRec, prev: FileRec) -> FileRec {
    FileRec {
        id: prev.id,
        path: img.path,
        hash: img.hash,
        extension: img.extension,
        filename: lower_of(img.filename),
        folder_name: lower_of(img.folder_name),
        width: img.width,
        height: img.height,
        tags: prev.tags,
        root: lower_of(img.root),
    }
}

/// What `insert` does to the store: nothing when the hash is present or no
/// id is left, else a new record is appended.
pub open spec fn insert_model(m: StoreModel, img: ImgRec) -> StoreModel {
    if contains_hash(m.recs, img.hash) {
        m
    } else if m.next_id == i32::MAX {
        m
    } else {
        StoreModel { recs: m.recs.push(insert_rec_of(img, m.next_id)), next_id: m.next_id + 1 }
    }
}

/// What `update` does to the store: the record with the same hash is
/// overwritten in place, or a new record is appended.
pub open spec fn update_model(m: StoreModel, img: ImgRec) -> StoreModel {
    if contains_hash(m.recs, img.hash) {
        let i = hash_index(m.recs, img.hash);
        StoreModel { recs: m.recs.update(i, update_rec_of_old(img, m.recs[i])), next_id: m.next_id }
    } else if m.next_id == i32::MAX {
        m
    } else {
        StoreModel { recs: m.recs.push(update_rec_of_new(img, m.next_id)), next_id: m.next_id + 1 }
    }
}

/// A sequence filtered by a predicate, keeping order.
pub open spec fn sfilter<T>(s: Seq<T>, p: spec_fn(T) -> bool) -> Seq<T>
    decreases s.len(),
{
    if s.len() == 0 {
        Seq::empty()
    } else {
        let r = sfilter(s.drop_last(), p);
        if p(s.last()) {
            r.push(s.last())
        } else {
            r
        }
    }
}

/// The filtered sequence is never longer than the original, and every
/// element of it satisfies the predicate and occurs in the original.
pub proof fn lemma_sfilter_len<T>(s: Seq<T>, p: spec_fn(T) -> bool)
    ensures
        sfilter(s, p).len() <= s.len(),
        forall|j: int|
            0 <= j < sfilter(s, p).len() ==> p(#[trigger] sfilter(s, p)[j]) && s.contains(
                sfilter(s, p)[j],
            ),
    decreases s.len(),
{
    if s.len() > 0 {
        lemma_sfilter_len(s.drop_last(), p);
        assert(forall|x: T| s.drop_last().contains(x) ==> s.contains(x));
        assert(s.contains(s.last()));
    }
}

/// The number of records carrying the given hash.
pub open spec fn count_hash(recs: Seq<FileRec>, h: Seq<char>) -> int {
    sfilter(recs, |r: FileRec| r.hash == h).len() as int
}

/// Under hash uniqueness, a hash is carried by exactly one record or none.
pub proof fn lemma_count_hash_unique(recs: Seq<FileRec>, h: Seq<char>)
    requires
        forall|i: int, j: int| 0 <= i < j < recs.len() ==> recs[i].hash != recs[j].hash,
    ensures
        count_hash(recs, h) == if contains_hash(recs, h) {
            1int
        } else {
            0int
        },
    decreases recs.len(),
{
    if recs.len() > 0 {
        let pre = recs.drop_last();
        assert(forall|i: int, j: int| 0 <= i < j < pre.len() ==> pre[i].hash != pre[j].hash);
        lemma_count_hash_unique(pre, h);
        if recs.last().hash == h {
            assert(contains_hash(recs, h));
            if contains_hash(pre, h) {
                let i = choose|i: int| 0 <= i < pre.len() && pre[i].hash == h;
                assert(recs[i].hash == recs[recs.len() - 1].hash);
                assert(false);
            }
        } else {
            if contains_hash(pre, h) {
                let i = choose|i: int| 0 <= i < pre.len() && pre[i].hash == h;
                assert(recs[i].hash == h);
                assert(contains_hash(recs, h));
            }
            if contains_hash(recs, h) {
                let i = choose|i: int| 0 <= i < recs.len() && recs[i].hash == h;
                assert(i < pre.len());
                assert(pre[i].hash == h);
                assert(contains_hash(pre, h));
            }
        }
    }
}

/// `insert` preserves well-formedness.
pub proof fn lemma_insert_wf(m: StoreModel, img: ImgRec)
    requires
        store_wf(m),
    ensures
        store_wf(insert_model(m, img)),
{
    if !contains_hash(m.recs, img.hash) && m.next_id < i32::MAX {
        let m2 = insert_model(m, img);
        assert forall|i: int, j: int|
            0 <= i < j < m2.recs.len() implies m2.recs[i].hash != m2.recs[j].hash by {
            if j == m2.recs.len() - 1 {
                assert(m2.recs[i] == m.recs[i]);
            }
        }
    }
}

/// `update` preserves well-formedness, and the hash at every position is
/// unchanged.
pub proof fn lemma_update_wf(m: StoreModel, img: ImgRec)
    requires
        store_wf(m),
    ensures
        store_wf(update_model(m, img)),
        contains_hash(m.recs, img.hash) ==> update_model(m, img).recs.len() == m.recs.len()
            && forall|i: int|
            0 <= i < m.recs.len() ==> update_model(m, img).recs[i].hash == m.recs[i].hash,
{
    if contains_hash(m.recs, img.hash) {
        let i = hash_index(m.recs, img.hash);
        assert(0 <= i < m.recs.len() && m.recs[i].hash == img.hash);
        let m2 = update_model(m, img);
        assert(forall|k: int| 0 <= k < m.recs.len() ==> m2.recs[k].hash == m.recs[k].hash);
        assert forall|a: int, b: int|
            0 <= a < b < m2.recs.len() implies m2.recs[a].hash != m2.recs[b].hash by {
            assert(m.recs[a].hash != m.recs[b].hash);
        }
    } else if m.next_id < i32::MAX {
        let m2 = update_model(m, img);
        assert forall|a: int, b: int|
            0 <= a < b < m2.recs.len() implies m2.recs[a].hash != m2.recs[b].hash by {
            if b == m2.recs.len() - 1 {
                assert(m2.recs[a] == m.recs[a]);
            }
        }
    }
}

/// Dedup by hash. Writing two images that carry the same hash leaves
/// exactly one record for it: in normal mode the second insert is ignored
/// outright, and in force mode the second upsert overwrites the record's
/// fields in place instead of adding a row.
pub proof fn lemma_dedup_by_hash(m: StoreModel, img1: ImgRec, img2: ImgRec)
    requires
        store_wf(m),
        img1.hash == img2.hash,
        !contains_hash(m.recs, img1.hash),
        m.next_id < i32::MAX,
    ensures
        insert_model(insert_model(m, img1), img2) == insert_model(m, img1),
        count_hash(insert_model(insert_model(m, img1), img2).recs, img2.hash) == 1,
        ({
            let mu = update_model(update_model(m, img1), img2);
            let n = m.recs.len() as int;
            &&& mu.recs.len() == m.recs.len() + 1
            &&& count_hash(mu.recs, img2.hash) == 1
            &&& mu.recs[n].path == img2.path
            &&& mu.recs[n].hash == img2.hash
            &&& mu.recs[n].extension == img2.extension
            &&& mu.recs[n].filename == lower_of(img2.filename)
            &&& mu.recs[n].folder_name == lower_of(img2.folder_name)
            &&& mu.recs[n].width == img2.width
            &&& mu.recs[n].height == img2.height
            &&& mu.recs[n].root == lower_of(img2.root)
        }),
{
    let n = m.recs.len() as int;
    let m1 = insert_model(m, img1);
    lemma_insert_wf(m, img1);
    assert(m1.recs[n].hash == img2.hash);
    assert(contains_hash(m1.recs, img2.hash));
    lemma_count_hash_unique(m1.recs, img2.hash);

    let mu1 = update_model(m, img1);
    lemma_update_wf(m, img1);
    assert(mu1.recs[n].hash == img2.hash);
    assert(contains_hash(mu1.recs, img2.hash));
    let i = hash_index(mu1.recs, img2.hash);
    assert(0 <= i < mu1.recs.len() && mu1.recs[i].hash == img2.hash);
    if i < n {
        assert(mu1.recs[i] == m.recs[i]);
        assert(contains_hash(m.recs, img2.hash));
        assert(false);
    }
    let mu = update_model(mu1, img2);
    lemma_update_wf(mu1, img2);
    assert(mu.recs[n] == update_rec_of_old(img2, mu1.recs[n]));
    assert(contains_hash(mu.recs, img2.hash));
    lemma_count_hash_unique(mu.recs, img2.hash);
}

/// Force-mode upsert, row by row: afterwards exactly one record carries
/// the image's hash and holds its fields (filename, folder name and root
/// lowercased; id and tags carried over as `update_model` states); every
/// record with another hash is unchanged in place.
pub proof fn lemma_upsert_exact(m: StoreModel, img: ImgRec)
    requires
        store_wf(m),
        contains_hash(m.recs, img.hash) || m.next_id < i32::MAX,
    ensures
        ({
            let m2 = update_model(m, img);
            &&& count_hash(m2.recs, img.hash) == 1
            &&& forall|i: int|
                0 <= i < m.recs.len() && m.recs[i].hash != img.hash ==> m2.recs[i] == m.recs[i]
            &&& ({
                let j = hash_index(m2.recs, img.hash);
                &&& 0 <= j < m2.recs.len()
                &&& m2.recs[j].path == img.path
                &&& m2.recs[j].hash == img.hash
                &&& m2.recs[j].extension == img.extension
                &&& m2.recs[j].filename == lower_of(img.filename)
                &&& m2.recs[j].folder_name == lower_of(img.folder_name)
                &&& m2.recs[j].width == img.width
                &&& m2.recs[j].height == img.height
                &&& m2.recs[j].root == lower_of(img.root)
            })
        }),
{
    lemma_update_wf(m, img);
    let m2 = update_model(m, img);
    if contains_hash(m.recs, img.hash) {
        let i = hash_index(m.recs, img.hash);
        assert(0 <= i < m.recs.len() && m.recs[i].hash == img.hash);
        assert(m2.recs[i] == update_rec_of_old(img, m.recs[i]));
        assert(m2.recs[i].hash == img.hash);
        assert(contains_hash(m2.recs, img.hash));
        lemma_count_hash_unique(m2.recs, img.hash);
        let j = hash_index(m2.recs, img.hash);
        assert(0 <= j < m2.recs.len() && m2.recs[j].hash == img.hash);
        if j < i {
            assert(m2.recs[j].hash != m2.recs[i].hash);
            assert(false);
        } else if i < j {
            assert(m2.recs[i].hash != m2.recs[j].hash);
            assert(false);
        }
        assert forall|k: int|
            0 <= k < m.recs.len() && m.recs[k].hash != img.hash implies m2.recs[k]
            == m.recs[k] by {
            assert(k != i);
        }
    } else {
        let n = m.recs.len() as int;
        assert(m2.recs[n] == update_rec_of_new(img, m.next_id));
        assert(m2.recs[n].hash == img.hash);
        assert(contains_hash(m2.recs, img.hash));
        lemma_count_hash_unique(m2.recs, img.hash);
        let j = hash_index(m2.recs, img.hash);
        assert(0 <= j < m2.recs.len() && m2.recs[j].hash == img.hash);
        if j < n {
            assert(m2.recs[j] == m.recs[j]);
            assert(contains_hash(m.recs, img.hash));
            assert(false);
        }
    }
}

/// Filtering a sequence of records with pairwise-distinct hashes leaves the
/// hashes pairwise distinct.
pub proof fn lemma_sfilter_distinct_hash(s: Seq<FileRec>, p: spec_fn(FileRec) -> bool)
    requires
        forall|i: int, j: int| 0 <= i < j < s.len() ==> s[i].hash != s[j].hash,
    ensures
        forall|a: int, b: int|
            0 <= a < b < sfilter(s, p).len() ==> sfilter(s, p)[a].hash != sfilter(s, p)[b].hash,
    decreases s.len(),
{
    if s.len() > 0 {
        let s0 = s.drop_last();
        assert(forall|i: int, j: int| 0 <= i < j < s0.len() ==> s0[i].hash != s0[j].hash);
        lemma_sfilter_distinct_hash(s0, p);
        lemma_sfilter_len(s0, p);
        if p(s.last()) {
            assert forall|a: int, b: int|
                0 <= a < b < sfilter(s, p).len() implies sfilter(s, p)[a].hash != sfilter(
                s,
                p,
            )[b].hash by {
                if b == sfilter(s, p).len() - 1 {
                    let x = sfilter(s, p)[a];
                    assert(s0.contains(x));
                    let i = choose|i: int| 0 <= i < s0.len() && s0[i] == x;
                    assert(s[i] == x);
                    assert(s[i].hash != s.last().hash);
                }
            }
        }
    }
}

/// The in-memory record store.
pub struct RecordStore {
    records: Vec<FileSchema>,
    next_id: i32,
}

impl View for RecordStore {
    type V = StoreModel;

    closed spec fn view(&self) -> StoreModel {
        StoreModel {
            recs: self.records@.map(|_i: int, r: FileSchema| r@),
            next_id: self.next_id as int,
        }
    }
}

impl RecordStore {
    pub open spec fn wf(&self) -> bool {
        store_wf(self@)
    }

    /// An empty store.
    pub fn new() -> (s: RecordStore)
        ensures
            s.wf(),
            s@.recs.len() == 0,
            s@.next_id == 1,
    {
        let s = RecordStore { records: Vec::new(), next_id: 1 };
        proof {
            assert(s@.recs =~= Seq::<FileRec>::empty());
        }
        s
    }

    /// The index of the record with this hash, if any.
    fn find_hash(&self, hash: &str) -> (r: Option<usize>)
        requires
            self.wf(),
        ensures
            match r {
                Some(i) => i < self@.recs.len() && self@.recs[i as int].hash == hash@
                    && contains_hash(self@.recs, hash@) && hash_index(self@.recs, hash@) == i as int,
                None => !contains_hash(self@.recs, hash@),
            },
    {
        let n = self.records.len();
        let mut i: usize = 0;
        while i < n
            invariant
                self.wf(),
                n == self@.recs.len(),
                i <= n,
                forall|k: int| 0 <= k < i ==> self@.recs[k].hash != hash@,
            decreases n - i,
        {
            if str_eq_str(self.records[i].hash.as_str(), hash) {
                proof {
                    assert(self@.recs[i as int] == self.records@[i as int]@);
                    assert(self@.recs[i as int].hash == hash@);
                    assert(contains_hash(self@.recs, hash@));
                    let w = hash_index(self@.recs, hash@);
                    assert(0 <= w < self@.recs.len() && self@.recs[w].hash == hash@);
                    if w < i as int {
                        assert(self@.recs[w].hash != self@.recs[i as int].hash);
                    } else if w > i as int {
                        assert(self@.recs[i as int].hash != self@.recs[w].hash);
                    }
                }
                return Some(i);
            }
            proof {
                assert(self@.recs[i as int] == self.records@[i as int]@);
            }
            i = i + 1;
        }
        None
    }

    /// Insert-or-ignore keyed by hash: a new record is appended unless one
    /// with the same hash exists; returns the number of rows written.
    pub fn insert(&mut self, image: Image) -> (r: AppResult<usize>)
        requires
            old(self).wf(),
        ensures
            final(self).wf(),
            final(self)@ == insert_model(old(self)@, image@),
            match r {
                Ok(n) => (n == 0 || n == 1) && (n == 1 <==> !contains_hash(
                    old(self)@.recs,
                    image@.hash,
                ) && old(self)@.next_id < i32::MAX) && (n == 0 <==> contains_hash(
                    old(self)@.recs,
                    image@.hash,
                )),
                Err(e) => e is DatabaseError && !contains_hash(old(self)@.recs, image@.hash)
                    && old(self)@.next_id == i32::MAX,
            },
    {
        match self.find_hash(image.hash.as_str()) {
            Some(_) => Ok(0),
            None => {
                if self.next_id == i32::MAX {
                    proof {
                        reveal_strlit("no record id left");
                    }
                    return Err(AppError::DatabaseError(String::from_str("no record id left")));
                }
                let id = self.next_id;
                let rec = FileSchema {
                    id: Some(id),
                    path: image.path,
                    hash: image.hash,
                    extension: image.extension,
                    filename: lowercase(image.filename.as_str()),
                    folder_name: lowercase(image.folder_name.as_str()),
                    width: image.width,
                    height: image.height,
                    tags: None,
                    root: image.root,
                };
                self.records.push(rec);
                self.next_id = id + 1;
                proof {
                    assert(self@.recs =~= old(self)@.recs.push(
                        insert_rec_of(image@, old(self)@.next_id),
                    ));
                    assert forall|i: int, j: int|
                        0 <= i < j < self@.recs.len() implies self@.recs[i].hash
                        != self@.recs[j].hash by {
                        if j == self@.recs.len() - 1 {
                            assert(!contains_hash(old(self)@.recs, image@.hash));
                            assert(self@.recs[i] == old(self)@.recs[i]);
                        }
                    }
                }
                Ok(1)
            },
        }
    }

    /// Upsert keyed by hash: overwrites the matching record's path and
    /// metadata (keeping id and tags), or appends a new record; returns the
    /// number of rows written.
    pub fn update(&mut self, image: Image) -> (r: AppResult<usize>)
        requires
            old(self).wf(),
        ensures
            final(self).wf(),
            final(self)@ == update_model(old(self)@, image@),
            match r {
                Ok(n) => n == 1 && (contains_hash(old(self)@.recs, image@.hash) || old(
                    self,
                )@.next_id < i32::MAX),
                Err(e) => e is DatabaseError && !contains_hash(old(self)@.recs, image@.hash)
                    && old(self)@.next_id == i32::MAX,
            },
    {
        match self.find_hash(image.hash.as_str()) {
            Some(i) => {
                let prev_id = self.records[i].id;
                let prev_tags = match &self.records[i].tags {
                    Some(t) => Some(t.clone()),
                    None => None,
                };
                let rec = FileSchema {
                    id: prev_id,
                    path: image.path,
                    hash: image.hash,
                    extension: image.extension,
                    filename: lowercase(image.filename.as_str()),
                    folder_name: lowercase(image.folder_name.as_str()),
                    width: image.width,
                    height: image.height,
                    tags: prev_tags,
                    root: lowercase(image.root.as_str()),
                };
                self.records[i] = rec;
                proof {
                    assert(self@.recs =~= old(self)@.recs.update(
                        i as int,
                        update_rec_of_old(image@, old(self)@.recs[i as int]),
                    ));
                    assert forall|a: int, b: int|
                        0 <= a < b < self@.recs.len() implies self@.recs[a].hash
                        != self@.recs[b].hash by {
                        assert(old(self)@.recs[a].hash != old(self)@.recs[b].hash);
                    }
                }
                Ok(1)
            },
            None => {
                if self.next_id == i32::MAX {
                    proof {
                        reveal_strlit("no record id left");
                    }
                    return Err(AppError::DatabaseError(String::from_str("no record id left")));
                }
                let id = self.next_id;
                let rec = FileSchema {
                    id: Some(id),
                    path: image.path,
                    hash: image.hash,
                    extension: image.extension,
                    filename: lowercase(image.filename.as_str()),
                    folder_name: lowercase(image.folder_name.as_str()),
                    width: image.width,
                    height: image.height,
                    tags: None,
                    root: lowercase(image.root.as_str()),
                };
                self.records.push(rec);
                self.next_id = id + 1;
                proof {
                    assert(self@.recs =~= old(self)@.recs.push(
                        update_rec_of_new(image@, old(self)@.next_id),
                    ));
                    assert forall|a: int, b: int|
                        0 <= a < b < self@.recs.len() implies self@.recs[a].hash
                        != self@.recs[b].hash by {
                        if b == self@.recs.len() - 1 {
                            assert(!contains_hash(old(self)@.recs, image@.hash));
                            assert(self@.recs[a] == old(self)@.recs[a]);
                        }
                    }
                }
                Ok(1)
            },
        }
    }

    /// All stored hashes, in record order.
    pub fn all_hashes(&self) -> (r: Vec<String>)
        ensures
            r@.len() == self@.recs.len(),
            forall|i: int| 0 <= i < r@.len() ==> r@[i]@ == self@.recs[i].hash,
    {
        let n = self.records.len();
        let mut out: Vec<String> = Vec::new();
        let mut i: usize = 0;
        while i < n
            invariant
                n == self@.recs.len(),
                i <= n,
                out@.len() == i,
                forall|k: int| 0 <= k < i ==> out@[k]@ == self@.recs[k].hash,
            decreases n - i,
        {
            out.push(self.records[i].hash.clone());
            i = i + 1;
        }
        out
    }

    /// The record with this hash, or a not-found error.
    pub fn get_by_hash(&self, hash: &str) -> (r: AppResult<FileSchema>)
        requires
            self.wf(),
        ensures
            match r {
                Ok(rec) => contains_hash(self@.recs, hash@) && rec@ == self@.recs[hash_index(
                    self@.recs,
                    hash@,
                )],
                Err(e) => e is NotFound && !contains_hash(self@.recs, hash@),
            },
    {
        match self.find_hash(hash) {
            Some(i) => Ok(self.records[i].duplicate()),
            None => {
                proof {
                    reveal_strlit("Record not found");
                }
                Err(AppError::NotFound(String::from_str("Record not found")))
            },
        }
    }

    /// All records stored under this path, in order.
    pub fn get_by_path(&self, path: &str) -> (r: Vec<FileSchema>)
        ensures
            r@.map(|_i: int, x: FileSchema| x@) == sfilter(
                self@.recs,
                |rec: FileRec| rec.path == path@,
            ),
    {
        let n = self.records.len();
        let mut out: Vec<FileSchema> = Vec::new();
        let ghost p = |rec: FileRec| rec.path == path@;
        proof {
            assert(self@.recs.subrange(0, 0) =~= Seq::<FileRec>::empty());
            assert(out@.map(|_i: int, x: FileSchema| x@) =~= sfilter(
                self@.recs.subrange(0, 0),
                p,
            ));
        }
        let mut i: usize = 0;
        while i < n
            invariant
                n == self@.recs.len(),
                i <= n,
                out@.map(|_i: int, x: FileSchema| x@) == sfilter(
                    self@.recs.subrange(0, i as int),
                    p,
                ),
                p == (|rec: FileRec| rec.path == path@),
            decreases n - i,
        {
            proof {
                assert(self@.recs.subrange(0, i + 1 as int).drop_last() =~= self@.recs.subrange(
                    0,
                    i as int,
                ));
                assert(self@.recs.subrange(0, i + 1 as int).last() == self@.recs[i as int]);
            }
            if str_eq_str(self.records[i].path.as_str(), path) {
                out.push(self.records[i].duplicate());
                proof {
                    assert(out@.map(|_i: int, x: FileSchema| x@) =~= sfilter(
                        self@.recs.subrange(0, i as int),
                        p,
                    ).push(self@.recs[i as int]));
                }
            }
            i = i + 1;
        }
        proof {
            assert(self@.recs.subrange(0, n as int) =~= self@.recs);
        }
        out
    }

    /// All records in this folder, in order.
    pub fn all_by_folder(&self, folder_name: &str) -> (r: Vec<FileSchema>)
        ensures
            r@.map(|_i: int, x: FileSchema| x@) == sfilter(
                self@.recs,
                |rec: FileRec| rec.folder_name == folder_name@,
            ),
    {
        let n = self.records.len();
        let mut out: Vec<FileSchema> = Vec::new();
        let ghost p = |rec: FileRec| rec.folder_name == folder_name@;
        proof {
            assert(out@.map(|_i: int, x: FileSchema| x@) =~= sfilter(
                self@.recs.subrange(0, 0),
                p,
            ));
        }
        let mut i: usize = 0;
        while i < n
            invariant
                n == self@.recs.len(),
                i <= n,
                out@.map(|_i: int, x: FileSchema| x@) == sfilter(
                    self@.recs.subrange(0, i as int),
                    p,
                ),
                p == (|rec: FileRec| rec.folder_name == folder_name@),
            decreases n - i,
        {
            proof {
                assert(self@.recs.subrange(0, i + 1 as int).drop_last() =~= self@.recs.subrange(
                    0,
                    i as int,
                ));
                assert(self@.recs.subrange(0, i + 1 as int).last() == self@.recs[i as int]);
            }
            if str_eq_str(self.records[i].folder_name.as_str(), folder_name) {
                out.push(self.records[i].duplicate());
                proof {
                    assert(out@.map(|_i: int, x: FileSchema| x@) =~= sfilter(
                        self@.recs.subrange(0, i as int),
                        p,
                    ).push(self@.recs[i as int]));
                }
            }
            i = i + 1;
        }
        proof {
            assert(self@.recs.subrange(0, n as int) =~= self@.recs);
        }
        out
    }

    /// The number of stored records.
    pub fn count_all(&self) -> (r: i64)
        requires
            self.wf(),
        ensures
            r == self@.recs.len(),
    {
        self.records.len() as i64
    }

    /// The number of records in this folder.
    pub fn count_by_folder(&self, folder_name: &str) -> (r: i64)
        requires
            self.wf(),
        ensures
            r == sfilter(self@.recs, |rec: FileRec| rec.folder_name == folder_name@).len(),
    {
        let matches = self.all_by_folder(folder_name);
        proof {
            lemma_sfilter_len(self@.recs, |rec: FileRec| rec.folder_name == folder_name@);
            assert(matches@.map(|_i: int, x: FileSchema| x@).len() == matches@.len());
        }
        matches.len() as i64
    }

    /// Removes every record of this folder; returns how many went.
    pub fn delete_folder_with_name(&mut self, name: &str) -> (r: usize)
        requires
            old(self).wf(),
        ensures
            final(self).wf(),
            final(self)@.recs == sfilter(
                old(self)@.recs,
                |rec: FileRec| rec.folder_name != name@,
            ),
            final(self)@.next_id == old(self)@.next_id,
            r == old(self)@.recs.len() - final(self)@.recs.len(),
    {
        let n = self.records.len();
        let mut kept: Vec<FileSchema> = Vec::new();
        let ghost p = |rec: FileRec| rec.folder_name != name@;
        proof {
            assert(kept@.map(|_i: int, x: FileSchema| x@) =~= sfilter(
                old(self)@.recs.subrange(0, 0),
                p,
            ));
        }
        let mut i: usize = 0;
        while i < n
            invariant
                self == old(self),
                n == old(self)@.recs.len(),
                i <= n,
                kept@.len() <= i,
                kept@.map(|_i: int, x: FileSchema| x@) == sfilter(
                    old(self)@.recs.subrange(0, i as int),
                    p,
                ),
                p == (|rec: FileRec| rec.folder_name != name@),
            decreases n - i,
        {
            proof {
                assert(old(self)@.recs.subrange(0, i + 1 as int).drop_last()
                    =~= old(self)@.recs.subrange(0, i as int));
                assert(old(self)@.recs.subrange(0, i + 1 as int).last() == old(self)@.recs[i as int]);
            }
            if !str_eq_str(self.records[i].folder_name.as_str(), name) {
                kept.push(self.records[i].duplicate());
                proof {
                    assert(kept@.map(|_i: int, x: FileSchema| x@) =~= sfilter(
                        old(self)@.recs.subrange(0, i as int),
                        p,
                    ).push(old(self)@.recs[i as int]));
                }
            }
            i = i + 1;
        }
        proof {
            assert(old(self)@.recs.subrange(0, n as int) =~= old(self)@.recs);
        }
        let removed = n - kept.len();
        self.records = kept;
        proof {
            lemma_sfilter_len(old(self)@.recs, p);
            lemma_sfilter_distinct_hash(old(self)@.recs, p);
        }
        removed
    }

    /// Removes every record with this id; returns how many went.
    pub fn delete_with_id(&mut self, id: i32) -> (r: usize)
        requires
            old(self).wf(),
        ensures
            final(self).wf(),
            final(self)@.recs == sfilter(old(self)@.recs, |rec: FileRec| rec.id != Some(id)),
            final(self)@.next_id == old(self)@.next_id,
            r == old(self)@.recs.len() - final(self)@.recs.len(),
    {
        let n = self.records.len();
        let mut kept: Vec<FileSchema> = Vec::new();
        let ghost p = |rec: FileRec| rec.id != Some(id);
        proof {
            assert(kept@.map(|_i: int, x: FileSchema| x@) =~= sfilter(
                old(self)@.recs.subrange(0, 0),
                p,
            ));
        }
        let mut i: usize = 0;
        while i < n
            invariant
                self == old(self),
                n == old(self)@.recs.len(),
                i <= n,
                kept@.len() <= i,
                kept@.map(|_i: int, x: FileSchema| x@) == sfilter(
                    old(self)@.recs.subrange(0, i as int),
                    p,
                ),
                p == (|rec: FileRec| rec.id != Some(id)),
            decreases n - i,
        {
            proof {
                assert(old(self)@.recs.subrange(0, i + 1 as int).drop_last()
                    =~= old(self)@.recs.subrange(0, i as int));
                assert(old(self)@.recs.subrange(0, i + 1 as int).last() == old(self)@.recs[i as int]);
            }
            let keep = match self.records[i].id {
                Some(x) => x != id,
                None => true,
            };
            if keep {
                kept.push(self.records[i].duplicate());
                proof {
                    assert(kept@.map(|_i: int, x: FileSchema| x@) =~= sfilter(
                        old(self)@.recs.subrange(0, i as int),
                        p,
                    ).push(old(self)@.recs[i as int]));
                }
            }
            i = i + 1;
        }
        proof {
            assert(old(self)@.recs.subrange(0, n as int) =~= old(self)@.recs);
        }
        let removed = n - kept.len();
        self.records = kept;
        proof {
            lemma_sfilter_len(old(self)@.recs, p);
            lemma_sfilter_distinct_hash(old(self)@.recs, p);
        }
        removed
    }

    /// Removes every record; returns how many went.
    pub fn delete_all(&mut self) -> (r: usize)
        requires
            old(self).wf(),
        ensures
            final(self).wf(),
            final(self)@.recs.len() == 0,
            final(self)@.next_id == old(self)@.next_id,
            r == old(self)@.recs.len(),
    {
        let n = self.records.len();
        self.records = Vec::new();
        proof {
            assert(self@.recs =~= Seq::<FileRec>::empty());
        }
        n
    }
}


/// Case-insensitive containment: whether `sub` occurs in `s` once both are
/// ASCII-lowercased.
pub open spec fn contains_ci(s: Seq<char>, sub: Seq<char>) -> bool {
    contains_seq(ascii_lower(s), ascii_lower(sub))
}

fn contains_ci_exec(s: &str, sub: &str) -> (r: bool)
    ensures
        r == contains_ci(s@, sub@),
{
    let ls = ascii_lower_exec(s);
    let lsub = ascii_lower_exec(sub);
    contains_exec(ls.as_str(), lsub.as_str())
}

/// The tag filter of the random query: the tags column holds the tag in
/// quotes, compared case-insensitively.
pub open spec fn tag_filter(rec: FileRec, tag: Seq<char>) -> bool {
    &&& rec.tags matches Some(t)
    &&& contains_ci(t, seq!['"'] + tag + seq!['"'])
}

/// The record filter of the random query: `*` in a field means no filter.
pub open spec fn random_pred(
    rec: FileRec,
    folder: Seq<char>,
    root: Seq<char>,
    tag: Seq<char>,
    extension: Seq<char>,
) -> bool {
    &&& (folder == "*"@ || rec.folder_name == folder)
    &&& (root == "*"@ || rec.root == root)
    &&& (extension == "*"@ || rec.extension == extension)
    &&& (tag == "*"@ || tag_filter(rec, tag))
}

/// The next state of the sampling generator.
pub open spec fn lcg_next(x: u64) -> u64 {
    vstd::wrapping::u64_specs::wrapping_add(
        vstd::wrapping::u64_specs::wrapping_mul(x, 6364136223846793005),
        1442695040888963407,
    )
}

impl RecordStore {
    /// All records whose tags column contains the tag, case-insensitively.
    pub fn all_by_tag(&self, tag: &str) -> (r: Vec<FileSchema>)
        ensures
            r@.map(|_i: int, x: FileSchema| x@) == sfilter(
                self@.recs,
                |rec: FileRec| rec.tags matches Some(t) && contains_ci(t, tag@),
            ),
    {
        let n = self.records.len();
        let mut out: Vec<FileSchema> = Vec::new();
        let ghost p = |rec: FileRec| rec.tags matches Some(t) && contains_ci(t, tag@);
        proof {
            assert(out@.map(|_i: int, x: FileSchema| x@) =~= sfilter(
                self@.recs.subrange(0, 0),
                p,
            ));
        }
        let mut i: usize = 0;
        while i < n
            invariant
                n == self@.recs.len(),
                i <= n,
                out@.map(|_i: int, x: FileSchema| x@) == sfilter(
                    self@.recs.subrange(0, i as int),
                    p,
                ),
                p == (|rec: FileRec| rec.tags matches Some(t) && contains_ci(t, tag@)),
            decreases n - i,
        {
            proof {
                assert(self@.recs.subrange(0, i + 1 as int).drop_last() =~= self@.recs.subrange(
                    0,
                    i as int,
                ));
                assert(self@.recs.subrange(0, i + 1 as int).last() == self@.recs[i as int]);
            }
            let keep = match &self.records[i].tags {
                Some(t) => contains_ci_exec(t.as_str(), tag),
                None => false,
            };
            if keep {
                out.push(self.records[i].duplicate());
                proof {
                    assert(out@.map(|_i: int, x: FileSchema| x@) =~= sfilter(
                        self@.recs.subrange(0, i as int),
                        p,
                    ).push(self@.recs[i as int]));
                }
            }
            i = i + 1;
        }
        proof {
            assert(self@.recs.subrange(0, n as int) =~= self@.recs);
        }
        out
    }

    /// One page of a folder's records: `offset` rows skipped, at most
    /// `max_results` returned, in record order.
    pub fn all_paged(&self, max_results: i64, offset: i64, folder_name: &str) -> (r: Vec<
        FileSchema,
    >)
        requires
            self.wf(),
            0 <= max_results,
            0 <= offset,
        ensures
            ({
                let flt = sfilter(self@.recs, |rec: FileRec| rec.folder_name == folder_name@);
                let start = if offset <= flt.len() {
                    offset as int
                } else {
                    flt.len() as int
                };
                let end = if offset + max_results <= flt.len() {
                    offset + max_results
                } else {
                    flt.len() as int
                };
                r@.map(|_i: int, x: FileSchema| x@) == flt.subrange(start, end)
            }),
    {
        let flt = self.all_by_folder(folder_name);
        let len = flt.len();
        proof {
            crate::records::lemma_sfilter_len(
                self@.recs,
                |rec: FileRec| rec.folder_name == folder_name@,
            );
            assert(flt@.map(|_i: int, x: FileSchema| x@).len() == flt@.len());
        }
        let start: usize = if offset >= len as i64 {
            len
        } else {
            offset as usize
        };
        let end: usize = if max_results >= (len - start) as i64 {
            len
        } else {
            start + (max_results as usize)
        };
        let mut out: Vec<FileSchema> = Vec::new();
        let mut i: usize = start;
        while i < end
            invariant
                start <= i <= end <= flt@.len(),
                out@.len() == i - start,
                forall|k: int| 0 <= k < out@.len() ==> out@[k] == flt@[start + k],
            decreases end - i,
        {
            out.push(flt[i].duplicate());
            i = i + 1;
        }
        proof {
            let flt_v = sfilter(self@.recs, |rec: FileRec| rec.folder_name == folder_name@);
            assert(out@.map(|_i: int, x: FileSchema| x@) =~= flt_v.subrange(
                start as int,
                end as int,
            ));
        }
        out
    }

    /// Up to `size` records drawn without repetition from the records that
    /// pass the filters, selection driven by the seed.
    pub fn random(
        &self,
        folder_name: &str,
        size: i64,
        root: &str,
        tag: &str,
        extension: &str,
        seed: u64,
    ) -> (r: Vec<FileSchema>)
        requires
            self.wf(),
            0 <= size,
        ensures
            ({
                let flt = sfilter(
                    self@.recs,
                    |rec: FileRec| random_pred(rec, folder_name@, root@, tag@, extension@),
                );
                &&& r@.len() == if size <= flt.len() {
                    size as int
                } else {
                    flt.len() as int
                }
                &&& forall|j: int| 0 <= j < r@.len() ==> flt.contains(#[trigger] r@[j]@)
            }),
    {
        let ghost p = |rec: FileRec| random_pred(rec, folder_name@, root@, tag@, extension@);
        proof {
            reveal_strlit("*");
        }
        let folder_all = str_eq_str(folder_name, "*");
        let root_all = str_eq_str(root, "*");
        let tag_all = str_eq_str(tag, "*");
        let ext_all = str_eq_str(extension, "*");
        let mut quoted = String::new();
        push_char(&mut quoted, '"');
        let mut quoted = quoted.concat(tag);
        push_char(&mut quoted, '"');
        proof {
            assert(quoted@ =~= seq!['"'] + tag@ + seq!['"']);
        }
        let n = self.records.len();
        let mut rest: Vec<FileSchema> = Vec::new();
        proof {
            assert(rest@.map(|_i: int, x: FileSchema| x@) =~= sfilter(
                self@.recs.subrange(0, 0),
                p,
            ));
        }
        let mut i: usize = 0;
        while i < n
            invariant
                n == self@.recs.len(),
                i <= n,
                rest@.map(|_i: int, x: FileSchema| x@) == sfilter(
                    self@.recs.subrange(0, i as int),
                    p,
                ),
                p == (|rec: FileRec| random_pred(rec, folder_name@, root@, tag@, extension@)),
                folder_all == (folder_name@ == "*"@),
                root_all == (root@ == "*"@),
                tag_all == (tag@ == "*"@),
                ext_all == (extension@ == "*"@),
                quoted@ == seq!['"'] + tag@ + seq!['"'],
            decreases n - i,
        {
            proof {
                assert(self@.recs.subrange(0, i + 1 as int).drop_last() =~= self@.recs.subrange(
                    0,
                    i as int,
                ));
                assert(self@.recs.subrange(0, i + 1 as int).last() == self@.recs[i as int]);
            }
            let rec = &self.records[i];
            let tag_ok = tag_all || match &rec.tags {
                Some(t) => contains_ci_exec(t.as_str(), quoted.as_str()),
                None => false,
            };
            let keep = (folder_all || str_eq_str(rec.folder_name.as_str(), folder_name)) && (
            root_all || str_eq_str(rec.root.as_str(), root)) && (ext_all || str_eq_str(
                rec.extension.as_str(),
                extension,
            )) && tag_ok;
            if keep {
                rest.push(rec.duplicate());
                proof {
                    assert(rest@.map(|_i: int, x: FileSchema| x@) =~= sfilter(
                        self@.recs.subrange(0, i as int),
                        p,
                    ).push(self@.recs[i as int]));
                }
            }
            i = i + 1;
        }
        proof {
            assert(self@.recs.subrange(0, n as int) =~= self@.recs);
        }
        let ghost flt = sfilter(self@.recs, p);
        let total = rest.len();
        proof {
            assert(rest@.map(|_i: int, x: FileSchema| x@).len() == rest@.len());
            lemma_sfilter_len(self@.recs, p);
            assert(total < 0x8000_0000);
            assert forall|j: int| 0 <= j < rest@.len() implies flt.contains(
                #[trigger] rest@[j]@,
            ) by {
                assert(flt[j] == rest@[j]@);
            }
        }
        let k: usize = if size >= total as i64 {
            total
        } else {
            size as usize
        };
        let mut out: Vec<FileSchema> = Vec::new();
        let mut state: u64 = seed;
        while out.len() < k
            invariant
                k <= total,
                out@.len() <= k,
                out@.len() + rest@.len() == total,
                total == flt.len(),
                forall|j: int| 0 <= j < rest@.len() ==> flt.contains(#[trigger] rest@[j]@),
                forall|j: int| 0 <= j < out@.len() ==> flt.contains(#[trigger] out@[j]@),
            decreases k - out.len(),
        {
            state = state.wrapping_mul(6364136223846793005).wrapping_add(1442695040888963407);
            let idx = (state % (rest.len() as u64)) as usize;
            let ghost old_rest = rest@;
            let picked = rest.remove(idx);
            proof {
                assert(flt.contains(picked@));
                assert forall|j: int| 0 <= j < rest@.len() implies flt.contains(
                    #[trigger] rest@[j]@,
                ) by {
                    if j < idx {
                        assert(rest@[j] == old_rest[j]);
                    } else {
                        assert(rest@[j] == old_rest[j + 1]);
                    }
                }
            }
            out.push(picked);
        }
        out
    }

    /// Up to `size` distinct folder names of the given root, selection
    /// driven by the seed.
    pub fn get_random_folders(&self, root: &str, size: i64, seed: u64) -> (r: Vec<String>)
        requires
            self.wf(),
            0 <= size,
        ensures
            ({
                let names = dedup(
                    sfilter(self@.recs, |rec: FileRec| rec.root == root@).map(
                        |_i: int, rec: FileRec| rec.folder_name,
                    ),
                );
                &&& r@.len() == if size <= names.len() {
                    size as int
                } else {
                    names.len() as int
                }
                &&& forall|j: int| 0 <= j < r@.len() ==> names.contains(#[trigger] r@[j]@)
            }),
    {
        let n = self.records.len();
        let ghost p = |rec: FileRec| rec.root == root@;
        let mut raw: Vec<String> = Vec::new();
        proof {
            assert(raw@.map(|_i: int, s: String| s@) =~= sfilter(self@.recs.subrange(0, 0), p).map(
                |_i: int, rec: FileRec| rec.folder_name,
            ));
        }
        let mut i: usize = 0;
        while i < n
            invariant
                n == self@.recs.len(),
                i <= n,
                raw@.map(|_i: int, s: String| s@) == sfilter(self@.recs.subrange(0, i as int), p).map(
                    |_i: int, rec: FileRec| rec.folder_name,
                ),
                p == (|rec: FileRec| rec.root == root@),
            decreases n - i,
        {
            proof {
                assert(self@.recs.subrange(0, i + 1 as int).drop_last() =~= self@.recs.subrange(
                    0,
                    i as int,
                ));
                assert(self@.recs.subrange(0, i + 1 as int).last() == self@.recs[i as int]);
            }
            if str_eq_str(self.records[i].root.as_str(), root) {
                raw.push(self.records[i].folder_name.clone());
                proof {
                    assert(raw@.map(|_i: int, s: String| s@) =~= sfilter(
                        self@.recs.subrange(0, i as int),
                        p,
                    ).map(|_i: int, rec: FileRec| rec.folder_name).push(
                        self@.recs[i as int].folder_name,
                    ));
                }
            }
            i = i + 1;
        }
        proof {
            assert(self@.recs.subrange(0, n as int) =~= self@.recs);
        }
        let ghost raw_v = sfilter(self@.recs, p).map(|_i: int, rec: FileRec| rec.folder_name);
        let m = raw.len();
        let mut uniq: Vec<String> = Vec::new();
        proof {
            assert(raw@.map(|_i: int, s: String| s@).len() == raw@.len());
            assert(uniq@.map(|_i: int, s: String| s@) =~= dedup(raw_v.subrange(0, 0)));
        }
        let mut i: usize = 0;
        while i < m
            invariant
                m == raw@.len(),
                i <= m,
                raw@.map(|_i: int, s: String| s@) == raw_v,
                raw_v.len() == m,
                uniq@.map(|_i: int, s: String| s@) == dedup(raw_v.subrange(0, i as int)),
            decreases m - i,
        {
            proof {
                assert(raw_v.subrange(0, i + 1 as int).drop_last() =~= raw_v.subrange(0, i as int));
                assert(raw_v.subrange(0, i + 1 as int).last() == raw_v[i as int]);
                assert(raw@[i as int]@ == raw_v[i as int]);
                lemma_dedup_contains(raw_v.subrange(0, i as int));
            }
            let mut dup = false;
            let u = uniq.len();
            let mut j: usize = 0;
            while j < u && !dup
                invariant
                    u == uniq@.len(),
                    j <= u,
                    i < m,
                    raw_v.len() == m,
                    raw@.map(|_i: int, s: String| s@) == raw_v,
                    uniq@.map(|_i: int, s: String| s@) == dedup(raw_v.subrange(0, i as int)),
                    dup ==> dedup(raw_v.subrange(0, i as int)).contains(raw_v[i as int]),
                    !dup ==> forall|k: int|
                        0 <= k < j ==> dedup(raw_v.subrange(0, i as int))[k] != raw_v[i as int],
                decreases u - j,
            {
                if str_eq_str(uniq[j].as_str(), raw[i].as_str()) {
                    dup = true;
                    proof {
                        assert(dedup(raw_v.subrange(0, i as int))[j as int] == raw_v[i as int]);
                    }
                }
                j = j + 1;
            }
            if !dup {
                proof {
                    assert(!dedup(raw_v.subrange(0, i as int)).contains(raw_v[i as int]));
                    assert(!raw_v.subrange(0, i as int).contains(raw_v[i as int]));
                }
                uniq.push(raw[i].clone());
                proof {
                    assert(uniq@.map(|_i: int, s: String| s@) =~= dedup(
                        raw_v.subrange(0, i as int),
                    ).push(raw_v[i as int]));
                }
            } else {
                proof {
                    assert(raw_v.subrange(0, i as int).contains(raw_v[i as int]));
                }
            }
            i = i + 1;
        }
        proof {
            assert(raw_v.subrange(0, m as int) =~= raw_v);
        }
        let ghost names = dedup(raw_v);
        let total = uniq.len();
        proof {
            assert(uniq@.map(|_i: int, s: String| s@).len() == uniq@.len());
            crate::tags::lemma_dedup_len(raw_v);
            lemma_sfilter_len(self@.recs, p);
            assert(raw_v.len() <= self@.recs.len());
            assert(total < 0x8000_0000);
            assert forall|j: int| 0 <= j < uniq@.len() implies names.contains(
                #[trigger] uniq@[j]@,
            ) by {
                assert(names[j] == uniq@[j]@);
            }
        }
        let k: usize = if size >= total as i64 {
            total
        } else {
            size as usize
        };
        let mut out: Vec<String> = Vec::new();
        let mut state: u64 = seed;
        while out.len() < k
            invariant
                k <= total,
                out@.len() <= k,
                out@.len() + uniq@.len() == total,
                total == names.len(),
                forall|j: int| 0 <= j < uniq@.len() ==> names.contains(#[trigger] uniq@[j]@),
                forall|j: int| 0 <= j < out@.len() ==> names.contains(#[trigger] out@[j]@),
            decreases k - out.len(),
        {
            state = state.wrapping_mul(6364136223846793005).wrapping_add(1442695040888963407);
            let idx = (state % (uniq.len() as u64)) as usize;
            let ghost old_uniq = uniq@;
            let picked = uniq.remove(idx);
            proof {
                assert(names.contains(picked@));
                assert forall|j: int| 0 <= j < uniq@.len() implies names.contains(
                    #[trigger] uniq@[j]@,
                ) by {
                    if j < idx {
                        assert(uniq@[j] == old_uniq[j]);
                    } else {
                        assert(uniq@[j] == old_uniq[j + 1]);
                    }
                }
            }
            out.push(picked);
        }
        out
    }

    /// Up to `size` records spread evenly over randomly chosen folders of
    /// the root: at most `size / folders_size` records from each folder.
    pub fn get_random_equal(&self, size: i64, root: &str, folders_size: i64, seed: u64) -> (r: Vec<
        FileSchema,
    >)
        requires
            self.wf(),
            0 <= size,
            0 < folders_size,
        ensures
            r@.len() <= size,
            forall|j: int| 0 <= j < r@.len() ==> self@.recs.contains(#[trigger] r@[j]@),
    {
        let folders = self.get_random_folders(root, folders_size, seed);
        let per = size / folders_size;
        proof {
            assert((size / folders_size) * folders_size <= size) by (nonlinear_arith)
                requires
                    0 < folders_size,
                    0 <= size,
            ;
            assert(folders@.len() <= folders_size);
        }
        let fcount = folders.len();
        let mut out: Vec<FileSchema> = Vec::new();
        let mut i: usize = 0;
        proof {
            reveal_strlit("*");
        }
        while i < fcount
            invariant
                fcount == folders@.len(),
                i <= fcount,
                fcount <= folders_size,
                0 <= per,
                per * folders_size <= size,
                out@.len() <= i * per,
                forall|j: int| 0 <= j < out@.len() ==> self@.recs.contains(#[trigger] out@[j]@),
                self.wf(),
            decreases fcount - i,
        {
            let sub = self.random(
                folders[i].as_str(),
                per,
                "*",
                "*",
                "*",
                seed.wrapping_add(i as u64),
            );
            let ghost p = |rec: FileRec| random_pred(rec, folders@[i as int]@, "*"@, "*"@, "*"@);
            proof {
                lemma_sfilter_len(self@.recs, p);
            }
            let ghost out_pre = out@;
            let mut j: usize = 0;
            let sn = sub.len();
            proof {
                assert(sub@.len() <= per);
            }
            while j < sn
                invariant
                    sn == sub@.len(),
                    j <= sn,
                    out@.len() == out_pre.len() + j,
                    forall|q: int| 0 <= q < out@.len() ==> self@.recs.contains(#[trigger] out@[q]@),
                    forall|q: int|
                        0 <= q < sub@.len() ==> sfilter(self@.recs, p).contains(
                            #[trigger] sub@[q]@,
                        ),
                    p == (|rec: FileRec| random_pred(rec, folders@[i as int]@, "*"@, "*"@, "*"@)),
                    self.wf(),
                decreases sn - j,
            {
                proof {
                    lemma_sfilter_len(self@.recs, p);
                    assert(sfilter(self@.recs, p).contains(sub@[j as int]@));
                }
                out.push(sub[j].duplicate());
                j = j + 1;
            }
            proof {
                assert(out@.len() == out_pre.len() + sn);
                assert(sn <= per);
                assert((i + 1) * per == i * per + per) by (nonlinear_arith);
            }
            i = i + 1;
        }
        proof {
            assert(out@.len() <= fcount * per);
            assert(fcount * per <= folders_size * per) by (nonlinear_arith)
                requires
                    0 <= per,
                    fcount <= folders_size,
            ;
            assert(folders_size * per == per * folders_size) by (nonlinear_arith);
        }
        out
    }

    /// Sets the tags column of the record with this hash to the processed,
    /// JSON-encoded tag list; returns the number of rows affected.
    pub fn add_tags(&mut self, file_hash: &str, new_tags: Vec<String>) -> (r: usize)
        requires
            old(self).wf(),
        ensures
            final(self).wf(),
            final(self)@.next_id == old(self)@.next_id,
            ({
                let enc = spec_encode_tags(
                    spec_process_tags(new_tags@.map(|_i: int, s: String| s@)),
                );
                if contains_hash(old(self)@.recs, file_hash@) {
                    let i = hash_index(old(self)@.recs, file_hash@);
                    &&& r == 1
                    &&& final(self)@.recs == old(self)@.recs.update(
                        i,
                        FileRec { tags: Some(enc), ..old(self)@.recs[i] },
                    )
                } else {
                    &&& r == 0
                    &&& final(self)@.recs == old(self)@.recs
                }
            }),
    {
        let processed = process_tag_list(&new_tags);
        let json_tags = encode_tags(&processed);
        match self.find_hash(file_hash) {
            Some(i) => {
                let mut rec = self.records[i].duplicate();
                rec.tags = Some(json_tags);
                self.records[i] = rec;
                proof {
                    let enc = spec_encode_tags(
                        spec_process_tags(new_tags@.map(|_i: int, s: String| s@)),
                    );
                    assert(self@.recs =~= old(self)@.recs.update(
                        i as int,
                        FileRec { tags: Some(enc), ..old(self)@.recs[i as int] },
                    ));
                    assert forall|a: int, b: int|
                        0 <= a < b < self@.recs.len() implies self@.recs[a].hash
                        != self@.recs[b].hash by {
                        assert(old(self)@.recs[a].hash != old(self)@.recs[b].hash);
                    }
                }
                1
            },
            None => {
                proof {
                    assert(self@.recs =~= old(self)@.recs);
                }
                0
            },
        }
    }

    /// Sets the tags column of every record in this folder to the
    /// processed, JSON-encoded tag list; returns how many were affected.
    pub fn add_tags_folder(&mut self, folder_name: &str, new_tags: Vec<String>) -> (r: usize)
        requires
            old(self).wf(),
        ensures
            final(self).wf(),
            final(self)@.next_id == old(self)@.next_id,
            ({
                let enc = spec_encode_tags(
                    spec_process_tags(new_tags@.map(|_i: int, s: String| s@)),
                );
                &&& final(self)@.recs.len() == old(self)@.recs.len()
                &&& forall|i: int|
                    0 <= i < old(self)@.recs.len() ==> final(self)@.recs[i] == (
                    if old(self)@.recs[i].folder_name == folder_name@ {
                        FileRec { tags: Some(enc), ..old(self)@.recs[i] }
                    } else {
                        old(self)@.recs[i]
                    })
                &&& r == sfilter(
                    old(self)@.recs,
                    |rec: FileRec| rec.folder_name == folder_name@,
                ).len()
            }),
    {
        let processed = process_tag_list(&new_tags);
        let json_tags = encode_tags(&processed);
        let ghost enc = spec_encode_tags(spec_process_tags(new_tags@.map(|_i: int, s: String| s@)));
        let ghost p = |rec: FileRec| rec.folder_name == folder_name@;
        let n = self.records.len();
        let mut count: usize = 0;
        let mut i: usize = 0;
        proof {
            lemma_sfilter_len(old(self)@.recs, p);
        }
        while i < n
            invariant
                n == old(self)@.recs.len(),
                i <= n,
                self@.recs.len() == n,
                self@.next_id == old(self)@.next_id,
                json_tags@ == enc,
                count == sfilter(old(self)@.recs.subrange(0, i as int), p).len(),
                count <= i,
                p == (|rec: FileRec| rec.folder_name == folder_name@),
                forall|q: int|
                    0 <= q < i ==> self@.recs[q] == (
                    if old(self)@.recs[q].folder_name == folder_name@ {
                        FileRec { tags: Some(enc), ..old(self)@.recs[q] }
                    } else {
                        old(self)@.recs[q]
                    }),
                forall|q: int| i <= q < n ==> self@.recs[q] == old(self)@.recs[q],
            decreases n - i,
        {
            proof {
                assert(old(self)@.recs.subrange(0, i + 1 as int).drop_last()
                    =~= old(self)@.recs.subrange(0, i as int));
                assert(old(self)@.recs.subrange(0, i + 1 as int).last() == old(
                    self,
                )@.recs[i as int]);
            }
            proof {
                assert(self@.recs[i as int] == old(self)@.recs[i as int]);
            }
            if str_eq_str(self.records[i].folder_name.as_str(), folder_name) {
                proof {
                    assert(old(self)@.recs[i as int].folder_name == folder_name@);
                }
                let mut rec = self.records[i].duplicate();
                rec.tags = Some(json_tags.clone());
                proof {
                    assert(rec@ == FileRec { tags: Some(enc), ..old(self)@.recs[i as int] });
                }
                let ghost pre_recs = self@.recs;
                self.records[i] = rec;
                count = count + 1;
                proof {
                    assert(self@.recs =~= pre_recs.update(i as int, rec@));
                    assert(self@.recs[i as int] == rec@);
                }
            }
            i = i + 1;
        }
        proof {
            assert(old(self)@.recs.subrange(0, n as int) =~= old(self)@.recs);
            assert forall|a: int, b: int|
                0 <= a < b < self@.recs.len() implies self@.recs[a].hash != self@.recs[b].hash by {
                assert(old(self)@.recs[a].hash != old(self)@.recs[b].hash);
            }
        }
        count
    }
}


/// The grouping key of a record: its folder name and root.
pub open spec fn rec_key(r: FileRec) -> (Seq<char>, Seq<char>) {
    (r.folder_name, r.root)
}

/// Whether some record carries this grouping key.
pub open spec fn has_key(s: Seq<FileRec>, k: (Seq<char>, Seq<char>)) -> bool {
    exists|i: int| 0 <= i < s.len() && rec_key(s[i]) == k
}

/// The distinct grouping keys, in first-occurrence order.
pub open spec fn group_keys(s: Seq<FileRec>) -> Seq<(Seq<char>, Seq<char>)>
    decreases s.len(),
{
    if s.len() == 0 {
        Seq::empty()
    } else {
        let ks = group_keys(s.drop_last());
        if has_key(s.drop_last(), rec_key(s.last())) {
            ks
        } else {
            ks.push(rec_key(s.last()))
        }
    }
}

/// The number of records carrying this grouping key.
pub open spec fn group_count(s: Seq<FileRec>, k: (Seq<char>, Seq<char>)) -> int {
    sfilter(s, |r: FileRec| rec_key(r) == k).len() as int
}

/// The key list holds exactly the keys that occur.
pub proof fn lemma_group_keys_contains(s: Seq<FileRec>)
    ensures
        forall|k: (Seq<char>, Seq<char>)| group_keys(s).contains(k) <==> has_key(s, k),
    decreases s.len(),
{
    if s.len() > 0 {
        let s0 = s.drop_last();
        lemma_group_keys_contains(s0);
        assert forall|k: (Seq<char>, Seq<char>)| has_key(s, k) implies group_keys(s).contains(
            k,
        ) by {
            let i = choose|i: int| 0 <= i < s.len() && rec_key(s[i]) == k;
            if i < s.len() - 1 {
                assert(rec_key(s0[i]) == k);
                assert(has_key(s0, k));
                assert(group_keys(s0).contains(k));
                let j = choose|j: int| 0 <= j < group_keys(s0).len() && group_keys(s0)[j] == k;
                assert(group_keys(s)[j] == k);
            } else {
                assert(k == rec_key(s.last()));
                if has_key(s0, rec_key(s.last())) {
                    assert(group_keys(s0).contains(k));
                    let j = choose|j: int| 0 <= j < group_keys(s0).len() && group_keys(s0)[j] == k;
                    assert(group_keys(s)[j] == k);
                } else {
                    assert(group_keys(s)[group_keys(s).len() - 1] == k);
                }
            }
            assert(group_keys(s).contains(k));
        }
        assert forall|k: (Seq<char>, Seq<char>)| group_keys(s).contains(k) implies has_key(
            s,
            k,
        ) by {
            let j = choose|j: int| 0 <= j < group_keys(s).len() && group_keys(s)[j] == k;
            if !has_key(s0, rec_key(s.last())) && j == group_keys(s).len() - 1 {
                assert(k == rec_key(s.last()));
                assert(rec_key(s[s.len() - 1]) == k);
            } else {
                assert(group_keys(s0)[j] == k);
                assert(group_keys(s0).contains(k));
                assert(has_key(s0, k));
                let i = choose|i: int| 0 <= i < s0.len() && rec_key(s0[i]) == k;
                assert(rec_key(s[i]) == k);
            }
            assert(has_key(s, k));
        }
    }
}

/// The key list has no repeated key.
pub proof fn lemma_group_keys_distinct(s: Seq<FileRec>)
    ensures
        forall|a: int, b: int|
            0 <= a < b < group_keys(s).len() ==> group_keys(s)[a] != group_keys(s)[b],
    decreases s.len(),
{
    if s.len() > 0 {
        let s0 = s.drop_last();
        lemma_group_keys_distinct(s0);
        lemma_group_keys_contains(s0);
        if !has_key(s0, rec_key(s.last())) {
            assert forall|a: int, b: int|
                0 <= a < b < group_keys(s).len() implies group_keys(s)[a] != group_keys(
                s,
            )[b] by {
                if b == group_keys(s).len() - 1 {
                    assert(group_keys(s)[a] == group_keys(s0)[a]);
                    assert(group_keys(s0).contains(group_keys(s0)[a]));
                }
            }
        }
    }
}

/// A key that occurs nowhere counts zero records.
pub proof fn lemma_group_count_zero(s: Seq<FileRec>, k: (Seq<char>, Seq<char>))
    requires
        !has_key(s, k),
    ensures
        group_count(s, k) == 0,
    decreases s.len(),
{
    if s.len() > 0 {
        let s0 = s.drop_last();
        assert forall|i: int| 0 <= i < s0.len() implies rec_key(s0[i]) != k by {
            assert(rec_key(s[i]) == rec_key(s0[i]));
        }
        lemma_group_count_zero(s0, k);
        assert(rec_key(s[s.len() - 1]) != k);
    }
}

/// The group count never exceeds the record count.
pub proof fn lemma_group_count_le(s: Seq<FileRec>, k: (Seq<char>, Seq<char>))
    ensures
        0 <= group_count(s, k) <= s.len(),
{
    lemma_sfilter_len(s, |r: FileRec| rec_key(r) == k);
}

/// The key list is never longer than the record list.
pub proof fn lemma_group_keys_len(s: Seq<FileRec>)
    ensures
        group_keys(s).len() <= s.len(),
    decreases s.len(),
{
    if s.len() > 0 {
        lemma_group_keys_len(s.drop_last());
    }
}

/// Groups a record list by folder name and root, in first-occurrence
/// order, counting the records of each group.
pub fn folder_groups(list: &Vec<FileSchema>) -> (r: Vec<FolderInfo>)
    requires
        list@.len() < 0x7fff_ffff,
    ensures
        ({
            let s = list@.map(|_i: int, x: FileSchema| x@);
            let ks = group_keys(s);
            &&& r@.len() == ks.len()
            &&& forall|a: int|
                0 <= a < ks.len() ==> (#[trigger] r@[a]).folder_name@ == ks[a].0 && r@[a].root@
                    == ks[a].1 && r@[a].count == group_count(s, ks[a])
        }),
{
    let ghost s = list@.map(|_i: int, x: FileSchema| x@);
    let n = list.len();
    let mut out: Vec<FolderInfo> = Vec::new();
    let mut i: usize = 0;
    proof {
        assert(s.subrange(0, 0) =~= Seq::<FileRec>::empty());
    }
    while i < n
        invariant
            n == list@.len(),
            n < 0x7fff_ffff,
            i <= n,
            s == list@.map(|_i: int, x: FileSchema| x@),
            s.len() == n,
            out@.len() == group_keys(s.subrange(0, i as int)).len(),
            forall|a: int|
                0 <= a < out@.len() ==> (#[trigger] out@[a]).folder_name@ == group_keys(
                    s.subrange(0, i as int),
                )[a].0 && out@[a].root@ == group_keys(s.subrange(0, i as int))[a].1
                    && out@[a].count == group_count(
                    s.subrange(0, i as int),
                    group_keys(s.subrange(0, i as int))[a],
                ),
        decreases n - i,
    {
        let ghost pre = s.subrange(0, i as int);
        proof {
            assert(s.subrange(0, i + 1 as int).drop_last() =~= pre);
            assert(s.subrange(0, i + 1 as int).last() == s[i as int]);
            assert(s[i as int] == list@[i as int]@);
            lemma_group_keys_contains(pre);
            lemma_group_keys_distinct(pre);
        }
        let rec = &list[i];
        let ghost k = rec_key(s[i as int]);
        let m = out.len();
        let mut found = false;
        let mut f: usize = 0;
        let mut j: usize = 0;
        while j < m && !found
            invariant
                m == out@.len(),
                j <= m,
                i < n,
                n == list@.len(),
                s.len() == n,
                s[i as int] == list@[i as int]@,
                k == rec_key(s[i as int]),
                rec.folder_name@ == k.0,
                rec.root@ == k.1,
                out@.len() == group_keys(pre).len(),
                forall|a: int|
                    0 <= a < out@.len() ==> (#[trigger] out@[a]).folder_name@ == group_keys(
                        pre,
                    )[a].0 && out@[a].root@ == group_keys(pre)[a].1,
                found ==> f < m && group_keys(pre)[f as int] == k,
                !found ==> forall|a: int| 0 <= a < j ==> group_keys(pre)[a] != k,
            decreases m - j,
        {
            let name_eq = str_eq_str(out[j].folder_name.as_str(), rec.folder_name.as_str());
            let root_eq = str_eq_str(out[j].root.as_str(), rec.root.as_str());
            proof {
                assert(out@[j as int].folder_name@ == group_keys(pre)[j as int].0);
                assert(out@[j as int].root@ == group_keys(pre)[j as int].1);
                assert(k.0 == rec.folder_name@ && k.1 == rec.root@);
            }
            if name_eq && root_eq {
                found = true;
                f = j;
                proof {
                    assert(group_keys(pre)[j as int] == k);
                }
            } else {
                proof {
                    assert(group_keys(pre)[j as int] != k);
                }
            }
            j = j + 1;
        }
        proof {
            assert forall|a: int, b: int|
                0 <= a < b < group_keys(pre).len() implies group_keys(pre)[a] != group_keys(
                pre,
            )[b] by {
                lemma_group_keys_distinct(pre);
            }
        }
        if found {
            proof {
                assert(group_keys(pre).contains(k)) by {
                    assert(group_keys(pre)[f as int] == k);
                }
                assert(has_key(pre, k));
                assert(group_keys(s.subrange(0, i + 1 as int)) =~= group_keys(pre));
                lemma_group_count_le(pre, k);
            }
            let name = out[f].folder_name.clone();
            let root = out[f].root.clone();
            let c = out[f].count;
            let ghost out_pre = out@;
            out[f] = FolderInfo { folder_name: name, count: c + 1, root };
            proof {
                let ks = group_keys(pre);
                let ext = s.subrange(0, i + 1 as int);
                assert(ext.drop_last() =~= pre);
                assert(group_keys(ext) == ks);
                assert forall|a: int| 0 <= a < out@.len() implies (
                #[trigger] out@[a]).folder_name@ == ks[a].0 && out@[a].root@ == ks[a].1
                    && out@[a].count == group_count(ext, ks[a]) by {
                    let pk = |r: FileRec| rec_key(r) == ks[a];
                    assert(sfilter(ext, pk) == if pk(ext.last()) {
                        sfilter(pre, pk).push(ext.last())
                    } else {
                        sfilter(pre, pk)
                    });
                    if a == f {
                        assert(out@[a].folder_name@ == out_pre[a].folder_name@);
                        assert(out@[a].count == out_pre[a].count + 1);
                        assert(pk(ext.last()));
                        assert(group_count(ext, ks[a]) == group_count(pre, ks[a]) + 1);
                    } else {
                        assert(out@[a] == out_pre[a]);
                        assert(ks[a] != k);
                        assert(!pk(ext.last()));
                        assert(group_count(ext, ks[a]) == group_count(pre, ks[a]));
                    }
                }
            }
        } else {
            proof {
                assert(forall|a: int| 0 <= a < group_keys(pre).len() ==> group_keys(pre)[a] != k);
                assert(!group_keys(pre).contains(k));
                assert(!has_key(pre, k));
                assert(group_keys(s.subrange(0, i + 1 as int)) =~= group_keys(pre).push(k));
                lemma_group_count_zero(pre, k);
            }
            out.push(
                FolderInfo {
                    folder_name: rec.folder_name.clone(),
                    count: 1,
                    root: rec.root.clone(),
                },
            );
            proof {
                let ext = s.subrange(0, i + 1 as int);
                let ks2 = group_keys(ext);
                assert(ext.drop_last() =~= pre);
                assert forall|a: int| 0 <= a < out@.len() implies (
                #[trigger] out@[a]).folder_name@ == ks2[a].0 && out@[a].root@ == ks2[a].1
                    && out@[a].count == group_count(ext, ks2[a]) by {
                    let pk = |r: FileRec| rec_key(r) == ks2[a];
                    assert(sfilter(ext, pk) == if pk(ext.last()) {
                        sfilter(pre, pk).push(ext.last())
                    } else {
                        sfilter(pre, pk)
                    });
                    if a < out@.len() - 1 {
                        assert(ks2[a] == group_keys(pre)[a]);
                        assert(forall|q: int|
                            0 <= q < group_keys(pre).len() ==> group_keys(pre)[q] != k);
                        assert(ks2[a] != k);
                        assert(!pk(ext.last()));
                        assert(group_count(ext, ks2[a]) == group_count(pre, ks2[a]));
                    } else {
                        assert(ks2[a] == k);
                        assert(pk(ext.last()));
                        lemma_group_count_zero(pre, k);
                        assert(group_count(ext, ks2[a]) == 1);
                        assert(out@[a].count == 1);
                    }
                }
            }
        }
        i = i + 1;
    }
    proof {
        assert(s.subrange(0, n as int) =~= s);
    }
    out
}

impl RecordStore {
    /// One page of the folder groups whose folder name matches the LIKE
    /// pattern under the given root.
    pub fn get_folders(&self, search_by: &str, root: &str, max_results: i64, offset: i64) -> (r:
        Vec<FolderInfo>)
        requires
            self.wf(),
            0 <= max_results,
            0 <= offset,
        ensures
            ({
                let flt = sfilter(
                    self@.recs,
                    |rec: FileRec| like_match(rec.folder_name, search_by@) && rec.root == root@,
                );
                let ks = group_keys(flt);
                let start = if offset <= ks.len() {
                    offset as int
                } else {
                    ks.len() as int
                };
                let end = if offset + max_results <= ks.len() {
                    offset + max_results
                } else {
                    ks.len() as int
                };
                &&& r@.len() == end - start
                &&& forall|a: int|
                    0 <= a < r@.len() ==> (#[trigger] r@[a]).folder_name@ == ks[start + a].0
                        && r@[a].root@ == ks[start + a].1 && r@[a].count == group_count(
                        flt,
                        ks[start + a],
                    )
            }),
    {
        let ghost p = |rec: FileRec| like_match(rec.folder_name, search_by@) && rec.root == root@;
        let n = self.records.len();
        let mut matches: Vec<FileSchema> = Vec::new();
        proof {
            assert(matches@.map(|_i: int, x: FileSchema| x@) =~= sfilter(
                self@.recs.subrange(0, 0),
                p,
            ));
        }
        let mut i: usize = 0;
        while i < n
            invariant
                n == self@.recs.len(),
                i <= n,
                matches@.map(|_i: int, x: FileSchema| x@) == sfilter(
                    self@.recs.subrange(0, i as int),
                    p,
                ),
                p == (|rec: FileRec| like_match(rec.folder_name, search_by@) && rec.root
                    == root@),
            decreases n - i,
        {
            proof {
                assert(self@.recs.subrange(0, i + 1 as int).drop_last() =~= self@.recs.subrange(
                    0,
                    i as int,
                ));
                assert(self@.recs.subrange(0, i + 1 as int).last() == self@.recs[i as int]);
            }
            if like_match_exec(self.records[i].folder_name.as_str(), search_by) && str_eq_str(
                self.records[i].root.as_str(),
                root,
            ) {
                matches.push(self.records[i].duplicate());
                proof {
                    assert(matches@.map(|_i: int, x: FileSchema| x@) =~= sfilter(
                        self@.recs.subrange(0, i as int),
                        p,
                    ).push(self@.recs[i as int]));
                }
            }
            i = i + 1;
        }
        proof {
            assert(self@.recs.subrange(0, n as int) =~= self@.recs);
            lemma_sfilter_len(self@.recs, p);
            assert(matches@.map(|_i: int, x: FileSchema| x@).len() == matches@.len());
        }
        let groups = folder_groups(&matches);
        let ghost flt = sfilter(self@.recs, p);
        let ghost ks = group_keys(flt);
        proof {
            assert(matches@.map(|_i: int, x: FileSchema| x@) == flt);
            lemma_group_keys_len(flt);
            assert(ks.len() <= flt.len() <= self@.recs.len() < 0x7fff_ffff);
        }
        let glen = groups.len();
        let start: usize = if offset >= glen as i64 {
            glen
        } else {
            offset as usize
        };
        let end: usize = if max_results >= (glen - start) as i64 {
            glen
        } else {
            start + (max_results as usize)
        };
        let mut out: Vec<FolderInfo> = Vec::new();
        let mut i: usize = start;
        while i < end
            invariant
                start <= i <= end <= groups@.len(),
                out@.len() == i - start,
                groups@.len() == ks.len(),
                forall|a: int|
                    0 <= a < ks.len() ==> (#[trigger] groups@[a]).folder_name@ == ks[a].0
                        && groups@[a].root@ == ks[a].1 && groups@[a].count == group_count(
                        flt,
                        ks[a],
                    ),
                forall|a: int| 0 <= a < out@.len() ==> out@[a] == groups@[start + a],
            decreases end - i,
        {
            let g = &groups[i];
            out.push(
                FolderInfo {
                    folder_name: g.folder_name.clone(),
                    count: g.count,
                    root: g.root.clone(),
                },
            );
            i = i + 1;
        }
        out
    }

    /// The folder groups whose folder name is exactly `name`.
    pub fn get_folder_by_name(&self, name: &str) -> (r: Vec<FolderInfo>)
        requires
            self.wf(),
        ensures
            ({
                let flt = sfilter(self@.recs, |rec: FileRec| rec.folder_name == name@);
                let ks = group_keys(flt);
                &&& r@.len() == ks.len()
                &&& forall|a: int|
                    0 <= a < ks.len() ==> (#[trigger] r@[a]).folder_name@ == ks[a].0
                        && r@[a].root@ == ks[a].1 && r@[a].count == group_count(flt, ks[a])
            }),
    {
        let matches = self.all_by_folder(name);
        proof {
            lemma_sfilter_len(self@.recs, |rec: FileRec| rec.folder_name == name@);
            assert(matches@.map(|_i: int, x: FileSchema| x@).len() == matches@.len());
        }
        folder_groups(&matches)
    }

    /// The distinct roots, in first-occurrence order.
    pub fn get_roots(&self) -> (r: Vec<String>)
        ensures
            r@.map(|_i: int, s: String| s@) == dedup(
                self@.recs.map(|_i: int, rec: FileRec| rec.root),
            ),
    {
        let ghost roots = self@.recs.map(|_i: int, rec: FileRec| rec.root);
        let n = self.records.len();
        let mut out: Vec<String> = Vec::new();
        proof {
            assert(roots.subrange(0, 0) =~= Seq::<Seq<char>>::empty());
            assert(out@.map(|_i: int, s: String| s@) =~= dedup(roots.subrange(0, 0)));
        }
        let mut i: usize = 0;
        while i < n
            invariant
                n == self@.recs.len(),
                i <= n,
                roots == self@.recs.map(|_i: int, rec: FileRec| rec.root),
                roots.len() == n,
                out@.map(|_i: int, s: String| s@) == dedup(roots.subrange(0, i as int)),
            decreases n - i,
        {
            proof {
                assert(roots.subrange(0, i + 1 as int).drop_last() =~= roots.subrange(0, i as int));
                assert(roots.subrange(0, i + 1 as int).last() == roots[i as int]);
                assert(roots[i as int] == self@.recs[i as int].root);
                lemma_dedup_contains(roots.subrange(0, i as int));
            }
            let mut dup = false;
            let m = out.len();
            let mut j: usize = 0;
            while j < m && !dup
                invariant
                    m == out@.len(),
                    j <= m,
                    i < n,
                    n == self@.recs.len(),
                    roots.len() == n,
                    roots[i as int] == self@.recs[i as int].root,
                    out@.map(|_i: int, s: String| s@) == dedup(roots.subrange(0, i as int)),
                    dup ==> dedup(roots.subrange(0, i as int)).contains(roots[i as int]),
                    !dup ==> forall|k: int|
                        0 <= k < j ==> dedup(roots.subrange(0, i as int))[k] != roots[i as int],
                decreases m - j,
            {
                if str_eq_str(out[j].as_str(), self.records[i].root.as_str()) {
                    dup = true;
                    proof {
                        assert(dedup(roots.subrange(0, i as int))[j as int] == roots[i as int]);
                    }
                }
                j = j + 1;
            }
            if !dup {
                proof {
                    assert(!dedup(roots.subrange(0, i as int)).contains(roots[i as int]));
                    assert(!roots.subrange(0, i as int).contains(roots[i as int]));
                }
                out.push(self.records[i].root.clone());
                proof {
                    assert(out@.map(|_i: int, s: String| s@) =~= dedup(
                        roots.subrange(0, i as int),
                    ).push(roots[i as int]));
                }
            } else {
                proof {
                    assert(roots.subrange(0, i as int).contains(roots[i as int]));
                }
            }
            i = i + 1;
        }
        proof {
            assert(roots.subrange(0, n as int) =~= roots);
        }
        out
    }

    /// One row per root: the root's record count, reported twice as the
    /// photo and folder-row counts of the grouped query.
    pub fn get_folders_roots(&self) -> (r: Vec<FolderRootsInfo>)
        requires
            self.wf(),
        ensures
            ({
                let roots = dedup(self@.recs.map(|_i: int, rec: FileRec| rec.root));
                &&& r@.len() == roots.len()
                &&& forall|a: int|
                    0 <= a < roots.len() ==> (#[trigger] r@[a]).root@ == roots[a] && r@[a].count
                        == sfilter(self@.recs, |rec: FileRec| rec.root == roots[a]).len()
                        && r@[a].f_count == r@[a].count
            }),
    {
        let names = self.get_roots();
        let n = names.len();
        let mut out: Vec<FolderRootsInfo> = Vec::new();
        let ghost roots = dedup(self@.recs.map(|_i: int, rec: FileRec| rec.root));
        proof {
            assert(names@.map(|_i: int, s: String| s@).len() == names@.len());
        }
        let mut i: usize = 0;
        while i < n
            invariant
                n == names@.len(),
                i <= n,
                names@.map(|_i: int, s: String| s@) == roots,
                roots.len() == n,
                self.wf(),
                out@.len() == i,
                forall|a: int|
                    0 <= a < i ==> (#[trigger] out@[a]).root@ == roots[a] && out@[a].count
                        == sfilter(self@.recs, |rec: FileRec| rec.root == roots[a]).len()
                        && out@[a].f_count == out@[a].count,
            decreases n - i,
        {
            let ghost rt = roots[i as int];
            let n2 = self.records.len();
            let ghost p = |rec: FileRec| rec.root == rt;
            let mut count: usize = 0;
            proof {
                assert(names@[i as int]@ == rt);
            }
            let mut j: usize = 0;
            while j < n2
                invariant
                    n2 == self@.recs.len(),
                    j <= n2,
                    names@[i as int]@ == rt,
                    i < n,
                    n == names@.len(),
                    count == sfilter(self@.recs.subrange(0, j as int), p).len(),
                    count <= j,
                    p == (|rec: FileRec| rec.root == rt),
                decreases n2 - j,
            {
                proof {
                    assert(self@.recs.subrange(0, j + 1 as int).drop_last() =~= self@.recs.subrange(
                        0,
                        j as int,
                    ));
                    assert(self@.recs.subrange(0, j + 1 as int).last() == self@.recs[j as int]);
                }
                if str_eq_str(self.records[j].root.as_str(), names[i].as_str()) {
                    count = count + 1;
                }
                j = j + 1;
            }
            proof {
                assert(self@.recs.subrange(0, n2 as int) =~= self@.recs);
                lemma_sfilter_len(self@.recs, p);
            }
            out.push(
                FolderRootsInfo {
                    count: count as i64,
                    root: names[i].clone(),
                    f_count: count as i64,
                },
            );
            i = i + 1;
        }
        out
    }

    /// Every distinct tag over the records of the folder (`*` for all
    /// folders), in first-occurrence order; unreadable tag columns are
    /// skipped.
    pub fn get_all_tags(&self, folder_name: &str) -> (r: Vec<String>)
        ensures
            r@.map(|_i: int, s: String| s@) == dedup(tags_concat(self@.recs, folder_name@)),
    {
        let n = self.records.len();
        let mut out: Vec<String> = Vec::new();
        let ghost fv = folder_name@;
        proof {
            reveal_strlit("*");
            assert(self@.recs.subrange(0, 0) =~= Seq::<FileRec>::empty());
            assert(out@.map(|_i: int, s: String| s@) =~= dedup(
                tags_concat(self@.recs.subrange(0, 0), fv),
            ));
        }
        let folder_all = str_eq_str(folder_name, "*");
        let mut i: usize = 0;
        while i < n
            invariant
                n == self@.recs.len(),
                i <= n,
                fv == folder_name@,
                folder_all == (fv == "*"@),
                out@.map(|_i: int, s: String| s@) == dedup(
                    tags_concat(self@.recs.subrange(0, i as int), fv),
                ),
            decreases n - i,
        {
            let ghost pre = self@.recs.subrange(0, i as int);
            proof {
                assert(self@.recs.subrange(0, i + 1 as int).drop_last() =~= pre);
                assert(self@.recs.subrange(0, i + 1 as int).last() == self@.recs[i as int]);
            }
            let rec = &self.records[i];
            let folder_ok = folder_all || str_eq_str(rec.folder_name.as_str(), folder_name);
            let mut items: Option<Vec<String>> = None;
            if folder_ok {
                items = match &rec.tags {
                    Some(t) => decode_tags(t.as_str()),
                    None => None,
                };
            }
            match items {
                Some(ts) => {
                    let ghost tsv = ts@.map(|_i: int, s: String| s@);
                    proof {
                        assert(rec_tag_list(self@.recs[i as int], fv) == tsv);
                    }
                    let tn = ts.len();
                    let mut q: usize = 0;
                    proof {
                        assert(tsv.subrange(0, 0) =~= Seq::<Seq<char>>::empty());
                        assert(tags_concat(pre, fv) + tsv.subrange(0, 0) =~= tags_concat(
                            pre,
                            fv,
                        ));
                    }
                    while q < tn
                        invariant
                            tn == ts@.len(),
                            q <= tn,
                            tsv == ts@.map(|_i: int, s: String| s@),
                            tsv.len() == tn,
                            out@.map(|_i: int, s: String| s@) == dedup(
                                tags_concat(pre, fv) + tsv.subrange(0, q as int),
                            ),
                        decreases tn - q,
                    {
                        let ghost cur = tags_concat(pre, fv) + tsv.subrange(0, q as int);
                        proof {
                            assert((tags_concat(pre, fv) + tsv.subrange(0, q + 1 as int)).drop_last()
                                =~= cur);
                            assert((tags_concat(pre, fv) + tsv.subrange(0, q + 1 as int)).last()
                                == tsv[q as int]);
                            assert(ts@[q as int]@ == tsv[q as int]);
                            lemma_dedup_contains(cur);
                        }
                        let mut dup = false;
                        let m = out.len();
                        let mut j: usize = 0;
                        while j < m && !dup
                            invariant
                                m == out@.len(),
                                j <= m,
                                q < tn,
                                tn == ts@.len(),
                                tsv.len() == tn,
                                ts@[q as int]@ == tsv[q as int],
                                cur == tags_concat(pre, fv) + tsv.subrange(0, q as int),
                                out@.map(|_i: int, s: String| s@) == dedup(cur),
                                dup ==> dedup(cur).contains(tsv[q as int]),
                                !dup ==> forall|k: int|
                                    0 <= k < j ==> dedup(cur)[k] != tsv[q as int],
                            decreases m - j,
                        {
                            if str_eq_str(out[j].as_str(), ts[q].as_str()) {
                                dup = true;
                                proof {
                                    assert(dedup(cur)[j as int] == tsv[q as int]);
                                }
                            }
                            j = j + 1;
                        }
                        if !dup {
                            proof {
                                assert(!dedup(cur).contains(tsv[q as int]));
                                assert(!cur.contains(tsv[q as int]));
                            }
                            out.push(ts[q].clone());
                            proof {
                                assert(out@.map(|_i: int, s: String| s@) =~= dedup(cur).push(
                                    tsv[q as int],
                                ));
                                assert(dedup(tags_concat(pre, fv) + tsv.subrange(0, q + 1 as int))
                                    == dedup(cur).push(tsv[q as int]));
                            }
                        } else {
                            proof {
                                assert(cur.contains(tsv[q as int]));
                                assert(dedup(tags_concat(pre, fv) + tsv.subrange(0, q + 1 as int))
                                    == dedup(cur));
                            }
                        }
                        q = q + 1;
                    }
                    proof {
                        assert(tsv.subrange(0, tn as int) =~= tsv);
                        assert(tags_concat(self@.recs.subrange(0, i + 1 as int), fv)
                            =~= tags_concat(pre, fv) + tsv);
                    }
                },
                None => {
                    proof {
                        assert(rec_tag_list(self@.recs[i as int], fv) =~= Seq::<Seq<char>>::empty());
                        assert(tags_concat(self@.recs.subrange(0, i + 1 as int), fv)
                            =~= tags_concat(pre, fv));
                    }
                },
            }
            i = i + 1;
        }
        proof {
            assert(self@.recs.subrange(0, n as int) =~= self@.recs);
        }
        out
    }
}

/// The decoded tags one record contributes to the folder's tag query.
pub open spec fn rec_tag_list(r: FileRec, folder: Seq<char>) -> Seq<Seq<char>> {
    if folder == "*"@ || r.folder_name == folder {
        match r.tags {
            Some(t) => match spec_decode_tags(t) {
                Some(ts) => ts,
                None => Seq::empty(),
            },
            None => Seq::empty(),
        }
    } else {
        Seq::empty()
    }
}

/// The concatenation of the decoded tag lists of the folder's records.
pub open spec fn tags_concat(recs: Seq<FileRec>, folder: Seq<char>) -> Seq<Seq<char>>
    decreases recs.len(),
{
    if recs.len() == 0 {
        Seq::empty()
    } else {
        tags_concat(recs.drop_last(), folder) + rec_tag_list(recs.last(), folder)
    }
}

} // verus!
