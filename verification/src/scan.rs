//! The directory-scan core: per-entry filtering, the fast dedup probe over a
//! known-hash set, metadata extraction, and the write-through into the
//! record store.
//!
//! The walk itself (filesystem enumeration, reading bytes, modification
//! times) happens outside; each discovered entry is handed in as a plain
//! value and the whole pass over them is verified against `scan_run`.

use crate::hashing::{calculate_sha256, sha256_hex_of};
use crate::images::{decoded_dims, probe_dims};
use crate::paths::{
    contains_marker,
    extension_of,
    file_name_of,
    folder_name_of,
    is_hidden,
    is_image,
    last_index_of,
    sanitize_folder,
    spec_contains_marker,
    spec_extension,
    spec_file_name,
    spec_folder_name,
    spec_is_hidden,
    spec_is_image,
    spec_sanitize_folder,
    spec_stem,
    stem_of,
    truncate_strings,
};
use crate::records::{
    contains_hash,
    insert_model,
    update_model,
    Image,
    ImgRec,
    RecordStore,
    StoreModel,
};
use crate::strutil::{lower_of, lowercase, str_eq_str, take_chars};
use vstd::prelude::*;
use vstd::string::StrSliceExecFns;

verus! {

/// One filesystem entry as the walker reports it: its path, whether it is a
/// directory, its modification time (seconds since the epoch, if readable),
/// and its content bytes.
pub struct ScanEntry {
    pub path: String,
    pub is_dir: bool,
    pub mtime: Option<u64>,
    pub data: Vec<u8>,
}

/// The mathematical value of a scan entry.
#[verifier::ext_equal]
pub ghost struct EntryRec {
    pub path: Seq<char>,
    pub is_dir: bool,
    pub mtime: Option<u64>,
    pub data: Seq<u8>,
}

impl View for ScanEntry {
    type V = EntryRec;

    open spec fn view(&self) -> EntryRec {
        EntryRec { path: self.path@, is_dir: self.is_dir, mtime: self.mtime, data: self.data@ }
    }
}

/// The pixel dimensions and the path-derived name fields of one image file.
pub struct ImageInfo {
    pub file_name: String,
    pub file_extension: String,
    pub folder_name: String,
    pub w: u32,
    pub h: u32,
}

/// Derives the stem, extension and parent folder purely from the path, and
/// probes the content bytes for pixel dimensions; unreadable bytes give
/// (0, 0).
pub fn extract_image_info(path: &str, data: &Vec<u8>) -> (info: ImageInfo)
    ensures
        info.file_name@ == spec_stem(path@),
        info.file_extension@ == spec_extension(path@),
        info.folder_name@ == spec_folder_name(path@),
        (info.w, info.h) == decoded_dims(data@),
{
    let dim = probe_dims(data);
    ImageInfo {
        file_name: stem_of(path),
        file_extension: extension_of(path),
        folder_name: folder_name_of(path),
        w: dim.0,
        h: dim.1,
    }
}

/// The number of occurrences of `c` in `s`.
pub open spec fn count_char(s: Seq<char>, c: char) -> int
    decreases s.len(),
{
    if s.len() == 0 {
        0
    } else {
        count_char(s.drop_last(), c) + if s.last() == c {
            1int
        } else {
            0int
        }
    }
}

/// The part of the stem after its single `_`, when the stem splits into
/// exactly two `_`-separated parts.
pub open spec fn split2_suffix(stem: Seq<char>) -> Option<Seq<char>> {
    if count_char(stem, '_') == 1 {
        Some(stem.subrange(last_index_of(stem, '_') + 1, stem.len() as int))
    } else {
        None
    }
}

/// The membership probe for the fast dedup check: the embedded hash suffix
/// of the stem, truncated to the 16-character prefix the known-hash set
/// stores; empty when the stem has no such suffix.
pub open spec fn probe_of(e: EntryRec) -> Seq<char> {
    spec_probe(e.path)
}

fn count_char_exec(s: &str, c: char) -> (r: usize)
    ensures
        r == count_char(s@, c),
{
    let n: usize = s.unicode_len();
    let mut count: usize = 0;
    let mut i: usize = 0;
    proof {
        assert(s@.subrange(0, 0) =~= Seq::<char>::empty());
    }
    while i < n
        invariant
            n == s@.len(),
            i <= n,
            count == count_char(s@.subrange(0, i as int), c),
            count <= i,
        decreases n - i,
    {
        proof {
            assert(s@.subrange(0, i + 1 as int).drop_last() =~= s@.subrange(0, i as int));
            assert(s@.subrange(0, i + 1 as int).last() == s@[i as int]);
        }
        if s.get_char(i) == c {
            count = count + 1;
        }
        i = i + 1;
    }
    proof {
        assert(s@.subrange(0, n as int) =~= s@);
    }
    count
}

/// The count of a character that occurs is positive exactly when the last
/// index finds it.
pub proof fn lemma_count_pos_last_index(s: Seq<char>, c: char)
    ensures
        count_char(s, c) > 0 ==> 0 <= last_index_of(s, c) < s.len(),
    decreases s.len(),
{
    if s.len() > 0 {
        lemma_count_pos_last_index(s.drop_last(), c);
    }
}

/// The fast-dedup probe derived from the path alone.
pub open spec fn spec_probe(path: Seq<char>) -> Seq<char> {
    match split2_suffix(spec_stem(path)) {
        Some(s) => take_chars(s, 16),
        None => Seq::empty(),
    }
}

/// The fast-dedup probe of one entry, as an owned string.
fn probe_of_exec(path: &str) -> (r: String)
    ensures
        r@ == spec_probe(path@),
{
    let stem = stem_of(path);
    let s = stem.as_str();
    let n: usize = s.unicode_len();
    proof {
        assert(s@.subrange(0, n as int) =~= s@);
    }
    if count_char_exec(s, '_') == 1 {
        proof {
            lemma_count_pos_last_index(s@, '_');
        }
        let idx = match crate::paths::last_index_in(s, n, '_') {
            Some(i) => i,
            None => {
                proof {
                    assert(false);
                }
                0
            },
        };
        let suffix = s.substring_char(idx + 1, n);
        crate::strutil::truncate_chars(suffix, 16)
    } else {
        String::new()
    }
}

/// Whether the entry is screened out before any hashing: hidden, in a
/// vendor thumbnail directory, a directory itself, or not an image file.
pub open spec fn prescreen_skip(e: EntryRec) -> bool {
    ||| spec_is_hidden(spec_file_name(e.path))
    ||| spec_contains_marker(e.path)
    ||| e.is_dir
    ||| !spec_is_image(e.path)
}

/// Whether the incremental check skips the entry: not forcing, a last-scan
/// time is known, and the file has not been modified since.
pub open spec fn mtime_skip(e: EntryRec, force: bool, last: Option<u64>) -> bool {
    &&& !force
    &&& last matches Some(l)
    &&& e.mtime matches Some(m)
    &&& m <= l
}

/// Whether the known-hash set contains this probe.
pub open spec fn known_contains(known: Seq<Seq<char>>, probe: Seq<char>) -> bool {
    exists|i: int| 0 <= i < known.len() && known[i] == probe
}

/// Whether the entry is skipped without hashing.
pub open spec fn scan_skip(
    e: EntryRec,
    force: bool,
    last: Option<u64>,
    known: Seq<Seq<char>>,
) -> bool {
    ||| prescreen_skip(e)
    ||| mtime_skip(e, force, last)
    ||| known_contains(known, probe_of(e))
}

/// Whether the probed dimensions reject the entry.
pub open spec fn zero_dim(e: EntryRec) -> bool {
    decoded_dims(e.data).0 == 0 || decoded_dims(e.data).1 == 0
}

/// The record fields the scanner derives for one processed entry.
pub open spec fn scan_image_of(e: EntryRec, root: Seq<char>) -> ImgRec {
    ImgRec {
        path: e.path,
        hash: sha256_hex_of(e.data),
        extension: lower_of(spec_extension(e.path)),
        filename: spec_stem(e.path),
        folder_name: spec_sanitize_folder(spec_folder_name(e.path)),
        width: decoded_dims(e.data).0 as i32,
        height: decoded_dims(e.data).1 as i32,
        root: root,
    }
}

/// Whether the write for this entry fails (the store has no id left).
pub open spec fn write_fails(m: StoreModel, img: ImgRec) -> bool {
    !contains_hash(m.recs, img.hash) && m.next_id == i32::MAX
}

/// The store and the folder names announced so far.
#[verifier::ext_equal]
pub ghost struct ScanOutcome {
    pub store: StoreModel,
    pub announced: Seq<Seq<char>>,
}

/// What one entry does to the store and the progress report.
pub open spec fn scan_step(
    o: ScanOutcome,
    e: EntryRec,
    root: Seq<char>,
    force: bool,
    last: Option<u64>,
    known: Seq<Seq<char>>,
) -> ScanOutcome {
    if scan_skip(e, force, last, known) || zero_dim(e) {
        o
    } else {
        let img = scan_image_of(e, root);
        let store = if force {
            update_model(o.store, img)
        } else {
            insert_model(o.store, img)
        };
        let folder = spec_folder_name(e.path);
        let announced = if !write_fails(o.store, img) && !o.announced.contains(folder) {
            o.announced.push(folder)
        } else {
            o.announced
        };
        ScanOutcome { store, announced }
    }
}

/// One pass over a sequence of entries, left to right.
pub open spec fn scan_run(
    o: ScanOutcome,
    es: Seq<EntryRec>,
    root: Seq<char>,
    force: bool,
    last: Option<u64>,
    known: Seq<Seq<char>>,
) -> ScanOutcome
    decreases es.len(),
{
    if es.len() == 0 {
        o
    } else {
        scan_step(scan_run(o, es.drop_last(), root, force, last, known), es.last(), root, force, last, known)
    }
}

/// The known-hash set a non-forced pass loads: every stored hash, truncated
/// to its 16-character prefix.
pub open spec fn known_of(m: StoreModel) -> Seq<Seq<char>> {
    m.recs.map(|_i: int, r: crate::records::FileRec| take_chars(r.hash, 16))
}

/// The store a full pass leaves behind: entries run against the known-hash
/// snapshot taken at the start (empty in force mode).
pub open spec fn spec_walk(
    m: StoreModel,
    es: Seq<EntryRec>,
    root: Seq<char>,
    force: bool,
    last: Option<u64>,
) -> ScanOutcome {
    scan_run(
        ScanOutcome { store: m, announced: Seq::empty() },
        es,
        root,
        force,
        last,
        if force {
            Seq::empty()
        } else {
            known_of(m)
        },
    )
}

/// One full or incremental pass over the discovered entries of one root
/// directory, synchronizing them into the store. Returns the distinct raw
/// folder names for which a write went through, in the order they were
/// first seen.
pub fn walk_directory(
    store: &mut RecordStore,
    dir_path: &str,
    force_write: bool,
    last_indexed: Option<u64>,
    entries: &Vec<ScanEntry>,
) -> (printed: Vec<String>)
    requires
        old(store).wf(),
    ensures
        final(store).wf(),
        ({
            let outcome = spec_walk(
                old(store)@,
                entries@.map(|_i: int, e: ScanEntry| e@),
                dir_path@,
                force_write,
                last_indexed,
            );
            final(store)@ == outcome.store && printed@.map(|_i: int, s: String| s@)
                == outcome.announced
        }),
{
    let ghost es = entries@.map(|_i: int, e: ScanEntry| e@);
    let mut known: Vec<String> = Vec::new();
    if !force_write {
        known = store.all_hashes();
        truncate_strings(&mut known);
    }
    let ghost known_view = known@.map(|_i: int, s: String| s@);
    proof {
        if !force_write {
            assert(known_view =~= known_of(store@));
        } else {
            assert(known_view =~= Seq::<Seq<char>>::empty());
        }
    }
    let mut printed: Vec<String> = Vec::new();
    let n = entries.len();
    let mut idx: usize = 0;
    proof {
        assert(es.subrange(0, 0) =~= Seq::<EntryRec>::empty());
        assert(printed@.map(|_i: int, s: String| s@) =~= Seq::<Seq<char>>::empty());
    }
    while idx < n
        invariant
            n == entries@.len(),
            idx <= n,
            es == entries@.map(|_i: int, e: ScanEntry| e@),
            known_view == known@.map(|_i: int, s: String| s@),
            store.wf(),
            ({
                let outcome = scan_run(
                    ScanOutcome { store: old(store)@, announced: Seq::empty() },
                    es.subrange(0, idx as int),
                    dir_path@,
                    force_write,
                    last_indexed,
                    known_view,
                );
                store@ == outcome.store && printed@.map(|_i: int, s: String| s@)
                    == outcome.announced
            }),
        decreases n - idx,
    {
        let ghost pre_outcome = scan_run(
            ScanOutcome { store: old(store)@, announced: Seq::empty() },
            es.subrange(0, idx as int),
            dir_path@,
            force_write,
            last_indexed,
            known_view,
        );
        proof {
            assert(es.subrange(0, idx + 1 as int).drop_last() =~= es.subrange(0, idx as int));
            assert(es.subrange(0, idx + 1 as int).last() == es[idx as int]);
            assert(es[idx as int] == entries@[idx as int]@);
        }
        let entry = &entries[idx];
        let ghost e = entry@;

        let path = entry.path.as_str();
        let name = file_name_of(path);
        let skip_pre = is_hidden(name.as_str()) || contains_marker(path) || entry.is_dir
            || !is_image(path);
        let skip_mtime = !force_write && match (last_indexed, entry.mtime) {
            (Some(last), Some(mtime)) => mtime <= last,
            _ => false,
        };
        let probe = probe_of_exec(path);
        proof {
            assert(probe@ == probe_of(e));
        }
        let mut in_known = false;
        let kn = known.len();
        let mut ki: usize = 0;
        while ki < kn && !in_known
            invariant
                kn == known@.len(),
                ki <= kn,
                known_view == known@.map(|_i: int, s: String| s@),
                in_known ==> known_contains(known_view, probe@),
                !in_known ==> forall|j: int| 0 <= j < ki ==> known_view[j] != probe@,
            decreases kn - ki,
        {
            if str_eq_str(known[ki].as_str(), probe.as_str()) {
                in_known = true;
                proof {
                    assert(known_view[ki as int] == probe@);
                }
            }
            ki = ki + 1;
        }
        let skipped = skip_pre || skip_mtime || in_known;
        proof {
            assert(skip_pre == prescreen_skip(e));
            assert(skip_mtime == mtime_skip(e, force_write, last_indexed));
            assert(in_known == known_contains(known_view, probe_of(e)));
            assert(skipped == scan_skip(e, force_write, last_indexed, known_view));
        }
        if !skipped {
            let hash_value = calculate_sha256(&entry.data);
            let image_info = extract_image_info(path, &entry.data);
            let folder_name = image_info.folder_name;
            let trim_folder_name = sanitize_folder(folder_name.as_str());
            if image_info.w == 0 || image_info.h == 0 {
                proof {
                    assert(zero_dim(e));
                }
            } else {
                proof {
                    assert(!zero_dim(e));
                }
                let image = Image {
                    root: String::from_str(dir_path),
                    path: entry.path.clone(),
                    hash: hash_value,
                    extension: lowercase(image_info.file_extension.as_str()),
                    filename: image_info.file_name,
                    folder_name: trim_folder_name,
                    width: #[verifier::truncate] (image_info.w as i32),
                    height: #[verifier::truncate] (image_info.h as i32),
                };
                proof {
                    assert(image@ == scan_image_of(e, dir_path@));
                }
                let ghost failed = write_fails(store@, image@);
                let write_ok = if force_write {
                    match store.update(image) {
                        Ok(_) => true,
                        Err(_) => false,
                    }
                } else {
                    match store.insert(image) {
                        Ok(_) => true,
                        Err(_) => false,
                    }
                };
                proof {
                    assert(write_ok == !failed);
                }
                if write_ok {
                    let mut seen = false;
                    let pn = printed.len();
                    let mut pi: usize = 0;
                    while pi < pn && !seen
                        invariant
                            pn == printed@.len(),
                            pi <= pn,
                            printed@.map(|_i: int, s: String| s@) == pre_outcome.announced,
                            seen ==> pre_outcome.announced.contains(folder_name@),
                            !seen ==> forall|j: int|
                                0 <= j < pi ==> pre_outcome.announced[j] != folder_name@,
                        decreases pn - pi,
                    {
                        if str_eq_str(printed[pi].as_str(), folder_name.as_str()) {
                            seen = true;
                            proof {
                                assert(pre_outcome.announced[pi as int] == folder_name@);
                            }
                        }
                        pi = pi + 1;
                    }
                    proof {
                        if !seen {
                            assert(!pre_outcome.announced.contains(folder_name@));
                        }
                    }
                    if !seen {
                        printed.push(folder_name);
                        proof {
                            assert(printed@.map(|_i: int, s: String| s@)
                                =~= pre_outcome.announced.push(spec_folder_name(e.path)));
                        }
                    }
                }
            }
        }
        idx = idx + 1;
    }
    proof {
        assert(es.subrange(0, n as int) =~= es);
    }
    printed
}


/// Whether some stored hash has this 16-character prefix.
pub open spec fn trunc_contains(m: StoreModel, t: Seq<char>) -> bool {
    exists|i: int| 0 <= i < m.recs.len() && take_chars(m.recs[i].hash, 16) == t
}

/// Membership in the loaded known-hash set is membership among truncated
/// stored hashes.
pub proof fn lemma_known_of_contains(m: StoreModel, t: Seq<char>)
    ensures
        known_contains(known_of(m), t) == trunc_contains(m, t),
{
    if known_contains(known_of(m), t) {
        let i = choose|i: int| 0 <= i < known_of(m).len() && known_of(m)[i] == t;
        assert(take_chars(m.recs[i].hash, 16) == t);
    }
    if trunc_contains(m, t) {
        let i = choose|i: int| 0 <= i < m.recs.len() && take_chars(m.recs[i].hash, 16) == t;
        assert(known_of(m)[i] == t);
    }
}

/// One scan step keeps the store well-formed, never removes a hash or a
/// truncated hash, and never decreases the id counter.
pub proof fn lemma_step_mono(
    o: ScanOutcome,
    e: EntryRec,
    root: Seq<char>,
    force: bool,
    last: Option<u64>,
    known: Seq<Seq<char>>,
)
    requires
        crate::records::store_wf(o.store),
    ensures
        ({
            let o2 = scan_step(o, e, root, force, last, known);
            &&& crate::records::store_wf(o2.store)
            &&& o.store.next_id <= o2.store.next_id
            &&& (o.store.next_id == i32::MAX ==> o2.store.next_id == i32::MAX)
            &&& forall|h: Seq<char>|
                contains_hash(o.store.recs, h) ==> contains_hash(o2.store.recs, h)
            &&& forall|t: Seq<char>| trunc_contains(o.store, t) ==> trunc_contains(o2.store, t)
        }),
{
    let o2 = scan_step(o, e, root, force, last, known);
    if !(scan_skip(e, force, last, known) || zero_dim(e)) {
        let img = scan_image_of(e, root);
        if force {
            crate::records::lemma_update_wf(o.store, img);
            let m2 = update_model(o.store, img);
            if contains_hash(o.store.recs, img.hash) {
                assert forall|h: Seq<char>|
                    contains_hash(o.store.recs, h) implies contains_hash(m2.recs, h) by {
                    let i = choose|i: int|
                        0 <= i < o.store.recs.len() && o.store.recs[i].hash == h;
                    assert(m2.recs[i].hash == h);
                }
                assert forall|t: Seq<char>| trunc_contains(o.store, t) implies trunc_contains(
                    m2,
                    t,
                ) by {
                    let i = choose|i: int|
                        0 <= i < o.store.recs.len() && take_chars(o.store.recs[i].hash, 16) == t;
                    assert(take_chars(m2.recs[i].hash, 16) == t);
                }
            } else if o.store.next_id < i32::MAX {
                assert forall|h: Seq<char>|
                    contains_hash(o.store.recs, h) implies contains_hash(m2.recs, h) by {
                    let i = choose|i: int|
                        0 <= i < o.store.recs.len() && o.store.recs[i].hash == h;
                    assert(m2.recs[i].hash == h);
                }
                assert forall|t: Seq<char>| trunc_contains(o.store, t) implies trunc_contains(
                    m2,
                    t,
                ) by {
                    let i = choose|i: int|
                        0 <= i < o.store.recs.len() && take_chars(o.store.recs[i].hash, 16) == t;
                    assert(take_chars(m2.recs[i].hash, 16) == t);
                }
            }
        } else {
            crate::records::lemma_insert_wf(o.store, img);
            let m2 = insert_model(o.store, img);
            if !contains_hash(o.store.recs, img.hash) && o.store.next_id < i32::MAX {
                assert forall|h: Seq<char>|
                    contains_hash(o.store.recs, h) implies contains_hash(m2.recs, h) by {
                    let i = choose|i: int|
                        0 <= i < o.store.recs.len() && o.store.recs[i].hash == h;
                    assert(m2.recs[i].hash == h);
                }
                assert forall|t: Seq<char>| trunc_contains(o.store, t) implies trunc_contains(
                    m2,
                    t,
                ) by {
                    let i = choose|i: int|
                        0 <= i < o.store.recs.len() && take_chars(o.store.recs[i].hash, 16) == t;
                    assert(take_chars(m2.recs[i].hash, 16) == t);
                }
            }
        }
    }
}

/// A whole pass keeps the store well-formed and monotone in the same sense.
pub proof fn lemma_run_mono(
    o: ScanOutcome,
    es: Seq<EntryRec>,
    root: Seq<char>,
    force: bool,
    last: Option<u64>,
    known: Seq<Seq<char>>,
)
    requires
        crate::records::store_wf(o.store),
    ensures
        ({
            let o2 = scan_run(o, es, root, force, last, known);
            &&& crate::records::store_wf(o2.store)
            &&& o.store.next_id <= o2.store.next_id
            &&& (o.store.next_id == i32::MAX ==> o2.store.next_id == i32::MAX)
            &&& forall|h: Seq<char>|
                contains_hash(o.store.recs, h) ==> contains_hash(o2.store.recs, h)
            &&& forall|t: Seq<char>| trunc_contains(o.store, t) ==> trunc_contains(o2.store, t)
        }),
    decreases es.len(),
{
    if es.len() > 0 {
        lemma_run_mono(o, es.drop_last(), root, force, last, known);
        lemma_step_mono(
            scan_run(o, es.drop_last(), root, force, last, known),
            es.last(),
            root,
            force,
            last,
            known,
        );
    }
}

/// After a non-forced pass, every entry that was hashed and written has its
/// hash in the store, unless the store ran out of ids.
pub proof fn lemma_run_covers(
    o: ScanOutcome,
    es: Seq<EntryRec>,
    root: Seq<char>,
    last: Option<u64>,
    known: Seq<Seq<char>>,
)
    requires
        crate::records::store_wf(o.store),
    ensures
        ({
            let o2 = scan_run(o, es, root, false, last, known);
            forall|k: int|
                0 <= k < es.len() && !scan_skip(es[k], false, last, known) && !zero_dim(es[k])
                    ==> contains_hash(o2.store.recs, sha256_hex_of(es[k].data))
                    || o2.store.next_id == i32::MAX
        }),
    decreases es.len(),
{
    if es.len() > 0 {
        let es0 = es.drop_last();
        let e = es.last();
        lemma_run_covers(o, es0, root, last, known);
        lemma_run_mono(o, es0, root, false, last, known);
        let o1 = scan_run(o, es0, root, false, last, known);
        lemma_step_mono(o1, e, root, false, last, known);
        let o2 = scan_run(o, es, root, false, last, known);
        assert forall|k: int|
            0 <= k < es.len() && !scan_skip(es[k], false, last, known) && !zero_dim(es[k])
                implies contains_hash(o2.store.recs, sha256_hex_of(es[k].data))
                || o2.store.next_id == i32::MAX by {
            if k < es.len() - 1 {
                assert(es0[k] == es[k]);
                assert(contains_hash(o1.store.recs, sha256_hex_of(es0[k].data))
                    || o1.store.next_id == i32::MAX);
            } else {
                let img = scan_image_of(e, root);
                assert(o2.store == insert_model(o1.store, img));
                if contains_hash(o1.store.recs, img.hash) {
                } else if o1.store.next_id < i32::MAX {
                    assert(o2.store.recs[o1.store.recs.len() as int].hash == img.hash);
                }
            }
        }
    }
}

/// A non-forced pass over entries that are all skipped, rejected, already
/// stored, or blocked by id exhaustion leaves the store untouched.
pub proof fn lemma_run_noop(
    o: ScanOutcome,
    es: Seq<EntryRec>,
    root: Seq<char>,
    last: Option<u64>,
    known: Seq<Seq<char>>,
)
    requires
        crate::records::store_wf(o.store),
        forall|k: int|
            0 <= k < es.len() ==> scan_skip(es[k], false, last, known) || zero_dim(es[k])
                || contains_hash(o.store.recs, sha256_hex_of(es[k].data)) || o.store.next_id
                == i32::MAX,
    ensures
        scan_run(o, es, root, false, last, known).store == o.store,
    decreases es.len(),
{
    if es.len() > 0 {
        let es0 = es.drop_last();
        assert(forall|k: int| 0 <= k < es0.len() ==> es0[k] == es[k]);
        lemma_run_noop(o, es0, root, last, known);
        let o1 = scan_run(o, es0, root, false, last, known);
        let e = es.last();
        assert(e == es[es.len() - 1]);
        if !(scan_skip(e, false, last, known) || zero_dim(e)) {
            let img = scan_image_of(e, root);
            assert(contains_hash(o1.store.recs, img.hash) || o1.store.next_id == i32::MAX);
        }
    }
}

/// Idempotence of indexing. A second non-forced pass over unchanged entries
/// writes nothing: every entry is either skipped outright, rejected for its
/// dimensions, caught by the known-hash probe, or its content hash is
/// already stored, so insert-or-ignore drops it.
pub proof fn lemma_index_idempotent(
    m: StoreModel,
    es: Seq<EntryRec>,
    root: Seq<char>,
    last: Option<u64>,
)
    requires
        crate::records::store_wf(m),
    ensures
        spec_walk(spec_walk(m, es, root, false, last).store, es, root, false, last).store
            == spec_walk(m, es, root, false, last).store,
{
    let k0 = known_of(m);
    let o0 = ScanOutcome { store: m, announced: Seq::empty() };
    let o1 = scan_run(o0, es, root, false, last, k0);
    let m1 = o1.store;
    let k1 = known_of(m1);
    lemma_run_mono(o0, es, root, false, last, k0);
    lemma_run_covers(o0, es, root, last, k0);
    assert forall|k: int|
        0 <= k < es.len() implies scan_skip(es[k], false, last, k1) || zero_dim(es[k])
        || contains_hash(m1.recs, sha256_hex_of(es[k].data)) || m1.next_id == i32::MAX by {
        let e = es[k];
        if prescreen_skip(e) || mtime_skip(e, false, last) {
        } else if scan_skip(e, false, last, k0) {
            assert(known_contains(k0, probe_of(e)));
            lemma_known_of_contains(m, probe_of(e));
            assert(trunc_contains(m, probe_of(e)));
            assert(trunc_contains(m1, probe_of(e)));
            lemma_known_of_contains(m1, probe_of(e));
            assert(known_contains(k1, probe_of(e)));
        } else if zero_dim(e) {
        } else {
            assert(contains_hash(m1.recs, sha256_hex_of(e.data)) || m1.next_id == i32::MAX);
        }
    }
    let o1b = ScanOutcome { store: m1, announced: Seq::empty() };
    lemma_run_noop(o1b, es, root, last, k1);
}

/// One scan step adds or rewrites only records with nonzero dimensions.
pub proof fn lemma_step_rejects_zero(
    o: ScanOutcome,
    e: EntryRec,
    root: Seq<char>,
    force: bool,
    last: Option<u64>,
    known: Seq<Seq<char>>,
)
    requires
        crate::records::store_wf(o.store),
    ensures
        ({
            let o2 = scan_step(o, e, root, force, last, known);
            forall|x: crate::records::FileRec|
                o2.store.recs.contains(x) ==> o.store.recs.contains(x) || (x.width != 0
                    && x.height != 0)
        }),
{
    let o2 = scan_step(o, e, root, force, last, known);
    if !(scan_skip(e, force, last, known) || zero_dim(e)) {
        let img = scan_image_of(e, root);
        let w = decoded_dims(e.data).0;
        let h = decoded_dims(e.data).1;
        assert(w != 0 ==> w as i32 != 0) by (bit_vector);
        assert(h != 0 ==> h as i32 != 0) by (bit_vector);
        assert(img.width != 0 && img.height != 0);
        assert forall|x: crate::records::FileRec|
            o2.store.recs.contains(x) implies o.store.recs.contains(x) || (x.width != 0
                && x.height != 0) by {
            let j = choose|j: int| 0 <= j < o2.store.recs.len() && o2.store.recs[j] == x;
            if force {
                if contains_hash(o.store.recs, img.hash) {
                    let i = crate::records::hash_index(o.store.recs, img.hash);
                    if j == i {
                        assert(x == crate::records::update_rec_of_old(img, o.store.recs[i]));
                    } else {
                        assert(o.store.recs[j] == x);
                    }
                } else if o.store.next_id < i32::MAX {
                    if j < o.store.recs.len() {
                        assert(o.store.recs[j] == x);
                    } else {
                        assert(x == crate::records::update_rec_of_new(img, o.store.next_id));
                    }
                } else {
                    assert(o.store.recs[j] == x);
                }
            } else {
                if !contains_hash(o.store.recs, img.hash) && o.store.next_id < i32::MAX {
                    if j < o.store.recs.len() {
                        assert(o.store.recs[j] == x);
                    } else {
                        assert(x == crate::records::insert_rec_of(img, o.store.next_id));
                    }
                } else {
                    assert(o.store.recs[j] == x);
                }
            }
        }
    }
}

/// Zero-dimension rejection. A pass never persists a record with a zero
/// width or height: every record it leaves behind either predates the pass
/// or has both dimensions nonzero.
pub proof fn lemma_zero_dimension_rejection(
    m: StoreModel,
    es: Seq<EntryRec>,
    root: Seq<char>,
    force: bool,
    last: Option<u64>,
)
    requires
        crate::records::store_wf(m),
    ensures
        forall|x: crate::records::FileRec|
            spec_walk(m, es, root, force, last).store.recs.contains(x) ==> m.recs.contains(x) || (
            x.width != 0 && x.height != 0),
{
    let known = if force {
        Seq::<Seq<char>>::empty()
    } else {
        known_of(m)
    };
    let o0 = ScanOutcome { store: m, announced: Seq::empty() };
    lemma_run_rejects_zero(o0, es, root, force, last, known);
}

/// A whole pass adds or rewrites only records with nonzero dimensions.
pub proof fn lemma_run_rejects_zero(
    o: ScanOutcome,
    es: Seq<EntryRec>,
    root: Seq<char>,
    force: bool,
    last: Option<u64>,
    known: Seq<Seq<char>>,
)
    requires
        crate::records::store_wf(o.store),
    ensures
        ({
            let o2 = scan_run(o, es, root, force, last, known);
            forall|x: crate::records::FileRec|
                o2.store.recs.contains(x) ==> o.store.recs.contains(x) || (x.width != 0
                    && x.height != 0)
        }),
    decreases es.len(),
{
    if es.len() > 0 {
        lemma_run_rejects_zero(o, es.drop_last(), root, force, last, known);
        lemma_run_mono(o, es.drop_last(), root, force, last, known);
        lemma_step_rejects_zero(
            scan_run(o, es.drop_last(), root, force, last, known),
            es.last(),
            root,
            force,
            last,
            known,
        );
    }
}


/// The number of entries a pass hashes and writes: those neither skipped
/// nor rejected for their dimensions.
pub open spec fn process_count(
    es: Seq<EntryRec>,
    force: bool,
    last: Option<u64>,
    known: Seq<Seq<char>>,
) -> int
    decreases es.len(),
{
    if es.len() == 0 {
        0
    } else {
        process_count(es.drop_last(), force, last, known) + if scan_skip(
            es.last(),
            force,
            last,
            known,
        ) || zero_dim(es.last()) {
            0int
        } else {
            1int
        }
    }
}

/// The processed count never exceeds the entry count.
pub proof fn lemma_process_count_le(
    es: Seq<EntryRec>,
    force: bool,
    last: Option<u64>,
    known: Seq<Seq<char>>,
)
    ensures
        0 <= process_count(es, force, last, known) <= es.len(),
    decreases es.len(),
{
    if es.len() > 0 {
        lemma_process_count_le(es.drop_last(), force, last, known);
    }
}

/// Counting, against a fixed known-hash snapshot: a non-forced pass over
/// entries whose content hashes are fresh and pairwise distinct grows the
/// store by exactly one record per processed entry, and the stored hashes
/// afterwards are the old ones plus those of the processed entries.
proof fn lemma_scan_count_run(
    m: StoreModel,
    es: Seq<EntryRec>,
    root: Seq<char>,
    last: Option<u64>,
    known: Seq<Seq<char>>,
)
    requires
        crate::records::store_wf(m),
        m.next_id + es.len() <= i32::MAX,
        forall|k: int|
            0 <= k < es.len() && !scan_skip(#[trigger] es[k], false, last, known) && !zero_dim(
                es[k],
            ) ==> !contains_hash(m.recs, sha256_hex_of(es[k].data)),
        forall|k1: int, k2: int|
            0 <= k1 < k2 < es.len() && !scan_skip(#[trigger] es[k1], false, last, known)
                && !zero_dim(es[k1]) && !scan_skip(#[trigger] es[k2], false, last, known)
                && !zero_dim(es[k2]) ==> sha256_hex_of(es[k1].data) != sha256_hex_of(es[k2].data),
    ensures
        ({
            let o = scan_run(
                ScanOutcome { store: m, announced: Seq::empty() },
                es,
                root,
                false,
                last,
                known,
            );
            &&& o.store.recs.len() == m.recs.len() + process_count(es, false, last, known)
            &&& o.store.next_id == m.next_id + process_count(es, false, last, known)
            &&& forall|h: Seq<char>|
                contains_hash(o.store.recs, h) <==> (contains_hash(m.recs, h) || exists|k: int|
                    0 <= k < es.len() && !scan_skip(#[trigger] es[k], false, last, known)
                        && !zero_dim(es[k]) && h == sha256_hex_of(es[k].data))
        }),
    decreases es.len(),
{
    if es.len() > 0 {
        let es0 = es.drop_last();
        let e = es.last();
        assert(forall|k: int| 0 <= k < es0.len() ==> es0[k] == es[k]);
        lemma_scan_count_run(m, es0, root, last, known);
        lemma_process_count_le(es0, false, last, known);
        let o0 = scan_run(
            ScanOutcome { store: m, announced: Seq::empty() },
            es0,
            root,
            false,
            last,
            known,
        );
        let o = scan_run(
            ScanOutcome { store: m, announced: Seq::empty() },
            es,
            root,
            false,
            last,
            known,
        );
        assert(o == scan_step(o0, e, root, false, last, known));
        if scan_skip(e, false, last, known) || zero_dim(e) {
            assert(o.store == o0.store);
            assert forall|h: Seq<char>|
                contains_hash(o.store.recs, h) <==> (contains_hash(m.recs, h) || exists|k: int|
                    0 <= k < es.len() && !scan_skip(#[trigger] es[k], false, last, known)
                        && !zero_dim(es[k]) && h == sha256_hex_of(es[k].data)) by {
                if exists|k: int|
                    0 <= k < es.len() && !scan_skip(#[trigger] es[k], false, last, known)
                        && !zero_dim(es[k]) && h == sha256_hex_of(es[k].data) {
                    let k = choose|k: int|
                        0 <= k < es.len() && !scan_skip(#[trigger] es[k], false, last, known)
                            && !zero_dim(es[k]) && h == sha256_hex_of(es[k].data);
                    assert(k < es0.len());
                    assert(es0[k] == es[k]);
                }
                if exists|k: int|
                    0 <= k < es0.len() && !scan_skip(#[trigger] es0[k], false, last, known)
                        && !zero_dim(es0[k]) && h == sha256_hex_of(es0[k].data) {
                    let k = choose|k: int|
                        0 <= k < es0.len() && !scan_skip(#[trigger] es0[k], false, last, known)
                            && !zero_dim(es0[k]) && h == sha256_hex_of(es0[k].data);
                    assert(es[k] == es0[k]);
                }
            }
        } else {
            let img = scan_image_of(e, root);
            let he = sha256_hex_of(e.data);
            assert(img.hash == he);
            assert(!contains_hash(m.recs, he)) by {
                assert(es[es.len() - 1] == e);
            }
            assert(!(exists|k: int|
                0 <= k < es0.len() && !scan_skip(#[trigger] es0[k], false, last, known)
                    && !zero_dim(es0[k]) && he == sha256_hex_of(es0[k].data))) by {
                if exists|k: int|
                    0 <= k < es0.len() && !scan_skip(#[trigger] es0[k], false, last, known)
                        && !zero_dim(es0[k]) && he == sha256_hex_of(es0[k].data) {
                    let k = choose|k: int|
                        0 <= k < es0.len() && !scan_skip(#[trigger] es0[k], false, last, known)
                            && !zero_dim(es0[k]) && he == sha256_hex_of(es0[k].data);
                    assert(es[k] == es0[k]);
                    assert(sha256_hex_of(es[k].data) != sha256_hex_of(es[es.len() - 1].data));
                    assert(false);
                }
            }
            assert(!contains_hash(o0.store.recs, he));
            assert(o0.store.next_id < i32::MAX);
            assert(o.store.recs == o0.store.recs.push(
                crate::records::insert_rec_of(img, o0.store.next_id),
            ));
            assert forall|h: Seq<char>|
                contains_hash(o.store.recs, h) <==> (contains_hash(m.recs, h) || exists|k: int|
                    0 <= k < es.len() && !scan_skip(#[trigger] es[k], false, last, known)
                        && !zero_dim(es[k]) && h == sha256_hex_of(es[k].data)) by {
                if contains_hash(o.store.recs, h) {
                    let i = choose|i: int|
                        0 <= i < o.store.recs.len() && o.store.recs[i].hash == h;
                    if i < o0.store.recs.len() {
                        assert(contains_hash(o0.store.recs, h));
                        if !contains_hash(m.recs, h) {
                            let k = choose|k: int|
                                0 <= k < es0.len() && !scan_skip(
                                    #[trigger] es0[k],
                                    false,
                                    last,
                                    known,
                                ) && !zero_dim(es0[k]) && h == sha256_hex_of(es0[k].data);
                            assert(es[k] == es0[k]);
                            assert(0 <= k < es.len() && !scan_skip(es[k], false, last, known)
                                && !zero_dim(es[k]) && h == sha256_hex_of(es[k].data));
                        }
                    } else {
                        assert(h == he);
                        assert(es[es.len() - 1] == e);
                        assert(0 <= es.len() - 1 < es.len() && !scan_skip(
                            es[es.len() - 1],
                            false,
                            last,
                            known,
                        ) && !zero_dim(es[es.len() - 1]) && h == sha256_hex_of(
                            es[es.len() - 1].data,
                        ));
                    }
                }
                if contains_hash(m.recs, h) {
                    assert(contains_hash(o0.store.recs, h));
                    let i = choose|i: int|
                        0 <= i < o0.store.recs.len() && o0.store.recs[i].hash == h;
                    assert(o.store.recs[i].hash == h);
                }
                if exists|k: int|
                    0 <= k < es.len() && !scan_skip(#[trigger] es[k], false, last, known)
                        && !zero_dim(es[k]) && h == sha256_hex_of(es[k].data) {
                    let k = choose|k: int|
                        0 <= k < es.len() && !scan_skip(#[trigger] es[k], false, last, known)
                            && !zero_dim(es[k]) && h == sha256_hex_of(es[k].data);
                    if k < es0.len() {
                        assert(es0[k] == es[k]);
                        assert(contains_hash(o0.store.recs, h));
                        let i = choose|i: int|
                            0 <= i < o0.store.recs.len() && o0.store.recs[i].hash == h;
                        assert(o.store.recs[i].hash == h);
                    } else {
                        assert(h == he);
                        assert(o.store.recs[o.store.recs.len() - 1].hash == he);
                    }
                }
            }
        }
    }
}

/// End-to-end counting. A non-forced pass over entries whose content
/// hashes are not yet stored and pairwise distinct inserts exactly one
/// record per processed entry: skipped entries and entries whose
/// dimensions cannot be read add nothing, and the scan completes over all
/// of them.
pub proof fn lemma_scan_count(
    m: StoreModel,
    es: Seq<EntryRec>,
    root: Seq<char>,
    last: Option<u64>,
)
    requires
        crate::records::store_wf(m),
        m.next_id + es.len() <= i32::MAX,
        forall|k: int|
            0 <= k < es.len() && !scan_skip(#[trigger] es[k], false, last, known_of(m))
                && !zero_dim(es[k]) ==> !contains_hash(m.recs, sha256_hex_of(es[k].data)),
        forall|k1: int, k2: int|
            0 <= k1 < k2 < es.len() && !scan_skip(#[trigger] es[k1], false, last, known_of(m))
                && !zero_dim(es[k1]) && !scan_skip(#[trigger] es[k2], false, last, known_of(m))
                && !zero_dim(es[k2]) ==> sha256_hex_of(es[k1].data) != sha256_hex_of(
                es[k2].data,
            ),
    ensures
        spec_walk(m, es, root, false, last).store.recs.len() == m.recs.len() + process_count(
            es,
            false,
            last,
            known_of(m),
        ),
{
    lemma_scan_count_run(m, es, root, last, known_of(m));
}

} // verus!
