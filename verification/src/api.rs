//! The request-handling cores: parameter validation, pagination, search
//! patterns, the per-folder memo of file listings, and the JSON-shaped
//! response values the transport layer serializes.

use crate::error::{AppError, AppResult};
use crate::like::like_match;
use crate::records::{
    group_count,
    group_keys,
    lemma_group_count_le,
    lemma_sfilter_len,
    random_pred,
    sfilter,
    FileRec,
    FileSchema,
    FolderInfo,
    RecordStore,
};
use crate::strutil::{push_char, str_eq_str};
use vstd::prelude::*;
use vstd::string::StrSliceExecFns;
use vstd::string::StringExecFns;

verus! {

/// A tag assignment to one image.
#[derive(Debug)]
pub struct TagAssign {
    pub image_hash: String,
    pub tags: Vec<String>,
}

/// A tag assignment to a whole folder.
#[derive(Debug)]
pub struct TagFolderAssign {
    pub folder_name: String,
    pub tags: Vec<String>,
}

/// A folder-deletion request.
#[derive(Debug)]
pub struct DeleteFolder {
    pub folder_name: String,
}

/// One folder row of the folders endpoint.
#[derive(Debug)]
pub struct JsonFolderResponse {
    pub title: String,
    pub photo_count: usize,
    pub tags: Vec<String>,
    pub root: String,
}

/// One root row of the roots endpoint.
#[derive(Debug)]
pub struct JsonRootResponse {
    pub root: String,
    pub photo_count: usize,
    pub folder_count: usize,
}

/// A page of file records.
#[derive(Debug)]
pub struct JsonFileResponse {
    pub items: Vec<FileSchema>,
    pub page: usize,
    pub total: usize,
}

/// The tags of one file.
#[derive(Debug)]
pub struct JsonFileTagsResponse {
    pub tags: Vec<String>,
}

/// A tag form submission.
#[derive(Debug)]
pub struct FileTags {
    pub file_hash: String,
    pub tags: Vec<String>,
}

/// A random-files query.
#[derive(Debug)]
pub struct RandomQuery {
    pub size: usize,
    pub folder: String,
    pub tag: String,
    pub equal: bool,
    pub equal_size: usize,
    pub root: String,
    pub extension: String,
}

impl JsonFileResponse {
    /// A response carrying the given files.
    pub fn with_files(files: Vec<FileSchema>, page: usize, total: usize) -> (r: JsonFileResponse)
        ensures
            r.items == files,
            r.page == page,
            r.total == total,
    {
        JsonFileResponse { items: files, page, total }
    }

    /// A response with no files.
    pub fn empty(page: usize) -> (r: JsonFileResponse)
        ensures
            r.items@.len() == 0,
            r.page == page,
            r.total == 0,
    {
        JsonFileResponse { items: Vec::new(), page, total: 0 }
    }
}

/// A size clamped into the given bounds, the minimum when absent.
pub open spec fn spec_normalize_size(size: Option<usize>, min: usize, max: usize) -> usize {
    let v = match size {
        Some(s) => s,
        None => min,
    };
    if v < min {
        min
    } else if v > max {
        max
    } else {
        v
    }
}

/// Clamps an optional size into bounds.
pub fn normalize_size(size: Option<usize>, min: usize, max: usize) -> (r: usize)
    requires
        min <= max,
    ensures
        r == spec_normalize_size(size, min, max),
{
    let v = match size {
        Some(s) => s,
        None => min,
    };
    if v < min {
        min
    } else if v > max {
        max
    } else {
        v
    }
}

/// The LIKE metacharacters of a search term escaped with a backslash.
pub open spec fn esc_like(s: Seq<char>) -> Seq<char>
    decreases s.len(),
{
    if s.len() == 0 {
        Seq::empty()
    } else {
        let r = esc_like(s.drop_last());
        let c = s.last();
        if c == '%' || c == '_' {
            r.push('\\').push(c)
        } else {
            r.push(c)
        }
    }
}

/// `s` with every leading `\%` pair removed.
pub open spec fn strip_esc_pre(s: Seq<char>) -> Seq<char>
    decreases s.len(),
{
    if s.len() >= 2 && s[0] == '\\' && s[1] == '%' {
        strip_esc_pre(s.skip(2))
    } else {
        s
    }
}

/// `s` with every trailing `\%` pair removed.
pub open spec fn strip_esc_suf(s: Seq<char>) -> Seq<char>
    decreases s.len(),
{
    if s.len() >= 2 && s[s.len() - 2] == '\\' && s[s.len() - 1] == '%' {
        strip_esc_suf(s.take(s.len() - 2))
    } else {
        s
    }
}

/// What the search-pattern builder produces: metacharacters escaped, then
/// either the already-wrapping escaped percents removed or the term
/// wrapped in `%` wildcards.
pub open spec fn spec_format_search_pattern(s: Seq<char>) -> Seq<char> {
    let e = esc_like(s);
    if e.len() >= 2 && e[0] == '\\' && e[1] == '%' && e[e.len() - 2] == '\\' && e[e.len() - 1]
        == '%' {
        strip_esc_suf(strip_esc_pre(e))
    } else {
        seq!['%'] + e + seq!['%']
    }
}

/// Builds a safe LIKE pattern from a user search term.
pub fn format_search_pattern(pattern: &str) -> (r: String)
    ensures
        r@ == spec_format_search_pattern(pattern@),
{
    let n: usize = pattern.unicode_len();
    let mut sanitized = String::new();
    let mut i: usize = 0;
    proof {
        assert(sanitized@ =~= esc_like(pattern@.subrange(0, 0)));
    }
    while i < n
        invariant
            n == pattern@.len(),
            i <= n,
            sanitized@ == esc_like(pattern@.subrange(0, i as int)),
        decreases n - i,
    {
        let c = pattern.get_char(i);
        proof {
            assert(pattern@.subrange(0, i + 1 as int).drop_last() =~= pattern@.subrange(
                0,
                i as int,
            ));
            assert(pattern@.subrange(0, i + 1 as int).last() == c);
        }
        if c == '%' || c == '_' {
            push_char(&mut sanitized, '\\');
            push_char(&mut sanitized, c);
        } else {
            push_char(&mut sanitized, c);
        }
        i = i + 1;
    }
    proof {
        assert(pattern@.subrange(0, n as int) =~= pattern@);
    }
    let s = sanitized.as_str();
    let m: usize = s.unicode_len();
    let wrapped = m >= 2 && s.get_char(0) == '\\' && s.get_char(1) == '%' && s.get_char(m - 2)
        == '\\' && s.get_char(m - 1) == '%';
    if wrapped {
        let mut start: usize = 0;
        proof {
            assert(s@.skip(0) =~= s@);
        }
        while start < m - 1 && s.get_char(start) == '\\' && s.get_char(start + 1) == '%'
            invariant
                2 <= m == s@.len(),
                start <= m,
                strip_esc_pre(s@) == strip_esc_pre(s@.skip(start as int)),
            decreases m - start,
        {
            proof {
                assert(s@.skip(start as int)[0] == s@[start as int]);
                assert(s@.skip(start as int)[1] == s@[start + 1 as int]);
                assert(s@.skip(start as int).skip(2) =~= s@.skip(start + 2 as int));
            }
            start = start + 2;
        }
        proof {
            if start + 1 < m {
                assert(s@.skip(start as int)[0] == s@[start as int]);
                if s@[start as int] == '\\' {
                    assert(s@.skip(start as int)[1] == s@[start + 1 as int]);
                }
            }
            assert(strip_esc_pre(s@.skip(start as int)) == s@.skip(start as int));
        }
        let mut end: usize = m;
        let ghost mid = s@.skip(start as int);
        proof {
            assert(mid.take(mid.len() as int) =~= mid);
            assert(mid =~= s@.subrange(start as int, m as int));
        }
        while end - start > 1 && s.get_char(end - 2) == '\\' && s.get_char(end - 1) == '%'
            invariant
                m == s@.len(),
                start <= end <= m,
                mid == s@.subrange(start as int, m as int),
                strip_esc_suf(mid) == strip_esc_suf(s@.subrange(start as int, end as int)),
            decreases end,
        {
            let ghost cur = s@.subrange(start as int, end as int);
            proof {
                assert(cur[cur.len() - 2] == s@[end - 2 as int]);
                assert(cur[cur.len() - 1] == s@[end - 1 as int]);
                assert(cur.take(cur.len() - 2) =~= s@.subrange(start as int, end - 2 as int));
            }
            end = end - 2;
        }
        proof {
            let cur = s@.subrange(start as int, end as int);
            if end - start > 1 {
                assert(cur[cur.len() - 2] == s@[end - 2 as int]);
                assert(cur[cur.len() - 1] == s@[end - 1 as int]);
            }
            assert(strip_esc_suf(cur) == cur);
        }
        String::from_str(s.substring_char(start, end))
    } else {
        let mut out = String::new();
        push_char(&mut out, '%');
        let mut out = out.concat(s);
        push_char(&mut out, '%');
        proof {
            assert(out@ =~= seq!['%'] + s@ + seq!['%']);
        }
        out
    }
}

/// The single path segment a request names, after the router strips
/// trailing slashes; `None` when the raw parameter holds an embedded slash
/// and so matches no single-segment route.
pub open spec fn spec_route_segment(raw: Seq<char>) -> Option<Seq<char>> {
    let t = crate::paths::strip_ts(raw);
    if crate::strutil::contains_seq(t, seq!['/']) {
        None
    } else {
        Some(t)
    }
}

/// Resolves a raw path parameter to its single segment, as the router
/// does: trailing slashes dropped, an embedded slash means no match.
pub fn route_segment(raw: &str) -> (r: Option<String>)
    ensures
        match r {
            Some(s) => spec_route_segment(raw@) == Some(s@),
            None => spec_route_segment(raw@) is None,
        },
{
    let k = crate::paths::stripped_len(raw);
    let t = raw.substring_char(0, k);
    proof {
        reveal_strlit("/");
        assert("/"@ =~= seq!['/']);
    }
    if crate::strutil::contains_exec(t, "/") {
        None
    } else {
        Some(String::from_str(t))
    }
}

/// The per-folder memo of file listings, filled by the listing endpoints.
pub struct StateFiles {
    entries: Vec<(String, Vec<FileSchema>)>,
}

/// The first entry of the memo holding this key.
pub open spec fn lookup_in(
    s: Seq<(Seq<char>, Seq<FileRec>)>,
    k: Seq<char>,
) -> Option<Seq<FileRec>>
    decreases s.len(),
{
    if s.len() == 0 {
        None
    } else if s.first().0 == k {
        Some(s.first().1)
    } else {
        lookup_in(s.drop_first(), k)
    }
}

impl StateFiles {
    /// The memo's entries as key and record-list values.
    pub closed spec fn entries_view(&self) -> Seq<(Seq<char>, Seq<FileRec>)> {
        self.entries@.map(
            |_i: int, e: (String, Vec<FileSchema>)|
                (e.0@, e.1@.map(|_j: int, x: FileSchema| x@)),
        )
    }

    /// The memoized listing for a folder key.
    pub open spec fn spec_lookup(&self, k: Seq<char>) -> Option<Seq<FileRec>> {
        lookup_in(self.entries_view(), k)
    }

    /// An empty memo.
    pub fn new() -> (s: StateFiles)
        ensures
            s.entries_view() =~= Seq::<(Seq<char>, Seq<FileRec>)>::empty(),
    {
        let s = StateFiles { entries: Vec::new() };
        proof {
            assert(s.entries_view() =~= Seq::<(Seq<char>, Seq<FileRec>)>::empty());
        }
        s
    }

    /// The memoized files of a folder, copied out.
    pub fn get(&self, folder: &str) -> (r: Option<Vec<FileSchema>>)
        ensures
            match r {
                Some(files) => self.spec_lookup(folder@) == Some(
                    files@.map(|_j: int, x: FileSchema| x@),
                ),
                None => self.spec_lookup(folder@) is None,
            },
    {
        let n = self.entries.len();
        let ghost ev = self.entries_view();
        let mut i: usize = 0;
        proof {
            assert(ev.skip(0) =~= ev);
        }
        while i < n
            invariant
                n == self.entries@.len(),
                ev == self.entries_view(),
                ev.len() == n,
                i <= n,
                lookup_in(ev, folder@) == lookup_in(ev.skip(i as int), folder@),
            decreases n - i,
        {
            proof {
                assert(ev.skip(i as int).first() == ev[i as int]);
                assert(ev.skip(i as int).drop_first() =~= ev.skip(i + 1 as int));
            }
            if str_eq_str(self.entries[i].0.as_str(), folder) {
                let src = &self.entries[i].1;
                let m = src.len();
                let mut files: Vec<FileSchema> = Vec::new();
                let mut j: usize = 0;
                while j < m
                    invariant
                        m == src@.len(),
                        j <= m,
                        files@.len() == j,
                        forall|q: int| 0 <= q < j ==> files@[q] == src@[q],
                    decreases m - j,
                {
                    files.push(src[j].duplicate());
                    j = j + 1;
                }
                proof {
                    assert(files@.map(|_j: int, x: FileSchema| x@) =~= ev[i as int].1);
                }
                return Some(files);
            }
            i = i + 1;
        }
        None
    }

    /// Appends the files under the folder key: to its first entry if one
    /// exists, else as a fresh entry.
    pub fn extend_entry(&mut self, folder: &str, files: &Vec<FileSchema>)
        ensures
            final(self).spec_lookup(folder@) == Some(
                (match old(self).spec_lookup(folder@) {
                    Some(prev) => prev,
                    None => Seq::<FileRec>::empty(),
                }) + files@.map(|_j: int, x: FileSchema| x@),
            ),
    {
        let n = self.entries.len();
        let ghost ev = self.entries_view();
        let mut i: usize = 0;
        proof {
            assert(ev.skip(0) =~= ev);
        }
        while i < n
            invariant
                self == old(self),
                n == self.entries@.len(),
                ev == self.entries_view(),
                ev.len() == n,
                i <= n,
                lookup_in(ev, folder@) == lookup_in(ev.skip(i as int), folder@),
                forall|q: int| 0 <= q < i ==> ev[q].0 != folder@,
            decreases n - i,
        {
            proof {
                assert(ev.skip(i as int).first() == ev[i as int]);
                assert(ev.skip(i as int).drop_first() =~= ev.skip(i + 1 as int));
            }
            if str_eq_str(self.entries[i].0.as_str(), folder) {
                let key = self.entries[i].0.clone();
                let mut merged: Vec<FileSchema> = Vec::new();
                let em = self.entries[i].1.len();
                let mut j: usize = 0;
                while j < em
                    invariant
                        self == old(self),
                        i < self.entries@.len(),
                        em == self.entries@[i as int].1@.len(),
                        j <= em,
                        merged@.len() == j,
                        forall|q: int|
                            0 <= q < j ==> merged@[q] == self.entries@[i as int].1@[q],
                    decreases em - j,
                {
                    merged.push(self.entries[i].1[j].duplicate());
                    j = j + 1;
                }
                let fm = files.len();
                let mut j: usize = 0;
                while j < fm
                    invariant
                        self == old(self),
                        i < self.entries@.len(),
                        em == self.entries@[i as int].1@.len(),
                        fm == files@.len(),
                        j <= fm,
                        merged@.len() == em + j,
                        forall|q: int|
                            0 <= q < em ==> merged@[q] == self.entries@[i as int].1@[q],
                        forall|q: int| 0 <= q < j ==> merged@[em + q] == files@[q],
                    decreases fm - j,
                {
                    merged.push(files[j].duplicate());
                    j = j + 1;
                }
                let ghost merged_view = merged@.map(|_j: int, x: FileSchema| x@);
                proof {
                    assert(merged_view =~= ev[i as int].1 + files@.map(
                        |_j: int, x: FileSchema| x@,
                    ));
                }
                self.entries[i] = (key, merged);
                proof {
                    let ev2 = self.entries_view();
                    assert(ev2 =~= ev.update(i as int, (folder@, merged_view)));
                    assert forall|q: int| 0 <= q < i implies ev2[q].0 != folder@ by {
                        assert(ev2[q] == ev[q]);
                    }
                    lemma_lookup_prefix(ev2, folder@, i as int);
                    lemma_lookup_prefix(ev, folder@, i as int);
                }
                return ;
            }
            i = i + 1;
        }
        let m = files.len();
        let mut copied: Vec<FileSchema> = Vec::new();
        let mut j: usize = 0;
        while j < m
            invariant
                self == old(self),
                m == files@.len(),
                j <= m,
                copied@.len() == j,
                forall|q: int| 0 <= q < j ==> copied@[q] == files@[q],
            decreases m - j,
        {
            copied.push(files[j].duplicate());
            j = j + 1;
        }
        let ghost pre_ev = self.entries_view();
        proof {
            assert(pre_ev == ev);
        }
        self.entries.push((String::from_str(folder), copied));
        proof {
            let ev2 = self.entries_view();
            assert(ev2.len() == n + 1);
            assert(ev2[n as int].0 == folder@);
            assert(ev2[n as int].1 =~= files@.map(|_j: int, x: FileSchema| x@));
            assert forall|q: int| 0 <= q < n implies ev2[q].0 != folder@ by {
                assert(ev2[q] == ev[q]);
            }
            lemma_lookup_prefix(ev2, folder@, n as int);
            assert(lookup_in(ev, folder@) == lookup_in(ev.skip(n as int), folder@));
            assert(ev.skip(n as int) =~= Seq::<(Seq<char>, Seq<FileRec>)>::empty());
        }
    }

}

/// When the first `i` keys differ from `k` and entry `i` holds `k`, the
/// lookup finds entry `i`.
pub proof fn lemma_lookup_prefix(s: Seq<(Seq<char>, Seq<FileRec>)>, k: Seq<char>, i: int)
    requires
        0 <= i < s.len(),
        forall|q: int| 0 <= q < i ==> s[q].0 != k,
        s[i].0 == k,
    ensures
        lookup_in(s, k) == Some(s[i].1),
    decreases i,
{
    if i == 0 {
        assert(s.first() == s[0]);
    } else {
        assert(s.first() == s[0]);
        assert(s[0].0 != k);
        let s2 = s.drop_first();
        assert(s2[i - 1] == s[i]);
        assert(forall|q: int| 0 <= q < i - 1 ==> s2[q] == s[q + 1]);
        lemma_lookup_prefix(s2, k, i - 1);
    }
}


/// The template-rendering context handed to views.
pub struct Context {
    pub flash: Option<(String, String)>,
    pub files: Vec<FileSchema>,
    pub folders: Vec<FolderInfo>,
    pub count_files: i64,
    pub roots: Vec<String>,
    pub tags: Vec<String>,
}

impl Context {
    /// Lists a folder's files for the gallery view, memoized per folder:
    /// a non-empty memo entry is served as is, else the folder is read from
    /// the store and the memo extended.
    pub fn get_all_folders(
        store: &RecordStore,
        flash: Option<(String, String)>,
        folder: Option<&str>,
        state_files: &mut StateFiles,
    ) -> (c: Context)
        requires
            store.wf(),
        ensures
            c.folders@.len() == 0,
            c.count_files == 0,
            c.roots@.len() == 0,
            c.tags@.len() == 0,
            ({
                let folder_name = match folder {
                    Some(f) => f@,
                    None => "*"@,
                };
                ||| (old(state_files).spec_lookup(folder_name) matches Some(prev) && prev.len()
                    > 0 && c.files@.map(|_j: int, x: FileSchema| x@) == prev && *final(state_files)
                    == *old(state_files))
                ||| (c.files@.map(|_j: int, x: FileSchema| x@) == sfilter(
                    store@.recs,
                    |rec: FileRec| rec.folder_name == folder_name,
                ) && (final(state_files).spec_lookup(folder_name) matches Some(now) && now == (
                match old(state_files).spec_lookup(folder_name) {
                    Some(prev) => prev,
                    None => Seq::<FileRec>::empty(),
                }) + c.files@.map(|_j: int, x: FileSchema| x@)))
            }),
    {
        let folder_name = match folder {
            Some(f) => f,
            None => "*",
        };
        proof {
            reveal_strlit("*");
        }
        match state_files.get(folder_name) {
            Some(folder_files) => {
                if folder_files.len() > 0 {
                    return Context {
                        flash,
                        files: folder_files,
                        folders: Vec::new(),
                        count_files: 0,
                        roots: Vec::new(),
                        tags: Vec::new(),
                    };
                }
            },
            None => {},
        }
        let files = store.all_by_folder(folder_name);
        state_files.extend_entry(folder_name, &files);
        Context {
            flash,
            files,
            folders: Vec::new(),
            count_files: 0,
            roots: Vec::new(),
            tags: Vec::new(),
        }
    }

    /// The folders-overview context: the first thousand folder groups that
    /// match the search term under the root, sorted by lowercased folder
    /// name; the total record count; the roots; and the matching folders'
    /// tags sorted by lowercased tag.
    pub fn get_folders(
        store: &RecordStore,
        flash: Option<(String, String)>,
        search_by: &str,
        root: &str,
    ) -> (c: Context)
        requires
            store.wf(),
        ensures
            c.files@.len() == 0,
            c.count_files == store@.recs.len(),
            c.roots@.map(|_i: int, s: String| s@) == crate::tags::dedup(
                store@.recs.map(|_i: int, rec: FileRec| rec.root),
            ),
            forall|i: int, j: int|
                0 <= i < j < c.folders@.len() ==> crate::order::folder_le(
                    #[trigger] c.folders@[i],
                    #[trigger] c.folders@[j],
                ),
            forall|i: int, j: int|
                0 <= i < j < c.tags@.len() ==> crate::order::tag_le(
                    #[trigger] c.tags@[i],
                    #[trigger] c.tags@[j],
                ),
            ({
                let flt = sfilter(
                    store@.recs,
                    |rec: FileRec| like_match(rec.folder_name, search_by@) && rec.root == root@,
                );
                let ks = group_keys(flt);
                let plen = if 1000 <= ks.len() {
                    1000int
                } else {
                    ks.len() as int
                };
                &&& c.folders@.len() == plen
                &&& forall|i: int|
                    #![trigger c.folders@[i]]
                    0 <= i < c.folders@.len() ==> crate::records::has_key(
                        flt,
                        (c.folders@[i].folder_name@, c.folders@[i].root@),
                    ) && c.folders@[i].count == group_count(
                        flt,
                        (c.folders@[i].folder_name@, c.folders@[i].root@),
                    )
            }),
            ({
                let all = crate::tags::dedup(
                    crate::records::tags_concat(store@.recs, search_by@),
                );
                &&& c.tags@.len() == all.len()
                &&& forall|i: int|
                    #![trigger c.tags@[i]]
                    0 <= i < c.tags@.len() ==> all.contains(c.tags@[i]@)
            }),
    {
        let folders_raw = store.get_folders(search_by, root, 1000, 0);
        let folders = crate::order::sort_folders_by_name(folders_raw);
        proof {
            broadcast use vstd::seq_lib::group_to_multiset_ensures;
            broadcast use vstd::multiset::group_multiset_axioms;

            let flt = sfilter(
                store@.recs,
                |rec: FileRec| like_match(rec.folder_name, search_by@) && rec.root == root@,
            );
            let ks = group_keys(flt);
            let plen = if 1000 <= ks.len() {
                1000int
            } else {
                ks.len() as int
            };
            crate::records::lemma_group_keys_contains(flt);
            assert forall|i: int| #![trigger folders@[i]] 0 <= i < folders@.len()
                implies crate::records::has_key(
                flt,
                (folders@[i].folder_name@, folders@[i].root@),
            ) && folders@[i].count == group_count(
                flt,
                (folders@[i].folder_name@, folders@[i].root@),
            ) by {
                assert(folders@.contains(folders@[i]));
                assert(folders@.to_multiset().count(folders@[i]) > 0);
                assert(folders_raw@.to_multiset().count(folders@[i]) > 0);
                assert(folders_raw@.contains(folders@[i]));
                let j = choose|j: int| 0 <= j < folders_raw@.len() && folders_raw@[j]
                    == folders@[i];
                assert(folders_raw@[j].folder_name@ == ks[j].0);
                assert((folders@[i].folder_name@, folders@[i].root@) == ks[j]);
                assert(ks.contains(ks[j]));
                assert(crate::records::has_key(flt, ks[j]));
                assert(folders@[i].count == group_count(flt, ks[j]));
            }
        }
        let count = store.count_all();
        let roots = store.get_roots();
        let tags_raw = store.get_all_tags(search_by);
        let tags = crate::order::sort_tags(tags_raw);
        proof {
            broadcast use vstd::seq_lib::group_to_multiset_ensures;
            broadcast use vstd::multiset::group_multiset_axioms;

            assert forall|i: int| #![trigger tags@[i]] 0 <= i < tags@.len()
                implies crate::tags::dedup(
                crate::records::tags_concat(store@.recs, search_by@),
            ).contains(tags@[i]@) by {
                assert(tags@.contains(tags@[i]));
                assert(tags@.to_multiset().count(tags@[i]) > 0);
                assert(tags_raw@.to_multiset().count(tags@[i]) > 0);
                assert(tags_raw@.contains(tags@[i]));
                let j = choose|j: int| 0 <= j < tags_raw@.len() && tags_raw@[j] == tags@[i];
                let all = crate::tags::dedup(crate::records::tags_concat(store@.recs, search_by@));
                assert(tags_raw@.map(|_k: int, s: String| s@)[j] == tags@[i]@);
                assert(all[j] == tags@[i]@);
                assert(all.contains(tags@[i]@));
            }
        }
        Context { flash, files: Vec::new(), folders, count_files: count, roots, tags }
    }

    /// A random selection for the gallery view: spread evenly over folders
    /// when the equal mode is on, else drawn from the filtered records.
    pub fn random(
        store: &RecordStore,
        flash: Option<(String, String)>,
        size: usize,
        folder: Option<&str>,
        root: Option<&str>,
        tag: Option<&str>,
        extension: Option<&str>,
        equal: bool,
        folders_size: usize,
        seed: u64,
    ) -> (c: Context)
        requires
            store.wf(),
            size <= 0x7fff_ffff,
            folders_size <= 0x7fff_ffff,
        ensures
            c.folders@.len() == 0,
            c.count_files == 0,
            c.roots@.len() == 0,
            c.tags@.len() == 0,
            equal && folders_size > 0 ==> c.files@.len() <= size && (forall|j: int|
                0 <= j < c.files@.len() ==> store@.recs.contains(#[trigger] c.files@[j]@)),
            !(equal && folders_size > 0) ==> ({
                let flt = sfilter(
                    store@.recs,
                    |rec: FileRec|
                        random_pred(
                            rec,
                            match folder {
                                Some(f) => f@,
                                None => "*"@,
                            },
                            match root {
                                Some(r2) => r2@,
                                None => "*"@,
                            },
                            match tag {
                                Some(t) => t@,
                                None => "*"@,
                            },
                            match extension {
                                Some(e) => e@,
                                None => "*"@,
                            },
                        ),
                );
                c.files@.len() == (if size <= flt.len() {
                    size as int
                } else {
                    flt.len() as int
                }) && (forall|j: int|
                    0 <= j < c.files@.len() ==> flt.contains(#[trigger] c.files@[j]@))
            }),
    {
        let folder_v = match folder {
            Some(f) => f,
            None => "*",
        };
        let root_v = match root {
            Some(r2) => r2,
            None => "*",
        };
        let tag_v = match tag {
            Some(t) => t,
            None => "*",
        };
        let extension_v = match extension {
            Some(e) => e,
            None => "*",
        };
        proof {
            reveal_strlit("*");
        }
        let files = if equal && folders_size > 0 {
            store.get_random_equal(size as i64, root_v, folders_size as i64, seed)
        } else {
            store.random(folder_v, size as i64, root_v, tag_v, extension_v, seed)
        };
        proof {
            if !(equal && folders_size > 0) {
                let cexec = |rec: FileRec|
                    random_pred(rec, folder_v@, root_v@, tag_v@, extension_v@);
                let cspec = |rec: FileRec|
                    random_pred(
                        rec,
                        match folder {
                            Some(f) => f@,
                            None => "*"@,
                        },
                        match root {
                            Some(r2) => r2@,
                            None => "*"@,
                        },
                        match tag {
                            Some(t) => t@,
                            None => "*"@,
                        },
                        match extension {
                            Some(e) => e@,
                            None => "*"@,
                        },
                    );
                assert(cexec =~= cspec);
                assert(sfilter(store@.recs, cexec) == sfilter(store@.recs, cspec));
            }
        }
        Context {
            flash,
            files,
            folders: Vec::new(),
            count_files: 0,
            roots: Vec::new(),
            tags: Vec::new(),
        }
    }

    /// The context shown when the database cannot be reached.
    pub fn error_context(msg: &str) -> (c: Context)
        ensures
            c.flash matches Some(f) && f.0@ == "error"@ && f.1@ == "Fail to access database."@,
            c.files@.len() == 0,
            c.folders@.len() == 0,
            c.count_files == 0,
            c.roots@.len() == 0,
            c.tags@.len() == 0,
    {
        proof {
            reveal_strlit("error");
            reveal_strlit("Fail to access database.");
        }
        Context {
            flash: Some((String::from_str("error"), String::from_str("Fail to access database."))),
            files: Vec::new(),
            folders: Vec::new(),
            count_files: 0,
            roots: Vec::new(),
            tags: Vec::new(),
        }
    }
}

/// The page offset of a listing request, saturated at the count type's
/// maximum.
pub open spec fn spec_page_offset(page: usize, per_page: usize) -> int {
    if (page - 1) * per_page <= i64::MAX {
        (page - 1) * per_page
    } else {
        i64::MAX as int
    }
}

fn page_offset(page: usize, per_page: usize) -> (r: i64)
    requires
        page >= 1,
    ensures
        r == spec_page_offset(page, per_page),
        0 <= r,
{
    proof {
        assert((page - 1) * per_page < 0x100000000000000000000000000000000) by (nonlinear_arith)
            requires
                0 <= page - 1 < 0x10000000000000000,
                0 <= per_page < 0x10000000000000000,
        ;
    }
    let p: u128 = ((page - 1) as u128) * (per_page as u128);
    if p > i64::MAX as u128 {
        i64::MAX
    } else {
        p as i64
    }
}

/// Lists folder groups: validates the pagination, builds the safe LIKE
/// pattern from the search term, and reports each group's folder, root and
/// photo count.
pub fn get_folders_json(
    store: &RecordStore,
    root: &str,
    searchby: Option<&str>,
    page: Option<usize>,
    per_page: Option<usize>,
) -> (r: AppResult<Vec<JsonFolderResponse>>)
    requires
        store.wf(),
    ensures
        ({
            let current_page = match page {
                Some(p) => p,
                None => 1usize,
            };
            let items_per_page = match per_page {
                Some(p) => p,
                None => 25usize,
            };
            match r {
                Err(e) => e is ValidationError && (current_page == 0 || items_per_page > 1000),
                Ok(list) => {
                    let term = match searchby {
                        Some(s) => s@,
                        None => "*"@,
                    };
                    let pattern = if term == "*"@ {
                        "%"@
                    } else {
                        spec_format_search_pattern(term)
                    };
                    let flt = sfilter(
                        store@.recs,
                        |rec: FileRec| like_match(rec.folder_name, pattern) && rec.root == root@,
                    );
                    let ks = group_keys(flt);
                    let offset = spec_page_offset(current_page, items_per_page);
                    let start = if offset <= ks.len() {
                        offset
                    } else {
                        ks.len() as int
                    };
                    let end = if offset + items_per_page <= ks.len() {
                        offset + items_per_page
                    } else {
                        ks.len() as int
                    };
                    &&& current_page > 0 && items_per_page <= 1000
                    &&& list@.len() == end - start
                    &&& forall|a: int|
                        0 <= a < list@.len() ==> (#[trigger] list@[a]).title@ == ks[start + a].0
                            && list@[a].root@ == ks[start + a].1 && list@[a].photo_count
                            == group_count(flt, ks[start + a]) && list@[a].tags@.len() == 0
                },
            }
        }),
{
    let current_page = match page {
        Some(p) => p,
        None => 1,
    };
    let items_per_page = match per_page {
        Some(p) => p,
        None => 25,
    };
    if current_page == 0 {
        proof {
            reveal_strlit("Page must be greater than 0");
        }
        return Err(AppError::validation("Page must be greater than 0"));
    }
    if items_per_page > 1000 {
        proof {
            reveal_strlit("Items per page cannot exceed 1000");
        }
        return Err(AppError::validation("Items per page cannot exceed 1000"));
    }
    let offset = page_offset(current_page, items_per_page);
    let search_term = match searchby {
        Some(s) => s,
        None => "*",
    };
    proof {
        reveal_strlit("*");
        reveal_strlit("%");
    }
    let search_pattern = if str_eq_str(search_term, "*") {
        String::from_str("%")
    } else {
        format_search_pattern(search_term)
    };
    let folders = store.get_folders(search_pattern.as_str(), root, items_per_page as i64, offset);
    let ghost pattern = search_pattern@;
    let ghost p = |rec: FileRec| like_match(rec.folder_name, pattern) && rec.root == root@;
    let ghost flt = sfilter(store@.recs, p);
    let ghost ks = group_keys(flt);
    proof {
        lemma_sfilter_len(store@.recs, p);
    }
    let n = folders.len();
    let mut out: Vec<JsonFolderResponse> = Vec::new();
    let mut i: usize = 0;
    while i < n
        invariant
            store.wf(),
            n == folders@.len(),
            i <= n,
            flt == sfilter(store@.recs, p),
            ks == group_keys(flt),
            flt.len() <= store@.recs.len() < 0x7fff_ffff,
            ({
                let offset2 = spec_page_offset(
                    match page {
                        Some(p2) => p2,
                        None => 1usize,
                    },
                    match per_page {
                        Some(p2) => p2,
                        None => 25usize,
                    },
                );
                let start = if offset2 <= ks.len() {
                    offset2
                } else {
                    ks.len() as int
                };
                &&& n == (if offset2 + (match per_page {
                    Some(p2) => p2,
                    None => 25usize,
                }) <= ks.len() {
                    offset2 + (match per_page {
                        Some(p2) => p2,
                        None => 25usize,
                    })
                } else {
                    ks.len() as int
                }) - start
                &&& forall|a: int|
                    0 <= a < n ==> (#[trigger] folders@[a]).folder_name@ == ks[start + a].0
                        && folders@[a].root@ == ks[start + a].1 && folders@[a].count
                        == group_count(flt, ks[start + a])
                &&& out@.len() == i
                &&& forall|a: int|
                    0 <= a < i ==> (#[trigger] out@[a]).title@ == ks[start + a].0 && out@[a].root@
                        == ks[start + a].1 && out@[a].photo_count == group_count(
                        flt,
                        ks[start + a],
                    ) && out@[a].tags@.len() == 0
            }),
        decreases n - i,
    {
        let f = &folders[i];
        proof {
            lemma_group_count_le(flt, ks[spec_page_offset(
                match page {
                    Some(p2) => p2,
                    None => 1usize,
                },
                match per_page {
                    Some(p2) => p2,
                    None => 25usize,
                },
            ) + i as int]);
        }
        proof {
            let offset2 = spec_page_offset(
                match page {
                    Some(p2) => p2,
                    None => 1usize,
                },
                match per_page {
                    Some(p2) => p2,
                    None => 25usize,
                },
            );
            let start = if offset2 <= ks.len() {
                offset2
            } else {
                ks.len() as int
            };
            lemma_group_count_le(flt, ks[start + i as int]);
            assert(0 <= folders@[i as int].count < 0x7fff_ffff);
        }
        out.push(
            JsonFolderResponse {
                title: f.folder_name.clone(),
                photo_count: f.count as usize,
                tags: Vec::new(),
                root: f.root.clone(),
            },
        );
        i = i + 1;
    }
    Ok(out)
}

/// The folder groups of one exactly-named folder: rejects empty, overlong
/// and traversal-shaped names, then reports the groups.
pub fn get_folder_by_name(store: &RecordStore, name: &str) -> (r: AppResult<
    Vec<JsonFolderResponse>,
>)
    requires
        store.wf(),
    ensures
        match r {
            Err(e) => {
                ||| (e is ValidationError && (name@.len() == 0 || name@.len() > 255))
                ||| (e is BadRequest && crate::thumbs::spec_folder_traversal(name@))
            },
            Ok(list) => {
                let flt = sfilter(store@.recs, |rec: FileRec| rec.folder_name == name@);
                let ks = group_keys(flt);
                &&& 1 <= name@.len() <= 255
                &&& !crate::thumbs::spec_folder_traversal(name@)
                &&& list@.len() == ks.len()
                &&& forall|a: int|
                    0 <= a < ks.len() ==> (#[trigger] list@[a]).title@ == ks[a].0
                        && list@[a].root@ == ks[a].1 && list@[a].photo_count == group_count(
                        flt,
                        ks[a],
                    )
            },
        },
{
    let n = name.unicode_len();
    if n == 0 {
        proof {
            reveal_strlit("Folder name cannot be empty");
        }
        return Err(AppError::validation("Folder name cannot be empty"));
    }
    if n > 255 {
        proof {
            reveal_strlit("Folder name too long");
        }
        return Err(AppError::validation("Folder name too long"));
    }
    if crate::thumbs::folder_has_traversal(name) {
        proof {
            reveal_strlit("Invalid folder name: contains forbidden characters");
        }
        return Err(AppError::bad_request("Invalid folder name: contains forbidden characters"));
    }
    let folders = store.get_folder_by_name(name);
    let ghost p = |rec: FileRec| rec.folder_name == name@;
    let ghost flt = sfilter(store@.recs, p);
    let ghost ks = group_keys(flt);
    proof {
        lemma_sfilter_len(store@.recs, p);
    }
    let gn = folders.len();
    let mut out: Vec<JsonFolderResponse> = Vec::new();
    let mut i: usize = 0;
    while i < gn
        invariant
            store.wf(),
            gn == folders@.len(),
            i <= gn,
            flt == sfilter(store@.recs, p),
            ks == group_keys(flt),
            flt.len() <= store@.recs.len() < 0x7fff_ffff,
            gn == ks.len(),
            forall|a: int|
                0 <= a < gn ==> (#[trigger] folders@[a]).folder_name@ == ks[a].0
                    && folders@[a].root@ == ks[a].1 && folders@[a].count == group_count(
                    flt,
                    ks[a],
                ),
            out@.len() == i,
            forall|a: int|
                0 <= a < i ==> (#[trigger] out@[a]).title@ == ks[a].0 && out@[a].root@ == ks[a].1
                    && out@[a].photo_count == group_count(flt, ks[a]),
        decreases gn - i,
    {
        let f = &folders[i];
        proof {
            lemma_group_count_le(flt, ks[i as int]);
        }
        out.push(
            JsonFolderResponse {
                title: f.folder_name.clone(),
                photo_count: f.count as usize,
                tags: Vec::new(),
                root: f.root.clone(),
            },
        );
        i = i + 1;
    }
    Ok(out)
}

/// One row per scan root with its photo and folder-row counts.
pub fn get_roots_json(store: &RecordStore) -> (r: Vec<JsonRootResponse>)
    requires
        store.wf(),
    ensures
        ({
            let roots = crate::tags::dedup(store@.recs.map(|_i: int, rec: FileRec| rec.root));
            &&& r@.len() == roots.len()
            &&& forall|a: int|
                0 <= a < roots.len() ==> (#[trigger] r@[a]).root@ == roots[a] && r@[a].photo_count
                    == sfilter(store@.recs, |rec: FileRec| rec.root == roots[a]).len()
                    && r@[a].folder_count == r@[a].photo_count
        }),
{
    let rows = store.get_folders_roots();
    let ghost roots = crate::tags::dedup(store@.recs.map(|_i: int, rec: FileRec| rec.root));
    let n = rows.len();
    let mut out: Vec<JsonRootResponse> = Vec::new();
    let mut i: usize = 0;
    while i < n
        invariant
            store.wf(),
            n == rows@.len(),
            i <= n,
            roots == crate::tags::dedup(store@.recs.map(|_i: int, rec: FileRec| rec.root)),
            n == roots.len(),
            forall|a: int|
                0 <= a < n ==> (#[trigger] rows@[a]).root@ == roots[a] && rows@[a].count
                    == sfilter(store@.recs, |rec: FileRec| rec.root == roots[a]).len()
                    && rows@[a].f_count == rows@[a].count,
            out@.len() == i,
            forall|a: int|
                0 <= a < i ==> (#[trigger] out@[a]).root@ == roots[a] && out@[a].photo_count
                    == sfilter(store@.recs, |rec: FileRec| rec.root == roots[a]).len()
                    && out@[a].folder_count == out@[a].photo_count,
        decreases n - i,
    {
        let row = &rows[i];
        proof {
            lemma_sfilter_len(store@.recs, |rec: FileRec| rec.root == roots[i as int]);
        }
        out.push(
            JsonRootResponse {
                root: row.root.clone(),
                photo_count: row.count as usize,
                folder_count: row.f_count as usize,
            },
        );
        i = i + 1;
    }
    out
}

/// The records a non-equal random query draws from.
pub open spec fn spec_random_filtered(recs: Seq<FileRec>, query: &RandomQuery) -> Seq<FileRec> {
    sfilter(
        recs,
        |rec: FileRec|
            random_pred(rec, query.folder@, query.root@, query.tag@, query.extension@),
    )
}

/// A page of random records: validates the size, then samples either
/// evenly over random folders or over the filtered records.
pub fn random_json(store: &RecordStore, query: &RandomQuery, seed: u64) -> (r: AppResult<
    JsonFileResponse,
>)
    requires
        store.wf(),
        query.equal ==> 0 < query.equal_size <= 0x7fff_ffff,
        query.size <= 0x7fff_ffff || query.size > 1000,
    ensures
        match r {
            Err(e) => e is ValidationError && (query.size == 0 || query.size > 1000),
            Ok(resp) => {
                &&& 0 < query.size <= 1000
                &&& resp.page == 1
                &&& resp.total == query.size
                &&& if query.equal {
                    &&& resp.items@.len() <= query.size
                    &&& (forall|j: int|
                        0 <= j < resp.items@.len() ==> store@.recs.contains(
                            #[trigger] resp.items@[j]@,
                        ))
                } else {
                    &&& resp.items@.len() == (if query.size <= spec_random_filtered(
                        store@.recs,
                        query,
                    ).len() {
                        query.size as int
                    } else {
                        spec_random_filtered(store@.recs, query).len() as int
                    })
                    &&& (forall|j: int|
                        0 <= j < resp.items@.len() ==> spec_random_filtered(
                            store@.recs,
                            query,
                        ).contains(#[trigger] resp.items@[j]@))
                }
            },
        },
{
    if query.size == 0 {
        proof {
            reveal_strlit("Size must be greater than 0");
        }
        return Err(AppError::validation("Size must be greater than 0"));
    }
    if query.size > 1000 {
        proof {
            reveal_strlit("Size cannot exceed 1000");
        }
        return Err(AppError::validation("Size cannot exceed 1000"));
    }
    let files = if query.equal {
        store.get_random_equal(
            query.size as i64,
            query.root.as_str(),
            query.equal_size as i64,
            seed,
        )
    } else {
        store.random(
            query.folder.as_str(),
            query.size as i64,
            query.root.as_str(),
            query.tag.as_str(),
            query.extension.as_str(),
            seed,
        )
    };
    Ok(JsonFileResponse { items: files, page: 1, total: query.size })
}

/// A page of a folder's records, memoized per folder: validates the
/// pagination and the folder length, serves a non-empty memo entry when
/// one exists, else reads the page from the store and extends the memo.
pub fn get_all_files_json(
    store: &RecordStore,
    state_files: &mut StateFiles,
    page: Option<usize>,
    per_page: Option<usize>,
    folder: Option<&str>,
) -> (r: AppResult<JsonFileResponse>)
    requires
        store.wf(),
    ensures
        ({
            let current_page = match page {
                Some(p) => p,
                None => 1usize,
            };
            let items_per_page = match per_page {
                Some(p) => p,
                None => 25usize,
            };
            let folder_filter = match folder {
                Some(f) => f@,
                None => "*"@,
            };
            match r {
                Err(e) => e is ValidationError && (current_page == 0 || items_per_page > 1000
                    || folder_filter.len() > 255) && *final(state_files) == *old(state_files),
                Ok(resp) => {
                    &&& current_page > 0 && items_per_page <= 1000 && folder_filter.len() <= 255
                    &&& resp.page == current_page
                    &&& resp.total == resp.items@.len()
                    &&& ({
                        ||| (old(state_files).spec_lookup(folder_filter) matches Some(prev)
                            && prev.len() > 0 && resp.items@.map(|_j: int, x: FileSchema| x@)
                            == prev && *final(state_files) == *old(state_files))
                        ||| ({
                            let flt = sfilter(
                                store@.recs,
                                |rec: FileRec| rec.folder_name == folder_filter,
                            );
                            let offset = spec_page_offset(current_page, items_per_page);
                            let start = if offset <= flt.len() {
                                offset
                            } else {
                                flt.len() as int
                            };
                            let end = if offset + items_per_page <= flt.len() {
                                offset + items_per_page
                            } else {
                                flt.len() as int
                            };
                            &&& resp.items@.map(|_j: int, x: FileSchema| x@) == flt.subrange(
                                start,
                                end,
                            )
                            &&& final(state_files).spec_lookup(folder_filter) matches Some(now)
                                && now == (match old(state_files).spec_lookup(folder_filter) {
                                Some(prev) => prev,
                                None => Seq::<FileRec>::empty(),
                            }) + flt.subrange(start, end)
                        })
                    })
                },
            }
        }),
{
    let current_page = match page {
        Some(p) => p,
        None => 1,
    };
    let items_per_page = match per_page {
        Some(p) => p,
        None => 25,
    };
    let folder_filter = match folder {
        Some(f) => f,
        None => "*",
    };
    if current_page == 0 {
        proof {
            reveal_strlit("Page must be greater than 0");
        }
        return Err(AppError::validation("Page must be greater than 0"));
    }
    if items_per_page > 1000 {
        proof {
            reveal_strlit("Items per page cannot exceed 1000");
        }
        return Err(AppError::validation("Items per page cannot exceed 1000"));
    }
    if folder_filter.unicode_len() > 255 {
        proof {
            reveal_strlit("Folder name too long");
        }
        return Err(AppError::validation("Folder name too long"));
    }
    proof {
        reveal_strlit("*");
    }
    match state_files.get(folder_filter) {
        Some(folder_files) => {
            if folder_files.len() > 0 {
                let total = folder_files.len();
                return Ok(
                    JsonFileResponse { items: folder_files, page: current_page, total },
                );
            }
        },
        None => {},
    }
    let offset = page_offset(current_page, items_per_page);
    let files = store.all_paged(items_per_page as i64, offset, folder_filter);
    state_files.extend_entry(folder_filter, &files);
    let total = files.len();
    proof {
        lemma_sfilter_len(
            store@.recs,
            |rec: FileRec| rec.folder_name == (match folder {
                Some(f) => f@,
                None => "*"@,
            }),
        );
    }
    Ok(JsonFileResponse { items: files, page: current_page, total })
}

/// Assigns tags to the image with the given hash: rejects an empty hash or
/// an empty tag list, requires the image to exist, writes the processed
/// tags through and echoes them.
pub fn assign_tag(store: &mut RecordStore, data: &TagAssign) -> (r: AppResult<Vec<String>>)
    requires
        old(store).wf(),
    ensures
        final(store).wf(),
        match r {
            Err(e) => ((e is ValidationError && (data.image_hash@.len() == 0
                || data.tags@.len() == 0)) || (e is NotFound && !crate::records::contains_hash(
                old(store)@.recs,
                data.image_hash@,
            ))) && *final(store) == *old(store),
            Ok(echoed) => {
                &&& data.image_hash@.len() > 0 && data.tags@.len() > 0
                &&& crate::records::contains_hash(old(store)@.recs, data.image_hash@)
                &&& echoed@.map(|_j: int, s: String| s@) == data.tags@.map(
                    |_j: int, s: String| s@,
                )
                &&& final(store)@.recs == old(store)@.recs.update(
                    crate::records::hash_index(old(store)@.recs, data.image_hash@),
                    FileRec {
                        tags: Some(
                            crate::tags::spec_encode_tags(
                                crate::tags::spec_process_tags(
                                    data.tags@.map(|_j: int, s: String| s@),
                                ),
                            ),
                        ),
                        ..old(store)@.recs[crate::records::hash_index(
                            old(store)@.recs,
                            data.image_hash@,
                        )]
                    },
                )
            },
        },
{
    if data.image_hash.as_str().unicode_len() == 0 {
        proof {
            reveal_strlit("Image hash cannot be empty");
        }
        return Err(AppError::validation("Image hash cannot be empty"));
    }
    if data.tags.len() == 0 {
        proof {
            reveal_strlit("At least one tag must be provided");
        }
        return Err(AppError::validation("At least one tag must be provided"));
    }
    match store.get_by_hash(data.image_hash.as_str()) {
        Ok(_) => {},
        Err(e) => {
            return Err(e);
        },
    }
    let mut tags_copy: Vec<String> = Vec::new();
    let mut echoed: Vec<String> = Vec::new();
    let n = data.tags.len();
    let mut i: usize = 0;
    while i < n
        invariant
            n == data.tags@.len(),
            i <= n,
            tags_copy@.len() == i,
            echoed@.len() == i,
            forall|q: int| 0 <= q < i ==> tags_copy@[q]@ == data.tags@[q]@,
            forall|q: int| 0 <= q < i ==> echoed@[q]@ == data.tags@[q]@,
        decreases n - i,
    {
        tags_copy.push(data.tags[i].clone());
        echoed.push(data.tags[i].clone());
        i = i + 1;
    }
    proof {
        assert(tags_copy@.map(|_j: int, s: String| s@) =~= data.tags@.map(
            |_j: int, s: String| s@,
        ));
        assert(echoed@.map(|_j: int, s: String| s@) =~= data.tags@.map(|_j: int, s: String| s@));
    }
    let _ = store.add_tags(data.image_hash.as_str(), tags_copy);
    Ok(echoed)
}

/// Assigns tags to every image of a folder: rejects an empty folder name
/// or an empty tag list, writes the processed tags through and echoes
/// them.
pub fn assign_tag_folder(store: &mut RecordStore, data: &TagFolderAssign) -> (r: AppResult<
    Vec<String>,
>)
    requires
        old(store).wf(),
    ensures
        final(store).wf(),
        match r {
            Err(e) => e is ValidationError && (data.folder_name@.len() == 0 || data.tags@.len()
                == 0) && *final(store) == *old(store),
            Ok(echoed) => {
                &&& data.folder_name@.len() > 0 && data.tags@.len() > 0
                &&& echoed@.map(|_j: int, s: String| s@) == data.tags@.map(
                    |_j: int, s: String| s@,
                )
                &&& final(store)@.recs.len() == old(store)@.recs.len()
                &&& forall|q: int|
                    0 <= q < old(store)@.recs.len() ==> final(store)@.recs[q] == (
                    if old(store)@.recs[q].folder_name == data.folder_name@ {
                        FileRec {
                            tags: Some(
                                crate::tags::spec_encode_tags(
                                    crate::tags::spec_process_tags(
                                        data.tags@.map(|_j: int, s: String| s@),
                                    ),
                                ),
                            ),
                            ..old(store)@.recs[q]
                        }
                    } else {
                        old(store)@.recs[q]
                    })
            },
        },
{
    if data.folder_name.as_str().unicode_len() == 0 {
        proof {
            reveal_strlit("Folder name cannot be empty");
        }
        return Err(AppError::validation("Folder name cannot be empty"));
    }
    if data.tags.len() == 0 {
        proof {
            reveal_strlit("At least one tag must be provided");
        }
        return Err(AppError::validation("At least one tag must be provided"));
    }
    let mut tags_copy: Vec<String> = Vec::new();
    let mut echoed: Vec<String> = Vec::new();
    let n = data.tags.len();
    let mut i: usize = 0;
    while i < n
        invariant
            n == data.tags@.len(),
            i <= n,
            tags_copy@.len() == i,
            echoed@.len() == i,
            forall|q: int| 0 <= q < i ==> tags_copy@[q]@ == data.tags@[q]@,
            forall|q: int| 0 <= q < i ==> echoed@[q]@ == data.tags@[q]@,
        decreases n - i,
    {
        tags_copy.push(data.tags[i].clone());
        echoed.push(data.tags[i].clone());
        i = i + 1;
    }
    proof {
        assert(tags_copy@.map(|_j: int, s: String| s@) =~= data.tags@.map(
            |_j: int, s: String| s@,
        ));
        assert(echoed@.map(|_j: int, s: String| s@) =~= data.tags@.map(|_j: int, s: String| s@));
    }
    let _ = store.add_tags_folder(data.folder_name.as_str(), tags_copy);
    Ok(echoed)
}

/// Deletes a folder's records: rejects an empty folder name, returns how
/// many records went.
pub fn delete_folder(store: &mut RecordStore, data: &DeleteFolder) -> (r: AppResult<usize>)
    requires
        old(store).wf(),
    ensures
        final(store).wf(),
        match r {
            Err(e) => e is ValidationError && data.folder_name@.len() == 0 && *final(store)
                == *old(store),
            Ok(rows) => {
                &&& data.folder_name@.len() > 0
                &&& final(store)@.recs == sfilter(
                    old(store)@.recs,
                    |rec: FileRec| rec.folder_name != data.folder_name@,
                )
                &&& rows == old(store)@.recs.len() - final(store)@.recs.len()
            },
        },
{
    if data.folder_name.as_str().unicode_len() == 0 {
        proof {
            reveal_strlit("Folder name cannot be empty");
        }
        return Err(AppError::validation("Folder name cannot be empty"));
    }
    let affected_rows = store.delete_folder_with_name(data.folder_name.as_str());
    Ok(affected_rows)
}

/// Every distinct tag of a folder (or of all folders): rejects an overlong
/// folder parameter.
pub fn get_all_tags(store: &RecordStore, folder: Option<&str>) -> (r: AppResult<Vec<String>>)
    ensures
        ({
            let folder_param = match folder {
                Some(f) => f@,
                None => "*"@,
            };
            match r {
                Err(e) => e is ValidationError && folder_param.len() > 255,
                Ok(tags) => folder_param.len() <= 255 && tags@.map(|_j: int, s: String| s@)
                    == crate::tags::dedup(crate::records::tags_concat(store@.recs, folder_param)),
            }
        }),
{
    let folder_param = match folder {
        Some(f) => f,
        None => "*",
    };
    proof {
        reveal_strlit("*");
    }
    if folder_param.unicode_len() > 255 {
        proof {
            reveal_strlit("Folder name too long");
        }
        return Err(AppError::validation("Folder name too long"));
    }
    Ok(store.get_all_tags(folder_param))
}

} // verus!
