//! The path grammar of the scanner: file name, stem, extension and parent
//! folder of a slash-separated path, the image-extension filter, the hidden
//! and vendor-directory filters, and the folder-name sanitizer.

use crate::strutil::{
    ascii_lower,
    ascii_lower_exec,
    contains_exec,
    contains_seq,
    lower_of,
    lowercase,
    push_char,
    str_eq_str,
    take_chars,
    truncate_chars,
};
use vstd::prelude::*;
use vstd::string::StrSliceExecFns;
use vstd::string::StringExecFns;

verus! {

/// `s` with every trailing `/` removed.
pub open spec fn strip_ts(s: Seq<char>) -> Seq<char>
    decreases s.len(),
{
    if s.len() > 0 && s.last() == '/' {
        strip_ts(s.drop_last())
    } else {
        s
    }
}

/// The index of the last occurrence of `c` in `s`, or -1 if there is none.
pub open spec fn last_index_of(s: Seq<char>, c: char) -> int
    decreases s.len(),
{
    if s.len() == 0 {
        -1
    } else if s.last() == c {
        s.len() - 1
    } else {
        last_index_of(s.drop_last(), c)
    }
}

/// The last path component: what follows the last `/` once trailing slashes
/// are dropped.
pub open spec fn spec_file_name(path: Seq<char>) -> Seq<char> {
    let t = strip_ts(path);
    t.subrange(last_index_of(t, '/') + 1, t.len() as int)
}

/// The prefix of the path up to and including the slash before the last
/// component.
pub open spec fn spec_dir_prefix(path: Seq<char>) -> Seq<char> {
    let t = strip_ts(path);
    t.subrange(0, last_index_of(t, '/') + 1)
}

/// The name of the directory that directly contains the path's last
/// component.
pub open spec fn spec_folder_name(path: Seq<char>) -> Seq<char> {
    spec_file_name(spec_dir_prefix(path))
}

/// The file name without its extension: everything before the last `.`,
/// unless that dot starts the name.
pub open spec fn spec_stem(path: Seq<char>) -> Seq<char> {
    let n = spec_file_name(path);
    let d = last_index_of(n, '.');
    if d <= 0 {
        n
    } else {
        n.subrange(0, d)
    }
}

/// The extension: everything after the last `.` of the file name, or empty
/// when the name has no usable dot.
pub open spec fn spec_extension(path: Seq<char>) -> Seq<char> {
    let n = spec_file_name(path);
    let d = last_index_of(n, '.');
    if d <= 0 {
        Seq::empty()
    } else {
        n.subrange(d + 1, n.len() as int)
    }
}

/// The number of characters left once trailing slashes are dropped.
pub fn stripped_len(s: &str) -> (k: usize)
    ensures
        k <= s@.len(),
        strip_ts(s@) == s@.subrange(0, k as int),
{
    let n: usize = s.unicode_len();
    let mut k: usize = n;
    proof {
        assert(s@.subrange(0, n as int) =~= s@);
    }
    while k > 0 && s.get_char(k - 1) == '/'
        invariant
            n == s@.len(),
            k <= n,
            strip_ts(s@) == strip_ts(s@.subrange(0, k as int)),
        decreases k,
    {
        proof {
            assert(s@.subrange(0, k as int).drop_last() =~= s@.subrange(0, k - 1 as int));
        }
        k = k - 1;
    }
    proof {
        if k > 0 {
            assert(s@.subrange(0, k as int).last() == s@[k - 1 as int]);
        }
    }
    k
}

/// The index of the last occurrence of `c` among the first `k` characters.
pub fn last_index_in(s: &str, k: usize, c: char) -> (r: Option<usize>)
    requires
        k <= s@.len(),
    ensures
        match r {
            Some(i) => i < k && last_index_of(s@.subrange(0, k as int), c) == i as int,
            None => last_index_of(s@.subrange(0, k as int), c) == -1,
        },
{
    let mut i: usize = k;
    while i > 0
        invariant
            k <= s@.len(),
            i <= k,
            last_index_of(s@.subrange(0, k as int), c) == last_index_of(
                s@.subrange(0, i as int),
                c,
            ),
        decreases i,
    {
        if s.get_char(i - 1) == c {
            proof {
                assert(s@.subrange(0, i as int).last() == s@[i - 1 as int]);
            }
            return Some(i - 1);
        }
        proof {
            assert(s@.subrange(0, i as int).last() == s@[i - 1 as int]);
            assert(s@.subrange(0, i as int).drop_last() =~= s@.subrange(0, i - 1 as int));
        }
        i = i - 1;
    }
    None
}

/// The last path component of `path`.
pub fn file_name_of(path: &str) -> (r: String)
    ensures
        r@ == spec_file_name(path@),
{
    let k = stripped_len(path);
    let start = match last_index_in(path, k, '/') {
        Some(i) => i + 1,
        None => 0,
    };
    let part = path.substring_char(start, k);
    String::from_str(part)
}

/// The name of the directory that directly contains the path's last
/// component; empty when the path has no parent component.
pub fn folder_name_of(path: &str) -> (r: String)
    ensures
        r@ == spec_folder_name(path@),
{
    let k = stripped_len(path);
    let end = match last_index_in(path, k, '/') {
        Some(i) => i + 1,
        None => 0,
    };
    let parent = path.substring_char(0, end);
    proof {
        assert(strip_ts(path@).subrange(0, end as int) =~= path@.subrange(0, end as int));
    }
    file_name_of(parent)
}

/// The file name without its extension.
pub fn stem_of(path: &str) -> (r: String)
    ensures
        r@ == spec_stem(path@),
{
    let name = file_name_of(path);
    let n = name.as_str().unicode_len();
    match last_index_in(name.as_str(), n, '.') {
        Some(d) if d > 0 => {
            proof {
                assert(name@.subrange(0, n as int) =~= name@);
            }
            String::from_str(name.as_str().substring_char(0, d))
        },
        _ => {
            proof {
                assert(name@.subrange(0, n as int) =~= name@);
            }
            name
        },
    }
}

/// The extension after the last dot of the file name, or empty.
pub fn extension_of(path: &str) -> (r: String)
    ensures
        r@ == spec_extension(path@),
{
    let name = file_name_of(path);
    let n = name.as_str().unicode_len();
    proof {
        assert(name@.subrange(0, n as int) =~= name@);
    }
    match last_index_in(name.as_str(), n, '.') {
        Some(d) if d > 0 => String::from_str(name.as_str().substring_char(d + 1, n)),
        _ => String::new(),
    }
}

/// Whether the lowercased extension is one of the recognized image
/// extensions.
pub open spec fn spec_is_image(path: Seq<char>) -> bool {
    let e = ascii_lower(spec_extension(path));
    ||| e == "jpg"@
    ||| e == "jpeg"@
    ||| e == "png"@
    ||| e == "gif"@
    ||| e == "bmp"@
    ||| e == "webp"@
}

/// Whether the path names an image file, judged by its extension,
/// case-insensitively.
pub fn is_image(path: &str) -> (r: bool)
    ensures
        r == spec_is_image(path@),
{
    let ext = extension_of(path);
    let low = ascii_lower_exec(ext.as_str());
    let l = low.as_str();
    str_eq_str(l, "jpg") || str_eq_str(l, "jpeg") || str_eq_str(l, "png") || str_eq_str(l, "gif")
        || str_eq_str(l, "bmp") || str_eq_str(l, "webp")
}

/// Whether a directory-entry name is hidden: it starts with a dot.
pub open spec fn spec_is_hidden(name: Seq<char>) -> bool {
    name.len() > 0 && name[0] == '.'
}

/// Whether the entry name starts with a dot.
pub fn is_hidden(name: &str) -> (r: bool)
    ensures
        r == spec_is_hidden(name@),
{
    let n = name.unicode_len();
    if n == 0 {
        false
    } else {
        name.get_char(0) == '.'
    }
}

/// Whether the path contains the vendor thumbnail-cache marker `@eadir`,
/// compared case-insensitively.
pub open spec fn spec_contains_marker(path: Seq<char>) -> bool {
    contains_seq(ascii_lower(path), "@eadir"@)
}

/// Whether the path contains the `@eadir` marker, case-insensitively.
pub fn contains_marker(path: &str) -> (r: bool)
    ensures
        r == spec_contains_marker(path@),
{
    let low = ascii_lower_exec(path);
    contains_exec(low.as_str(), "@eadir")
}

/// Whether the sanitizer strips this character from folder names.
pub open spec fn is_stripped_char(c: char) -> bool {
    ||| c == '/'
    ||| c == '#'
    ||| c == '&'
    ||| c == '('
    ||| c == ')'
    ||| c == ','
    ||| c == '"'
    ||| c == '.'
    ||| c == ';'
    ||| c == ':'
    ||| c == '\''
}

/// One pass over an already-lowercased name: spaces become hyphens and the
/// stripped characters disappear.
pub open spec fn sanitize_chars(s: Seq<char>) -> Seq<char>
    decreases s.len(),
{
    if s.len() == 0 {
        Seq::empty()
    } else {
        let r = sanitize_chars(s.drop_last());
        let c = s.last();
        if c == ' ' {
            r.push('-')
        } else if is_stripped_char(c) {
            r
        } else {
            r.push(c)
        }
    }
}

/// What the sanitizer produces for a raw folder name: the Unicode-lowercased
/// name with spaces hyphenated and punctuation stripped.
pub open spec fn spec_sanitize_folder(name: Seq<char>) -> Seq<char> {
    sanitize_chars(lower_of(name))
}

fn is_stripped_char_exec(c: char) -> (r: bool)
    ensures
        r == is_stripped_char(c),
{
    c == '/' || c == '#' || c == '&' || c == '(' || c == ')' || c == ',' || c == '"' || c == '.'
        || c == ';' || c == ':' || c == '\''
}

/// Sanitizes a folder name so it is URL- and filesystem-safe: lowercase,
/// spaces replaced by hyphens, the reserved punctuation removed.
pub fn sanitize_folder(name: &str) -> (r: String)
    ensures
        r@ == spec_sanitize_folder(name@),
{
    let low = lowercase(name);
    let s = low.as_str();
    let n: usize = s.unicode_len();
    let mut out = String::new();
    let mut i: usize = 0;
    while i < n
        invariant
            n == s@.len(),
            s@ == lower_of(name@),
            i <= n,
            out@ == sanitize_chars(s@.subrange(0, i as int)),
        decreases n - i,
    {
        let c = s.get_char(i);
        proof {
            assert(s@.subrange(0, i + 1 as int).drop_last() =~= s@.subrange(0, i as int));
            assert(s@.subrange(0, i + 1 as int).last() == c);
        }
        if c == ' ' {
            push_char(&mut out, '-');
        } else if is_stripped_char_exec(c) {
        } else {
            push_char(&mut out, c);
        }
        i = i + 1;
    }
    proof {
        assert(s@.subrange(0, n as int) =~= s@);
    }
    out
}

/// Truncates each string to at most 16 characters, the prefix length the
/// scanner uses for its known-hash membership set.
pub fn truncate_strings(strings: &mut Vec<String>)
    ensures
        final(strings)@.len() == old(strings)@.len(),
        forall|i: int|
            0 <= i < old(strings)@.len() ==> final(strings)@[i]@ == take_chars(
                old(strings)@[i]@,
                16,
            ),
{
    let n = strings.len();
    let mut out: Vec<String> = Vec::new();
    let mut i: usize = 0;
    while i < n
        invariant
            n == old(strings)@.len(),
            strings@ == old(strings)@,
            i <= n,
            out@.len() == i,
            forall|k: int| 0 <= k < i ==> out@[k]@ == take_chars(old(strings)@[k]@, 16),
        decreases n - i,
    {
        out.push(truncate_chars(strings[i].as_str(), 16));
        i = i + 1;
    }
    *strings = out;
}

} // verus!
