//! Case-insensitive ordering of listings: the lexicographic order the
//! folder and tag views are sorted by, and selection sorts proven to
//! permute their input.

use crate::records::FolderInfo;
use crate::strutil::{lower_of, lowercase};
use vstd::multiset::Multiset;
use vstd::prelude::*;
use vstd::string::StrSliceExecFns;

verus! {

/// Lexicographic order on character sequences, by code point.
pub open spec fn lex_le(a: Seq<char>, b: Seq<char>) -> bool
    decreases a.len() + b.len(),
{
    if a.len() == 0 {
        true
    } else if b.len() == 0 {
        false
    } else if (a.first() as u32) != (b.first() as u32) {
        (a.first() as u32) < (b.first() as u32)
    } else {
        lex_le(a.drop_first(), b.drop_first())
    }
}

/// The order is total.
pub proof fn lemma_lex_total(a: Seq<char>, b: Seq<char>)
    ensures
        lex_le(a, b) || lex_le(b, a),
    decreases a.len() + b.len(),
{
    if a.len() > 0 && b.len() > 0 && (a.first() as u32) == (b.first() as u32) {
        lemma_lex_total(a.drop_first(), b.drop_first());
    }
}

/// The order is transitive.
pub proof fn lemma_lex_trans(a: Seq<char>, b: Seq<char>, c: Seq<char>)
    requires
        lex_le(a, b),
        lex_le(b, c),
    ensures
        lex_le(a, c),
    decreases a.len() + b.len() + c.len(),
{
    if a.len() > 0 && b.len() > 0 && c.len() > 0 {
        if (a.first() as u32) == (b.first() as u32) && (b.first() as u32) == (c.first() as u32) {
            lemma_lex_trans(a.drop_first(), b.drop_first(), c.drop_first());
        }
    }
}

/// Compares two strings in the lexicographic order.
pub fn str_le(a: &str, b: &str) -> (r: bool)
    ensures
        r == lex_le(a@, b@),
{
    let n: usize = a.unicode_len();
    let m: usize = b.unicode_len();
    let mut i: usize = 0;
    proof {
        assert(a@.skip(0) =~= a@);
        assert(b@.skip(0) =~= b@);
    }
    while i < n && i < m
        invariant
            n == a@.len(),
            m == b@.len(),
            i <= n,
            i <= m,
            lex_le(a@, b@) == lex_le(a@.skip(i as int), b@.skip(i as int)),
        decreases n - i,
    {
        let ca = a.get_char(i);
        let cb = b.get_char(i);
        proof {
            assert(a@.skip(i as int).first() == a@[i as int]);
            assert(b@.skip(i as int).first() == b@[i as int]);
            assert(a@.skip(i as int).drop_first() =~= a@.skip(i + 1 as int));
            assert(b@.skip(i as int).drop_first() =~= b@.skip(i + 1 as int));
        }
        if (ca as u32) != (cb as u32) {
            return (ca as u32) < (cb as u32);
        }
        i = i + 1;
    }
    proof {
        if i == n {
            assert(a@.skip(i as int).len() == 0);
        } else {
            assert(b@.skip(i as int).len() == 0);
            assert(a@.skip(i as int).len() > 0);
        }
    }
    n <= m
}

/// The sort key of a folder row: its lowercased folder name.
pub open spec fn folder_le(a: FolderInfo, b: FolderInfo) -> bool {
    lex_le(lower_of(a.folder_name@), lower_of(b.folder_name@))
}

/// Sorts folder rows by their lowercased folder name: the result is a
/// permutation of the input, ordered by the key.
pub fn sort_folders_by_name(list: Vec<FolderInfo>) -> (r: Vec<FolderInfo>)
    ensures
        r@.to_multiset() == list@.to_multiset(),
        r@.len() == list@.len(),
        forall|i: int, j: int| 0 <= i < j < r@.len() ==> folder_le(#[trigger] r@[i], #[trigger] r@[j]),
{
    broadcast use vstd::seq_lib::group_to_multiset_ensures;
    broadcast use vstd::multiset::group_multiset_axioms;

    let mut rest = list;
    let mut out: Vec<FolderInfo> = Vec::new();
    proof {
        assert(out@.to_multiset().add(rest@.to_multiset()) =~= list@.to_multiset());
    }
    while rest.len() > 0
        invariant
            out@.to_multiset().add(rest@.to_multiset()) == list@.to_multiset(),
            out@.len() + rest@.len() == list@.len(),
            forall|i: int, j: int|
                0 <= i < j < out@.len() ==> folder_le(#[trigger] out@[i], #[trigger] out@[j]),
            forall|i: int, j: int|
                0 <= i < out@.len() && 0 <= j < rest@.len() ==> folder_le(
                    #[trigger] out@[i],
                    #[trigger] rest@[j],
                ),
        decreases rest@.len(),
    {
        let mut m: usize = 0;
        let mut i: usize = 1;
        proof {
            lemma_lex_total(
                lower_of(rest@[0].folder_name@),
                lower_of(rest@[0].folder_name@),
            );
        }
        while i < rest.len()
            invariant
                rest@.len() > 0,
                m < i,
                1 <= i <= rest@.len(),
                forall|j: int| 0 <= j < i ==> folder_le(rest@[m as int], #[trigger] rest@[j]),
            decreases rest@.len() - i,
        {
            let ka = lowercase(rest[i].folder_name.as_str());
            let kb = lowercase(rest[m].folder_name.as_str());
            if str_le(ka.as_str(), kb.as_str()) {
                proof {
                    assert forall|j: int| 0 <= j < i implies folder_le(
                        rest@[i as int],
                        #[trigger] rest@[j],
                    ) by {
                        lemma_lex_trans(
                            lower_of(rest@[i as int].folder_name@),
                            lower_of(rest@[m as int].folder_name@),
                            lower_of(rest@[j].folder_name@),
                        );
                    }
                    assert(folder_le(rest@[i as int], rest@[i as int])) by {
                        lemma_lex_total(
                            lower_of(rest@[i as int].folder_name@),
                            lower_of(rest@[i as int].folder_name@),
                        );
                    }
                }
                m = i;
            } else {
                proof {
                    lemma_lex_total(
                        lower_of(rest@[i as int].folder_name@),
                        lower_of(rest@[m as int].folder_name@),
                    );
                }
            }
            i = i + 1;
        }
        let ghost pre_rest = rest@;
        let ghost pre_out = out@;
        let x = rest.remove(m);
        proof {
            broadcast use vstd::seq_lib::group_to_multiset_ensures;
            broadcast use vstd::multiset::group_multiset_axioms;

            assert(x == pre_rest[m as int]);
            assert(rest@ == pre_rest.remove(m as int));
            assert(pre_rest.remove(m as int).to_multiset() =~= pre_rest.to_multiset().remove(
                pre_rest[m as int],
            ));
            assert(rest@.to_multiset() =~= pre_rest.to_multiset().remove(x));
            assert forall|j: int| 0 <= j < rest@.len() implies folder_le(x, #[trigger] rest@[j]) by {
                if j < m {
                    assert(rest@[j] == pre_rest[j]);
                } else {
                    assert(rest@[j] == pre_rest[j + 1]);
                }
            }
            assert(pre_rest.to_multiset().count(x) > 0) by {
                assert(pre_rest.contains(x));
            }
        }
        out.push(x);
        proof {
            broadcast use vstd::seq_lib::group_to_multiset_ensures;
            broadcast use vstd::multiset::group_multiset_axioms;

            assert(out@ == pre_out.push(x));
            assert(pre_out.push(x).to_multiset() =~= pre_out.to_multiset().insert(x));
            assert(out@.to_multiset() =~= pre_out.to_multiset().insert(x));
            assert(out@.to_multiset().add(rest@.to_multiset()) =~= pre_out.to_multiset().add(
                pre_rest.to_multiset(),
            ));
            assert forall|i2: int, j2: int|
                0 <= i2 < j2 < out@.len() implies folder_le(
                #[trigger] out@[i2],
                #[trigger] out@[j2],
            ) by {
                if j2 == out@.len() - 1 {
                    assert(out@[i2] == pre_out[i2]);
                    assert(folder_le(pre_out[i2], pre_rest[m as int]));
                }
            }
        }
    }
    proof {
        broadcast use vstd::seq_lib::group_to_multiset_ensures;
        broadcast use vstd::multiset::group_multiset_axioms;

        assert(rest@.to_multiset() =~= Multiset::<FolderInfo>::empty());
        assert(out@.to_multiset() =~= out@.to_multiset().add(rest@.to_multiset()));
    }
    out
}

/// The sort key of a tag: the tag lowercased.
pub open spec fn tag_le(a: String, b: String) -> bool {
    lex_le(lower_of(a@), lower_of(b@))
}

/// Sorts tags by their lowercased form: the result is a permutation of the
/// input, ordered by the key.
pub fn sort_tags(list: Vec<String>) -> (r: Vec<String>)
    ensures
        r@.to_multiset() == list@.to_multiset(),
        r@.len() == list@.len(),
        forall|i: int, j: int| 0 <= i < j < r@.len() ==> tag_le(#[trigger] r@[i], #[trigger] r@[j]),
{
    broadcast use vstd::seq_lib::group_to_multiset_ensures;
    broadcast use vstd::multiset::group_multiset_axioms;

    let mut rest = list;
    let mut out: Vec<String> = Vec::new();
    proof {
        assert(out@.to_multiset().add(rest@.to_multiset()) =~= list@.to_multiset());
    }
    while rest.len() > 0
        invariant
            out@.to_multiset().add(rest@.to_multiset()) == list@.to_multiset(),
            out@.len() + rest@.len() == list@.len(),
            forall|i: int, j: int|
                0 <= i < j < out@.len() ==> tag_le(#[trigger] out@[i], #[trigger] out@[j]),
            forall|i: int, j: int|
                0 <= i < out@.len() && 0 <= j < rest@.len() ==> tag_le(
                    #[trigger] out@[i],
                    #[trigger] rest@[j],
                ),
        decreases rest@.len(),
    {
        let mut m: usize = 0;
        let mut i: usize = 1;
        proof {
            lemma_lex_total(lower_of(rest@[0]@), lower_of(rest@[0]@));
        }
        while i < rest.len()
            invariant
                rest@.len() > 0,
                m < i,
                1 <= i <= rest@.len(),
                forall|j: int| 0 <= j < i ==> tag_le(rest@[m as int], #[trigger] rest@[j]),
            decreases rest@.len() - i,
        {
            let ka = lowercase(rest[i].as_str());
            let kb = lowercase(rest[m].as_str());
            if str_le(ka.as_str(), kb.as_str()) {
                proof {
                    assert forall|j: int| 0 <= j < i implies tag_le(
                        rest@[i as int],
                        #[trigger] rest@[j],
                    ) by {
                        lemma_lex_trans(
                            lower_of(rest@[i as int]@),
                            lower_of(rest@[m as int]@),
                            lower_of(rest@[j]@),
                        );
                    }
                    assert(tag_le(rest@[i as int], rest@[i as int])) by {
                        lemma_lex_total(lower_of(rest@[i as int]@), lower_of(rest@[i as int]@));
                    }
                }
                m = i;
            } else {
                proof {
                    lemma_lex_total(lower_of(rest@[i as int]@), lower_of(rest@[m as int]@));
                }
            }
            i = i + 1;
        }
        let ghost pre_rest = rest@;
        let ghost pre_out = out@;
        let x = rest.remove(m);
        proof {
            broadcast use vstd::seq_lib::group_to_multiset_ensures;
            broadcast use vstd::multiset::group_multiset_axioms;

            assert(x == pre_rest[m as int]);
            assert(rest@ == pre_rest.remove(m as int));
            assert(pre_rest.remove(m as int).to_multiset() =~= pre_rest.to_multiset().remove(
                pre_rest[m as int],
            ));
            assert(rest@.to_multiset() =~= pre_rest.to_multiset().remove(x));
            assert forall|j: int| 0 <= j < rest@.len() implies tag_le(x, #[trigger] rest@[j]) by {
                if j < m {
                    assert(rest@[j] == pre_rest[j]);
                } else {
                    assert(rest@[j] == pre_rest[j + 1]);
                }
            }
            assert(pre_rest.to_multiset().count(x) > 0) by {
                assert(pre_rest.contains(x));
            }
        }
        out.push(x);
        proof {
            broadcast use vstd::seq_lib::group_to_multiset_ensures;
            broadcast use vstd::multiset::group_multiset_axioms;

            assert(out@ == pre_out.push(x));
            assert(pre_out.push(x).to_multiset() =~= pre_out.to_multiset().insert(x));
            assert(out@.to_multiset() =~= pre_out.to_multiset().insert(x));
            assert(out@.to_multiset().add(rest@.to_multiset()) =~= pre_out.to_multiset().add(
                pre_rest.to_multiset(),
            ));
            assert forall|i2: int, j2: int|
                0 <= i2 < j2 < out@.len() implies tag_le(#[trigger] out@[i2], #[trigger] out@[j2]) by {
                if j2 == out@.len() - 1 {
                    assert(out@[i2] == pre_out[i2]);
                    assert(tag_le(pre_out[i2], pre_rest[m as int]));
                }
            }
        }
    }
    proof {
        broadcast use vstd::seq_lib::group_to_multiset_ensures;
        broadcast use vstd::multiset::group_multiset_axioms;

        assert(rest@.to_multiset() =~= Multiset::<String>::empty());
        assert(out@.to_multiset() =~= out@.to_multiset().add(rest@.to_multiset()));
    }
    out
}

} // verus!
