//! The tags column format: a JSON array of strings. Tags are trimmed and
//! deduplicated before encoding; the decoder accepts exactly the grammar
//! the encoder produces (`["a","b"]`, with `\"` and `\\` escapes).

use crate::strutil::{push_char, spec_trim, str_eq_str, trim_ascii};
use vstd::prelude::*;
use vstd::string::StrSliceExecFns;

verus! {

/// One string escaped for a JSON string literal: quote and backslash get a
/// backslash; everything else stands for itself.
pub open spec fn esc_str(s: Seq<char>) -> Seq<char>
    decreases s.len(),
{
    if s.len() == 0 {
        Seq::empty()
    } else {
        let r = esc_str(s.drop_last());
        let c = s.last();
        if c == '"' || c == '\\' {
            r.push('\\').push(c)
        } else {
            r.push(c)
        }
    }
}

/// The item list of the encoding: quoted escaped items joined by commas.
pub open spec fn enc_items(ts: Seq<Seq<char>>) -> Seq<char>
    decreases ts.len(),
{
    if ts.len() == 0 {
        Seq::empty()
    } else if ts.len() == 1 {
        seq!['"'] + esc_str(ts[0]) + seq!['"']
    } else {
        enc_items(ts.drop_last()) + seq![','] + (seq!['"'] + esc_str(ts.last()) + seq!['"'])
    }
}

/// The encoding of a tag list: a JSON array of strings.
pub open spec fn spec_encode_tags(ts: Seq<Seq<char>>) -> Seq<char> {
    seq!['['] + enc_items(ts) + seq![']']
}

/// The first-occurrence deduplication of a sequence of strings.
pub open spec fn dedup(s: Seq<Seq<char>>) -> Seq<Seq<char>>
    decreases s.len(),
{
    if s.len() == 0 {
        Seq::empty()
    } else {
        let r = dedup(s.drop_last());
        if s.drop_last().contains(s.last()) {
            r
        } else {
            r.push(s.last())
        }
    }
}

/// Deduplication keeps exactly the elements.
pub proof fn lemma_dedup_contains(s: Seq<Seq<char>>)
    ensures
        forall|x: Seq<char>| dedup(s).contains(x) <==> s.contains(x),
    decreases s.len(),
{
    if s.len() > 0 {
        let s0 = s.drop_last();
        lemma_dedup_contains(s0);
        assert forall|x: Seq<char>| s.contains(x) implies dedup(s).contains(x) by {
            let i = choose|i: int| 0 <= i < s.len() && s[i] == x;
            if i < s.len() - 1 {
                assert(s0[i] == x);
                assert(s0.contains(x));
                assert(dedup(s0).contains(x));
                let j = choose|j: int| 0 <= j < dedup(s0).len() && dedup(s0)[j] == x;
                assert(dedup(s)[j] == x);
            } else {
                assert(x == s.last());
                if s0.contains(s.last()) {
                    assert(dedup(s0).contains(x));
                    let j = choose|j: int| 0 <= j < dedup(s0).len() && dedup(s0)[j] == x;
                    assert(dedup(s)[j] == x);
                } else {
                    assert(dedup(s)[dedup(s).len() - 1] == x);
                }
            }
            assert(dedup(s).contains(x));
        }
        assert forall|x: Seq<char>| dedup(s).contains(x) implies s.contains(x) by {
            let j = choose|j: int| 0 <= j < dedup(s).len() && dedup(s)[j] == x;
            if !s0.contains(s.last()) && j == dedup(s).len() - 1 {
                assert(x == s.last());
                assert(s[s.len() - 1] == x);
            } else {
                assert(dedup(s0)[j] == x);
                assert(dedup(s0).contains(x));
                assert(s0.contains(x));
                let i = choose|i: int| 0 <= i < s0.len() && s0[i] == x;
                assert(s[i] == x);
            }
            assert(s.contains(x));
        }
    }
}

/// Deduplication never lengthens a sequence.
pub proof fn lemma_dedup_len(s: Seq<Seq<char>>)
    ensures
        dedup(s).len() <= s.len(),
    decreases s.len(),
{
    if s.len() > 0 {
        lemma_dedup_len(s.drop_last());
    }
}

/// What the tag-processing step stores: each tag trimmed, duplicates
/// removed, first occurrence kept.
pub open spec fn spec_process_tags(ts: Seq<Seq<char>>) -> Seq<Seq<char>> {
    dedup(ts.map(|_i: int, t: Seq<char>| spec_trim(t)))
}

/// Trims and deduplicates a tag list.
pub fn process_tag_list(tags: &Vec<String>) -> (r: Vec<String>)
    ensures
        r@.map(|_i: int, s: String| s@) == spec_process_tags(
            tags@.map(|_i: int, s: String| s@),
        ),
{
    let ghost mapped = tags@.map(|_i: int, s: String| s@).map(|_i: int, t: Seq<char>| spec_trim(t));
    let n = tags.len();
    let mut out: Vec<String> = Vec::new();
    let mut i: usize = 0;
    proof {
        assert(mapped.subrange(0, 0) =~= Seq::<Seq<char>>::empty());
        assert(out@.map(|_i: int, s: String| s@) =~= dedup(mapped.subrange(0, 0)));
    }
    while i < n
        invariant
            n == tags@.len(),
            i <= n,
            mapped == tags@.map(|_i: int, s: String| s@).map(
                |_i: int, t: Seq<char>| spec_trim(t),
            ),
            mapped.len() == n,
            out@.map(|_i: int, s: String| s@) == dedup(mapped.subrange(0, i as int)),
        decreases n - i,
    {
        let t = trim_ascii(tags[i].as_str());
        proof {
            assert(mapped[i as int] == spec_trim(tags@[i as int]@));
            assert(mapped.subrange(0, i + 1 as int).drop_last() =~= mapped.subrange(0, i as int));
            assert(mapped.subrange(0, i + 1 as int).last() == mapped[i as int]);
        }
        let mut dup = false;
        let m = out.len();
        let mut j: usize = 0;
        proof {
            lemma_dedup_contains(mapped.subrange(0, i as int));
        }
        while j < m && !dup
            invariant
                m == out@.len(),
                j <= m,
                t@ == mapped[i as int],
                i < n,
                mapped.len() == n,
                out@.map(|_i: int, s: String| s@) == dedup(mapped.subrange(0, i as int)),
                dup ==> dedup(mapped.subrange(0, i as int)).contains(t@),
                !dup ==> forall|k: int|
                    0 <= k < j ==> dedup(mapped.subrange(0, i as int))[k] != t@,
            decreases m - j,
        {
            if str_eq_str(out[j].as_str(), t.as_str()) {
                dup = true;
                proof {
                    assert(dedup(mapped.subrange(0, i as int))[j as int] == t@);
                }
            }
            j = j + 1;
        }
        if !dup {
            proof {
                assert(!dedup(mapped.subrange(0, i as int)).contains(t@));
                assert(!mapped.subrange(0, i as int).contains(t@));
            }
            out.push(t);
            proof {
                assert(out@.map(|_i: int, s: String| s@) =~= dedup(
                    mapped.subrange(0, i as int),
                ).push(mapped[i as int]));
            }
        } else {
            proof {
                assert(dedup(mapped.subrange(0, i as int)).contains(t@));
                assert(mapped.subrange(0, i as int).contains(t@));
            }
        }
        i = i + 1;
    }
    proof {
        assert(mapped.subrange(0, n as int) =~= mapped);
    }
    out
}

/// Encodes a tag list as a JSON array of strings.
pub fn encode_tags(tags: &Vec<String>) -> (r: String)
    ensures
        r@ == spec_encode_tags(tags@.map(|_i: int, s: String| s@)),
{
    let ghost ts = tags@.map(|_i: int, s: String| s@);
    let n = tags.len();
    let mut out = String::new();
    push_char(&mut out, '[');
    proof {
        assert(ts.subrange(0, 0) =~= Seq::<Seq<char>>::empty());
        assert(out@ =~= seq!['['] + enc_items(ts.subrange(0, 0)));
    }
    let mut i: usize = 0;
    while i < n
        invariant
            n == tags@.len(),
            i <= n,
            ts == tags@.map(|_i: int, s: String| s@),
            ts.len() == n,
            out@ == seq!['['] + enc_items(ts.subrange(0, i as int)),
        decreases n - i,
    {
        if i > 0 {
            push_char(&mut out, ',');
        }
        push_char(&mut out, '"');
        let t = tags[i].as_str();
        let m: usize = t.unicode_len();
        let ghost base = out@;
        let mut j: usize = 0;
        proof {
            assert(t@.subrange(0, 0) =~= Seq::<char>::empty());
            assert(out@ =~= base + esc_str(t@.subrange(0, 0)));
        }
        while j < m
            invariant
                m == t@.len(),
                j <= m,
                out@ == base + esc_str(t@.subrange(0, j as int)),
            decreases m - j,
        {
            let c = t.get_char(j);
            proof {
                assert(t@.subrange(0, j + 1 as int).drop_last() =~= t@.subrange(0, j as int));
                assert(t@.subrange(0, j + 1 as int).last() == c);
            }
            if c == '"' || c == '\\' {
                push_char(&mut out, '\\');
                push_char(&mut out, c);
            } else {
                push_char(&mut out, c);
            }
            proof {
                assert(out@ =~= base + esc_str(t@.subrange(0, j + 1 as int)));
            }
            j = j + 1;
        }
        push_char(&mut out, '"');
        proof {
            assert(t@.subrange(0, m as int) =~= t@);
            assert(ts.subrange(0, i + 1 as int).drop_last() =~= ts.subrange(0, i as int));
            assert(ts.subrange(0, i + 1 as int).last() == ts[i as int]);
            assert(ts[i as int] == t@);
            if i == 0 {
                assert(out@ =~= seq!['['] + enc_items(ts.subrange(0, 1)));
            } else {
                assert(out@ =~= seq!['['] + enc_items(ts.subrange(0, i + 1 as int)));
            }
        }
        i = i + 1;
    }
    push_char(&mut out, ']');
    proof {
        assert(ts.subrange(0, n as int) =~= ts);
        assert(out@ =~= spec_encode_tags(ts));
    }
    out
}

/// The parser automaton's position in the grammar.
pub enum ParsePos {
    First,
    InStr,
    Esc,
    AfterStr,
    Comma,
    Done,
}

/// The automaton over the characters after the opening bracket: consumes
/// one character at a time, accumulating the current item and the list.
pub open spec fn parse_items(
    s: Seq<char>,
    i: int,
    st: ParsePos,
    cur: Seq<char>,
    acc: Seq<Seq<char>>,
) -> Option<Seq<Seq<char>>>
    decreases s.len() - i,
{
    if st is Done {
        if i == s.len() {
            Some(acc)
        } else {
            None
        }
    } else if i < 0 || i >= s.len() {
        None
    } else {
        let c = s[i];
        match st {
            ParsePos::First => {
                if c == '"' {
                    parse_items(s, i + 1, ParsePos::InStr, Seq::empty(), acc)
                } else if c == ']' {
                    parse_items(s, i + 1, ParsePos::Done, Seq::empty(), acc)
                } else {
                    None
                }
            },
            ParsePos::InStr => {
                if c == '"' {
                    parse_items(s, i + 1, ParsePos::AfterStr, Seq::empty(), acc.push(cur))
                } else if c == '\\' {
                    parse_items(s, i + 1, ParsePos::Esc, cur, acc)
                } else {
                    parse_items(s, i + 1, ParsePos::InStr, cur.push(c), acc)
                }
            },
            ParsePos::Esc => {
                if c == '"' || c == '\\' {
                    parse_items(s, i + 1, ParsePos::InStr, cur.push(c), acc)
                } else {
                    None
                }
            },
            ParsePos::AfterStr => {
                if c == ',' {
                    parse_items(s, i + 1, ParsePos::Comma, Seq::empty(), acc)
                } else if c == ']' {
                    parse_items(s, i + 1, ParsePos::Done, Seq::empty(), acc)
                } else {
                    None
                }
            },
            ParsePos::Comma => {
                if c == '"' {
                    parse_items(s, i + 1, ParsePos::InStr, Seq::empty(), acc)
                } else {
                    None
                }
            },
            ParsePos::Done => None,
        }
    }
}

/// What the decoder accepts: a whole string that is a JSON array of strings
/// in the encoder's grammar, and the tags it holds.
pub open spec fn spec_decode_tags(s: Seq<char>) -> Option<Seq<Seq<char>>> {
    if s.len() >= 1 && s[0] == '[' {
        parse_items(s, 1, ParsePos::First, Seq::empty(), Seq::empty())
    } else {
        None
    }
}

/// Decodes a JSON array of strings; `None` when the text is not in the
/// grammar.
pub fn decode_tags(s: &str) -> (r: Option<Vec<String>>)
    ensures
        match r {
            Some(ts) => spec_decode_tags(s@) == Some(ts@.map(|_i: int, t: String| t@)),
            None => spec_decode_tags(s@) is None,
        },
{
    let n: usize = s.unicode_len();
    if n == 0 || s.get_char(0) != '[' {
        return None;
    }
    let mut st = ParsePos::First;
    let mut cur = String::new();
    let mut acc: Vec<String> = Vec::new();
    let mut i: usize = 1;
    proof {
        assert(acc@.map(|_i: int, t: String| t@) =~= Seq::<Seq<char>>::empty());
    }
    while i < n
        invariant
            n == s@.len(),
            1 <= i <= n,
            spec_decode_tags(s@) == parse_items(
                s@,
                i as int,
                st,
                cur@,
                acc@.map(|_i: int, t: String| t@),
            ),
        decreases n - i,
    {
        let c = s.get_char(i);
        match st {
            ParsePos::First => {
                if c == '"' {
                    st = ParsePos::InStr;
                    cur = String::new();
                } else if c == ']' {
                    st = ParsePos::Done;
                    cur = String::new();
                } else {
                    return None;
                }
            },
            ParsePos::InStr => {
                if c == '"' {
                    let ghost acc0 = acc@.map(|_i: int, t: String| t@);
                    let ghost cur0 = cur@;
                    st = ParsePos::AfterStr;
                    acc.push(cur);
                    cur = String::new();
                    proof {
                        assert(acc@.map(|_i: int, t: String| t@) =~= acc0.push(cur0));
                    }
                } else if c == '\\' {
                    st = ParsePos::Esc;
                } else {
                    push_char(&mut cur, c);
                }
            },
            ParsePos::Esc => {
                if c == '"' || c == '\\' {
                    st = ParsePos::InStr;
                    push_char(&mut cur, c);
                } else {
                    return None;
                }
            },
            ParsePos::AfterStr => {
                if c == ',' {
                    st = ParsePos::Comma;
                    cur = String::new();
                } else if c == ']' {
                    st = ParsePos::Done;
                    cur = String::new();
                } else {
                    return None;
                }
            },
            ParsePos::Comma => {
                if c == '"' {
                    st = ParsePos::InStr;
                    cur = String::new();
                } else {
                    return None;
                }
            },
            ParsePos::Done => {
                return None;
            },
        }
        i = i + 1;
    }
    match st {
        ParsePos::Done => Some(acc),
        _ => None,
    }
}


/// The escaper unfolded at the front: the first character's escape followed
/// by the escape of the rest.
proof fn lemma_esc_front(t: Seq<char>)
    requires
        t.len() > 0,
    ensures
        esc_str(t) == (if t.first() == '"' || t.first() == '\\' {
            seq!['\\', t.first()]
        } else {
            seq![t.first()]
        }) + esc_str(t.drop_first()),
    decreases t.len(),
{
    let head: Seq<char> = if t.first() == '"' || t.first() == '\\' {
        seq!['\\', t.first()]
    } else {
        seq![t.first()]
    };
    if t.len() == 1 {
        assert(t.drop_last() =~= Seq::<char>::empty());
        assert(t.drop_first() =~= Seq::<char>::empty());
        assert(t.last() == t.first());
        assert(esc_str(t) =~= head + esc_str(t.drop_first()));
    } else {
        let u = t.drop_last();
        lemma_esc_front(u);
        assert(u.first() == t.first());
        assert(u.drop_first() =~= t.drop_first().drop_last());
        assert(t.drop_first().last() == t.last());
        assert(esc_str(t.drop_first()) == esc_str(t.drop_first().drop_last()) + (
        if t.last() == '"' || t.last() == '\\' {
            seq!['\\', t.last()]
        } else {
            seq![t.last()]
        }));
        assert(esc_str(t) =~= head + esc_str(t.drop_first()));
    }
}

/// Consuming one escaped item: from inside a string literal whose remaining
/// text is the escape of `t` followed by the closing quote, the automaton
/// reaches the after-string state with `t` appended to the current item.
proof fn lemma_parse_string(s: Seq<char>, i: int, t: Seq<char>, cur: Seq<char>, acc: Seq<Seq<char>>)
    requires
        0 <= i,
        i + esc_str(t).len() + 1 <= s.len(),
        s.subrange(i, i + esc_str(t).len()) == esc_str(t),
        s[i + esc_str(t).len()] == '"',
    ensures
        parse_items(s, i, ParsePos::InStr, cur, acc) == parse_items(
            s,
            i + esc_str(t).len() + 1,
            ParsePos::AfterStr,
            Seq::empty(),
            acc.push(cur + t),
        ),
    decreases t.len(),
{
    let e = esc_str(t);
    if t.len() == 0 {
        assert(e =~= Seq::<char>::empty());
        assert(s[i] == '"');
        assert(cur + t =~= cur);
    } else {
        lemma_esc_front(t);
        let c = t.first();
        let rest = t.drop_first();
        let erest = esc_str(rest);
        if c == '"' || c == '\\' {
            assert(e == seq!['\\', c] + erest);
            assert(s[i] == e[0]) by {
                assert(s.subrange(i, i + e.len())[0] == s[i]);
            }
            assert(s[i + 1] == e[1]) by {
                assert(s.subrange(i, i + e.len())[1] == s[i + 1]);
            }
            assert(s[i] == '\\' && s[i + 1] == c);
            assert(e.len() == erest.len() + 2);
            assert(s.subrange(i + 2, i + 2 + erest.len()) =~= erest) by {
                assert forall|k: int| 0 <= k < erest.len() implies s.subrange(
                    i + 2,
                    i + 2 + erest.len(),
                )[k] == erest[k] by {
                    assert(s.subrange(i, i + e.len())[k + 2] == s[i + 2 + k]);
                    assert(e[k + 2] == erest[k]);
                }
            }
            assert(s[i + 2 + erest.len()] == '"');
            assert(parse_items(s, i, ParsePos::InStr, cur, acc) == parse_items(
                s,
                i + 1,
                ParsePos::Esc,
                cur,
                acc,
            ));
            assert(parse_items(s, i + 1, ParsePos::Esc, cur, acc) == parse_items(
                s,
                i + 2,
                ParsePos::InStr,
                cur.push(c),
                acc,
            ));
            lemma_parse_string(s, i + 2, rest, cur.push(c), acc);
            assert(cur.push(c) + rest =~= cur + t);
        } else {
            assert(e == seq![c] + erest);
            assert(s[i] == e[0]) by {
                assert(s.subrange(i, i + e.len())[0] == s[i]);
            }
            assert(s[i] == c);
            assert(c != '"' && c != '\\');
            assert(e.len() == erest.len() + 1);
            assert(s.subrange(i + 1, i + 1 + erest.len()) =~= erest) by {
                assert forall|k: int| 0 <= k < erest.len() implies s.subrange(
                    i + 1,
                    i + 1 + erest.len(),
                )[k] == erest[k] by {
                    assert(s.subrange(i, i + e.len())[k + 1] == s[i + 1 + k]);
                    assert(e[k + 1] == erest[k]);
                }
            }
            assert(s[i + 1 + erest.len()] == '"');
            assert(parse_items(s, i, ParsePos::InStr, cur, acc) == parse_items(
                s,
                i + 1,
                ParsePos::InStr,
                cur.push(c),
                acc,
            ));
            lemma_parse_string(s, i + 1, rest, cur.push(c), acc);
            assert(cur.push(c) + rest =~= cur + t);
        }
    }
}

/// The item list of the encoding, unfolded at the front.
pub open spec fn items_front(ts: Seq<Seq<char>>) -> Seq<char>
    decreases ts.len(),
{
    if ts.len() == 0 {
        Seq::empty()
    } else if ts.len() == 1 {
        seq!['"'] + esc_str(ts.first()) + seq!['"']
    } else {
        seq!['"'] + esc_str(ts.first()) + seq!['"'] + seq![','] + items_front(ts.drop_first())
    }
}

/// The front-unfolded item list appended by one item.
proof fn lemma_items_front_push(ts: Seq<Seq<char>>, x: Seq<char>)
    ensures
        items_front(ts.push(x)) == (if ts.len() == 0 {
            seq!['"'] + esc_str(x) + seq!['"']
        } else {
            items_front(ts) + seq![','] + (seq!['"'] + esc_str(x) + seq!['"'])
        }),
    decreases ts.len(),
{
    let p = ts.push(x);
    if ts.len() == 0 {
        assert(p.len() == 1);
        assert(p.first() == x);
    } else {
        assert(p.first() == ts.first());
        assert(p.drop_first() =~= ts.drop_first().push(x));
        lemma_items_front_push(ts.drop_first(), x);
        if ts.len() == 1 {
            assert(ts.drop_first().len() == 0);
            assert(items_front(p) =~= items_front(ts) + seq![','] + (seq!['"'] + esc_str(x)
                + seq!['"']));
        } else {
            assert(items_front(p) =~= items_front(ts) + seq![','] + (seq!['"'] + esc_str(x)
                + seq!['"']));
        }
    }
}

/// The two renderings of the item list agree.
proof fn lemma_items_front(ts: Seq<Seq<char>>)
    ensures
        enc_items(ts) == items_front(ts),
    decreases ts.len(),
{
    if ts.len() == 1 {
        assert(ts.first() == ts[0]);
    } else if ts.len() > 1 {
        let u = ts.drop_last();
        lemma_items_front(u);
        assert(u.push(ts.last()) =~= ts);
        lemma_items_front_push(u, ts.last());
        assert(enc_items(ts) == items_front(ts));
    }
}

/// Consuming an item list: from a position expecting an item whose
/// remaining text is the front-rendered items followed by the closing
/// bracket, the automaton accepts with those items appended.
proof fn lemma_parse_list(
    s: Seq<char>,
    i: int,
    ts: Seq<Seq<char>>,
    acc: Seq<Seq<char>>,
    st: ParsePos,
)
    requires
        st is First || st is Comma,
        ts.len() > 0,
        0 <= i,
        s.len() == i + items_front(ts).len() + 1,
        s.subrange(i, s.len() - 1) == items_front(ts),
        s[s.len() - 1] == ']',
    ensures
        parse_items(s, i, st, Seq::empty(), acc) == Some(acc + ts),
    decreases ts.len(),
{
    let body = items_front(ts);
    let e = esc_str(ts.first());
    assert(s[i] == body[0]) by {
        assert(s.subrange(i, s.len() - 1)[0] == s[i]);
    }
    assert(body[0] == '"');
    // after the opening quote the text is the escaped first item and its
    // closing quote
    assert(s.subrange(i + 1, i + 1 + e.len()) =~= e) by {
        assert forall|k: int| 0 <= k < e.len() implies s.subrange(i + 1, i + 1 + e.len())[k]
            == e[k] by {
            assert(s.subrange(i, s.len() - 1)[k + 1] == s[i + 1 + k]);
            assert(body[k + 1] == e[k]);
        }
    }
    let j = i + 1 + e.len();
    assert(s[j] == '"') by {
        assert(s.subrange(i, s.len() - 1)[j - i] == s[j]);
        assert(body[j - i] == '"');
    }
    lemma_parse_string(s, i + 1, ts.first(), Seq::empty(), acc);
    let after = j + 1;
    let acc2 = acc.push(Seq::empty() + ts.first());
    assert(Seq::empty() + ts.first() =~= ts.first());
    if ts.len() == 1 {
        assert(after == s.len() - 1);
        assert(s[after] == ']');
        assert(parse_items(s, after, ParsePos::AfterStr, Seq::empty(), acc2) == parse_items(
            s,
            after + 1,
            ParsePos::Done,
            Seq::empty(),
            acc2,
        ));
        assert(acc + ts =~= acc2);
    } else {
        assert(s[after] == ',') by {
            assert(s.subrange(i, s.len() - 1)[after - i] == s[after]);
            assert(body[after - i] == ',');
        }
        let rest = ts.drop_first();
        assert(s.subrange(after + 1, s.len() - 1) =~= items_front(rest)) by {
            assert forall|k: int| 0 <= k < items_front(rest).len() implies s.subrange(
                after + 1,
                s.len() - 1,
            )[k] == items_front(rest)[k] by {
                assert(s.subrange(i, s.len() - 1)[after + 1 - i + k] == s[after + 1 + k]);
                assert(body[after + 1 - i + k] == items_front(rest)[k]);
            }
        }
        lemma_parse_list(s, after + 1, rest, acc2, ParsePos::Comma);
        assert(acc2 + rest =~= acc + ts);
    }
}

/// Round trip of the tags column: decoding what the encoder wrote returns
/// exactly the encoded tag list, so tags stored for a record are the tags
/// read back.
pub proof fn lemma_tags_round_trip(ts: Seq<Seq<char>>)
    ensures
        spec_decode_tags(spec_encode_tags(ts)) == Some(ts),
{
    let s = spec_encode_tags(ts);
    assert(s[0] == '[');
    if ts.len() == 0 {
        assert(enc_items(ts) =~= Seq::<char>::empty());
        assert(s =~= seq!['[', ']']);
        assert(s[1] == ']');
        assert(parse_items(s, 1, ParsePos::First, Seq::empty(), Seq::empty()) == parse_items(
            s,
            2,
            ParsePos::Done,
            Seq::empty(),
            Seq::empty(),
        ));
        assert(spec_decode_tags(s) == Some(Seq::<Seq<char>>::empty()));
    } else {
        lemma_items_front(ts);
        assert(s.len() == 1 + items_front(ts).len() + 1);
        assert(s.subrange(1, s.len() - 1) =~= items_front(ts));
        assert(s[s.len() - 1] == ']');
        lemma_parse_list(s, 1, ts, Seq::empty(), ParsePos::First);
        assert(Seq::<Seq<char>>::empty() + ts =~= ts);
    }
}

} // verus!
