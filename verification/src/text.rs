//! Character-level string utilities: equality, substring search, and
//! first/last occurrence of a character, each tied to a spec-level
//! definition over `Seq<char>`.

use vstd::prelude::*;
use vstd::string::*;

verus! {

/// `needle` occurs in `hay` starting at position `at`.
pub open spec fn matches_at(hay: Seq<char>, needle: Seq<char>, at: int) -> bool {
    &&& 0 <= at
    &&& at + needle.len() <= hay.len()
    &&& hay.subrange(at, at + needle.len() as int) == needle
}

/// `needle` occurs somewhere in `hay` as a contiguous run of characters.
pub open spec fn contains_seq(hay: Seq<char>, needle: Seq<char>) -> bool {
    exists|at: int| matches_at(hay, needle, at)
}

/// Index of the last occurrence of `c` in `s`, or `-1` when absent.
pub open spec fn last_index_of(s: Seq<char>, c: char) -> int
    decreases s.len(),
{
    if s.len() == 0 {
        -1
    } else if s[s.len() - 1] == c {
        s.len() - 1
    } else {
        last_index_of(s.drop_last(), c)
    }
}

/// Index of the first occurrence of `c` in `s`, or `-1` when absent.
pub open spec fn first_index_of(s: Seq<char>, c: char) -> int
    decreases s.len(),
{
    if s.len() == 0 {
        -1
    } else if s[0] == c {
        0
    } else if first_index_of(s.drop_first(), c) == -1 {
        -1
    } else {
        first_index_of(s.drop_first(), c) + 1
    }
}

pub proof fn lemma_last_index_of(s: Seq<char>, c: char)
    ensures
        -1 <= last_index_of(s, c) < s.len(),
        last_index_of(s, c) >= 0 ==> s[last_index_of(s, c)] == c,
        forall|i: int| last_index_of(s, c) < i < s.len() ==> s[i] != c,
    decreases s.len(),
{
    if s.len() == 0 {
    } else if s[s.len() - 1] == c {
    } else {
        let s2 = s.drop_last();
        lemma_last_index_of(s2, c);
        assert(forall|i: int| 0 <= i < s.len() - 1 ==> s[i] == s2[i]);
        let l = last_index_of(s2, c);
        assert forall|i: int| l < i < s.len() implies s[i] != c by {
            if i < s.len() - 1 {
                assert(s2[i] != c);
            }
        }
    }
}

pub proof fn lemma_first_index_of(s: Seq<char>, c: char)
    ensures
        -1 <= first_index_of(s, c) < s.len(),
        first_index_of(s, c) >= 0 ==> s[first_index_of(s, c)] == c,
        forall|i: int| 0 <= i < first_index_of(s, c) ==> s[i] != c,
        first_index_of(s, c) == -1 ==> forall|i: int| 0 <= i < s.len() ==> s[i] != c,
    decreases s.len(),
{
    if s.len() == 0 {
    } else if s[0] == c {
    } else {
        let s2 = s.drop_first();
        lemma_first_index_of(s2, c);
        assert(forall|i: int| 0 <= i < s.len() - 1 ==> s2[i] == s[i + 1]);
        let r2 = first_index_of(s2, c);
        if r2 == -1 {
            assert forall|i: int| 0 <= i < s.len() implies s[i] != c by {
                if i > 0 {
                    assert(s2[i - 1] != c);
                }
            }
        } else {
            assert(s[r2 + 1] == s2[r2]);
            assert forall|i: int| 0 <= i < r2 + 1 implies s[i] != c by {
                if i > 0 {
                    assert(s2[i - 1] != c);
                }
            }
        }
    }
}

/// The pieces of `s` between occurrences of `sep`: one more piece than
/// there are separators, in order, each free of `sep`.
pub open spec fn split_on(s: Seq<char>, sep: char) -> Seq<Seq<char>>
    decreases s.len(),
{
    if s.len() == 0 {
        seq![Seq::<char>::empty()]
    } else if s[0] == sep {
        seq![Seq::<char>::empty()] + split_on(s.drop_first(), sep)
    } else {
        let rest = split_on(s.drop_first(), sep);
        seq![seq![s[0]] + rest[0]] + rest.drop_first()
    }
}

/// `parts` joined into one sequence with `sep` between them.
pub open spec fn join_with(parts: Seq<Seq<char>>, sep: char) -> Seq<char>
    decreases parts.len(),
{
    if parts.len() == 0 {
        Seq::empty()
    } else if parts.len() == 1 {
        parts[0]
    } else {
        parts[0] + seq![sep] + join_with(parts.drop_first(), sep)
    }
}

pub proof fn lemma_split_on_len(s: Seq<char>, sep: char)
    ensures
        split_on(s, sep).len() >= 1,
    decreases s.len(),
{
    if s.len() == 0 {
    } else {
        lemma_split_on_len(s.drop_first(), sep);
    }
}

/// Splitting a separator-free sequence gives that one piece.
pub proof fn lemma_split_on_no_sep(s: Seq<char>, sep: char)
    requires
        forall|i: int| 0 <= i < s.len() ==> s[i] != sep,
    ensures
        split_on(s, sep) == seq![s],
    decreases s.len(),
{
    if s.len() == 0 {
        assert(split_on(s, sep) =~~= seq![s]);
    } else {
        let s2 = s.drop_first();
        assert(forall|i: int| 0 <= i < s2.len() ==> s2[i] == s[i + 1]);
        lemma_split_on_no_sep(s2, sep);
        assert(seq![s[0]] + s2 =~= s);
        assert(split_on(s, sep) =~~= seq![s]);
    }
}

/// Splitting at the first separator: with `a` separator-free, the pieces of
/// `a sep b` are `a` followed by the pieces of `b`.
pub proof fn lemma_split_on_sep_concat(a: Seq<char>, b: Seq<char>, sep: char)
    requires
        forall|i: int| 0 <= i < a.len() ==> a[i] != sep,
    ensures
        split_on(a + seq![sep] + b, sep) == seq![a] + split_on(b, sep),
    decreases a.len(),
{
    let s = a + seq![sep] + b;
    if a.len() == 0 {
        assert(s[0] == sep);
        assert(s.drop_first() =~= b);
        assert(split_on(s, sep) =~~= seq![a] + split_on(b, sep));
    } else {
        assert(s[0] == a[0]);
        let a2 = a.drop_first();
        assert(forall|i: int| 0 <= i < a2.len() ==> a2[i] == a[i + 1]);
        assert(s.drop_first() =~= a2 + seq![sep] + b);
        lemma_split_on_sep_concat(a2, b, sep);
        let rest = split_on(s.drop_first(), sep);
        lemma_split_on_len(b, sep);
        assert(rest[0] == a2);
        assert(seq![s[0]] + rest[0] =~= a);
        assert(rest.drop_first() =~= split_on(b, sep));
        assert(split_on(s, sep) =~~= seq![a] + split_on(b, sep));
    }
}

/// Splitting at the last separator: with `b` separator-free, the pieces of
/// `a sep b` are the pieces of `a` with `b` appended.
pub proof fn lemma_split_on_last_sep(a: Seq<char>, b: Seq<char>, sep: char)
    requires
        forall|i: int| 0 <= i < b.len() ==> b[i] != sep,
    ensures
        split_on(a + seq![sep] + b, sep) == split_on(a, sep).push(b),
    decreases a.len(),
{
    let s = a + seq![sep] + b;
    if a.len() == 0 {
        lemma_split_on_no_sep(b, sep);
        assert(s[0] == sep);
        assert(s.drop_first() =~= b);
        assert(split_on(s, sep) =~~= split_on(a, sep).push(b));
    } else if a[0] == sep {
        let a2 = a.drop_first();
        assert(s[0] == sep);
        assert(s.drop_first() =~= a2 + seq![sep] + b);
        lemma_split_on_last_sep(a2, b, sep);
        assert(split_on(s, sep) =~~= split_on(a, sep).push(b));
    } else {
        let a2 = a.drop_first();
        assert(s[0] == a[0]);
        assert(s.drop_first() =~= a2 + seq![sep] + b);
        lemma_split_on_last_sep(a2, b, sep);
        let rest = split_on(s.drop_first(), sep);
        let arest = split_on(a2, sep);
        lemma_split_on_len(a2, sep);
        assert(rest == arest.push(b));
        assert(rest[0] == arest[0]);
        assert(rest.drop_first() =~= arest.drop_first().push(b));
        assert(seq![s[0]] + rest[0] =~= seq![a[0]] + arest[0]);
        assert(split_on(s, sep) =~~= split_on(a, sep).push(b));
    }
}

/// Appending one piece extends the join by a separator and that piece.
pub proof fn lemma_join_with_push(parts: Seq<Seq<char>>, p: Seq<char>, sep: char)
    ensures
        join_with(parts.push(p), sep) == if parts.len() == 0 {
            p
        } else {
            join_with(parts, sep) + seq![sep] + p
        },
    decreases parts.len(),
{
    if parts.len() == 0 {
        assert(parts.push(p)[0] == p);
        assert(join_with(parts.push(p), sep) == p);
    } else if parts.len() == 1 {
        assert(parts.push(p)[0] == parts[0]);
        assert(parts.push(p).drop_first() =~= seq![p]);
        assert(join_with(seq![p], sep) == p);
        assert(join_with(parts.push(p), sep) =~= parts[0] + seq![sep] + p);
    } else {
        assert(parts.push(p)[0] == parts[0]);
        assert(parts.push(p).drop_first() =~= parts.drop_first().push(p));
        lemma_join_with_push(parts.drop_first(), p, sep);
        assert(join_with(parts.push(p), sep) =~= join_with(parts, sep) + seq![sep] + p);
    }
}

/// Splitting undoes joining, for non-empty separator-free pieces.
pub proof fn lemma_split_join(parts: Seq<Seq<char>>, sep: char)
    requires
        parts.len() >= 1,
        forall|i: int|
            0 <= i < parts.len() ==> (#[trigger] parts[i]).len() > 0 && !parts[i].contains(sep),
    ensures
        split_on(join_with(parts, sep), sep) == parts,
    decreases parts.len(),
{
    if parts.len() == 1 {
        assert(forall|j: int| 0 <= j < parts[0].len() ==> parts[0][j] != sep);
        lemma_split_on_no_sep(parts[0], sep);
        assert(split_on(join_with(parts, sep), sep) =~~= parts);
    } else {
        let rest = parts.drop_first();
        assert(forall|i: int|
            0 <= i < rest.len() ==> (#[trigger] rest[i]).len() > 0 && !rest[i].contains(sep));
        assert(forall|j: int| 0 <= j < parts[0].len() ==> parts[0][j] != sep);
        lemma_split_on_sep_concat(parts[0], join_with(rest, sep), sep);
        lemma_split_join(rest, sep);
        assert(seq![parts[0]] + rest =~~= parts);
        assert(split_on(join_with(parts, sep), sep) =~~= parts);
    }
}

/// Character-wise equality of two string slices.
pub fn str_eq(a: &str, b: &str) -> (r: bool)
    ensures
        r == (a@ == b@),
{
    let alen = a.unicode_len();
    let blen = b.unicode_len();
    if alen != blen {
        return false;
    }
    let mut i: usize = 0;
    while i < alen
        invariant
            alen == a@.len(),
            blen == b@.len(),
            alen == blen,
            i <= alen,
            forall|k: int| 0 <= k < i ==> a@[k] == b@[k],
        decreases alen - i,
    {
        if a.get_char(i) != b.get_char(i) {
            return false;
        }
        i += 1;
    }
    proof {
        assert(a@ =~= b@);
    }
    true
}

/// `needle` occurs in `hay` starting at position `at`, checked character
/// by character.
fn matches_prefix_at(hay: &str, needle: &str, at: usize) -> (r: bool)
    requires
        at + needle@.len() <= hay@.len(),
    ensures
        r == matches_at(hay@, needle@, at as int),
{
    let hlen = hay.unicode_len();
    let nlen = needle.unicode_len();
    let mut j: usize = 0;
    while j < nlen
        invariant
            hlen == hay@.len(),
            nlen == needle@.len(),
            at + nlen <= hlen,
            j <= nlen,
            forall|k: int| 0 <= k < j ==> hay@[at + k] == needle@[k],
        decreases nlen - j,
    {
        if hay.get_char(at + j) != needle.get_char(j) {
            proof {
                let sub = hay@.subrange(at as int, at + needle@.len() as int);
                assert(sub[j as int] == hay@[at + j]);
            }
            return false;
        }
        j += 1;
    }
    proof {
        assert(hay@.subrange(at as int, at + needle@.len() as int) =~= needle@);
    }
    true
}

/// `needle` occurs somewhere in `hay`.
pub fn contains_substr(hay: &str, needle: &str) -> (r: bool)
    ensures
        r == contains_seq(hay@, needle@),
{
    let hlen = hay.unicode_len();
    let nlen = needle.unicode_len();
    if nlen > hlen {
        return false;
    }
    let mut i: usize = 0;
    while i <= hlen - nlen
        invariant
            hlen == hay@.len(),
            nlen == needle@.len(),
            nlen <= hlen,
            i <= hlen - nlen,
            forall|at: int| 0 <= at < i ==> !matches_at(hay@, needle@, at),
        decreases hlen - nlen - i,
    {
        if matches_prefix_at(hay, needle, i) {
            return true;
        }
        if i == hlen - nlen {
            proof {
                assert(forall|at: int| at > hlen - nlen ==> !matches_at(hay@, needle@, at));
            }
            return false;
        }
        i += 1;
    }
    false
}

/// Index of the last occurrence of `c` in `s`, scanning from the end.
pub fn find_last(s: &str, c: char) -> (r: Option<usize>)
    ensures
        match r {
            Some(i) => i < s@.len() && last_index_of(s@, c) == i as int,
            None => last_index_of(s@, c) == -1,
        },
{
    proof {
        lemma_last_index_of(s@, c);
    }
    let len = s.unicode_len();
    let mut i: usize = len;
    while i > 0
        invariant
            len == s@.len(),
            i <= len,
            forall|k: int| i <= k < len ==> s@[k] != c,
        decreases i,
    {
        i = i - 1;
        if s.get_char(i) == c {
            proof {
                lemma_last_index_of(s@, c);
                let l = last_index_of(s@, c);
                assert(s@[i as int] == c);
                if l < i as int {
                    assert(s@[i as int] != c);
                }
                if l > i as int {
                    assert(s@[l] != c);
                }
            }
            return Some(i);
        }
    }
    None
}

/// Index of the first occurrence of `c` in `s`, scanning from the start.
pub fn find_first(s: &str, c: char) -> (r: Option<usize>)
    ensures
        match r {
            Some(i) => i < s@.len() && first_index_of(s@, c) == i as int,
            None => first_index_of(s@, c) == -1,
        },
{
    proof {
        lemma_first_index_of(s@, c);
    }
    let len = s.unicode_len();
    let mut i: usize = 0;
    while i < len
        invariant
            len == s@.len(),
            i <= len,
            forall|k: int| 0 <= k < i ==> s@[k] != c,
        decreases len - i,
    {
        if s.get_char(i) == c {
            proof {
                lemma_first_index_of(s@, c);
                let f = first_index_of(s@, c);
                assert(s@[i as int] == c);
                if f > i as int {
                    assert(s@[i as int] != c);
                }
                if 0 <= f < i as int {
                    assert(s@[f] != c);
                }
                if f == -1 {
                    assert(s@[i as int] != c);
                }
            }
            return Some(i);
        }
        i += 1;
    }
    None
}

} // verus!
