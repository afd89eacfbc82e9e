//! The textual encoding of an embedding vector for the store: the
//! components, each already written as a number literal, joined with commas
//! inside square brackets, and the parse that undoes it.

use vstd::prelude::*;
use vstd::string::*;
use crate::text::{
    join_with, split_on, lemma_join_with_push, lemma_split_on_no_sep, lemma_split_on_sep_concat,
    lemma_split_join,
};

verus! {

/// The encoding `[p0,p1,...,pn]` of the component literals.
pub open spec fn vector_text(parts: Seq<Seq<char>>) -> Seq<char> {
    seq!['['] + join_with(parts, ',') + seq![']']
}

/// What parsing a vector encoding yields: the pieces between commas inside
/// the brackets, none for an empty interior, nothing when the brackets are
/// missing.
pub open spec fn spec_parse_vector(s: Seq<char>) -> Option<Seq<Seq<char>>> {
    if s.len() >= 2 && s[0] == '[' && s[s.len() - 1] == ']' {
        if s.len() == 2 {
            Some(Seq::empty())
        } else {
            Some(split_on(s.subrange(1, s.len() - 1), ','))
        }
    } else {
        None
    }
}

/// A component literal that survives the encoding: non-empty and free of
/// commas, as every number written by the standard formatter is.
pub open spec fn part_wf(p: Seq<char>) -> bool {
    p.len() > 0 && !p.contains(',')
}

/// Writes the vector components as `[p0,p1,...]`.
pub fn format_vector(parts: &Vec<String>) -> (r: String)
    ensures
        r@ == vector_text(parts.deep_view()),
{
    let ghost dv = parts.deep_view();
    let mut out: String = "[".to_owned();
    proof {
        reveal_strlit("[");
        assert(out@ =~= seq!['[']);
        assert(dv.subrange(0, 0) =~= Seq::<Seq<char>>::empty());
    }
    let n = parts.len();
    let mut i: usize = 0;
    while i < n
        invariant
            n == parts.len(),
            dv == parts.deep_view(),
            dv.len() == n,
            i <= n,
            out@ == seq!['['] + join_with(dv.subrange(0, i as int), ','),
        decreases n - i,
    {
        if i > 0 {
            out.append(",");
            proof {
                reveal_strlit(",");
            }
        }
        out.append(parts[i].as_str());
        proof {
            assert(dv[i as int] == parts@[i as int]@);
            lemma_join_with_push(dv.subrange(0, i as int), dv[i as int], ',');
            assert(dv.subrange(0, i as int + 1) =~= dv.subrange(0, i as int).push(dv[i as int]));
            assert(out@ =~= seq!['['] + join_with(dv.subrange(0, i as int + 1), ','));
        }
        i += 1;
    }
    out.append("]");
    proof {
        reveal_strlit("]");
        assert(dv.subrange(0, n as int) =~= dv);
        assert(out@ =~= vector_text(dv));
    }
    out
}

/// Parses a vector encoding back into its component literals.
pub fn parse_vector(s: &str) -> (r: Option<Vec<String>>)
    ensures
        match r {
            Some(parts) => spec_parse_vector(s@) == Some(parts.deep_view()),
            None => spec_parse_vector(s@) == None::<Seq<Seq<char>>>,
        },
{
    let len = s.unicode_len();
    if len < 2 {
        return None;
    }
    if s.get_char(0) != '[' {
        return None;
    }
    if s.get_char(len - 1) != ']' {
        return None;
    }
    if len == 2 {
        let parts: Vec<String> = Vec::new();
        proof {
            assert(parts.deep_view() =~~= Seq::<Seq<char>>::empty());
        }
        return Some(parts);
    }
    let inner = s.substring_char(1, len - 1);
    let ilen = len - 2;
    let mut parts: Vec<String> = Vec::new();
    let mut start: usize = 0;
    let mut i: usize = 0;
    proof {
        assert(parts.deep_view() =~~= Seq::<Seq<char>>::empty());
        assert(inner@.subrange(0, ilen as int) =~= inner@);
        assert(Seq::<Seq<char>>::empty() + split_on(inner@, ',') =~~= split_on(inner@, ','));
    }
    while i < ilen
        invariant
            ilen == inner@.len(),
            start <= i <= ilen,
            forall|k: int| start <= k < i ==> inner@[k] != ',',
            split_on(inner@, ',') == parts.deep_view() + split_on(
                inner@.subrange(start as int, ilen as int),
                ',',
            ),
        decreases ilen - i,
    {
        if inner.get_char(i) == ',' {
            let ghost old_dv = parts.deep_view();
            parts.push(inner.substring_char(start, i).to_owned());
            proof {
                let tail = inner@.subrange(start as int, ilen as int);
                let piece = inner@.subrange(start as int, i as int);
                let after = inner@.subrange(i as int + 1, ilen as int);
                assert(tail =~= piece + seq![','] + after);
                assert(forall|k: int| 0 <= k < piece.len() ==> piece[k] != ',');
                lemma_split_on_sep_concat(piece, after, ',');
                assert(parts.deep_view() =~~= old_dv.push(piece));
                assert((old_dv + (seq![piece] + split_on(after, ','))) =~~= (old_dv.push(piece)
                    + split_on(after, ',')));
                assert(split_on(inner@, ',') == parts.deep_view() + split_on(after, ','));
            }
            start = i + 1;
        }
        i += 1;
    }
    let ghost old_dv = parts.deep_view();
    parts.push(inner.substring_char(start, ilen).to_owned());
    proof {
        let piece = inner@.subrange(start as int, ilen as int);
        assert(forall|k: int| 0 <= k < piece.len() ==> piece[k] != ',');
        lemma_split_on_no_sep(piece, ',');
        assert(parts.deep_view() =~~= old_dv.push(piece));
        assert((old_dv + seq![piece]) =~~= old_dv.push(piece));
        assert(split_on(inner@, ',') == parts.deep_view());
        assert(s@.subrange(1, s@.len() - 1) == inner@);
    }
    Some(parts)
}

/// Law: the vector textual encoding round-trips. Parsing `[p0,...,pn]`
/// written from well-formed component literals yields those components
/// again.
pub proof fn lemma_vector_roundtrip(parts: Seq<Seq<char>>)
    requires
        forall|i: int| 0 <= i < parts.len() ==> part_wf(#[trigger] parts[i]),
    ensures
        spec_parse_vector(vector_text(parts)) == Some(parts),
{
    let s = vector_text(parts);
    let join = join_with(parts, ',');
    assert(s[0] == '[');
    assert(s[s.len() - 1] == ']');
    if parts.len() == 0 {
        assert(s.len() == 2);
        assert(spec_parse_vector(s) == Some(Seq::<Seq<char>>::empty()));
        assert(Seq::<Seq<char>>::empty() =~~= parts);
    } else {
        assert(join.len() > 0) by {
            if parts.len() == 1 {
                assert(join == parts[0]);
                assert(part_wf(parts[0]));
            } else {
                assert(join == parts[0] + seq![','] + join_with(parts.drop_first(), ','));
                assert(part_wf(parts[0]));
            }
        }
        assert(s.len() > 2);
        assert(s.subrange(1, s.len() - 1) =~= join);
        lemma_split_join(parts, ',');
    }
}

} // verus!
