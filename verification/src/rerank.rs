//! The reranker's text handling: the fixed prompt, and the parse of a model
//! response into its score line — the last line whose trimmed text is
//! non-empty — kept only when that line is a float literal.

use vstd::prelude::*;
use vstd::string::*;
use crate::text::{
    split_on, first_index_of, lemma_last_index_of, lemma_split_on_no_sep, lemma_split_on_last_sep,
    lemma_split_on_len, find_first, find_last,
};

verus! {

/// The whitespace trimmed from response lines.
pub open spec fn is_space_char(c: char) -> bool {
    c == ' ' || c == '\t' || c == '\r' || c == '\n'
}

pub open spec fn trim_start_spec(s: Seq<char>) -> Seq<char>
    decreases s.len(),
{
    if s.len() > 0 && is_space_char(s[0]) {
        trim_start_spec(s.drop_first())
    } else {
        s
    }
}

pub open spec fn trim_end_spec(s: Seq<char>) -> Seq<char>
    decreases s.len(),
{
    if s.len() > 0 && is_space_char(s.last()) {
        trim_end_spec(s.drop_last())
    } else {
        s
    }
}

/// `s` without leading and trailing whitespace.
pub open spec fn trim_spec(s: Seq<char>) -> Seq<char> {
    trim_end_spec(trim_start_spec(s))
}

proof fn lemma_trim_start(s: Seq<char>, a: int)
    requires
        0 <= a <= s.len(),
        forall|k: int| 0 <= k < a ==> is_space_char(s[k]),
        a < s.len() ==> !is_space_char(s[a]),
    ensures
        trim_start_spec(s) == s.subrange(a, s.len() as int),
    decreases a,
{
    if a == 0 {
        assert(s.subrange(0, s.len() as int) =~= s);
    } else {
        let s2 = s.drop_first();
        assert(forall|k: int| 0 <= k < s2.len() ==> s2[k] == s[k + 1]);
        lemma_trim_start(s2, a - 1);
        assert(s2.subrange(a - 1, s2.len() as int) =~= s.subrange(a, s.len() as int));
    }
}

proof fn lemma_trim_end(s: Seq<char>, e: int)
    requires
        0 <= e <= s.len(),
        forall|k: int| e <= k < s.len() ==> is_space_char(s[k]),
        e > 0 ==> !is_space_char(s[e - 1]),
    ensures
        trim_end_spec(s) == s.subrange(0, e),
    decreases s.len() - e,
{
    if e == s.len() {
        if s.len() > 0 && is_space_char(s.last()) {
            assert(false);
        }
        assert(s.subrange(0, s.len() as int) =~= s);
    } else {
        let s2 = s.drop_last();
        assert(is_space_char(s.last()));
        assert(forall|k: int| 0 <= k < s2.len() ==> s2[k] == s[k]);
        lemma_trim_end(s2, e);
        assert(s2.subrange(0, e) =~= s.subrange(0, e));
    }
}

fn is_space(c: char) -> (r: bool)
    ensures
        r == is_space_char(c),
{
    c == ' ' || c == '\t' || c == '\r' || c == '\n'
}

/// `s` without leading and trailing whitespace, as a slice of it.
pub fn trim_str<'a>(s: &'a str) -> (r: &'a str)
    ensures
        r@ == trim_spec(s@),
{
    let len = s.unicode_len();
    let mut a: usize = 0;
    while a < len && is_space(s.get_char(a))
        invariant
            len == s@.len(),
            a <= len,
            forall|k: int| 0 <= k < a ==> is_space_char(s@[k]),
        decreases len - a,
    {
        a += 1;
    }
    if a == len {
        proof {
            lemma_trim_start(s@, len as int);
            assert(s@.subrange(len as int, len as int) =~= Seq::<char>::empty());
            assert(trim_end_spec(Seq::<char>::empty()) == Seq::<char>::empty());
        }
        return s.substring_char(len, len);
    }
    let mut e: usize = len;
    while e > a && is_space(s.get_char(e - 1))
        invariant
            len == s@.len(),
            a <= e <= len,
            a < len,
            !is_space_char(s@[a as int]),
            forall|k: int| e <= k < len ==> is_space_char(s@[k]),
        decreases e,
    {
        e -= 1;
    }
    proof {
        lemma_trim_start(s@, a as int);
        let t = s@.subrange(a as int, len as int);
        assert(forall|k: int| e - a <= k < t.len() ==> is_space_char(t[k]));
        if e > a {
            assert(t[e - a - 1] == s@[e - 1]);
        }
        lemma_trim_end(t, e - a);
        assert(t.subrange(0, e - a) =~= s@.subrange(a as int, e as int));
    }
    s.substring_char(a, e)
}

/// The last line, from the end, whose trimmed text is non-empty.
pub open spec fn last_nonempty_trimmed(lines: Seq<Seq<char>>) -> Option<Seq<char>>
    decreases lines.len(),
{
    if lines.len() == 0 {
        None
    } else if trim_spec(lines.last()).len() > 0 {
        Some(trim_spec(lines.last()))
    } else {
        last_nonempty_trimmed(lines.drop_last())
    }
}

/// The score line of a response: split on newline, trimmed, the last
/// non-empty one.
pub open spec fn spec_score_line(resp: Seq<char>) -> Option<Seq<char>> {
    last_nonempty_trimmed(split_on(resp, '\n'))
}

/// Extracts the score line of a response.
pub fn score_line(resp: &str) -> (r: Option<String>)
    ensures
        match r {
            Some(l) => spec_score_line(resp@) == Some(l@),
            None => spec_score_line(resp@) == None::<Seq<char>>,
        },
    decreases resp@.len(),
{
    let len = resp.unicode_len();
    match find_last(resp, '\n') {
        None => {
            proof {
                lemma_last_index_of(resp@, '\n');
                lemma_split_on_no_sep(resp@, '\n');
                assert(seq![resp@].last() == resp@);
                assert(seq![resp@].drop_last() =~= Seq::<Seq<char>>::empty());
            }
            let t = trim_str(resp);
            proof {
                let lines = split_on(resp@, '\n');
                assert(last_nonempty_trimmed(Seq::<Seq<char>>::empty()) == None::<Seq<char>>);
                if trim_spec(resp@).len() > 0 {
                    assert(last_nonempty_trimmed(lines) == Some(trim_spec(resp@)));
                } else {
                    assert(last_nonempty_trimmed(lines) == None::<Seq<char>>);
                }
            }
            if t.unicode_len() > 0 {
                Some(t.to_owned())
            } else {
                None
            }
        },
        Some(k) => {
            proof {
                lemma_last_index_of(resp@, '\n');
                let head = resp@.subrange(0, k as int);
                let tailp = resp@.subrange(k as int + 1, len as int);
                assert(forall|j: int| 0 <= j < tailp.len() ==> tailp[j] == resp@[k + 1 + j]);
                assert(resp@ =~= head + seq!['\n'] + tailp);
                lemma_split_on_last_sep(head, tailp, '\n');
                lemma_split_on_len(head, '\n');
                let lines = split_on(resp@, '\n');
                assert(lines.last() == tailp);
                assert(lines.drop_last() =~= split_on(head, '\n'));
            }
            let tail = resp.substring_char(k + 1, len);
            let t = trim_str(tail);
            proof {
                let lines = split_on(resp@, '\n');
                let tailp = resp@.subrange(k as int + 1, len as int);
                if trim_spec(tailp).len() > 0 {
                    assert(last_nonempty_trimmed(lines) == Some(trim_spec(tailp)));
                } else {
                    assert(last_nonempty_trimmed(lines) == last_nonempty_trimmed(
                        lines.drop_last(),
                    ));
                }
            }
            if t.unicode_len() > 0 {
                Some(t.to_owned())
            } else {
                let head = resp.substring_char(0, k);
                score_line(head)
            }
        },
    }
}

/// An ASCII decimal digit.
pub open spec fn is_digit(c: char) -> bool {
    48 <= c as u32 && c as u32 <= 57
}

/// Every character a digit (an empty run passes).
pub open spec fn digits0(s: Seq<char>) -> bool {
    forall|i: int| 0 <= i < s.len() ==> is_digit(#[trigger] s[i])
}

/// At least one character, all digits.
pub open spec fn digits1(s: Seq<char>) -> bool {
    s.len() >= 1 && digits0(s)
}

/// `s` without one leading `+` or `-`.
pub open spec fn strip_sign(s: Seq<char>) -> Seq<char> {
    if s.len() > 0 && (s[0] == '+' || s[0] == '-') {
        s.drop_first()
    } else {
        s
    }
}

/// `c` is the letter `l` (a lowercase ASCII letter) in either case.
pub open spec fn lower_eq(c: char, l: char) -> bool {
    c == l || c as u32 + 32 == l as u32
}

pub open spec fn is_inf_word(s: Seq<char>) -> bool {
    s.len() == 3 && lower_eq(s[0], 'i') && lower_eq(s[1], 'n') && lower_eq(s[2], 'f')
}

pub open spec fn is_infinity_word(s: Seq<char>) -> bool {
    s.len() == 8 && lower_eq(s[0], 'i') && lower_eq(s[1], 'n') && lower_eq(s[2], 'f') && lower_eq(
        s[3],
        'i',
    ) && lower_eq(s[4], 'n') && lower_eq(s[5], 'i') && lower_eq(s[6], 't') && lower_eq(s[7], 'y')
}

pub open spec fn is_nan_word(s: Seq<char>) -> bool {
    s.len() == 3 && lower_eq(s[0], 'n') && lower_eq(s[1], 'a') && lower_eq(s[2], 'n')
}

/// Digits with at most one decimal point and at least one digit.
pub open spec fn is_mantissa(m: Seq<char>) -> bool {
    let d = first_index_of(m, '.');
    if d == -1 {
        digits1(m)
    } else {
        digits0(m.subrange(0, d)) && digits0(m.subrange(d + 1, m.len() as int)) && m.len() >= 2
    }
}

/// An optionally signed non-empty digit run.
pub open spec fn is_exponent(e: Seq<char>) -> bool {
    digits1(strip_sign(e))
}

/// Index of the first exponent marker `e` or `E`, or `-1`.
pub open spec fn first_exp_index(s: Seq<char>) -> int
    decreases s.len(),
{
    if s.len() == 0 {
        -1
    } else if s[0] == 'e' || s[0] == 'E' {
        0
    } else if first_exp_index(s.drop_first()) == -1 {
        -1
    } else {
        first_exp_index(s.drop_first()) + 1
    }
}

proof fn lemma_first_exp_index(s: Seq<char>)
    ensures
        -1 <= first_exp_index(s) < s.len(),
        first_exp_index(s) >= 0 ==> s[first_exp_index(s)] == 'e' || s[first_exp_index(s)] == 'E',
        forall|i: int| 0 <= i < first_exp_index(s) ==> s[i] != 'e' && s[i] != 'E',
        first_exp_index(s) == -1 ==> forall|i: int| 0 <= i < s.len() ==> s[i] != 'e' && s[i] != 'E',
    decreases s.len(),
{
    if s.len() == 0 {
    } else if s[0] == 'e' || s[0] == 'E' {
    } else {
        let s2 = s.drop_first();
        lemma_first_exp_index(s2);
        assert(forall|i: int| 0 <= i < s.len() - 1 ==> s2[i] == s[i + 1]);
        let r2 = first_exp_index(s2);
        if r2 == -1 {
            assert forall|i: int| 0 <= i < s.len() implies s[i] != 'e' && s[i] != 'E' by {
                if i > 0 {
                    assert(s2[i - 1] != 'e' && s2[i - 1] != 'E');
                }
            }
        } else {
            assert(s[r2 + 1] == s2[r2]);
            assert forall|i: int| 0 <= i < r2 + 1 implies s[i] != 'e' && s[i] != 'E' by {
                if i > 0 {
                    assert(s2[i - 1] != 'e' && s2[i - 1] != 'E');
                }
            }
        }
    }
}

/// A number: a mantissa, optionally followed by an exponent marker and an
/// exponent.
pub open spec fn is_number(t: Seq<char>) -> bool {
    let k = first_exp_index(t);
    if k == -1 {
        is_mantissa(t)
    } else {
        is_mantissa(t.subrange(0, k)) && is_exponent(t.subrange(k + 1, t.len() as int))
    }
}

/// A float literal as the standard library's float parser accepts it: an
/// optional sign, then an infinity or not-a-number keyword in any case, or
/// a number with optional fraction and exponent.
pub open spec fn is_float_literal(s: Seq<char>) -> bool {
    let t = strip_sign(s);
    is_inf_word(t) || is_infinity_word(t) || is_nan_word(t) || is_number(t)
}

fn is_digit_exec(c: char) -> (r: bool)
    ensures
        r == is_digit(c),
{
    let u = c as u32;
    48 <= u && u <= 57
}

fn is_digits0(s: &str) -> (r: bool)
    ensures
        r == digits0(s@),
{
    let len = s.unicode_len();
    let mut i: usize = 0;
    while i < len
        invariant
            len == s@.len(),
            i <= len,
            forall|k: int| 0 <= k < i ==> is_digit(#[trigger] s@[k]),
        decreases len - i,
    {
        if !is_digit_exec(s.get_char(i)) {
            return false;
        }
        i += 1;
    }
    true
}

fn lower_eq_exec(c: char, l: char) -> (r: bool)
    ensures
        r == lower_eq(c, l),
{
    let cu: u64 = c as u64;
    let lu: u64 = l as u64;
    c == l || cu + 32 == lu
}

fn check_word(s: &str, word: &str) -> (r: bool)
    requires
        forall|i: int| 0 <= i < word@.len() ==> 97 <= #[trigger] word@[i] as u32 <= 122,
    ensures
        r == (s@.len() == word@.len() && forall|i: int|
            0 <= i < word@.len() ==> lower_eq(s@[i], #[trigger] word@[i])),
{
    let slen = s.unicode_len();
    let wlen = word.unicode_len();
    if slen != wlen {
        return false;
    }
    let mut i: usize = 0;
    while i < wlen
        invariant
            slen == s@.len(),
            wlen == word@.len(),
            slen == wlen,
            i <= wlen,
            forall|k: int| 0 <= k < i ==> lower_eq(s@[k], #[trigger] word@[k]),
        decreases wlen - i,
    {
        if !lower_eq_exec(s.get_char(i), word.get_char(i)) {
            return false;
        }
        i += 1;
    }
    true
}

fn check_mantissa(m: &str) -> (r: bool)
    ensures
        r == is_mantissa(m@),
{
    let len = m.unicode_len();
    match find_first(m, '.') {
        None => len >= 1 && is_digits0(m),
        Some(d) => {
            let ip = m.substring_char(0, d);
            let fp = m.substring_char(d + 1, len);
            is_digits0(ip) && is_digits0(fp) && len >= 2
        },
    }
}

fn find_exp(s: &str) -> (r: Option<usize>)
    ensures
        match r {
            Some(i) => i < s@.len() && first_exp_index(s@) == i as int,
            None => first_exp_index(s@) == -1,
        },
{
    let len = s.unicode_len();
    let mut i: usize = 0;
    while i < len
        invariant
            len == s@.len(),
            i <= len,
            forall|k: int| 0 <= k < i ==> s@[k] != 'e' && s@[k] != 'E',
        decreases len - i,
    {
        let c = s.get_char(i);
        if c == 'e' || c == 'E' {
            proof {
                lemma_first_exp_index(s@);
                let f = first_exp_index(s@);
                if f > i as int {
                    assert(s@[i as int] != 'e' && s@[i as int] != 'E');
                }
                if 0 <= f < i as int {
                    assert(s@[f] != 'e' && s@[f] != 'E');
                }
                if f == -1 {
                    assert(s@[i as int] != 'e' && s@[i as int] != 'E');
                }
            }
            return Some(i);
        }
        i += 1;
    }
    proof {
        lemma_first_exp_index(s@);
        let f = first_exp_index(s@);
        if f >= 0 {
            assert(s@[f] != 'e' && s@[f] != 'E');
        }
    }
    None
}

/// `s` with one leading sign removed, as a slice of it.
fn strip_sign_str<'a>(s: &'a str) -> (r: &'a str)
    ensures
        r@ == strip_sign(s@),
{
    let len = s.unicode_len();
    if len > 0 {
        let c = s.get_char(0);
        if c == '+' || c == '-' {
            let r = s.substring_char(1, len);
            proof {
                assert(s@.subrange(1, len as int) =~= s@.drop_first());
            }
            return r;
        }
    }
    s
}

fn check_exponent(e: &str) -> (r: bool)
    ensures
        r == is_exponent(e@),
{
    let t = strip_sign_str(e);
    let tlen = t.unicode_len();
    tlen >= 1 && is_digits0(t)
}

fn check_number(t: &str) -> (r: bool)
    ensures
        r == is_number(t@),
{
    let len = t.unicode_len();
    match find_exp(t) {
        None => check_mantissa(t),
        Some(k) => {
            let mant = t.substring_char(0, k);
            let exp = t.substring_char(k + 1, len);
            check_mantissa(mant) && check_exponent(exp)
        },
    }
}

/// Whether `s` is a float literal.
pub fn check_float_literal(s: &str) -> (r: bool)
    ensures
        r == is_float_literal(s@),
{
    let t = strip_sign_str(s);
    proof {
        reveal_strlit("inf");
        reveal_strlit("infinity");
        reveal_strlit("nan");
    }
    if check_word(t, "inf") {
        proof {
            assert("inf"@[0] == 'i' && "inf"@[1] == 'n' && "inf"@[2] == 'f');
            assert(is_inf_word(t@));
        }
        return true;
    }
    if check_word(t, "infinity") {
        proof {
            assert("infinity"@[0] == 'i' && "infinity"@[1] == 'n' && "infinity"@[2] == 'f'
                && "infinity"@[3] == 'i' && "infinity"@[4] == 'n' && "infinity"@[5] == 'i'
                && "infinity"@[6] == 't' && "infinity"@[7] == 'y');
            assert(is_infinity_word(t@));
        }
        return true;
    }
    if check_word(t, "nan") {
        proof {
            assert("nan"@[0] == 'n' && "nan"@[1] == 'a' && "nan"@[2] == 'n');
            assert(is_nan_word(t@));
        }
        return true;
    }
    proof {
        assert("inf"@[0] == 'i' && "inf"@[1] == 'n' && "inf"@[2] == 'f');
        assert("infinity"@[0] == 'i' && "infinity"@[1] == 'n' && "infinity"@[2] == 'f'
            && "infinity"@[3] == 'i' && "infinity"@[4] == 'n' && "infinity"@[5] == 'i'
            && "infinity"@[6] == 't' && "infinity"@[7] == 'y');
        assert("nan"@[0] == 'n' && "nan"@[1] == 'a' && "nan"@[2] == 'n');
        assert(!is_inf_word(t@) && !is_infinity_word(t@) && !is_nan_word(t@));
    }
    check_number(t)
}

/// The reranker parse: the score line of the response when it is a float
/// literal, and nothing otherwise — the caller drops the candidate then.
pub fn parse_score(resp: &str) -> (r: Option<String>)
    ensures
        r matches Some(l) ==> spec_score_line(resp@) == Some(l@) && is_float_literal(l@),
        r is None ==> match spec_score_line(resp@) {
            Some(l) => !is_float_literal(l),
            None => true,
        },
{
    match score_line(resp) {
        None => None,
        Some(line) => {
            if check_float_literal(line.as_str()) {
                Some(line)
            } else {
                None
            }
        },
    }
}

/// The fixed rerank prompt with the query and the document substituted
/// verbatim.
pub open spec fn prompt_text(q: Seq<char>, d: Seq<char>) -> Seq<char> {
    "Given the query: '"@ + q + "' and the document: '"@ + d
        + "'. Output only a single floating-point number between 0.0 and 1.0 representing the relevance score. No other text, explanation, or formatting."@
}

/// Builds the rerank prompt for a query and a document.
pub fn rerank_prompt(query: &str, doc: &str) -> (r: String)
    ensures
        r@ == prompt_text(query@, doc@),
{
    let mut out: String = "Given the query: '".to_owned();
    out.append(query);
    out.append("' and the document: '");
    out.append(doc);
    out.append(
        "'. Output only a single floating-point number between 0.0 and 1.0 representing the relevance score. No other text, explanation, or formatting.",
    );
    proof {
        assert(out@ =~= prompt_text(query@, doc@));
    }
    out
}

/// The warning line emitted when a candidate's score line does not parse.
pub open spec fn warning_text(line: Seq<char>, id: Seq<char>) -> Seq<char> {
    "Warning: Could not parse rerank score from line '"@ + line + "' for document "@ + id
}

/// Builds the warning for a dropped candidate.
pub fn score_warning(line: &str, id: &str) -> (r: String)
    ensures
        r@ == warning_text(line@, id@),
{
    let mut out: String = "Warning: Could not parse rerank score from line '".to_owned();
    out.append(line);
    out.append("' for document ");
    out.append(id);
    proof {
        assert(out@ =~= warning_text(line@, id@));
    }
    out
}

} // verus!
