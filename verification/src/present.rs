//! Rendering of the query report: decimal numbers, character-counted
//! truncation, and the exact text printed for the top reranked results.

use vstd::prelude::*;
use vstd::string::*;
use crate::order::ScoredDoc;

verus! {

/// Characters of document text shown per result.
pub const DISPLAY_LIMIT: usize = 500;

/// The decimal digit character for `d`.
pub open spec fn digit_char(d: int) -> char {
    if d == 0 {
        '0'
    } else if d == 1 {
        '1'
    } else if d == 2 {
        '2'
    } else if d == 3 {
        '3'
    } else if d == 4 {
        '4'
    } else if d == 5 {
        '5'
    } else if d == 6 {
        '6'
    } else if d == 7 {
        '7'
    } else if d == 8 {
        '8'
    } else {
        '9'
    }
}

/// The decimal writing of `n`, most significant digit first.
pub open spec fn dec_str(n: int) -> Seq<char>
    decreases n,
{
    if n < 10 {
        seq![digit_char(n)]
    } else {
        dec_str(n / 10).push(digit_char(n % 10))
    }
}

/// Writes `n` in decimal.
pub fn u64_to_string(n: u64) -> (r: String)
    ensures
        r@ == dec_str(n as int),
    decreases n,
{
    let digits = "0123456789";
    proof {
        reveal_strlit("0123456789");
    }
    let d = (n % 10) as usize;
    let dc = digits.substring_char(d, d + 1);
    proof {
        assert(dc@ =~= seq![digit_char((n % 10) as int)]);
    }
    if n < 10 {
        let r = dc.to_owned();
        proof {
            assert(r@ =~= dec_str(n as int));
        }
        r
    } else {
        let rest = u64_to_string(n / 10);
        let out = rest.concat(dc);
        proof {
            assert(out@ =~= dec_str(n as int));
        }
        out
    }
}

/// The first `limit` characters of `t` when it is longer, all of it
/// otherwise.
pub open spec fn clipped_text(t: Seq<char>) -> Seq<char> {
    if t.len() > DISPLAY_LIMIT {
        t.subrange(0, DISPLAY_LIMIT as int)
    } else {
        t
    }
}

/// Truncation for display, measured in characters (Unicode scalar values),
/// never bytes: the kept slice and whether anything was cut.
pub fn truncate_chars<'a>(text: &'a str) -> (r: (&'a str, bool))
    ensures
        r.1 == (text@.len() > DISPLAY_LIMIT),
        r.0@ == clipped_text(text@),
{
    let len = text.unicode_len();
    if len > DISPLAY_LIMIT {
        (text.substring_char(0, DISPLAY_LIMIT), true)
    } else {
        (text, false)
    }
}

/// The separator printed under each result heading.
pub open spec fn separator_line() -> Seq<char> {
    "--------------------------------------------------"@
}

/// One printed result block: rank, id and score on the heading line, the
/// separator, then the clipped text and a truncation marker when text was
/// cut.
pub open spec fn entry_text(rank: int, id: Seq<char>, score: Seq<char>, text: Seq<char>) -> Seq<
    char,
> {
    "\n"@ + dec_str(rank) + ". ID: "@ + id + " (Score: "@ + score + ")\n"@ + separator_line()
        + "\n"@ + clipped_text(text) + "\n"@ + if text.len() > DISPLAY_LIMIT {
        "... (truncated)\n"@
    } else {
        Seq::<char>::empty()
    }
}

/// Renders one result block.
pub fn render_entry(rank: u64, doc: &ScoredDoc) -> (r: String)
    ensures
        r@ == entry_text(rank as int, doc.id@, doc.score_text@, doc.text@),
{
    let mut out: String = "\n".to_owned();
    out.append(u64_to_string(rank).as_str());
    out.append(". ID: ");
    out.append(doc.id.as_str());
    out.append(" (Score: ");
    out.append(doc.score_text.as_str());
    out.append(")\n");
    out.append("--------------------------------------------------");
    out.append("\n");
    let (clip, cut) = truncate_chars(doc.text.as_str());
    out.append(clip);
    out.append("\n");
    if cut {
        out.append("... (truncated)\n");
    }
    proof {
        assert(out@ =~= entry_text(rank as int, doc.id@, doc.score_text@, doc.text@));
    }
    out
}

/// The report heading, naming how many results were asked for.
pub open spec fn header_text(top_n: int) -> Seq<char> {
    "\n--- Top "@ + dec_str(top_n) + " Reranked Results ---\n"@
}

/// The blocks for the first `upto` candidates, ranks counted from one.
pub open spec fn entries_text(docs: Seq<ScoredDoc>, upto: int) -> Seq<char>
    decreases upto,
{
    if upto <= 0 {
        Seq::empty()
    } else {
        entries_text(docs, upto - 1) + entry_text(
            upto,
            docs[upto - 1].id@,
            docs[upto - 1].score_text@,
            docs[upto - 1].text@,
        )
    }
}

/// The whole query report: the heading, then one block for each of the
/// first `top_n` candidates — fewer when fewer were retrieved.
pub open spec fn report_text(docs: Seq<ScoredDoc>, top_n: int) -> Seq<char> {
    header_text(top_n) + entries_text(
        docs,
        if top_n <= docs.len() {
            top_n
        } else {
            docs.len() as int
        },
    )
}

/// Renders the report for already sorted candidates.
pub fn render_report(docs: &Vec<ScoredDoc>, top_n: usize) -> (r: String)
    ensures
        r@ == report_text(docs@, top_n as int),
{
    let mut out: String = "\n--- Top ".to_owned();
    out.append(u64_to_string(top_n as u64).as_str());
    out.append(" Reranked Results ---\n");
    proof {
        assert(out@ =~= header_text(top_n as int));
    }
    let m = if top_n <= docs.len() {
        top_n
    } else {
        docs.len()
    };
    let ghost header = out@;
    let mut i: usize = 0;
    while i < m
        invariant
            m <= docs@.len(),
            i <= m,
            out@ == header + entries_text(docs@, i as int),
        decreases m - i,
    {
        let entry = render_entry((i as u64) + 1, &docs[i]);
        out.append(entry.as_str());
        proof {
            assert(out@ =~= header + entries_text(docs@, i as int + 1));
        }
        i += 1;
    }
    proof {
        assert(out@ =~= report_text(docs@, top_n as int));
    }
    out
}

} // verus!
