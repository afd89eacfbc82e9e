use coderag::rerank::{parse_score, rerank_prompt, score_warning, check_float_literal};
use coderag::order::{sort_candidates, take_top, ScoredDoc};
use coderag::present::{render_entry, render_report, u64_to_string};
use coderag::{embedding_model_id, reranker_model_id};

/// The order key for a score: monotone in the float for comparable scores,
/// with the mark set for one that does not compare.
fn score_key(score: f32) -> (u32, bool) {
    if score.is_nan() {
        (0, true)
    } else {
        let bits: u32 = score.to_bits();
        let key: u32 = if bits & 0x8000_0000 != 0 { !bits } else { bits | 0x8000_0000 };
        (key, false)
    }
}

fn doc(id: &str, text: &str, score: f32) -> ScoredDoc {
    let (key, nan) = score_key(score);
    ScoredDoc {
        id: String::from(id),
        text: String::from(text),
        score_text: format!("{:.4}", score),
        key,
        nan,
    }
}

#[test]
fn rerank_parse_accepts_last_line_float() {
    assert_eq!(parse_score("Sure!\n0.42\n"), Some(String::from("0.42")));
}

#[test]
fn rerank_parse_drops_prose() {
    assert_eq!(parse_score("The score is 0.7 out of 1."), None);
}

#[test]
fn rerank_parse_trims_and_skips_blank_lines() {
    assert_eq!(parse_score("0.9\n  \n\t\n"), Some(String::from("0.9")));
    assert_eq!(parse_score("  0.5  "), Some(String::from("0.5")));
    assert_eq!(parse_score(""), None);
    assert_eq!(parse_score(" \n \n "), None);
}

#[test]
fn float_literal_grammar() {
    assert!(check_float_literal("0.42"));
    assert!(check_float_literal("-1.5"));
    assert!(check_float_literal("+0.5"));
    assert!(check_float_literal("3."));
    assert!(check_float_literal(".5"));
    assert!(check_float_literal("5e3"));
    assert!(check_float_literal("1.25E-7"));
    assert!(check_float_literal("inf"));
    assert!(check_float_literal("-Inf"));
    assert!(check_float_literal("infinity"));
    assert!(check_float_literal("NaN"));
    assert!(!check_float_literal(""));
    assert!(!check_float_literal("."));
    assert!(!check_float_literal("-"));
    assert!(!check_float_literal("1.2.3"));
    assert!(!check_float_literal("0.7 out"));
    assert!(!check_float_literal("e5"));
    assert!(!check_float_literal("1e"));
    assert!(!check_float_literal("one"));
}

#[test]
fn accepted_score_lines_parse_as_f32() {
    for line in ["0.42", "-1.5", "+0.5", "3.", ".5", "5e3", "1.25E-7", "inf", "NaN"] {
        assert!(check_float_literal(line));
        assert!(line.parse::<f32>().is_ok());
    }
}

#[test]
fn rerank_prompt_template() {
    let p = rerank_prompt("find the parser", "fn parse() {}");
    assert_eq!(
        p,
        "Given the query: 'find the parser' and the document: 'fn parse() {}'. Output only a \
         single floating-point number between 0.0 and 1.0 representing the relevance score. No \
         other text, explanation, or formatting."
    );
}

#[test]
fn warning_names_line_and_document() {
    let w = score_warning("0.7 out", "../a.rs");
    assert_eq!(
        w,
        "Warning: Could not parse rerank score from line '0.7 out' for document ../a.rs"
    );
}

#[test]
fn model_identifiers() {
    assert_eq!(embedding_model_id(), "dengcao/Qwen3-Embedding-4B:Q4_K_M");
    assert_eq!(reranker_model_id(), "hf.co/mradermacher/Qwen3-Reranker-4B-GGUF:Q4_K_M");
}

#[test]
fn ordering_by_descending_score() {
    let mut docs = vec![doc("a", "", 0.1), doc("b", "", 0.9), doc("c", "", 0.5)];
    sort_candidates(&mut docs);
    let ids: Vec<&str> = docs.iter().map(|d| d.id.as_str()).collect();
    assert_eq!(ids, ["b", "c", "a"]);
    let top = take_top(docs, 2);
    assert_eq!(top.len(), 2);
    assert_eq!(top[0].id, "b");
    assert_eq!(top[1].id, "c");
}

#[test]
fn ordering_handles_negative_scores() {
    let mut docs = vec![doc("a", "", -0.5), doc("b", "", 0.25), doc("c", "", -2.0)];
    sort_candidates(&mut docs);
    let ids: Vec<&str> = docs.iter().map(|d| d.id.as_str()).collect();
    assert_eq!(ids, ["b", "a", "c"]);
}

#[test]
fn ordering_is_stable_for_equal_scores() {
    let mut docs = vec![
        doc("first", "", 0.5),
        doc("high", "", 0.9),
        doc("second", "", 0.5),
        doc("third", "", 0.5),
    ];
    sort_candidates(&mut docs);
    let ids: Vec<&str> = docs.iter().map(|d| d.id.as_str()).collect();
    assert_eq!(ids, ["high", "first", "second", "third"]);
}

#[test]
fn ordering_treats_nan_as_equal() {
    let mut docs = vec![doc("a", "", 0.2), doc("n", "", f32::NAN), doc("b", "", 0.8)];
    sort_candidates(&mut docs);
    let ids: Vec<&str> = docs.iter().map(|d| d.id.as_str()).collect();
    assert_eq!(ids, ["a", "n", "b"]);
}

#[test]
fn take_top_caps_at_available() {
    let docs = vec![doc("a", "", 0.9)];
    let top = take_top(docs, 5);
    assert_eq!(top.len(), 1);
}

#[test]
fn decimal_rendering() {
    assert_eq!(u64_to_string(0), "0");
    assert_eq!(u64_to_string(7), "7");
    assert_eq!(u64_to_string(25), "25");
    assert_eq!(u64_to_string(12345), "12345");
}

#[test]
fn entry_rendering_exact() {
    let d = doc("../a.rs", "fn main() {}", 0.9);
    let block = render_entry(1, &d);
    assert_eq!(
        block,
        "\n1. ID: ../a.rs (Score: 0.9000)\n\
         --------------------------------------------------\n\
         fn main() {}\n"
    );
}

#[test]
fn truncation_counts_characters_not_bytes() {
    let long: String = std::iter::repeat('\u{00e9}').take(1000).collect();
    let d = doc("x", &long, 0.5);
    let block = render_entry(1, &d);
    let expected_text: String = std::iter::repeat('\u{00e9}').take(500).collect();
    assert!(block.contains(&format!("\n{}\n... (truncated)\n", expected_text)));
    assert!(block.ends_with("... (truncated)\n"));

    let exact: String = std::iter::repeat('\u{00e9}').take(500).collect();
    let d2 = doc("y", &exact, 0.5);
    let block2 = render_entry(1, &d2);
    assert!(!block2.contains("... (truncated)"));
    assert!(block2.contains(&format!("\n{}\n", exact)));
}

#[test]
fn report_rendering_orders_and_caps() {
    let mut docs = vec![doc("a", "alpha", 0.1), doc("b", "beta", 0.9), doc("c", "gamma", 0.5)];
    sort_candidates(&mut docs);
    let docs = take_top(docs, 2);
    let report = render_report(&docs, 2);
    assert_eq!(
        report,
        "\n--- Top 2 Reranked Results ---\n\
         \n1. ID: b (Score: 0.9000)\n\
         --------------------------------------------------\n\
         beta\n\
         \n2. ID: c (Score: 0.5000)\n\
         --------------------------------------------------\n\
         gamma\n"
    );
}

#[test]
fn report_header_names_requested_count() {
    let docs: Vec<ScoredDoc> = Vec::new();
    let report = render_report(&docs, 5);
    assert_eq!(report, "\n--- Top 5 Reranked Results ---\n");
}

#[test]
fn rerank_parse_handles_crlf_lines() {
    assert_eq!(parse_score("Sure!\r\n0.42\r\n"), Some(String::from("0.42")));
}

#[test]
fn rerank_parse_skips_unparsable_trailing_lines() {
    assert_eq!(parse_score("0.9\nthanks!"), None);
    assert_eq!(parse_score("ignored\n0.8\n \n"), Some(String::from("0.8")));
}
