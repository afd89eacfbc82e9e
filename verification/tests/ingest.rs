use coderag::lang::get_language;
use coderag::filter::{accepts_file, select_documents, WalkedFile};
use coderag::codec::{format_vector, parse_vector};
use coderag::store::{make_record, Store};

#[test]
fn language_lookup_table() {
    assert_eq!(get_language("a.rs"), "rust");
    assert_eq!(get_language("a.py"), "python");
    assert_eq!(get_language("a.js"), "javascript");
    assert_eq!(get_language("a.ts"), "typescript");
    assert_eq!(get_language("a.go"), "go");
    assert_eq!(get_language("a.java"), "java");
    assert_eq!(get_language("a.c"), "c");
    assert_eq!(get_language("a.cpp"), "cpp");
    assert_eq!(get_language("a.h"), "c++");
    assert_eq!(get_language("a.md"), "markdown");
    assert_eq!(get_language("a.toml"), "toml");
    assert_eq!(get_language("a.json"), "json");
    assert_eq!(get_language("a.sql"), "sql");
}

#[test]
fn language_fallback_unknown_extension() {
    assert_eq!(get_language("notes.xyz"), "text");
}

#[test]
fn language_of_paths_uses_basename() {
    assert_eq!(get_language("../src/main.rs"), "rust");
    assert_eq!(get_language("dir.rs/readme"), "text");
    assert_eq!(get_language("a.tar.json"), "json");
}

#[test]
fn language_dotfile_has_no_extension() {
    assert_eq!(get_language(".env"), "text");
    assert_eq!(get_language("../.gitignore"), "text");
}

#[test]
fn ingest_filter_keeps_and_drops() {
    assert!(accepts_file("../a.rs", "fn main() {}"));
    assert!(!accepts_file("../target/b.rs", "fn main() {}"));
    assert!(!accepts_file("../.env", "KEY=value"));
    assert!(accepts_file("../d.md", "# notes"));
}

#[test]
fn ingest_filter_ignored_dirs() {
    assert!(!accepts_file("../.git/config.md", "x"));
    assert!(!accepts_file("../venv/lib/a.py", "x"));
    assert!(!accepts_file("../__pycache__/a.py", "x"));
    assert!(!accepts_file("../.sqlx/query.json", "x"));
    assert!(accepts_file("../retarget/a.rs", "x"));
}

#[test]
fn ingest_filter_ignored_basenames() {
    assert!(!accepts_file("../Cargo.toml", "x"));
    assert!(!accepts_file("../Cargo.lock", "x"));
    assert!(!accepts_file("../yarn.lock", "x"));
    assert!(!accepts_file("../package-lock.json", "x"));
    assert!(!accepts_file("../debug_log.txt", "x"));
    assert!(!accepts_file("../Dockerfile", "x"));
    assert!(!accepts_file("../.gitignore", "x"));
    assert!(accepts_file("../Cargo.toml.bak", "x"));
}

#[test]
fn auto_generated_rust_is_skipped() {
    let marked = "//! module\n/// This module was auto-generated with ethers-rs Abigen.\nfn x() {}";
    assert!(!accepts_file("../gen.rs", marked));
    assert!(!accepts_file("../models.rs", "pub struct OnnxModels {\n}"));
    assert!(accepts_file("../gen.md", marked));
    assert!(accepts_file("../gen.rs", "fn plain() {}"));
}

#[test]
fn vector_encoding_format() {
    let parts: Vec<String> = vec![String::from("0.25"), String::from("-1.5"), String::from("3")];
    assert_eq!(format_vector(&parts), "[0.25,-1.5,3]");
    let empty: Vec<String> = Vec::new();
    assert_eq!(format_vector(&empty), "[]");
}

#[test]
fn vector_encoding_round_trips() {
    let floats: Vec<f32> = vec![0.25, -1.5, 3.0, 1.0e-7];
    let parts: Vec<String> = floats.iter().map(|f| f.to_string()).collect();
    let text = format_vector(&parts);
    let back = parse_vector(&text).expect("well-formed encoding must parse");
    assert_eq!(back, parts);
    let back_floats: Vec<f32> = back.iter().map(|p| p.parse::<f32>().unwrap()).collect();
    assert_eq!(back_floats, floats);
}

#[test]
fn vector_parse_rejects_malformed() {
    assert!(parse_vector("0.1,0.2").is_none());
    assert!(parse_vector("[0.1,0.2").is_none());
    assert!(parse_vector("0.1,0.2]").is_none());
    assert!(parse_vector("").is_none());
    let empty = parse_vector("[]").expect("empty brackets parse");
    assert_eq!(empty.len(), 0);
}

#[test]
fn record_metadata_invariants() {
    let parts: Vec<String> = vec![String::from("0.5")];
    let r = make_record("../a.rs", "fn main() {}", parts);
    assert_eq!(r.id, "../a.rs");
    assert_eq!(r.metadata.path, r.id);
    assert_eq!(r.metadata.source, "codebase");
    assert_eq!(r.metadata.language, "rust");
    let r2 = make_record("../notes.xyz", "hello", Vec::new());
    assert_eq!(r2.metadata.language, "text");
}

#[test]
fn reingest_leaves_no_duplicates() {
    let mut s = Store::new();
    let docs = [("../a.rs", "fn main() {}"), ("../d.md", "# notes")];
    for (path, text) in docs.iter() {
        s.upsert(make_record(path, text, Vec::new()));
    }
    assert_eq!(s.rows.len(), 2);
    for (path, text) in docs.iter() {
        s.upsert(make_record(path, text, Vec::new()));
    }
    assert_eq!(s.rows.len(), 2);
}

#[test]
fn upsert_replaces_by_id() {
    let mut s = Store::new();
    s.upsert(make_record("../a.rs", "old text", Vec::new()));
    s.upsert(make_record("../a.rs", "new text", Vec::new()));
    assert_eq!(s.rows.len(), 1);
    assert_eq!(s.rows[0].text, "new text");
    s.upsert(make_record("../b.rs", "other", Vec::new()));
    assert_eq!(s.rows.len(), 2);
}

#[test]
fn document_selection_in_walk_order() {
    let files = vec![
        WalkedFile { path: String::from("../a.rs"), content: Some(String::from("fn main() {}")) },
        WalkedFile { path: String::from("../target/b.rs"), content: Some(String::from("fn b() {}")) },
        WalkedFile { path: String::from("../.env"), content: Some(String::from("KEY=value")) },
        WalkedFile { path: String::from("../c.bin"), content: None },
        WalkedFile { path: String::from("../d.md"), content: Some(String::from("# notes")) },
    ];
    let docs = select_documents(&files);
    let ids: Vec<&str> = docs.iter().map(|d| d.0.as_str()).collect();
    assert_eq!(ids, ["../a.rs", "../d.md"]);
    assert_eq!(docs[0].1, "fn main() {}");
    assert_eq!(docs[1].1, "# notes");
}

#[test]
fn language_of_empty_and_bare_paths() {
    assert_eq!(get_language(""), "text");
    assert_eq!(get_language("rs"), "text");
    assert_eq!(get_language("trailing."), "text");
}
