//! The ingest filter: which walked files enter the corpus. A file is kept
//! unless its path runs under an ignored directory, its basename is on the
//! ignore list, or it is a Rust source file carrying one of the sentinel
//! markers of auto-generated noise.

use vstd::prelude::*;
use crate::text::{contains_seq, contains_substr, str_eq};
use crate::lang::{basename_of, basename_str, extension_of, extension_str};

verus! {

/// Some path component is one of the ignored directory names, matched as
/// the bracketed fragments `/target/`, `/.git/`, `/venv/`, `/__pycache__/`
/// and `/.sqlx/` inside the path text.
pub open spec fn spec_under_ignored_dir(p: Seq<char>) -> bool {
    ||| contains_seq(p, "/target/"@)
    ||| contains_seq(p, "/.git/"@)
    ||| contains_seq(p, "/venv/"@)
    ||| contains_seq(p, "/__pycache__/"@)
    ||| contains_seq(p, "/.sqlx/"@)
}

/// The basename is one of the fixed ignored file names.
pub open spec fn spec_ignored_basename(n: Seq<char>) -> bool {
    ||| n == ".gitignore"@
    ||| n == "Cargo.lock"@
    ||| n == "yarn.lock"@
    ||| n == "package-lock.json"@
    ||| n == "debug_log.txt"@
    ||| n == "Cargo.toml"@
    ||| n == "Dockerfile"@
    ||| n == ".env"@
}

/// A Rust source file whose contents carry a sentinel marking
/// auto-generated or boilerplate code.
pub open spec fn spec_generated_rust(p: Seq<char>, content: Seq<char>) -> bool {
    &&& extension_of(basename_of(p)) == Some("rs"@)
    &&& {
        ||| contains_seq(content, "/// This module was auto-generated with ethers-rs Abigen."@)
        ||| contains_seq(content, "pub struct OnnxModels {"@)
    }
}

/// A readable file is kept exactly when none of the exclusion rules fires.
pub open spec fn spec_accepts(p: Seq<char>, content: Seq<char>) -> bool {
    &&& !spec_under_ignored_dir(p)
    &&& !spec_ignored_basename(basename_of(p))
    &&& !spec_generated_rust(p, content)
}

/// The path text contains an ignored directory fragment.
pub fn under_ignored_dir(p: &str) -> (r: bool)
    ensures
        r == spec_under_ignored_dir(p@),
{
    contains_substr(p, "/target/") || contains_substr(p, "/.git/") || contains_substr(p, "/venv/")
        || contains_substr(p, "/__pycache__/") || contains_substr(p, "/.sqlx/")
}

/// The file name is on the ignore list.
pub fn is_ignored_basename(n: &str) -> (r: bool)
    ensures
        r == spec_ignored_basename(n@),
{
    str_eq(n, ".gitignore") || str_eq(n, "Cargo.lock") || str_eq(n, "yarn.lock") || str_eq(
        n,
        "package-lock.json",
    ) || str_eq(n, "debug_log.txt") || str_eq(n, "Cargo.toml") || str_eq(n, "Dockerfile") || str_eq(
        n,
        ".env",
    )
}

/// The file is Rust source marked as auto-generated noise.
pub fn is_generated_rust(p: &str, content: &str) -> (r: bool)
    ensures
        r == spec_generated_rust(p@, content@),
{
    let base = basename_str(p);
    let is_rs = match extension_str(base) {
        Some(e) => str_eq(e, "rs"),
        None => false,
    };
    if !is_rs {
        return false;
    }
    contains_substr(content, "/// This module was auto-generated with ethers-rs Abigen.")
        || contains_substr(content, "pub struct OnnxModels {")
}

/// Whether the walked file at `path`, read as the UTF-8 text `content`,
/// enters the corpus.
pub fn accepts_file(path: &str, content: &str) -> (r: bool)
    ensures
        r == spec_accepts(path@, content@),
{
    if under_ignored_dir(path) {
        return false;
    }
    let base = basename_str(path);
    if is_ignored_basename(base) {
        return false;
    }
    if is_generated_rust(path, content) {
        return false;
    }
    true
}

/// A walked entry: its path text, and its contents where the read
/// succeeded as UTF-8 text. An unreadable or binary file carries none.
pub struct WalkedFile {
    pub path: String,
    pub content: Option<String>,
}

/// The views of collected documents, for stating what a selection holds.
pub open spec fn doc_views(docs: Seq<(String, String)>) -> Seq<(Seq<char>, Seq<char>)> {
    docs.map_values(|p: (String, String)| (p.0@, p.1@))
}

/// The documents a walk yields: each readable file the filter accepts, in
/// walk order, its path beside its text.
pub open spec fn spec_selected(files: Seq<WalkedFile>) -> Seq<(Seq<char>, Seq<char>)>
    decreases files.len(),
{
    if files.len() == 0 {
        Seq::empty()
    } else {
        spec_selected(files.drop_last()) + (match files.last().content {
            Some(c) => {
                if spec_accepts(files.last().path@, c@) {
                    seq![(files.last().path@, c@)]
                } else {
                    Seq::empty()
                }
            },
            None => Seq::empty(),
        })
    }
}

/// Builds the corpus from walked entries: keeps exactly the readable files
/// the filter accepts, in walk order.
pub fn select_documents(files: &Vec<WalkedFile>) -> (docs: Vec<(String, String)>)
    ensures
        doc_views(docs@) == spec_selected(files@),
{
    let mut docs: Vec<(String, String)> = Vec::new();
    let n = files.len();
    let mut i: usize = 0;
    proof {
        assert(doc_views(docs@) =~= spec_selected(files@.subrange(0, 0)));
    }
    while i < n
        invariant
            n == files@.len(),
            i <= n,
            doc_views(docs@) == spec_selected(files@.subrange(0, i as int)),
        decreases n - i,
    {
        let ghost pre = docs@;
        let mut kept: bool = false;
        match &files[i].content {
            Some(c) => {
                if accepts_file(files[i].path.as_str(), c.as_str()) {
                    docs.push((files[i].path.clone(), c.clone()));
                    kept = true;
                }
            },
            None => {},
        }
        proof {
            let prefix = files@.subrange(0, i as int + 1);
            assert(prefix.drop_last() =~= files@.subrange(0, i as int));
            assert(prefix.last() == files@[i as int]);
            if kept {
                let f = files@[i as int];
                assert(docs@ =~= pre.push((f.path, f.content.unwrap())));
                assert(doc_views(docs@) =~= doc_views(pre).push(
                    (f.path@, f.content.unwrap()@),
                ));
            } else {
                assert(docs@ =~= pre);
            }
            assert(doc_views(docs@) =~= spec_selected(prefix));
        }
        i += 1;
    }
    proof {
        assert(files@.subrange(0, n as int) =~= files@);
    }
    docs
}

/// An accepted file lies under no ignored directory fragment, has no
/// ignored basename, and is no sentinel-marked Rust source.
pub proof fn lemma_accepted_not_ignored(p: Seq<char>, content: Seq<char>)
    requires
        spec_accepts(p, content),
    ensures
        !spec_under_ignored_dir(p),
        !spec_ignored_basename(basename_of(p)),
        !spec_generated_rust(p, content),
{
}

} // verus!
