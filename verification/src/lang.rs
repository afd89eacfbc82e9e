//! Language tagging: the basename and extension of a path, and the fixed
//! extension-to-language lookup used for document metadata.

use vstd::prelude::*;
use vstd::string::*;
use crate::text::{last_index_of, lemma_last_index_of, find_last, str_eq};

verus! {

/// The part of a path after its last `/` (the whole path when it has none).
pub open spec fn basename_of(p: Seq<char>) -> Seq<char> {
    p.subrange(last_index_of(p, '/') + 1, p.len() as int)
}

/// The extension of a file name: what follows its last dot, provided that
/// dot is neither the first character (dotfiles such as `.env` have no
/// extension) nor absent.
pub open spec fn extension_of(name: Seq<char>) -> Option<Seq<char>> {
    let d = last_index_of(name, '.');
    if d >= 1 {
        Some(name.subrange(d + 1, name.len() as int))
    } else {
        None
    }
}

/// The language tag for an extension, from the fixed lookup table.
pub open spec fn language_for_extension(e: Seq<char>) -> Seq<char> {
    if e == "rs"@ {
        "rust"@
    } else if e == "py"@ {
        "python"@
    } else if e == "js"@ {
        "javascript"@
    } else if e == "ts"@ {
        "typescript"@
    } else if e == "go"@ {
        "go"@
    } else if e == "java"@ {
        "java"@
    } else if e == "c"@ {
        "c"@
    } else if e == "cpp"@ {
        "cpp"@
    } else if e == "h"@ {
        "c++"@
    } else if e == "md"@ {
        "markdown"@
    } else if e == "toml"@ {
        "toml"@
    } else if e == "json"@ {
        "json"@
    } else if e == "sql"@ {
        "sql"@
    } else {
        "text"@
    }
}

/// The language tag of a path: the lookup applied to its extension, with
/// `text` for paths whose basename has no extension.
pub open spec fn language_of(p: Seq<char>) -> Seq<char> {
    match extension_of(basename_of(p)) {
        Some(e) => language_for_extension(e),
        None => "text"@,
    }
}

/// The closed set of language tags a document can carry.
pub open spec fn language_tags() -> Set<Seq<char>> {
    set![
        "rust"@,
        "python"@,
        "javascript"@,
        "typescript"@,
        "go"@,
        "java"@,
        "c"@,
        "cpp"@,
        "c++"@,
        "markdown"@,
        "toml"@,
        "json"@,
        "sql"@,
        "text"@,
    ]
}

/// Every path's language tag lies in the closed tag set.
pub proof fn lemma_language_in_tags(p: Seq<char>)
    ensures
        language_tags().contains(language_of(p)),
{
}

/// The basename of a path, as a slice of it.
pub fn basename_str<'a>(p: &'a str) -> (r: &'a str)
    ensures
        r@ == basename_of(p@),
{
    let len = p.unicode_len();
    match find_last(p, '/') {
        Some(i) => p.substring_char(i + 1, len),
        None => {
            proof {
                assert(p@.subrange(0, p@.len() as int) =~= p@);
            }
            p
        },
    }
}

/// The extension of a file name, as a slice of it.
pub fn extension_str<'a>(name: &'a str) -> (r: Option<&'a str>)
    ensures
        match r {
            Some(e) => extension_of(name@) == Some(e@),
            None => extension_of(name@) == None::<Seq<char>>,
        },
{
    let len = name.unicode_len();
    match find_last(name, '.') {
        Some(i) => {
            if i >= 1 {
                Some(name.substring_char(i + 1, len))
            } else {
                None
            }
        },
        None => None,
    }
}

/// The language tag for a path, from its extension.
pub fn get_language(path: &str) -> (r: &'static str)
    ensures
        r@ == language_of(path@),
{
    let base = basename_str(path);
    match extension_str(base) {
        None => "text",
        Some(e) => {
            if str_eq(e, "rs") {
                "rust"
            } else if str_eq(e, "py") {
                "python"
            } else if str_eq(e, "js") {
                "javascript"
            } else if str_eq(e, "ts") {
                "typescript"
            } else if str_eq(e, "go") {
                "go"
            } else if str_eq(e, "java") {
                "java"
            } else if str_eq(e, "c") {
                "c"
            } else if str_eq(e, "cpp") {
                "cpp"
            } else if str_eq(e, "h") {
                "c++"
            } else if str_eq(e, "md") {
                "markdown"
            } else if str_eq(e, "toml") {
                "toml"
            } else if str_eq(e, "json") {
                "json"
            } else if str_eq(e, "sql") {
                "sql"
            } else {
                "text"
            }
        },
    }
}

} // verus!
