//! The names of table-dump files, and the site labels that they give.

use std::path::PathBuf;
use vstd::prelude::*;

verus! {

/// Makes `std::path::PathBuf` known as a type whose values are carried
/// through and never looked into.
#[verifier::external_type_specification]
#[verifier::external_body]
pub struct ExPathBuf(PathBuf);

/// The beginning of the name of a table dump.
pub const TABLE_PREFIX: &'static str = "vtr";

/// The ending of the stem of a table dump.
pub const TABLE_SUFFIX: &'static str = ".table.jsonl";

/// The ending of the name of a table dump.
pub const TABLE_FILE_SUFFIX: &'static str = ".table.jsonl.bz2";

/// Whether a file of this name is a table dump.
pub open spec fn table_dump_name(name: Seq<char>) -> bool {
    TABLE_PREFIX@.is_prefix_of(name) && TABLE_FILE_SUFFIX@.is_suffix_of(name)
}

/// The label that a file stem gives: the stem without the ending
/// [`TABLE_SUFFIX`], if it has that ending.
pub open spec fn mux_of_stem(stem: Seq<char>) -> Option<Seq<char>> {
    if TABLE_SUFFIX@.is_suffix_of(stem) {
        Some(stem.take(stem.len() - TABLE_SUFFIX@.len()))
    } else {
        None
    }
}

fn starts_with(text: &str, prefix: &str) -> (found: bool)
    ensures
        found == prefix@.is_prefix_of(text@),
{
    let n = text.unicode_len();
    let m = prefix.unicode_len();
    if n < m {
        return false;
    }
    let head = String::from_str(text.substring_char(0, m));
    let wanted = String::from_str(prefix);
    head == wanted
}

fn ends_with(text: &str, suffix: &str) -> (found: bool)
    ensures
        found == suffix@.is_suffix_of(text@),
{
    let n = text.unicode_len();
    let m = suffix.unicode_len();
    if n < m {
        return false;
    }
    let tail = String::from_str(text.substring_char(n - m, n));
    let wanted = String::from_str(suffix);
    tail == wanted
}

/// Tells whether a file of this name is a table dump: the name begins with
/// [`TABLE_PREFIX`] and ends with [`TABLE_FILE_SUFFIX`].
pub fn is_table_dump_name(name: &str) -> (found: bool)
    ensures
        found == table_dump_name(name@),
{
    starts_with(name, TABLE_PREFIX) && ends_with(name, TABLE_FILE_SUFFIX)
}

/// Returns the label that a file stem gives: the stem without the ending
/// [`TABLE_SUFFIX`], or `None` where the stem does not end so.
pub fn mux_protocol_of_stem(stem: &str) -> (mux: Option<String>)
    ensures
        mux.deep_view() == mux_of_stem(stem@),
{
    if ends_with(stem, TABLE_SUFFIX) {
        let n = stem.unicode_len();
        let m = TABLE_SUFFIX.unicode_len();
        let head = String::from_str(stem.substring_char(0, n - m));
        assert(head@ =~= stem@.take(n - m));
        Some(head)
    } else {
        None
    }
}

/// Calls `Path::file_stem` and hands its result back as text, if it is
/// UTF-8 (`OsStr::to_str`).
///
/// Trusted, and nothing is claimed of the result: what the stem of a path
/// is depends on the platform that the library is built for.
#[verifier::external_body]
fn file_stem_of(path: &PathBuf) -> (stem: Option<String>) {
    path.file_stem().and_then(|stem| stem.to_str()).map(|stem| stem.to_string())
}

/// Returns the label of the site whose table dump is the file `fpath`: the
/// stem of the file name without the ending [`TABLE_SUFFIX`].
///
/// There is none where the path has no file name, where the name is not
/// UTF-8, or where its stem does not end so. The stem is what the platform
/// says it is; [`mux_protocol_of_stem`] states what follows from it.
pub fn get_mux_protocol(fpath: &PathBuf) -> (mux: Option<String>) {
    match file_stem_of(fpath) {
        Some(stem) => mux_protocol_of_stem(stem.as_str()),
        None => None,
    }
}

} // verus!
