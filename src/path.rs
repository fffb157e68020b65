//! Names of the output files: `<dir>/<stem>-<index>.<ext>` for a source
//! `<dir>/<stem>.<ext>`.
use crate::error::{Error, unnamed_source_message};
use std::path::Path;
use vstd::prelude::*;

verus! {

/// What `Path::file_stem` gives for a path, as text.
pub uninterp spec fn stem_of(p: Seq<char>) -> Option<Seq<char>>;

/// What `Path::extension` gives for a path, as text.
pub uninterp spec fn extension_of(p: Seq<char>) -> Option<Seq<char>>;

/// What `Path::with_file_name` gives for a path and a new file name, as text.
pub uninterp spec fn with_file_name_of(p: Seq<char>, name: Seq<char>) -> Seq<char>;

/// Relies on `std::path::Path::file_stem`: the file name without its final
/// extension, or `None` where the path has no file name.
#[verifier::external_body]
fn file_stem(p: &str) -> (r: Option<String>)
    ensures
        r matches Some(s) ==> stem_of(p@) == Some(s@),
        r is None ==> stem_of(p@) is None,
{
    Path::new(p).file_stem().map(|s| s.to_string_lossy().into_owned())
}

/// Relies on `std::path::Path::extension`: the part of the file name after
/// its final `.`, or `None` where there is none.
#[verifier::external_body]
fn file_extension(p: &str) -> (r: Option<String>)
    ensures
        r matches Some(s) ==> extension_of(p@) == Some(s@),
        r is None ==> extension_of(p@) is None,
{
    Path::new(p).extension().map(|s| s.to_string_lossy().into_owned())
}

/// Relies on `std::path::Path::with_file_name`: the path with its file name
/// replaced by `name`, in the same directory.
#[verifier::external_body]
fn with_file_name(p: &str, name: &str) -> (r: String)
    ensures
        r@ == with_file_name_of(p@, name@),
{
    Path::new(p).with_file_name(name).to_string_lossy().into_owned()
}

/// The decimal digit for `d < 10`.
pub open spec fn digit(d: nat) -> char {
    if d == 0 { '0' }
    else if d == 1 { '1' }
    else if d == 2 { '2' }
    else if d == 3 { '3' }
    else if d == 4 { '4' }
    else if d == 5 { '5' }
    else if d == 6 { '6' }
    else if d == 7 { '7' }
    else if d == 8 { '8' }
    else { '9' }
}

/// The decimal notation of `k`, without sign or leading zeros.
pub open spec fn decimal(k: nat) -> Seq<char>
    decreases k,
{
    if k < 10 {
        seq![digit(k)]
    } else {
        decimal(k / 10).push(digit(k % 10))
    }
}

/// A source path can be split when its file name has a non-empty stem and a
/// non-empty extension.
pub open spec fn has_stem_and_extension(p: Seq<char>) -> bool {
    &&& stem_of(p) matches Some(s) && s.len() > 0
    &&& extension_of(p) matches Some(e) && e.len() > 0
}

/// The file name `<stem>-<k>.<ext>`.
pub open spec fn file_name(stem: Seq<char>, k: nat, ext: Seq<char>) -> Seq<char> {
    stem + "-"@ + decimal(k) + "."@ + ext
}

/// The name of the output file with 1-based index `k` for source path `p`.
pub open spec fn output_name(p: Seq<char>, k: nat) -> Seq<char> {
    with_file_name_of(p, file_name(stem_of(p).unwrap(), k, extension_of(p).unwrap()))
}

/// Every decimal numeral of ten or more has at least two digits.
proof fn lemma_decimal_long(k: nat)
    ensures
        decimal(k).len() >= 1,
        k >= 10 ==> decimal(k).len() >= 2,
    decreases k,
{
    if k >= 10 {
        lemma_decimal_long(k / 10);
    }
}

/// Distinct numbers have distinct decimal notations.
pub proof fn lemma_decimal_injective(i: nat, j: nat)
    requires
        decimal(i) == decimal(j),
    ensures
        i == j,
    decreases i,
{
    lemma_decimal_long(i);
    lemma_decimal_long(j);
    if i >= 10 && j >= 10 {
        let (a, b) = (decimal(i), decimal(j));
        assert(a.last() == digit(i % 10) && b.last() == digit(j % 10));
        assert(a.drop_last() =~= decimal(i / 10));
        assert(b.drop_last() =~= decimal(j / 10));
        lemma_decimal_injective(i / 10, j / 10);
    } else if i < 10 && j < 10 {
        assert(decimal(i)[0] == digit(i) && decimal(j)[0] == digit(j));
    }
}

/// For one stem and extension, distinct indices give distinct file names:
/// the output names never repeat.
pub proof fn lemma_file_names_distinct(stem: Seq<char>, i: nat, j: nat, ext: Seq<char>)
    requires
        i != j,
    ensures
        file_name(stem, i, ext) != file_name(stem, j, ext),
{
    if file_name(stem, i, ext) == file_name(stem, j, ext) {
        let pre = stem + "-"@;
        let post = "."@ + ext;
        assert(file_name(stem, i, ext) =~= pre + decimal(i) + post);
        assert(file_name(stem, j, ext) =~= pre + decimal(j) + post);
        assert(decimal(i).len() == decimal(j).len());
        let start = pre.len() as int;
        let end = start + decimal(i).len();
        assert((pre + decimal(i) + post).subrange(start, end) =~= decimal(i));
        assert((pre + decimal(j) + post).subrange(start, end) =~= decimal(j));
        lemma_decimal_injective(i, j);
    }
}

fn digit_str(d: usize) -> (r: &'static str)
    requires
        d < 10,
    ensures
        r@ == seq![digit(d as nat)],
{
    proof {
        reveal_strlit("0");
        reveal_strlit("1");
        reveal_strlit("2");
        reveal_strlit("3");
        reveal_strlit("4");
        reveal_strlit("5");
        reveal_strlit("6");
        reveal_strlit("7");
        reveal_strlit("8");
        reveal_strlit("9");
    }
    if d == 0 { "0" }
    else if d == 1 { "1" }
    else if d == 2 { "2" }
    else if d == 3 { "3" }
    else if d == 4 { "4" }
    else if d == 5 { "5" }
    else if d == 6 { "6" }
    else if d == 7 { "7" }
    else if d == 8 { "8" }
    else { "9" }
}

/// Appends the decimal notation of `k` to `s`.
fn push_decimal(s: &mut String, k: usize)
    ensures
        final(s)@ == old(s)@ + decimal(k as nat),
    decreases k,
{
    if k < 10 {
        s.append(digit_str(k));
    } else {
        push_decimal(s, k / 10);
        s.append(digit_str(k % 10));
        assert(final(s)@ =~= old(s)@ + decimal(k as nat));
    }
}

/// The file name `<stem>-<index>.<ext>`, with the index in decimal.
pub fn output_file_name(stem: &str, index: usize, ext: &str) -> (r: String)
    ensures
        r@ == file_name(stem@, index as nat, ext@),
{
    let mut name = stem.to_string();
    name.append("-");
    push_decimal(&mut name, index);
    name.append(".");
    name.append(ext);
    proof {
        assert(name@ =~= file_name(stem@, index as nat, ext@));
    }
    name
}

/// The path of the `index`-th output file for the source at `path`: the
/// source's directory, with file name `<stem>-<index>.<ext>`. Fails where the
/// source's file name lacks a stem or an extension, or either is empty.
pub fn generate_output_file_path(path: &str, index: usize) -> (r: Result<String, Error>)
    ensures
        has_stem_and_extension(path@) ==> (r matches Ok(o) && o@ == output_name(path@, index as nat)),
        !has_stem_and_extension(path@) ==> (r matches Err(Error::App(m)) && m@ == unnamed_source_message()),
{
    let stem = match file_stem(path) {
        Some(s) => s,
        None => return Err(Error::unnamed_source()),
    };
    let ext = match file_extension(path) {
        Some(e) => e,
        None => return Err(Error::unnamed_source()),
    };
    if stem.as_str().is_empty() || ext.as_str().is_empty() {
        return Err(Error::unnamed_source());
    }
    let name = output_file_name(stem.as_str(), index, ext.as_str());
    Ok(with_file_name(path, name.as_str()))
}

} // verus!
