use vstd::prelude::*;
use vstd::string::{StrSliceExecFns, StringExecFns};

verus! {

/// Longest date filter, in bytes, that is handed to the history tool.
pub const MAX_DATE_BYTES: usize = 30;

/// `prefix` followed by `value`.
pub fn message_with(prefix: &str, value: &str) -> (r: String)
    ensures
        r@ == prefix@ + value@,
{
    let mut m = prefix.to_owned();
    m.append(value);
    m
}

/// Whether `s` begins with `-`, and would be read as an option.
pub open spec fn starts_with_dash(s: Seq<char>) -> bool {
    s.len() > 0 && s[0] == '-'
}

/// Whether a date filter is unsafe or malformed: too long, spanning lines,
/// or shaped like an option.
pub open spec fn date_rejected(d: &str) -> bool {
    d.len() > MAX_DATE_BYTES || has_newline(d@) || starts_with_dash(d@)
}

pub open spec fn has_newline(s: Seq<char>) -> bool {
    exists|k: int| 0 <= k < s.len() && s[k] == '\n'
}

pub open spec fn date_error(d: Seq<char>) -> Seq<char> {
    "无效的日期格式: "@ + d
}

pub open spec fn author_error(a: Seq<char>) -> Seq<char> {
    "无效的作者名: "@ + a
}

pub open spec fn relative_path_error() -> Seq<char> {
    "路径必须是绝对路径"@
}

pub open spec fn missing_dir_error(p: Seq<char>) -> Seq<char> {
    "路径不存在或不是目录: "@ + p
}

fn begins_with_dash(s: &str) -> (r: bool)
    ensures
        r == starts_with_dash(s@),
{
    s.unicode_len() > 0 && s.get_char(0) == '-'
}

fn holds_newline(s: &str) -> (r: bool)
    ensures
        r == has_newline(s@),
{
    let n = s.unicode_len();
    let mut i: usize = 0;
    while i < n
        invariant
            n == s@.len(),
            i <= n,
            forall|k: int| 0 <= k < i ==> s@[k] != '\n',
        decreases n - i,
    {
        if s.get_char(i) == '\n' {
            return true;
        }
        i = i + 1;
    }
    false
}

/// Checks a date filter before it reaches the history tool: it fails when the
/// date is longer than 30 bytes, holds a newline, or starts with `-`.
pub fn validate_date(date: &str) -> (r: Result<(), String>)
    ensures
        r is Ok <==> !date_rejected(date),
        r matches Err(e) ==> e@ == date_error(date@),
{
    if date.len() > MAX_DATE_BYTES || holds_newline(date) || begins_with_dash(date) {
        Err(message_with("无效的日期格式: ", date))
    } else {
        Ok(())
    }
}

/// Checks an author filter: it fails when the name starts with `-`.
pub fn validate_author(author: &str) -> (r: Result<(), String>)
    ensures
        r is Ok <==> !starts_with_dash(author@),
        r matches Err(e) ==> e@ == author_error(author@),
{
    if begins_with_dash(author) {
        Err(message_with("无效的作者名: ", author))
    } else {
        Ok(())
    }
}

/// Checks every author filter; the error names the first bad one.
pub fn validate_authors(authors: &Vec<String>) -> (r: Result<(), String>)
    ensures
        r is Ok <==> forall|i: int| 0 <= i < authors@.len() ==> !starts_with_dash(authors@[i]@),
        r matches Err(e) ==> exists|i: int|
            0 <= i < authors@.len() && starts_with_dash(authors@[i]@) && e@ == author_error(
                authors@[i]@,
            ) && forall|j: int| 0 <= j < i ==> !starts_with_dash(authors@[j]@),
{
    let mut i: usize = 0;
    while i < authors.len()
        invariant
            i <= authors@.len(),
            forall|j: int| 0 <= j < i ==> !starts_with_dash(authors@[j]@),
        decreases authors@.len() - i,
    {
        match validate_author(authors[i].as_str()) {
            Ok(()) => {},
            Err(e) => {
                return Err(e);
            },
        }
        i = i + 1;
    }
    Ok(())
}

/// Checks the filters of a history request: both dates, then the authors.
pub fn validate_filters(since: &str, until: &str, authors: &Vec<String>) -> (r: Result<(), String>)
    ensures
        r is Ok <==> !date_rejected(since) && !date_rejected(until) && forall|i: int|
            0 <= i < authors@.len() ==> !starts_with_dash(authors@[i]@),
        r matches Err(e) ==> if date_rejected(since) {
            e@ == date_error(since@)
        } else if date_rejected(until) {
            e@ == date_error(until@)
        } else {
            exists|i: int|
                0 <= i < authors@.len() && starts_with_dash(authors@[i]@) && e@ == author_error(
                    authors@[i]@,
                ) && forall|j: int| 0 <= j < i ==> !starts_with_dash(authors@[j]@)
        },
{
    validate_date(since)?;
    validate_date(until)?;
    validate_authors(authors)
}

/// The verdict on a repository path, given what the file system says of it:
/// it must be absolute, and it must name an existing directory.
pub fn check_path(path: &str, absolute: bool, is_dir: bool) -> (r: Result<(), String>)
    ensures
        r is Ok <==> absolute && is_dir,
        r matches Err(e) ==> if !absolute {
            e@ == relative_path_error()
        } else {
            e@ == missing_dir_error(path@)
        },
{
    if !absolute {
        Err("路径必须是绝对路径".to_owned())
    } else if !is_dir {
        Err(message_with("路径不存在或不是目录: ", path))
    } else {
        Ok(())
    }
}

/// Relies on `std::path::Path::is_absolute`; the answer depends on the platform.
#[verifier::external_body]
fn path_is_absolute(path: &str) -> bool {
    std::path::Path::new(path).is_absolute()
}

/// Relies on `std::path::Path::is_dir`; the answer depends on the file system.
#[verifier::external_body]
fn path_is_dir(path: &str) -> bool {
    std::path::Path::new(path).is_dir()
}

/// Relies on `std::path::Path::join`: `rel` placed under `base` as the
/// platform writes paths.
#[verifier::external_body]
pub(crate) fn join_path(base: &str, rel: &str) -> String {
    std::path::Path::new(base).join(rel).to_string_lossy().into_owned()
}

/// Relies on `std::path::Path::file_name`: the last component of a path,
/// if it has one, as the platform reads paths.
#[verifier::external_body]
fn file_name_of(path: &str) -> Option<String> {
    match std::path::Path::new(path).file_name() {
        Some(n) => Some(n.to_string_lossy().into_owned()),
        None => None,
    }
}

/// The display name of a folder: the last component of its path, or the
/// whole path when it has none (a root, or a path ending in `..`).
pub fn get_folder_name(path: String) -> (r: Result<String, String>)
    ensures
        r is Ok,
{
    match file_name_of(path.as_str()) {
        Some(n) => Ok(n),
        None => Ok(path),
    }
}

/// Checks that `path` is an absolute path to an existing directory, asking
/// the file system.
pub fn validate_path(path: &str) -> (r: Result<(), String>)
    ensures
        r matches Err(e) ==> e@ == relative_path_error() || e@ == missing_dir_error(path@),
{
    let absolute = path_is_absolute(path);
    let is_dir = if absolute {
        path_is_dir(path)
    } else {
        false
    };
    check_path(path, absolute, is_dir)
}

} // verus!
