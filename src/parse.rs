use vstd::prelude::*;

use crate::model::{
    commits_view, files_view, lemma_commits_view_push, lemma_files_view_push, CommitModel,
    FileModel, GitCommit, GitFile,
};
use crate::text::{
    char_seqs, chars_of, contains_char, copy_range, find_char, find_from, has_char, lemma_find_absent,
    lemma_trim_absent, lines, lines_from, string_of_chars, trim, trim_chars,
};

verus! {

/// Separator between the header fields of a commit line. It cannot occur in
/// a hash, a name, an e-mail address, a date or a subject line.
pub const FIELD_SEPARATOR: char = '\x1e';

/// Number of fields in a commit header line.
pub const HEADER_FIELDS: usize = 5;

/// The pieces of `t` from `i` on, cut at the first `n - 1` separators;
/// the last piece keeps any further separators (as `splitn` does).
pub open spec fn fields_from(t: Seq<char>, i: int, n: nat) -> Seq<Seq<char>>
    decreases n,
{
    let k = find_from(t, FIELD_SEPARATOR, i);
    if n <= 1 || !(0 <= i <= k && k < t.len()) {
        seq![t.subrange(i, t.len() as int)]
    } else {
        seq![t.subrange(i, k)] + fields_from(t, k + 1, (n - 1) as nat)
    }
}

/// The header fields of a trimmed line.
pub open spec fn header_fields(t: Seq<char>) -> Seq<Seq<char>> {
    fields_from(t, 0, HEADER_FIELDS as nat)
}

/// A trimmed line opens a commit record when it holds the separator.
pub open spec fn is_header(t: Seq<char>) -> bool {
    has_char(t, FIELD_SEPARATOR)
}

/// The commit a header line opens, when it has all five fields.
pub open spec fn header_commit(t: Seq<char>) -> Option<CommitModel> {
    let f = header_fields(t);
    if f.len() == 5 {
        Some(
            CommitModel {
                hash: f[0],
                author: f[1],
                email: f[2],
                date: f[3],
                message: f[4],
                files: Seq::empty(),
            },
        )
    } else {
        None
    }
}

/// The status code of a file line: the first character of the part before
/// the tab, `M` when that part is empty.
pub open spec fn status_of(p: Seq<char>) -> Seq<char> {
    if p.len() > 0 {
        seq![p[0]]
    } else {
        seq!['M']
    }
}

/// The file entry of a trimmed line, split at its first tab.
pub open spec fn file_entry(t: Seq<char>) -> Option<FileModel> {
    let k = find_from(t, '\t', 0);
    if k < t.len() {
        Some(FileModel { status: status_of(t.subrange(0, k)), path: t.subrange(k + 1, t.len() as int) })
    } else {
        None
    }
}

/// State of the line reducer: the finished records and the open one.
pub struct ParseState {
    pub done: Seq<CommitModel>,
    pub cur: Option<CommitModel>,
}

pub open spec fn initial_state() -> ParseState {
    ParseState { done: Seq::empty(), cur: None }
}

/// The finished records followed by the open one, if any.
pub open spec fn flush(st: ParseState) -> Seq<CommitModel> {
    match st.cur {
        Some(c) => st.done.push(c),
        None => st.done,
    }
}

pub open spec fn add_file(c: CommitModel, f: FileModel) -> CommitModel {
    CommitModel { files: c.files.push(f), ..c }
}

/// One line of tool output applied to the reducer state.
pub open spec fn step(st: ParseState, raw_line: Seq<char>) -> ParseState {
    let t = trim(raw_line);
    if t.len() == 0 {
        st
    } else if is_header(t) {
        ParseState { done: flush(st), cur: header_commit(t) }
    } else {
        match (st.cur, file_entry(t)) {
            (Some(c), Some(f)) => ParseState { done: st.done, cur: Some(add_file(c, f)) },
            _ => st,
        }
    }
}

/// The reducer run over a sequence of lines.
pub open spec fn run(st: ParseState, ls: Seq<Seq<char>>) -> ParseState
    decreases ls.len(),
{
    if ls.len() == 0 {
        st
    } else {
        step(run(st, ls.drop_last()), ls.last())
    }
}

/// The commit records that a sequence of lines describes.
pub open spec fn records(ls: Seq<Seq<char>>) -> Seq<CommitModel> {
    flush(run(initial_state(), ls))
}

/// The commit records of raw tool output.
pub open spec fn parse_log(raw: Seq<char>) -> Seq<CommitModel> {
    records(lines(raw))
}

/// `st` with `d` placed before its finished records.
pub open spec fn shifted(st: ParseState, d: Seq<CommitModel>) -> ParseState {
    ParseState { done: d + st.done, cur: st.cur }
}

pub proof fn lemma_run_append(st: ParseState, a: Seq<Seq<char>>, b: Seq<Seq<char>>)
    ensures
        run(st, a + b) == run(run(st, a), b),
    decreases b.len(),
{
    if b.len() == 0 {
        assert(a + b =~= a);
    } else {
        lemma_run_append(st, a, b.drop_last());
        assert((a + b).drop_last() =~= a + b.drop_last());
        assert((a + b).last() == b.last());
    }
}

proof fn lemma_run_one(st: ParseState, l: Seq<char>)
    ensures
        run(st, seq![l]) == step(st, l),
{
    assert(seq![l].drop_last() =~= Seq::<Seq<char>>::empty());
    assert(run(st, seq![l].drop_last()) == st);
    assert(seq![l].last() == l);
}

proof fn lemma_run_shifted(st: ParseState, d: Seq<CommitModel>, b: Seq<Seq<char>>)
    ensures
        run(shifted(st, d), b) == shifted(run(st, b), d),
    decreases b.len(),
{
    if b.len() > 0 {
        lemma_run_shifted(st, d, b.drop_last());
        let prev = run(st, b.drop_last());
        match prev.cur {
            Some(c) => {
                assert((d + prev.done).push(c) =~= d + prev.done.push(c));
            },
            None => {},
        }
    }
}

/// Parsing is a function of the text alone: the same raw text always gives
/// the same records.
pub proof fn law_parse_deterministic(a: Seq<char>, b: Seq<char>)
    requires
        a == b,
    ensures
        parse_log(a) == parse_log(b),
{
}

/// A header line with fewer than five fields yields no record, closes the
/// record before it, and the lines after it are read as from a fresh start.
pub proof fn law_short_header_skipped(a: Seq<Seq<char>>, l: Seq<char>, b: Seq<Seq<char>>)
    requires
        is_header(trim(l)),
        header_fields(trim(l)).len() < 5,
    ensures
        records(a + seq![l] + b) == records(a) + records(b),
{
    let st = run(initial_state(), a);
    lemma_run_append(initial_state(), a + seq![l], b);
    lemma_run_append(initial_state(), a, seq![l]);
    lemma_run_one(st, l);
    assert(step(st, l) == shifted(initial_state(), records(a)));
    lemma_run_shifted(initial_state(), records(a), b);
    let fin = run(initial_state(), b);
    match fin.cur {
        Some(c) => {
            assert((records(a) + fin.done).push(c) =~= records(a) + fin.done.push(c));
        },
        None => {},
    }
}

/// A line that is no header and holds no tab adds no file and changes
/// nothing: the records are those of the text without it.
pub proof fn law_untabbed_line_skipped(a: Seq<Seq<char>>, l: Seq<char>, b: Seq<Seq<char>>)
    requires
        !has_char(l, FIELD_SEPARATOR),
        !has_char(l, '\t'),
    ensures
        records(a + seq![l] + b) == records(a + b),
{
    let st = run(initial_state(), a);
    lemma_trim_absent(l, FIELD_SEPARATOR);
    lemma_trim_absent(l, '\t');
    lemma_find_absent(trim(l), '\t', 0);
    lemma_run_one(st, l);
    assert(step(st, l) == st);
    lemma_run_append(initial_state(), a + seq![l], b);
    lemma_run_append(initial_state(), a, seq![l]);
    lemma_run_append(initial_state(), a, b);
}

pub open spec fn opt_commit_view(c: Option<GitCommit>) -> Option<CommitModel> {
    match c {
        Some(x) => Some(x@),
        None => None,
    }
}

pub open spec fn opt_file_view(f: Option<GitFile>) -> Option<FileModel> {
    match f {
        Some(x) => Some(x@),
        None => None,
    }
}

pub open spec fn state_of(done: Seq<GitCommit>, cur: Option<GitCommit>) -> ParseState {
    ParseState { done: commits_view(done), cur: opt_commit_view(cur) }
}

/// `t` cut at its first `n - 1` separators.
fn split_fields(t: &Vec<char>, n: usize) -> (r: Vec<Vec<char>>)
    ensures
        char_seqs(r@) == fields_from(t@, 0, n as nat),
{
    let mut out: Vec<Vec<char>> = Vec::new();
    let mut i: usize = 0;
    let mut left: usize = n;
    let mut more = true;
    proof {
        assert(char_seqs(out@) + fields_from(t@, 0, n as nat) =~= fields_from(t@, 0, n as nat));
    }
    while more
        invariant
            i <= t@.len(),
            more ==> char_seqs(out@) + fields_from(t@, i as int, left as nat) == fields_from(
                t@,
                0,
                n as nat,
            ),
            !more ==> char_seqs(out@) == fields_from(t@, 0, n as nat),
        decreases left + (if more { 1int } else { 0int }),
    {
        let k = find_char(t, FIELD_SEPARATOR, i);
        let ghost before = out@;
        if left <= 1 || k >= t.len() {
            let piece = copy_range(t, i, t.len());
            out.push(piece);
            more = false;
            proof {
                assert(char_seqs(out@) =~= char_seqs(before) + seq![piece@]);
            }
        } else {
            let piece = copy_range(t, i, k);
            out.push(piece);
            proof {
                assert(char_seqs(out@) =~= char_seqs(before) + seq![piece@]);
                let rest = fields_from(t@, (k + 1) as int, (left - 1) as nat);
                assert(fields_from(t@, i as int, left as nat) == seq![piece@] + rest);
                assert(char_seqs(before) + (seq![piece@] + rest) =~= char_seqs(out@) + rest);
            }
            i = k + 1;
            left = left - 1;
        }
    }
    out
}

/// The commit that a trimmed header line opens, if it has all its fields.
fn header_commit_of(t: &Vec<char>) -> (r: Option<GitCommit>)
    ensures
        opt_commit_view(r) == header_commit(t@),
{
    let f = split_fields(t, HEADER_FIELDS);
    if f.len() == 5 {
        let files: Vec<GitFile> = Vec::new();
        let c = GitCommit {
            hash: string_of_chars(&f[0]),
            author: string_of_chars(&f[1]),
            email: string_of_chars(&f[2]),
            date: string_of_chars(&f[3]),
            message: string_of_chars(&f[4]),
            files,
        };
        proof {
            assert(files_view(files@) =~= Seq::<FileModel>::empty());
            assert(char_seqs(f@)[0] == f@[0]@);
            assert(char_seqs(f@)[1] == f@[1]@);
            assert(char_seqs(f@)[2] == f@[2]@);
            assert(char_seqs(f@)[3] == f@[3]@);
            assert(char_seqs(f@)[4] == f@[4]@);
        }
        Some(c)
    } else {
        None
    }
}

/// The file entry of a trimmed line, if it holds a tab.
fn file_entry_of(t: &Vec<char>) -> (r: Option<GitFile>)
    ensures
        opt_file_view(r) == file_entry(t@),
{
    let k = find_char(t, '\t', 0);
    if k < t.len() {
        let status = if k > 0 {
            let first = copy_range(t, 0, 1);
            proof {
                assert(first@ =~= status_of(t@.subrange(0, k as int)));
            }
            string_of_chars(&first)
        } else {
            let m = vec!['M'];
            proof {
                assert(m@ =~= status_of(t@.subrange(0, k as int)));
            }
            string_of_chars(&m)
        };
        let path = string_of_chars(&copy_range(t, k + 1, t.len()));
        Some(GitFile { status, path })
    } else {
        None
    }
}

/// Applies one line of tool output to the open and finished records.
fn step_line(done: &mut Vec<GitCommit>, cur: &mut Option<GitCommit>, raw_line: &Vec<char>)
    ensures
        state_of(final(done)@, *final(cur)) == step(state_of(old(done)@, *old(cur)), raw_line@),
{
    let t = trim_chars(raw_line);
    if t.len() == 0 {
        return ;
    }
    if contains_char(&t, FIELD_SEPARATOR) {
        let prev = cur.take();
        match prev {
            Some(c) => {
                proof {
                    lemma_commits_view_push(done@, c);
                }
                done.push(c);
            },
            None => {},
        }
        *cur = header_commit_of(&t);
    } else {
        let entry = file_entry_of(&t);
        match entry {
            Some(f) => {
                let prev = cur.take();
                match prev {
                    Some(mut c) => {
                        proof {
                            lemma_files_view_push(c.files@, f);
                        }
                        c.files.push(f);
                        *cur = Some(c);
                    },
                    None => {},
                }
            },
            None => {},
        }
    }
}

/// Parses the output of the history tool into commit records, in the order
/// the tool printed them.
///
/// Each line is trimmed and empty lines are ignored. A line holding the
/// field separator closes the open record and opens a new one when it has
/// five fields (hash, author, e-mail, date, subject); with fewer it opens
/// none. Any other line, split at its first tab into status and path, adds a
/// file to the open record; a line without a tab adds nothing. Parsing never
/// fails.
pub fn parse_git_log(raw: &str) -> (r: Result<Vec<GitCommit>, String>)
    ensures
        r is Ok,
        r matches Ok(v) && commits_view(v@) == parse_log(raw@),
{
    let s = chars_of(raw);
    let mut done: Vec<GitCommit> = Vec::new();
    let mut cur: Option<GitCommit> = None;
    let mut i: usize = 0;
    let mut finished = false;
    let ghost mut seen: Seq<Seq<char>> = Seq::empty();
    proof {
        assert(commits_view(done@) =~= Seq::<CommitModel>::empty());
        assert(seen + lines_from(s@, 0) =~= lines(s@));
    }
    while !finished
        invariant
            i <= s@.len(),
            !finished ==> seen + lines_from(s@, i as int) == lines(s@),
            finished ==> seen == lines(s@),
            state_of(done@, cur) == run(initial_state(), seen),
        decreases s@.len() - i + (if finished { 0int } else { 1int }),
    {
        let k = find_char(&s, '\n', i);
        let line = copy_range(&s, i, k);
        let ghost prev_seen = seen;
        step_line(&mut done, &mut cur, &line);
        proof {
            seen = seen.push(line@);
            assert(seen.drop_last() =~= prev_seen);
        }
        if k < s.len() {
            proof {
                let rest = lines_from(s@, (k + 1) as int);
                assert(lines_from(s@, i as int) == seq![line@] + rest);
                assert(prev_seen + (seq![line@] + rest) =~= seen + rest);
            }
            i = k + 1;
        } else {
            proof {
                assert(lines_from(s@, i as int) == seq![line@]);
                assert(prev_seen + seq![line@] =~= seen);
            }
            finished = true;
        }
    }
    match cur {
        Some(c) => {
            proof {
                lemma_commits_view_push(done@, c);
            }
            done.push(c);
        },
        None => {},
    }
    Ok(done)
}

} // verus!
