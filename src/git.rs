use vstd::prelude::*;

use crate::model::{commits_view, GitCommit, GitSubmodule};
use crate::order::{lemma_lt_transitive, lemma_text_total, text_less, text_lt};
use crate::parse::{parse_git_log, parse_log};
use crate::relay::{decode_lossy, lossy_text};
use crate::stats::texts;
use crate::text::{
    char_seqs, chars_of, copy_range, find_char, find_from, lines, split_lines, string_of_chars, trim,
    trim_chars,
};
use crate::validate::{join_path, message_with};

verus! {

/// Number of lines of `ls` that are not blank.
pub open spec fn nonblank_count(ls: Seq<Seq<char>>) -> nat
    decreases ls.len(),
{
    if ls.len() == 0 {
        0
    } else {
        nonblank_count(ls.drop_last()) + if trim(ls.last()).len() > 0 {
            1nat
        } else {
            0nat
        }
    }
}

/// The trimmed lines of `ls` that are not blank, in order.
pub open spec fn nonblank_lines(ls: Seq<Seq<char>>) -> Seq<Seq<char>>
    decreases ls.len(),
{
    if ls.len() == 0 {
        Seq::empty()
    } else if trim(ls.last()).len() > 0 {
        nonblank_lines(ls.drop_last()).push(trim(ls.last()))
    } else {
        nonblank_lines(ls.drop_last())
    }
}

/// Number of commits in the output of a hash-only history query: its
/// non-blank lines.
pub fn count_commits(stdout: &[u8]) -> (r: usize)
    ensures
        r == nonblank_count(lines(lossy_text(stdout@))),
{
    let out = decode_lossy(stdout);
    count_commit_lines(out.as_str())
}

/// Number of commits in the decoded output of a hash-only history query:
/// its non-blank lines.
pub fn count_commit_lines(text: &str) -> (r: usize)
    ensures
        r == nonblank_count(lines(text@)),
{
    let s = chars_of(text);
    let ls = split_lines(&s);
    let mut n: usize = 0;
    let mut i: usize = 0;
    while i < ls.len()
        invariant
            i <= ls@.len(),
            char_seqs(ls@) == lines(text@),
            n <= i,
            n == nonblank_count(char_seqs(ls@).subrange(0, i as int)),
        decreases ls@.len() - i,
    {
        proof {
            let v = char_seqs(ls@);
            assert(v.subrange(0, i + 1).drop_last() =~= v.subrange(0, i as int));
            assert(v.subrange(0, i + 1).last() == ls@[i as int]@);
        }
        let t = trim_chars(&ls[i]);
        if t.len() > 0 {
            n = n + 1;
        }
        i = i + 1;
    }
    proof {
        assert(char_seqs(ls@).subrange(0, i as int) =~= char_seqs(ls@));
    }
    n
}

/// The commits of a history query from what the tool printed: its error
/// output in a message when it failed, else its output parsed.
pub fn log_from_output(success: bool, stdout: &[u8], stderr: &[u8]) -> (r: Result<
    Vec<GitCommit>,
    String,
>)
    ensures
        success <==> r is Ok,
        r matches Ok(v) ==> commits_view(v@) == parse_log(lossy_text(stdout@)),
        r matches Err(e) ==> e@ == "Git log 执行失败: "@ + lossy_text(stderr@),
{
    if !success {
        let err = decode_lossy(stderr);
        return Err(message_with("Git log 执行失败: ", err.as_str()));
    }
    let out = decode_lossy(stdout);
    parse_git_log(out.as_str())
}

/// The version the tool reported, trimmed, or the message that it is not
/// installed.
pub fn version_from_output(success: bool, stdout: &[u8]) -> (r: Result<String, String>)
    ensures
        success <==> r is Ok,
        r matches Ok(v) ==> v@ == trim(lossy_text(stdout@)),
        r matches Err(e) ==> e@ == "Git 未安装，请先安装 Git"@,
{
    if !success {
        return Err("Git 未安装，请先安装 Git".to_owned());
    }
    let out = decode_lossy(stdout);
    Ok(trim_text(out.as_str()))
}

/// `text` without leading and trailing whitespace.
pub fn trim_text(text: &str) -> (r: String)
    ensures
        r@ == trim(text@),
{
    let t = trim_chars(&chars_of(text));
    string_of_chars(&t)
}

/// Strictly ascending texts, hence without repeats.
pub open spec fn ascending(r: Seq<String>) -> bool {
    forall|a: int, b: int| 0 <= a < b < r.len() ==> text_lt(#[trigger] r[a]@, #[trigger] r[b]@)
}

/// Adds `x` to a strictly ascending list unless it is there already.
fn insert_sorted(out: &mut Vec<String>, x: String)
    requires
        ascending(old(out)@),
    ensures
        ascending(final(out)@),
        texts(final(out)@).to_set() == texts(old(out)@).to_set().insert(x@),
{
    let mut p: usize = 0;
    while p < out.len() && text_less(&out[p], &x)
        invariant
            p <= out@.len(),
            forall|k: int| 0 <= k < p ==> text_lt(out@[k]@, x@),
        decreases out@.len() - p,
    {
        p = p + 1;
    }
    let ghost before = out@;
    if p < out.len() && out[p] == x {
        proof {
            assert(texts(before).to_set() =~= texts(before).to_set().insert(x@)) by {
                assert(texts(before)[p as int] == x@);
            }
        }
        return ;
    }
    proof {
        if p < before.len() {
            if !text_lt(x@, before[p as int]@) {
                lemma_text_total(before[p as int]@, x@);
            }
            assert(text_lt(x@, before[p as int]@));
            assert forall|k: int| p <= k < before.len() implies text_lt(x@, before[k]@) by {
                if k > p {
                    lemma_lt_transitive(x@, before[p as int]@, before[k]@, 0);
                }
            }
        }
    }
    let ghost xv = x@;
    out.insert(p, x);
    proof {
        assert forall|a: int, b: int| 0 <= a < b < out@.len() implies text_lt(
            #[trigger] out@[a]@,
            #[trigger] out@[b]@,
        ) by {
            if b < p {
            } else if a < p && b == p {
            } else if a < p {
                assert(out@[b] == before[b - 1]);
                lemma_lt_transitive(out@[a]@, xv, out@[b]@, 0);
            } else if a == p {
                assert(out@[b] == before[b - 1]);
            } else {
                assert(out@[a] == before[a - 1]);
                assert(out@[b] == before[b - 1]);
            }
        }
        let t1 = texts(out@);
        let t0 = texts(before);
        assert forall|y: Seq<char>| t1.contains(y) <==> t0.contains(y) || y == xv by {
            if t1.contains(y) {
                let k = choose|k: int| 0 <= k < t1.len() && t1[k] == y;
                if k < p {
                    assert(t0[k] == y);
                } else if k > p {
                    assert(t0[k - 1] == y);
                }
            }
            if t0.contains(y) {
                let k = choose|k: int| 0 <= k < t0.len() && t0[k] == y;
                if k < p {
                    assert(t1[k] == y);
                } else {
                    assert(t1[k + 1] == y);
                }
            }
            if y == xv {
                assert(t1[p as int] == y);
            }
        }
        assert(t1.to_set() =~= t0.to_set().insert(xv));
    }
}

/// The authors of a repository from the output of an author query: its
/// non-blank lines, trimmed, sorted and without repeats.
pub fn authors_from_output(stdout: &[u8]) -> (r: Vec<String>)
    ensures
        ascending(r@),
        texts(r@).to_set() == nonblank_lines(lines(lossy_text(stdout@))).to_set(),
{
    let out = decode_lossy(stdout);
    authors_from_text(out.as_str())
}

/// The authors named by the decoded output of an author query: its
/// non-blank lines, trimmed, sorted and without repeats.
pub fn authors_from_text(text: &str) -> (r: Vec<String>)
    ensures
        ascending(r@),
        texts(r@).to_set() == nonblank_lines(lines(text@)).to_set(),
{
    let s = chars_of(text);
    let ls = split_lines(&s);
    let mut r: Vec<String> = Vec::new();
    let mut i: usize = 0;
    proof {
        assert(texts(r@).to_set() =~= Set::<Seq<char>>::empty());
        assert(nonblank_lines(char_seqs(ls@).subrange(0, 0)).to_set() =~= Set::<Seq<char>>::empty());
    }
    while i < ls.len()
        invariant
            i <= ls@.len(),
            char_seqs(ls@) == lines(text@),
            ascending(r@),
            texts(r@).to_set() == nonblank_lines(char_seqs(ls@).subrange(0, i as int)).to_set(),
        decreases ls@.len() - i,
    {
        let ghost v = char_seqs(ls@);
        proof {
            assert(v.subrange(0, i + 1).drop_last() =~= v.subrange(0, i as int));
            assert(v.subrange(0, i + 1).last() == ls@[i as int]@);
        }
        let t = trim_chars(&ls[i]);
        if t.len() > 0 {
            let name = string_of_chars(&t);
            proof {
                let prev = nonblank_lines(v.subrange(0, i as int));
                let nxt = prev.push(t@);
                assert forall|y: Seq<char>| nxt.contains(y) <==> prev.contains(y) || y == t@ by {
                    if nxt.contains(y) {
                        let k = choose|k: int| 0 <= k < nxt.len() && nxt[k] == y;
                        if k < prev.len() {
                            assert(prev[k] == y);
                        }
                    }
                    if prev.contains(y) {
                        let k = choose|k: int| 0 <= k < prev.len() && prev[k] == y;
                        assert(nxt[k] == y);
                    }
                    if y == t@ {
                        assert(nxt[prev.len() as int] == y);
                    }
                }
                assert(nxt.to_set() =~= prev.to_set().insert(t@));
            }
            insert_sorted(&mut r, name);
        }
        i = i + 1;
    }
    proof {
        assert(char_seqs(ls@).subrange(0, i as int) =~= char_seqs(ls@));
    }
    r
}

/// The second space-separated field of a trimmed status line, if it has one
/// (the line cut into at most three fields).
pub open spec fn second_field(t: Seq<char>) -> Option<Seq<char>> {
    let a = find_from(t, ' ', 0);
    if a < t.len() {
        let b = find_from(t, ' ', a + 1);
        Some(t.subrange(a + 1, b))
    } else {
        None
    }
}

/// The last `/`-separated segment of a path.
pub open spec fn last_segment(p: Seq<char>) -> Seq<char>
    decreases p.len(),
{
    let k = find_from(p, '/', 0);
    if 0 <= k < p.len() {
        last_segment(p.subrange(k + 1, p.len() as int))
    } else {
        p
    }
}

/// The last `/`-separated segment of a path.
fn last_segment_of(p: &Vec<char>) -> (r: Vec<char>)
    ensures
        r@ == last_segment(p@),
    decreases p@.len(),
{
    let k = find_char(p, '/', 0);
    if k < p.len() {
        let rest = copy_range(p, k + 1, p.len());
        last_segment_of(&rest)
    } else {
        copy_range(p, 0, p.len())
    }
}

/// The submodule a status line names, if it names one: its display name is
/// the last segment of its relative path, its path that path under `base`.
pub fn submodule_of_line(base: &str, line: &Vec<char>) -> (r: Option<GitSubmodule>)
    ensures
        r is Some <==> trim(line@).len() > 0 && second_field(trim(line@)) is Some,
        r matches Some(m) ==> m.name@ == last_segment(second_field(trim(line@))->0),
{
    let t = trim_chars(line);
    if t.len() == 0 {
        return None;
    }
    let a = find_char(&t, ' ', 0);
    if a >= t.len() {
        return None;
    }
    let b = find_char(&t, ' ', a + 1);
    let rel = copy_range(&t, a + 1, b);
    let name = string_of_chars(&last_segment_of(&rel));
    let rel_text = string_of_chars(&rel);
    let path = join_path(base, rel_text.as_str());
    Some(GitSubmodule { name, path })
}

/// The display names of the submodules that the status lines `ls` name,
/// in order.
pub open spec fn submodule_names(ls: Seq<Seq<char>>) -> Seq<Seq<char>>
    decreases ls.len(),
{
    if ls.len() == 0 {
        Seq::empty()
    } else {
        let t = trim(ls.last());
        if t.len() > 0 && second_field(t) is Some {
            submodule_names(ls.drop_last()).push(last_segment(second_field(t)->0))
        } else {
            submodule_names(ls.drop_last())
        }
    }
}

pub open spec fn names_of(r: Seq<GitSubmodule>) -> Seq<Seq<char>> {
    r.map_values(|m: GitSubmodule| m.name@)
}

/// The submodules of a repository from the output of a submodule status
/// query: one for each line that names one, in order.
pub fn submodules_from_output(base: &str, stdout: &[u8]) -> (r: Vec<GitSubmodule>)
    ensures
        names_of(r@) == submodule_names(lines(lossy_text(stdout@))),
{
    let out = decode_lossy(stdout);
    submodules_from_text(base, out.as_str())
}

/// The submodules named by the decoded output of a submodule status query:
/// one for each line that names one, in order.
pub fn submodules_from_text(base: &str, text: &str) -> (r: Vec<GitSubmodule>)
    ensures
        names_of(r@) == submodule_names(lines(text@)),
{
    let s = chars_of(text);
    let ls = split_lines(&s);
    let mut r: Vec<GitSubmodule> = Vec::new();
    let mut i: usize = 0;
    proof {
        assert(names_of(r@) =~= submodule_names(char_seqs(ls@).subrange(0, 0)));
    }
    while i < ls.len()
        invariant
            i <= ls@.len(),
            char_seqs(ls@) == lines(text@),
            names_of(r@) == submodule_names(char_seqs(ls@).subrange(0, i as int)),
        decreases ls@.len() - i,
    {
        proof {
            let v = char_seqs(ls@);
            assert(v.subrange(0, i + 1).drop_last() =~= v.subrange(0, i as int));
            assert(v.subrange(0, i + 1).last() == ls@[i as int]@);
        }
        match submodule_of_line(base, &ls[i]) {
            Some(m) => {
                let ghost before = r@;
                r.push(m);
                proof {
                    assert(names_of(r@) =~= names_of(before).push(m.name@));
                }
            },
            None => {},
        }
        i = i + 1;
    }
    proof {
        assert(char_seqs(ls@).subrange(0, i as int) =~= char_seqs(ls@));
    }
    r
}

/// Most commits a full history query returns.
pub const LOG_LIMIT: usize = 1000;

/// Commits sampled from the main repository for statistics.
pub const MAIN_SAMPLE: usize = 50;

/// Commits sampled from each submodule for statistics.
pub const SUBMODULE_SAMPLE: usize = 20;

pub open spec fn digit_char(d: nat) -> char {
    seq!['0', '1', '2', '3', '4', '5', '6', '7', '8', '9'][d as int]
}

/// The decimal digits of `n`.
pub open spec fn decimal(n: nat) -> Seq<char>
    decreases n,
{
    if n < 10 {
        seq![digit_char(n)]
    } else {
        decimal(n / 10).push(digit_char(n % 10))
    }
}

fn push_decimal(out: &mut Vec<char>, n: usize)
    ensures
        final(out)@ == old(out)@ + decimal(n as nat),
    decreases n,
{
    if n >= 10 {
        push_decimal(out, n / 10);
    }
    let digits = vec!['0', '1', '2', '3', '4', '5', '6', '7', '8', '9'];
    let ghost before = out@;
    out.push(digits[n % 10]);
    proof {
        assert(digits@ =~= seq!['0', '1', '2', '3', '4', '5', '6', '7', '8', '9']);
        if n >= 10 {
            assert(out@ =~= old(out)@ + decimal(n as nat));
        } else {
            assert(out@ =~= old(out)@ + decimal(n as nat));
        }
    }
}

/// The header format of a history query: hash, author, e-mail, date and
/// subject, joined by the field separator.
pub open spec fn pretty_format() -> Seq<char> {
    "--pretty=format:%H"@ + "\x1e%an"@ + "\x1e%ae"@ + "\x1e%ai"@ + "\x1e%s"@
}

/// One `--author=` filter for each author.
pub open spec fn author_args(a: Seq<String>) -> Seq<Seq<char>> {
    a.map_values(|x: String| "--author="@ + x@)
}

fn push_author_args(args: &mut Vec<String>, authors: &Vec<String>)
    ensures
        texts(final(args)@) == texts(old(args)@) + author_args(authors@),
{
    let mut i: usize = 0;
    proof {
        assert(texts(args@) =~= texts(old(args)@) + author_args(authors@.subrange(0, 0)));
    }
    while i < authors.len()
        invariant
            i <= authors@.len(),
            texts(args@) == texts(old(args)@) + author_args(authors@.subrange(0, i as int)),
        decreases authors@.len() - i,
    {
        let ghost before = args@;
        args.push(message_with("--author=", authors[i].as_str()));
        proof {
            assert(texts(args@) =~= texts(before).push("--author="@ + authors@[i as int]@));
            assert(author_args(authors@.subrange(0, i + 1)) =~= author_args(
                authors@.subrange(0, i as int),
            ).push("--author="@ + authors@[i as int]@));
            assert(texts(args@) =~= texts(old(args)@) + author_args(authors@.subrange(0, i + 1)));
        }
        i = i + 1;
    }
    proof {
        assert(authors@.subrange(0, i as int) =~= authors@);
    }
}

/// Arguments of a history query with file changes: at most `max_count`
/// non-merge commits between the dates, by the given authors.
pub fn history_args(since: &str, until: &str, authors: &Vec<String>, max_count: usize) -> (r: Vec<
    String,
>)
    ensures
        texts(r@) == seq![
            "log"@,
            "--since="@ + since@,
            "--until="@ + until@,
            pretty_format(),
            "--name-status"@,
            "--no-merges"@,
            "--max-count="@ + decimal(max_count as nat),
        ] + author_args(authors@),
{
    let mut format = "--pretty=format:%H".to_owned();
    format.append("\x1e%an");
    format.append("\x1e%ae");
    format.append("\x1e%ai");
    format.append("\x1e%s");
    let mut digits: Vec<char> = Vec::new();
    push_decimal(&mut digits, max_count);
    let count = string_of_chars(&digits);
    let mut args: Vec<String> = Vec::new();
    args.push("log".to_owned());
    args.push(message_with("--since=", since));
    args.push(message_with("--until=", until));
    args.push(format);
    args.push("--name-status".to_owned());
    args.push("--no-merges".to_owned());
    args.push(message_with("--max-count=", count.as_str()));
    proof {
        assert(digits@ =~= decimal(max_count as nat));
        assert(texts(args@) =~= seq![
            "log"@,
            "--since="@ + since@,
            "--until="@ + until@,
            pretty_format(),
            "--name-status"@,
            "--no-merges"@,
            "--max-count="@ + decimal(max_count as nat),
        ]);
    }
    push_author_args(&mut args, authors);
    args
}

/// Arguments of a hash-only history query: every non-merge commit between
/// the dates, by the given authors, one hash per line.
pub fn count_args(since: &str, until: &str, authors: &Vec<String>) -> (r: Vec<String>)
    ensures
        texts(r@) == seq![
            "log"@,
            "--since="@ + since@,
            "--until="@ + until@,
            "--format=%H"@,
            "--no-merges"@,
        ] + author_args(authors@),
{
    let mut args: Vec<String> = Vec::new();
    args.push("log".to_owned());
    args.push(message_with("--since=", since));
    args.push(message_with("--until=", until));
    args.push("--format=%H".to_owned());
    args.push("--no-merges".to_owned());
    proof {
        assert(texts(args@) =~= seq![
            "log"@,
            "--since="@ + since@,
            "--until="@ + until@,
            "--format=%H"@,
            "--no-merges"@,
        ]);
    }
    push_author_args(&mut args, authors);
    args
}

} // verus!
