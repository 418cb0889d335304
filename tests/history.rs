use dev_report::{
    authors_from_text, count_commit_lines, get_folder_name, submodules_from_text, trim_text,
    assemble_log, authors_from_output, combine_samples, count_args, count_commits, history_args,
    log_from_output, parse_git_log, sort_newest_first, submodules_from_output, version_from_output, GitCommit,
    GitFile,
};

fn header(hash: &str, author: &str, date: &str, msg: &str) -> String {
    format!("{hash}\x1e{author}\x1e{author}@example.com\x1e{date}\x1e{msg}")
}

fn commit(hash: &str, author: &str, date: &str, files: &[&str]) -> GitCommit {
    GitCommit {
        hash: hash.to_string(),
        author: author.to_string(),
        email: format!("{author}@example.com"),
        date: date.to_string(),
        message: format!("change {hash}"),
        files: files
            .iter()
            .map(|p| GitFile { status: "M".to_string(), path: p.to_string() })
            .collect(),
    }
}

#[test]
fn parses_records_with_files() {
    let raw = format!(
        "{}\nM\tsrc/a.rs\nA\tsrc/b.rs\n\n{}\nD\told.txt\n",
        header("h1", "ann", "2024-01-02 10:00:00 +0000", "first"),
        header("h2", "bob", "2024-01-01 09:00:00 +0000", "second")
    );
    let commits = parse_git_log(&raw).unwrap();
    assert_eq!(commits.len(), 2);
    assert_eq!(commits[0].hash, "h1");
    assert_eq!(commits[0].author, "ann");
    assert_eq!(commits[0].email, "ann@example.com");
    assert_eq!(commits[0].date, "2024-01-02 10:00:00 +0000");
    assert_eq!(commits[0].message, "first");
    assert_eq!(commits[0].files.len(), 2);
    assert_eq!(commits[0].files[0].status, "M");
    assert_eq!(commits[0].files[0].path, "src/a.rs");
    assert_eq!(commits[0].files[1].status, "A");
    assert_eq!(commits[0].files[1].path, "src/b.rs");
    assert_eq!(commits[1].hash, "h2");
    assert_eq!(commits[1].files.len(), 1);
    assert_eq!(commits[1].files[0].status, "D");
    assert_eq!(commits[1].files[0].path, "old.txt");
}

#[test]
fn empty_input_gives_no_records() {
    assert_eq!(parse_git_log("").unwrap().len(), 0);
    assert_eq!(parse_git_log("\n\n  \n").unwrap().len(), 0);
}

#[test]
fn parsing_twice_gives_identical_records() {
    let raw = format!(
        "{}\nM\ta.txt\nR100\tx.txt\n{}\n",
        header("h1", "ann", "2024-01-02", "one"),
        header("h2", "bob", "2024-01-01", "two")
    );
    let a = parse_git_log(&raw).unwrap();
    let b = parse_git_log(&raw).unwrap();
    assert_eq!(a.len(), b.len());
    for (x, y) in a.iter().zip(b.iter()) {
        assert_eq!(x.hash, y.hash);
        assert_eq!(x.author, y.author);
        assert_eq!(x.email, y.email);
        assert_eq!(x.date, y.date);
        assert_eq!(x.message, y.message);
        assert_eq!(x.files.len(), y.files.len());
        for (f, g) in x.files.iter().zip(y.files.iter()) {
            assert_eq!(f.status, g.status);
            assert_eq!(f.path, g.path);
        }
    }
    assert_eq!(a[1].files.len(), 0);
    assert_eq!(a[0].files[1].status, "R");
}

#[test]
fn short_header_emits_nothing_and_parsing_continues() {
    let raw = format!(
        "{}\nM\ta.txt\nbad\x1eonly\x1ethree\nM\tlost.txt\n{}\nA\tb.txt\n",
        header("h1", "ann", "2024-01-02", "one"),
        header("h2", "bob", "2024-01-01", "two")
    );
    let commits = parse_git_log(&raw).unwrap();
    assert_eq!(commits.len(), 2);
    assert_eq!(commits[0].hash, "h1");
    assert_eq!(commits[0].files.len(), 1);
    assert_eq!(commits[1].hash, "h2");
    assert_eq!(commits[1].files.len(), 1);
    assert_eq!(commits[1].files[0].path, "b.txt");
}

#[test]
fn file_line_without_tab_is_skipped() {
    let raw = format!(
        "{}\nM a.txt\nA\tb.txt\nnotab\n",
        header("h1", "ann", "2024-01-02", "one")
    );
    let commits = parse_git_log(&raw).unwrap();
    assert_eq!(commits.len(), 1);
    assert_eq!(commits[0].files.len(), 1);
    assert_eq!(commits[0].files[0].path, "b.txt");
}

#[test]
fn subject_keeps_extra_separators() {
    let raw = "h\x1ea\x1ee\x1ed\x1esub\x1eject\n";
    let commits = parse_git_log(raw).unwrap();
    assert_eq!(commits.len(), 1);
    assert_eq!(commits[0].message, "sub\x1eject");
}

#[test]
fn file_lines_before_any_header_are_ignored() {
    let raw = format!("M\tstray.txt\n{}\n", header("h1", "ann", "2024-01-02", "one"));
    let commits = parse_git_log(&raw).unwrap();
    assert_eq!(commits.len(), 1);
    assert_eq!(commits[0].files.len(), 0);
}

#[test]
fn crlf_lines_are_trimmed() {
    let raw = format!("{}\r\nM\ta.txt\r\n", header("h1", "ann", "2024-01-02", "one"));
    let commits = parse_git_log(&raw).unwrap();
    assert_eq!(commits[0].message, "one");
    assert_eq!(commits[0].files[0].path, "a.txt");
}

#[test]
fn failed_main_fetch_fails_the_log() {
    let subs = vec![
        Err("sub failed".to_string()),
        Ok(vec![commit("s1", "sue", "2024-03-01", &[])]),
    ];
    let r = assemble_log(Err("Git log 执行失败: not a repository".to_string()), subs);
    assert_eq!(r.unwrap_err(), "Git log 执行失败: not a repository");
}

#[test]
fn log_merges_successful_submodules_newest_first() {
    let main = vec![commit("m1", "ann", "2024-01-05", &[]), commit("m2", "ann", "2024-01-01", &[])];
    let subs = vec![
        Err("sub failed".to_string()),
        Ok(vec![commit("s1", "sue", "2024-01-03", &[])]),
    ];
    let r = assemble_log(Ok(main), subs).unwrap();
    let hashes: Vec<&str> = r.iter().map(|c| c.hash.as_str()).collect();
    assert_eq!(hashes, vec!["m1", "s1", "m2"]);
}

#[test]
fn stats_sample_excludes_failed_submodule() {
    let main = vec![commit("m1", "ann", "2024-01-05", &["a"])];
    let subs = vec![
        Err("sub failed".to_string()),
        Ok(vec![commit("s1", "sue", "2024-01-06", &["b"])]),
    ];
    let sample = combine_samples(main, subs);
    let hashes: Vec<&str> = sample.iter().map(|c| c.hash.as_str()).collect();
    assert_eq!(hashes, vec!["s1", "m1"]);
}

#[test]
fn sample_is_truncated_to_fifty_newest_first() {
    let main: Vec<GitCommit> = (0..50)
        .map(|i| commit(&format!("m{i}"), "ann", &format!("2024-01-01 00:{:02}:00", i), &[]))
        .collect();
    let sub: Vec<GitCommit> = (0..30)
        .map(|i| commit(&format!("s{i}"), "sue", &format!("2024-02-01 00:{:02}:00", i), &[]))
        .collect();
    let sample = combine_samples(main, vec![Ok(sub)]);
    assert_eq!(sample.len(), 50);
    for w in sample.windows(2) {
        assert!(w[0].date >= w[1].date);
    }
    assert!(sample.iter().all(|c| c.hash.starts_with('m')));
    assert_eq!(sample[0].hash, "m49");
}

#[test]
fn sort_keeps_order_of_equal_dates() {
    let v = vec![
        commit("a", "x", "2024-01-01", &[]),
        commit("b", "x", "2024-01-02", &[]),
        commit("c", "x", "2024-01-01", &[]),
    ];
    let r = sort_newest_first(v);
    let hashes: Vec<&str> = r.iter().map(|c| c.hash.as_str()).collect();
    assert_eq!(hashes, vec!["b", "a", "c"]);
}

#[test]
fn counts_nonblank_lines() {
    assert_eq!(count_commits(b"abc\ndef\n\n  \nghi"), 3);
    assert_eq!(count_commits(b""), 0);
}

#[test]
fn failed_log_reports_stderr() {
    let r = log_from_output(false, b"", b"fatal: bad revision");
    assert_eq!(r.unwrap_err(), "Git log 执行失败: fatal: bad revision");
    let ok = log_from_output(true, "h\x1ea\x1ee\x1ed\x1es\nM\tf\n".as_bytes(), b"");
    assert_eq!(ok.unwrap()[0].files[0].path, "f");
}

#[test]
fn version_is_trimmed() {
    assert_eq!(version_from_output(true, b"git version 2.43.0\n").unwrap(), "git version 2.43.0");
    assert_eq!(version_from_output(false, b"").unwrap_err(), "Git 未安装，请先安装 Git");
}

#[test]
fn authors_are_sorted_and_unique() {
    let out = b"bob <b@x>\nann <a@x>\n\nbob <b@x>\n  carl <c@x>  \n";
    let r = authors_from_output(out);
    assert_eq!(r, vec!["ann <a@x>", "bob <b@x>", "carl <c@x>"]);
}

#[test]
fn submodules_from_status_lines() {
    let out = b" 1a2b3c libs/core (v1.0)\n-4d5e6f vendor/ui\nbroken\n\n";
    let r = submodules_from_output("/repo", out);
    assert_eq!(r.len(), 2);
    assert_eq!(r[0].name, "core");
    assert_eq!(r[0].path, "/repo/libs/core");
    assert_eq!(r[1].name, "ui");
    assert_eq!(r[1].path, "/repo/vendor/ui");
}

#[test]
fn lossy_decoding_replaces_invalid_bytes() {
    let r = count_commits(&[0x66, 0xff, 0x0a, 0x67]);
    assert_eq!(r, 2);
    let a = authors_from_output(&[0x61, 0xff]);
    assert_eq!(a, vec!["a\u{fffd}"]);
}

#[test]
fn history_query_arguments() {
    let authors = vec!["ann".to_string(), "bob".to_string()];
    let args = history_args("2024-01-01", "2024-02-01", &authors, 1000);
    assert_eq!(
        args,
        vec![
            "log",
            "--since=2024-01-01",
            "--until=2024-02-01",
            "--pretty=format:%H\x1e%an\x1e%ae\x1e%ai\x1e%s",
            "--name-status",
            "--no-merges",
            "--max-count=1000",
            "--author=ann",
            "--author=bob",
        ]
    );
    assert_eq!(history_args("a", "b", &Vec::new(), 7)[6], "--max-count=7");
    assert_eq!(history_args("a", "b", &Vec::new(), 0)[6], "--max-count=0");
    let counts = count_args("a", "b", &authors);
    assert_eq!(counts, vec!["log", "--since=a", "--until=b", "--format=%H", "--no-merges", "--author=ann", "--author=bob"]);
}

#[test]
fn text_level_helpers() {
    assert_eq!(count_commit_lines("a\n\nb\n"), 2);
    assert_eq!(authors_from_text("z\n a \nz\n"), vec!["a", "z"]);
    let subs = submodules_from_text("/base", "+abc deep/nested/mod (heads/main)\n");
    assert_eq!(subs.len(), 1);
    assert_eq!(subs[0].name, "mod");
    assert_eq!(subs[0].path, "/base/deep/nested/mod");
    assert_eq!(trim_text(" \t v1 \u{3000}\n"), "v1");
}

#[test]
fn folder_names() {
    assert_eq!(get_folder_name("/home/me/project".to_string()).unwrap(), "project");
    assert_eq!(get_folder_name("/".to_string()).unwrap(), "/");
}
