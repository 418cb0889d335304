use dev_report::{
    distinct_authors, file_change_ranking, files_changed, files_fit, sum_counts, summarize,
    GitCommit, GitFile,
};

fn commit(hash: &str, author: &str, date: &str, files: &[&str]) -> GitCommit {
    GitCommit {
        hash: hash.to_string(),
        author: author.to_string(),
        email: String::new(),
        date: date.to_string(),
        message: String::new(),
        files: files
            .iter()
            .map(|p| GitFile { status: "M".to_string(), path: p.to_string() })
            .collect(),
    }
}

#[test]
fn summary_of_a_sample() {
    let sample = vec![
        commit("c3", "ann", "2024-01-03", &["a", "b"]),
        commit("c2", "bob", "2024-01-02", &["a"]),
        commit("c1", "ann", "2024-01-01", &["a", "c"]),
    ];
    let s = summarize(120, sample, "2023-12-01".to_string(), "2024-02-01".to_string());
    assert_eq!(s.total_commits, 120);
    assert_eq!(s.total_files_changed, 5);
    let mut authors = s.authors.clone();
    authors.sort();
    assert_eq!(authors, vec!["ann", "bob"]);
    assert_eq!(s.date_range, ("2024-01-01".to_string(), "2024-01-03".to_string()));
    assert_eq!(s.sample_commits.len(), 3);
    assert_eq!(s.file_changes_summary[0].path, "a");
    assert_eq!(s.file_changes_summary[0].change_count, 3);
    assert_eq!(s.file_changes_summary.len(), 3);
    assert!(s.file_changes_summary[1..].iter().all(|e| e.change_count == 1));
}

#[test]
fn empty_sample_uses_requested_bounds() {
    let s = summarize(0, Vec::new(), "2024-01-01".to_string(), "2024-01-31".to_string());
    assert_eq!(s.date_range, ("2024-01-01".to_string(), "2024-01-31".to_string()));
    assert_eq!(s.total_files_changed, 0);
    assert!(s.authors.is_empty());
    assert!(s.file_changes_summary.is_empty());
}

#[test]
fn ranking_keeps_twenty_most_changed() {
    let mut sample = Vec::new();
    for i in 0..25 {
        let mut files: Vec<String> = Vec::new();
        for j in 0..=i {
            files.push(format!("f{j}"));
        }
        let refs: Vec<&str> = files.iter().map(|s| s.as_str()).collect();
        sample.push(commit(&format!("c{i}"), "ann", "2024-01-01", &refs));
    }
    let r = file_change_ranking(&sample);
    assert_eq!(r.len(), 20);
    assert_eq!(r[0].path, "f0");
    assert_eq!(r[0].change_count, 25);
    assert_eq!(r[19].path, "f19");
    assert_eq!(r[19].change_count, 6);
    for w in r.windows(2) {
        assert!(w[0].change_count >= w[1].change_count);
    }
}

#[test]
fn authors_are_distinct_in_first_seen_order() {
    let sample = vec![
        commit("1", "bob", "d", &[]),
        commit("2", "ann", "d", &[]),
        commit("3", "bob", "d", &[]),
    ];
    assert_eq!(distinct_authors(&sample), vec!["bob", "ann"]);
}

#[test]
fn totals_add_up() {
    let sample = vec![commit("1", "a", "d", &["x", "y"]), commit("2", "a", "d", &["z"])];
    assert!(files_fit(&sample));
    assert_eq!(files_changed(&sample), 3);
    assert_eq!(sum_counts(&vec![3, 4, 5]), 12);
    assert_eq!(sum_counts(&vec![usize::MAX, 1]), usize::MAX);
    assert_eq!(sum_counts(&Vec::new()), 0);
}
