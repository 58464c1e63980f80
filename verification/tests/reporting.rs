use ccwc::count::WcCliOpt;
use ccwc::report::report;
use ccwc::report::Outcome;
use ccwc::report::SourceEntry;

fn default_opts() -> Vec<WcCliOpt> {
    vec![
        WcCliOpt::CountLines,
        WcCliOpt::CountWords,
        WcCliOpt::CountBytes,
    ]
}

fn file(name: &str, outcome: Outcome) -> SourceEntry {
    SourceEntry::File {
        name: String::from(name),
        outcome,
    }
}

#[test]
fn one_readable_file_prints_one_row_and_no_total() {
    let entries = vec![file(
        "a.txt",
        Outcome::Readable(String::from("hello world\nfoo\n")),
    )];
    let out = report(&default_opts(), &entries).unwrap();
    assert_eq!(out, "     2      3     16  a.txt\n");
}

#[test]
fn two_files_print_two_rows_and_a_total() {
    let entries = vec![
        file("a.txt", Outcome::Readable(String::from("hello world\nfoo\n"))),
        file("b.txt", Outcome::Readable(String::from("bar\n"))),
    ];
    let out = report(&default_opts(), &entries).unwrap();
    assert_eq!(
        out,
        "     2      3     16  a.txt\n     1      1      4  b.txt\n     3      4     20 total\n"
    );
}

#[test]
fn missing_file_prints_a_diagnostic_and_no_row() {
    let entries = vec![file("missing.txt", Outcome::NotFound)];
    let out = report(&default_opts(), &entries).unwrap();
    assert_eq!(out, "ccwc: missing.txt: No such file or directory\n");
}

#[test]
fn missing_file_does_not_stop_the_other_sources() {
    let entries = vec![
        file("missing.txt", Outcome::NotFound),
        file("b.txt", Outcome::Readable(String::from("bar\n"))),
    ];
    let out = report(&default_opts(), &entries).unwrap();
    assert_eq!(
        out,
        "ccwc: missing.txt: No such file or directory\n     1      1      4  b.txt\n     1      1      4 total\n"
    );
}

#[test]
fn directory_prints_a_diagnostic_and_a_zero_row() {
    let entries = vec![file("dir", Outcome::IsDirectory)];
    let out = report(&default_opts(), &entries).unwrap();
    assert_eq!(out, "ccwc: dir: Is a directory\n     0      0      0    dir\n");
}

#[test]
fn stdin_row_carries_its_label_and_no_total() {
    let entries = vec![SourceEntry::Stdin {
        label: String::new(),
        content: String::from("one two three\n"),
    }];
    let out = report(&default_opts(), &entries).unwrap();
    assert_eq!(out, "     1      3     14       \n");
}

#[test]
fn explicit_stdin_label_is_a_dash() {
    let entries = vec![SourceEntry::Stdin {
        label: String::from("-"),
        content: String::from("x\n"),
    }];
    let out = report(&default_opts(), &entries).unwrap();
    assert_eq!(out, "     1      1      2      -\n");
}

#[test]
fn single_metric_rows_are_unpadded() {
    let entries = vec![file("a.txt", Outcome::Readable(String::from("hello world\nfoo\n")))];
    let out = report(&vec![WcCliOpt::CountLines], &entries).unwrap();
    assert_eq!(out, "2  a.txt\n");
}

#[test]
fn total_counts_directories_as_zero_rows() {
    let entries = vec![
        file("a.txt", Outcome::Readable(String::from("hello world\nfoo\n"))),
        file("dir", Outcome::IsDirectory),
    ];
    let out = report(&default_opts(), &entries).unwrap();
    assert_eq!(
        out,
        "     2      3     16  a.txt\nccwc: dir: Is a directory\n     0      0      0    dir\n     2      3     16 total\n"
    );
}

#[test]
fn report_is_deterministic() {
    let entries = vec![
        file("a.txt", Outcome::Readable(String::from("hello world\nfoo\n"))),
        file("b.txt", Outcome::Readable(String::from("bar\n"))),
    ];
    let opts = default_opts();
    let first = report(&opts, &entries).unwrap();
    let second = report(&opts, &entries).unwrap();
    assert_eq!(first, second);
}
