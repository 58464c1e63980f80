use ccwc::count::count_bytes;
use ccwc::count::count_chars;
use ccwc::count::count_lines;
use ccwc::count::count_words;
use ccwc::count::max_line_length;
use ccwc::count::wc;
use ccwc::count::WcCliOpt;
use ccwc::format::usize_to_string;
use ccwc::format::wc_fmt;

#[test]
fn counts_of_two_line_file() {
    let content = String::from("hello world\nfoo\n");
    assert_eq!(count_lines(&content), 2);
    assert_eq!(count_words(&content), 3);
    assert_eq!(count_bytes(&content), 16);
    assert_eq!(count_chars(&content), 16);
    assert_eq!(max_line_length(&content), 11);
}

#[test]
fn counts_of_empty_content() {
    let content = String::new();
    assert_eq!(count_lines(&content), 0);
    assert_eq!(count_words(&content), 0);
    assert_eq!(count_bytes(&content), 0);
    assert_eq!(count_chars(&content), 0);
    assert_eq!(max_line_length(&content), 0);
}

#[test]
fn final_line_without_newline_is_counted() {
    let content = String::from("one two\nthree");
    assert_eq!(count_lines(&content), 2);
    assert_eq!(count_words(&content), 3);
    assert_eq!(max_line_length(&content), 7);
}

#[test]
fn byte_count_exceeds_char_count_on_multibyte_text() {
    let content = String::from("héllo\n");
    assert_eq!(count_chars(&content), 6);
    assert_eq!(count_bytes(&content), 7);
    assert!(count_bytes(&content) >= count_chars(&content));
}

#[test]
fn unicode_whitespace_separates_words() {
    let content = String::from("a\u{a0}b c\u{2003}d\n");
    assert_eq!(count_words(&content), 4);
}

#[test]
fn max_line_length_counts_characters_not_bytes() {
    let content = String::from("éé\nz\n");
    assert_eq!(max_line_length(&content), 2);
}

#[test]
fn word_count_sums_over_lines() {
    let content = String::from("a b\nc d e\n\n  f\n");
    assert_eq!(count_words(&content), 6);
    let per_line: usize = content
        .split('\n')
        .map(|l| String::from(l))
        .map(|l| count_words(&l))
        .sum();
    assert_eq!(count_words(&content), per_line);
}

#[test]
fn max_line_length_is_maximum_over_lines() {
    let content = String::from("ab\nabcd\nx");
    assert_eq!(max_line_length(&content), 4);
    let max_per_line: usize = content
        .split('\n')
        .map(|l| String::from(l))
        .map(|l| max_line_length(&l))
        .max()
        .unwrap_or(0);
    assert_eq!(max_line_length(&content), max_per_line);
}

#[test]
fn wc_reports_counts_in_request_order() {
    let content = String::from("hello world\nfoo\n");
    let opts = vec![WcCliOpt::MaxLineLength, WcCliOpt::CountLines];
    let counts = wc(&content, &opts);
    assert_eq!(counts, vec![11, 2]);
}

#[test]
fn wc_default_metric_order() {
    let content = String::from("hello world\nfoo\n");
    let opts = vec![
        WcCliOpt::CountLines,
        WcCliOpt::CountWords,
        WcCliOpt::CountBytes,
    ];
    assert_eq!(wc(&content, &opts), vec![2, 3, 16]);
}

#[test]
fn decimal_rendering() {
    assert_eq!(usize_to_string(0), "0");
    assert_eq!(usize_to_string(7), "7");
    assert_eq!(usize_to_string(1234567), "1234567");
}

#[test]
fn single_count_rows_are_unpadded() {
    assert_eq!(wc_fmt(&vec![5]), "5 ");
}

#[test]
fn several_counts_are_right_aligned_in_width_six() {
    assert_eq!(wc_fmt(&vec![2, 3, 16]), "     2      3     16 ");
    assert_eq!(wc_fmt(&vec![1234567, 1]), "1234567      1 ");
}
