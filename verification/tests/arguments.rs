use ccwc::args::add_option;
use ccwc::args::apply_default_opts;
use ccwc::args::classify_args;
use ccwc::args::invalid_opt_message;
use ccwc::args::str_eq;
use ccwc::args::str_starts_with;
use ccwc::args::Classified;
use ccwc::args::SourceSpec;
use ccwc::count::WcCliOpt;
use ccwc::split::split_nul;

fn strings(args: &[&str]) -> Vec<String> {
    args.iter().map(|a| String::from(*a)).collect()
}

#[test]
fn options_keep_first_seen_order_and_drop_duplicates() {
    let args = strings(&["--words", "-l", "-w", "x.txt"]);
    match classify_args(&args) {
        Classified::Proceed {
            opts,
            sources,
            read_stdin,
        } => {
            assert_eq!(opts, vec![WcCliOpt::CountWords, WcCliOpt::CountLines]);
            assert_eq!(sources.len(), 1);
            match &sources[0] {
                SourceSpec::Named(n) => assert_eq!(n, "x.txt"),
                SourceSpec::FromList(_) => panic!("expected a named source"),
            }
            assert!(!read_stdin);
        }
        _ => panic!("expected Proceed"),
    }
}

#[test]
fn help_short_circuits_later_arguments() {
    let args = strings(&["--help", "--version", "-q"]);
    assert!(matches!(classify_args(&args), Classified::Help));
}

#[test]
fn version_short_circuits_later_arguments() {
    let args = strings(&["--version", "--help"]);
    assert!(matches!(classify_args(&args), Classified::Version));
}

#[test]
fn bare_dash_marks_explicit_stdin() {
    let args = strings(&["-", "a.txt"]);
    match classify_args(&args) {
        Classified::Proceed {
            opts,
            sources,
            read_stdin,
        } => {
            assert!(opts.is_empty());
            assert_eq!(sources.len(), 1);
            assert!(read_stdin);
        }
        _ => panic!("expected Proceed"),
    }
}

#[test]
fn unknown_option_is_invalid() {
    let args = strings(&["-q", "a.txt"]);
    match classify_args(&args) {
        Classified::Invalid(a) => assert_eq!(a, "-q"),
        _ => panic!("expected Invalid"),
    }
}

#[test]
fn invalid_option_message_names_first_character_after_dash() {
    assert_eq!(
        invalid_opt_message("-q"),
        "ccwc: invalid option -- 'q'\nTry 'ccwc --help' for more information\n"
    );
    assert_eq!(
        invalid_opt_message("--zzz"),
        "ccwc: invalid option -- '-'\nTry 'ccwc --help' for more information\n"
    );
}

#[test]
fn files0_from_argument_is_recognized() {
    let args = strings(&["--files0-from=list.txt"]);
    match classify_args(&args) {
        Classified::Proceed { sources, .. } => {
            assert_eq!(sources.len(), 1);
            match &sources[0] {
                SourceSpec::FromList(f) => assert_eq!(f, "list.txt"),
                SourceSpec::Named(_) => panic!("expected a list source"),
            }
        }
        _ => panic!("expected Proceed"),
    }
}

#[test]
fn files0_list_split_keeps_trailing_empty_name() {
    let names = split_nul("a.txt\0b.txt\0");
    assert_eq!(names, vec!["a.txt", "b.txt", ""]);
}

#[test]
fn files0_list_split_of_empty_content() {
    assert_eq!(split_nul(""), vec![""]);
}

#[test]
fn add_option_keeps_one_of_each() {
    let mut opts = Vec::new();
    add_option(WcCliOpt::CountLines, &mut opts);
    add_option(WcCliOpt::CountBytes, &mut opts);
    add_option(WcCliOpt::CountLines, &mut opts);
    assert_eq!(opts, vec![WcCliOpt::CountLines, WcCliOpt::CountBytes]);
}

#[test]
fn default_options_are_lines_words_bytes() {
    let mut opts = Vec::new();
    apply_default_opts(&mut opts);
    assert_eq!(
        opts,
        vec![
            WcCliOpt::CountLines,
            WcCliOpt::CountWords,
            WcCliOpt::CountBytes
        ]
    );
    let mut chosen = vec![WcCliOpt::CountWords];
    apply_default_opts(&mut chosen);
    assert_eq!(chosen, vec![WcCliOpt::CountWords]);
}

#[test]
fn sources_keep_argument_order_with_mixed_kinds() {
    let args = strings(&["a.txt", "--files0-from=l.txt", "b.txt"]);
    match classify_args(&args) {
        Classified::Proceed { sources, .. } => {
            assert_eq!(sources.len(), 3);
            assert!(matches!(&sources[0], SourceSpec::Named(n) if n == "a.txt"));
            assert!(matches!(&sources[1], SourceSpec::FromList(f) if f == "l.txt"));
            assert!(matches!(&sources[2], SourceSpec::Named(n) if n == "b.txt"));
        }
        _ => panic!("expected Proceed"),
    }
}

#[test]
fn string_helpers_compare_by_characters() {
    assert!(str_eq("abc", "abc"));
    assert!(!str_eq("abc", "abd"));
    assert!(!str_eq("abc", "ab"));
    assert!(str_starts_with("--files0-from=x", "--files0-from="));
    assert!(!str_starts_with("-x", "--"));
}
