//! The argument classifier: turns the raw argument list into the requested
//! metrics, the file sources, the explicit-stdin flag, or an early-exit
//! signal for help, version or an invalid option.

use vstd::prelude::*;

verus! {

use vstd::string::StrSliceExecFns;
use vstd::string::StringExecFns;
use crate::count::WcCliOpt;

/// A file source as named on the command line: a plain file path, or a
/// file whose NUL-delimited content lists further file paths.
pub enum SourceSpec {
    Named(String),
    FromList(String),
}

/// What classification produced: a terminal signal, or the parsed request.
pub enum Classified {
    Help,
    Version,
    Invalid(String),
    Proceed { opts: Vec<WcCliOpt>, sources: Vec<SourceSpec>, read_stdin: bool },
}

/// The mathematical form of a file source.
pub enum SpecSource {
    Named(Seq<char>),
    FromList(Seq<char>),
}

/// The mathematical form of a classification result.
pub enum SpecClassified {
    Help,
    Version,
    Invalid(Seq<char>),
    Proceed { opts: Seq<WcCliOpt>, sources: Seq<SpecSource>, read_stdin: bool },
}

pub open spec fn source_spec_view(s: SourceSpec) -> SpecSource {
    match s {
        SourceSpec::Named(n) => SpecSource::Named(n@),
        SourceSpec::FromList(n) => SpecSource::FromList(n@),
    }
}

pub open spec fn sources_view(s: Seq<SourceSpec>) -> Seq<SpecSource> {
    s.map_values(|x: SourceSpec| source_spec_view(x))
}

pub open spec fn classified_view(c: Classified) -> SpecClassified {
    match c {
        Classified::Help => SpecClassified::Help,
        Classified::Version => SpecClassified::Version,
        Classified::Invalid(a) => SpecClassified::Invalid(a@),
        Classified::Proceed { opts, sources, read_stdin } => SpecClassified::Proceed {
            opts: opts@,
            sources: sources_view(sources@),
            read_stdin: read_stdin,
        },
    }
}

/// Whether `s` begins with `p`.
pub open spec fn spec_starts_with(s: Seq<char>, p: Seq<char>) -> bool {
    p.len() <= s.len() && s.subrange(0, p.len() as int) == p
}

/// Adding a metric to the request: duplicates are dropped, first-seen
/// order is kept.
pub open spec fn add_opt_spec(opts: Seq<WcCliOpt>, opt: WcCliOpt) -> Seq<WcCliOpt> {
    if opts.contains(opt) {
        opts
    } else {
        opts.push(opt)
    }
}

/// One classification step per argument, from position `i` on, carrying
/// the metrics, sources and stdin flag gathered so far. Help, version and
/// invalid options stop classification at once.
pub open spec fn classify_from(
    args: Seq<Seq<char>>,
    i: int,
    opts: Seq<WcCliOpt>,
    sources: Seq<SpecSource>,
    read_stdin: bool,
) -> SpecClassified
    decreases args.len() - i,
{
    if i < 0 || i >= args.len() {
        SpecClassified::Proceed { opts, sources, read_stdin }
    } else {
        let a = args[i];
        if a == "-c"@ || a == "--bytes"@ {
            classify_from(args, i + 1, add_opt_spec(opts, WcCliOpt::CountBytes), sources, read_stdin)
        } else if a == "-m"@ || a == "--chars"@ {
            classify_from(
                args,
                i + 1,
                add_opt_spec(opts, WcCliOpt::CountCharacters),
                sources,
                read_stdin,
            )
        } else if a == "-l"@ || a == "--lines"@ {
            classify_from(args, i + 1, add_opt_spec(opts, WcCliOpt::CountLines), sources, read_stdin)
        } else if a == "-L"@ || a == "--max-line-length"@ {
            classify_from(
                args,
                i + 1,
                add_opt_spec(opts, WcCliOpt::MaxLineLength),
                sources,
                read_stdin,
            )
        } else if a == "-w"@ || a == "--words"@ {
            classify_from(args, i + 1, add_opt_spec(opts, WcCliOpt::CountWords), sources, read_stdin)
        } else if a == "-"@ {
            classify_from(args, i + 1, opts, sources, true)
        } else if a == "--version"@ {
            SpecClassified::Version
        } else if a == "--help"@ {
            SpecClassified::Help
        } else if spec_starts_with(a, "--files0-from="@) {
            classify_from(args, i + 1, opts, sources.push(SpecSource::FromList(a.skip(14))), read_stdin)
        } else if spec_starts_with(a, "-"@) {
            SpecClassified::Invalid(a)
        } else {
            classify_from(args, i + 1, opts, sources.push(SpecSource::Named(a)), read_stdin)
        }
    }
}

/// The classification of a whole argument list.
pub open spec fn classify_spec(args: Seq<Seq<char>>) -> SpecClassified {
    classify_from(args, 0, Seq::empty(), Seq::empty(), false)
}

/// Compares two strings character by character.
pub fn str_eq(a: &str, b: &str) -> (r: bool)
    ensures
        r == (a@ == b@),
{
    let la = a.unicode_len();
    let lb = b.unicode_len();
    if la != lb {
        return false;
    }
    let mut i: usize = 0;
    while i < la
        invariant
            i <= la,
            la == a@.len(),
            la == b@.len(),
            forall|j: int| 0 <= j < i ==> a@[j] == b@[j],
        decreases la - i,
    {
        if a.get_char(i) != b.get_char(i) {
            return false;
        }
        i = i + 1;
    }
    proof {
        assert(a@ =~= b@);
    }
    true
}

/// Tests whether `s` begins with `p`, character by character.
pub fn str_starts_with(s: &str, p: &str) -> (r: bool)
    ensures
        r == spec_starts_with(s@, p@),
{
    let ls = s.unicode_len();
    let lp = p.unicode_len();
    if lp > ls {
        return false;
    }
    let mut i: usize = 0;
    while i < lp
        invariant
            i <= lp,
            lp <= ls,
            ls == s@.len(),
            lp == p@.len(),
            forall|j: int| 0 <= j < i ==> s@[j] == p@[j],
        decreases lp - i,
    {
        if s.get_char(i) != p.get_char(i) {
            proof {
                assert(s@.subrange(0, p@.len() as int)[i as int] == s@[i as int]);
            }
            return false;
        }
        i = i + 1;
    }
    proof {
        assert(s@.subrange(0, p@.len() as int) =~= p@);
    }
    true
}

/// Adds a metric to the request: dropped when already requested, appended
/// otherwise, so that first-seen order is kept.
pub fn add_option(opt: WcCliOpt, opts: &mut Vec<WcCliOpt>)
    ensures
        final(opts)@ == add_opt_spec(old(opts)@, opt),
{
    let mut j: usize = 0;
    while j < opts.len()
        invariant
            j <= opts@.len(),
            opts@ == old(opts)@,
            forall|k: int| 0 <= k < j ==> opts@[k] != opt,
        decreases opts@.len() - j,
    {
        if opts[j] == opt {
            proof {
                assert(old(opts)@.contains(opt));
            }
            return ;
        }
        j = j + 1;
    }
    proof {
        assert(forall|k: int| 0 <= k < opts@.len() ==> opts@[k] != opt);
        assert(!old(opts)@.contains(opt));
    }
    opts.push(opt);
}

/// Classifies the whole argument list (the program name excluded), in
/// order, stopping at the first help, version or invalid-option token.
pub fn classify_args(args: &Vec<String>) -> (r: Classified)
    ensures
        classified_view(r) == classify_spec(args.deep_view()),
{
    let ghost gargs = args.deep_view();
    let mut opts: Vec<WcCliOpt> = Vec::new();
    let mut sources: Vec<SourceSpec> = Vec::new();
    let mut read_stdin: bool = false;
    let mut i: usize = 0;
    proof {
        assert(sources_view(sources@) =~= Seq::<SpecSource>::empty());
    }
    while i < args.len()
        invariant
            i <= args@.len(),
            gargs == args.deep_view(),
            gargs.len() == args@.len(),
            classify_spec(gargs) == classify_from(
                gargs,
                i as int,
                opts@,
                sources_view(sources@),
                read_stdin,
            ),
        decreases args@.len() - i,
    {
        let a: &str = args[i].as_str();
        proof {
            assert(gargs[i as int] == args@[i as int]@);
        }
        if str_eq(a, "-c") || str_eq(a, "--bytes") {
            add_option(WcCliOpt::CountBytes, &mut opts);
        } else if str_eq(a, "-m") || str_eq(a, "--chars") {
            add_option(WcCliOpt::CountCharacters, &mut opts);
        } else if str_eq(a, "-l") || str_eq(a, "--lines") {
            add_option(WcCliOpt::CountLines, &mut opts);
        } else if str_eq(a, "-L") || str_eq(a, "--max-line-length") {
            add_option(WcCliOpt::MaxLineLength, &mut opts);
        } else if str_eq(a, "-w") || str_eq(a, "--words") {
            add_option(WcCliOpt::CountWords, &mut opts);
        } else if str_eq(a, "-") {
            read_stdin = true;
        } else if str_eq(a, "--version") {
            return Classified::Version;
        } else if str_eq(a, "--help") {
            return Classified::Help;
        } else if str_starts_with(a, "--files0-from=") {
            let n = a.unicode_len();
            proof {
                reveal_strlit("--files0-from=");
            }
            let name = a.substring_char(14, n);
            let ghost prev = sources@;
            sources.push(SourceSpec::FromList(String::from_str(name)));
            proof {
                assert(name@ =~= gargs[i as int].skip(14));
                assert(sources_view(sources@) =~= sources_view(prev).push(
                    SpecSource::FromList(gargs[i as int].skip(14)),
                ));
            }
        } else if str_starts_with(a, "-") {
            return Classified::Invalid(String::from_str(a));
        } else {
            let ghost prev = sources@;
            sources.push(SourceSpec::Named(String::from_str(a)));
            proof {
                assert(sources_view(sources@) =~= sources_view(prev).push(
                    SpecSource::Named(gargs[i as int]),
                ));
            }
        }
        i = i + 1;
    }
    proof {
        assert(classify_spec(gargs) == SpecClassified::Proceed {
            opts: opts@,
            sources: sources_view(sources@),
            read_stdin,
        });
    }
    Classified::Proceed { opts, sources, read_stdin }
}

/// The default request when no metric was asked for: lines, words, bytes.
pub open spec fn default_applied(opts: Seq<WcCliOpt>) -> Seq<WcCliOpt> {
    if opts.len() == 0 {
        seq![WcCliOpt::CountLines, WcCliOpt::CountWords, WcCliOpt::CountBytes]
    } else {
        opts
    }
}

/// Replaces an empty request by the default metrics: lines, words, bytes.
pub fn apply_default_opts(opts: &mut Vec<WcCliOpt>)
    ensures
        final(opts)@ == default_applied(old(opts)@),
{
    if opts.len() == 0 {
        opts.push(WcCliOpt::CountLines);
        opts.push(WcCliOpt::CountWords);
        opts.push(WcCliOpt::CountBytes);
        proof {
            assert(opts@ =~= default_applied(old(opts)@));
        }
    }
}

/// The diagnostic for an unrecognized option: it names the first character
/// after the dash and points at the help text.
pub open spec fn invalid_opt_text(arg: Seq<char>) -> Seq<char> {
    "ccwc: invalid option -- '"@ + (if arg.len() >= 2 {
        seq![arg[1]]
    } else {
        Seq::<char>::empty()
    }) + "'\nTry 'ccwc --help' for more information\n"@
}

/// Builds the diagnostic for an unrecognized option.
pub fn invalid_opt_message(arg: &str) -> (r: String)
    ensures
        r@ == invalid_opt_text(arg@),
{
    let mut r = String::from_str("ccwc: invalid option -- '");
    let n = arg.unicode_len();
    if n >= 2 {
        r.append(arg.substring_char(1, 2));
    }
    r.append("'\nTry 'ccwc --help' for more information\n");
    proof {
        assert(r@ =~= invalid_opt_text(arg@));
    }
    r
}

} // verus!
