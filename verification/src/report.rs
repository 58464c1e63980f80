//! The report builder: one output line per source, diagnostics for missing
//! or directory sources, and an aggregate total row after more than one
//! file source.

use vstd::prelude::*;

verus! {

use vstd::string::StringExecFns;
use crate::count::WcCliOpt;
use crate::count::nat_row;
use crate::count::row_of;
use crate::count::wc;
use crate::format::fmt_width;
use crate::format::pad_left;
use crate::format::pad_left_str;
use crate::format::row_text;
use crate::format::wc_fmt;

/// How one named file resolved: its text, a directory, or nothing there.
pub enum Outcome {
    Readable(String),
    IsDirectory,
    NotFound,
}

/// One input source in processing order: the standard-input content with
/// its display label, or a named file with its resolution.
pub enum SourceEntry {
    Stdin { label: String, content: String },
    File { name: String, outcome: Outcome },
}

/// The mathematical form of a resolution.
pub enum SpecOutcome {
    Readable(Seq<char>),
    IsDirectory,
    NotFound,
}

/// The mathematical form of a source entry.
pub enum SpecEntry {
    Stdin { label: Seq<char>, content: Seq<char> },
    File { name: Seq<char>, outcome: SpecOutcome },
}

pub open spec fn outcome_view(o: Outcome) -> SpecOutcome {
    match o {
        Outcome::Readable(c) => SpecOutcome::Readable(c@),
        Outcome::IsDirectory => SpecOutcome::IsDirectory,
        Outcome::NotFound => SpecOutcome::NotFound,
    }
}

pub open spec fn entry_view(e: SourceEntry) -> SpecEntry {
    match e {
        SourceEntry::Stdin { label, content } => SpecEntry::Stdin {
            label: label@,
            content: content@,
        },
        SourceEntry::File { name, outcome } => SpecEntry::File {
            name: name@,
            outcome: outcome_view(outcome),
        },
    }
}

pub open spec fn entries_view(es: Seq<SourceEntry>) -> Seq<SpecEntry> {
    es.map_values(|e: SourceEntry| entry_view(e))
}

/// One count row rendered with its source label and a newline.
pub open spec fn source_line(opts: Seq<WcCliOpt>, content: Seq<char>, label: Seq<char>) -> Seq<
    char,
> {
    row_text(row_of(opts, content), fmt_width(opts.len())) + pad_left(label, 6) + seq!['\n']
}

/// The diagnostic line for a source that names nothing.
pub open spec fn not_found_text(name: Seq<char>) -> Seq<char> {
    "ccwc: "@ + name + ": No such file or directory"@ + seq!['\n']
}

/// The diagnostic line for a source that names a directory.
pub open spec fn is_dir_text(name: Seq<char>) -> Seq<char> {
    "ccwc: "@ + name + ": Is a directory"@ + seq!['\n']
}

/// Everything one entry adds to the output: a count row for readable
/// content, a diagnostic plus a zero row for a directory, a diagnostic
/// alone for a missing file.
pub open spec fn entry_text(opts: Seq<WcCliOpt>, e: SpecEntry) -> Seq<char> {
    match e {
        SpecEntry::Stdin { label, content } => source_line(opts, content, label),
        SpecEntry::File { name, outcome } => match outcome {
            SpecOutcome::Readable(c) => source_line(opts, c, name),
            SpecOutcome::IsDirectory => is_dir_text(name) + source_line(
                opts,
                Seq::empty(),
                name,
            ),
            SpecOutcome::NotFound => not_found_text(name),
        },
    }
}

/// The output of all entries, in order.
pub open spec fn entries_text(opts: Seq<WcCliOpt>, es: Seq<SpecEntry>) -> Seq<char>
    decreases es.len(),
{
    if es.len() == 0 {
        Seq::empty()
    } else {
        entries_text(opts, es.drop_last()) + entry_text(opts, es.last())
    }
}

/// The row an entry adds to the aggregate total: file sources with a row
/// contribute it (a directory contributes zeros), missing files and the
/// standard input contribute nothing.
pub open spec fn entry_row(opts: Seq<WcCliOpt>, e: SpecEntry) -> Option<Seq<nat>> {
    match e {
        SpecEntry::Stdin { label, content } => None,
        SpecEntry::File { name, outcome } => match outcome {
            SpecOutcome::Readable(c) => Some(row_of(opts, c)),
            SpecOutcome::IsDirectory => Some(row_of(opts, Seq::empty())),
            SpecOutcome::NotFound => None,
        },
    }
}

/// Folding one row into the running total: the first row is taken whole,
/// later ones are added element by element.
pub open spec fn combine(t: Seq<nat>, row: Seq<nat>) -> Seq<nat> {
    if t.len() == 0 {
        row
    } else {
        let m = if t.len() <= row.len() {
            t.len()
        } else {
            row.len()
        };
        Seq::new(m, |i: int| t[i] + row[i])
    }
}

/// The aggregate total over the entries, in processing order.
pub open spec fn total_after(opts: Seq<WcCliOpt>, es: Seq<SpecEntry>) -> Seq<nat>
    decreases es.len(),
{
    if es.len() == 0 {
        Seq::empty()
    } else {
        let t = total_after(opts, es.drop_last());
        match entry_row(opts, es.last()) {
            Some(row) => combine(t, row),
            None => t,
        }
    }
}

/// How many entries are file sources, whatever their resolution.
pub open spec fn file_count(es: Seq<SpecEntry>) -> nat
    decreases es.len(),
{
    if es.len() == 0 {
        0
    } else {
        file_count(es.drop_last()) + match es.last() {
            SpecEntry::File { name, outcome } => 1nat,
            SpecEntry::Stdin { label, content } => 0,
        }
    }
}

/// Whether every count of a row fits the machine word.
pub open spec fn row_fits(t: Seq<nat>) -> bool {
    forall|i: int| 0 <= i < t.len() ==> t[i] <= usize::MAX
}

/// Whether the running total fits the machine word at every step.
pub open spec fn totals_ok(opts: Seq<WcCliOpt>, es: Seq<SpecEntry>) -> bool {
    forall|k: int| 0 <= k <= es.len() ==> row_fits(total_after(opts, es.take(k)))
}

/// The aggregate row, labelled `total`.
pub open spec fn total_line(opts: Seq<WcCliOpt>, es: Seq<SpecEntry>) -> Seq<char> {
    let t = total_after(opts, es);
    row_text(t, fmt_width(t.len())) + "total"@ + seq!['\n']
}

/// The whole report: every entry's output in order, then the total row
/// when more than one file source was given.
pub open spec fn report_text(opts: Seq<WcCliOpt>, es: Seq<SpecEntry>) -> Seq<char> {
    entries_text(opts, es) + if file_count(es) > 1 {
        total_line(opts, es)
    } else {
        Seq::<char>::empty()
    }
}

/// Renders one count row followed by its right-aligned label.
fn counts_line(counts: &Vec<usize>, label: &str) -> (r: String)
    ensures
        r@ == row_text(nat_row(counts@), fmt_width(counts@.len())) + pad_left(label@, 6)
            + seq!['\n'],
{
    let mut r = wc_fmt(counts);
    let p = pad_left_str(label, 6);
    r.append(p.as_str());
    r.append("\n");
    proof {
        reveal_strlit("\n");
        assert(r@ =~= row_text(nat_row(counts@), fmt_width(counts@.len())) + pad_left(label@, 6)
            + seq!['\n']);
    }
    r
}

fn not_found_line(name: &str) -> (r: String)
    ensures
        r@ == not_found_text(name@),
{
    let mut r = String::from_str("ccwc: ");
    r.append(name);
    r.append(": No such file or directory");
    r.append("\n");
    proof {
        reveal_strlit("\n");
        assert(r@ =~= not_found_text(name@));
    }
    r
}

fn is_dir_line(name: &str) -> (r: String)
    ensures
        r@ == is_dir_text(name@),
{
    let mut r = String::from_str("ccwc: ");
    r.append(name);
    r.append(": Is a directory");
    r.append("\n");
    proof {
        reveal_strlit("\n");
        assert(r@ =~= is_dir_text(name@));
    }
    r
}

/// Folds one count row into the running total, element by element; `None`
/// when a sum does not fit the machine word.
fn add_row(total: &Vec<usize>, row: &Vec<usize>) -> (r: Option<Vec<usize>>)
    ensures
        match r {
            Some(t) => nat_row(t@) == combine(nat_row(total@), nat_row(row@)) && row_fits(
                combine(nat_row(total@), nat_row(row@)),
            ),
            None => !row_fits(combine(nat_row(total@), nat_row(row@))),
        },
{
    if total.len() == 0 {
        let mut t: Vec<usize> = Vec::new();
        let mut i: usize = 0;
        while i < row.len()
            invariant
                i <= row@.len(),
                t@.len() == i,
                forall|j: int| 0 <= j < i ==> t@[j] == row@[j],
            decreases row@.len() - i,
        {
            t.push(row[i]);
            i = i + 1;
        }
        proof {
            assert(nat_row(t@) =~= combine(nat_row(total@), nat_row(row@)));
        }
        return Some(t);
    }
    let m = if total.len() <= row.len() {
        total.len()
    } else {
        row.len()
    };
    let mut t: Vec<usize> = Vec::new();
    let mut i: usize = 0;
    while i < m
        invariant
            i <= m,
            m == (if total@.len() <= row@.len() {
                total@.len()
            } else {
                row@.len()
            }),
            total@.len() > 0,
            t@.len() == i,
            forall|j: int| 0 <= j < i ==> t@[j] as nat == total@[j] as nat + row@[j] as nat,
        decreases m - i,
    {
        match total[i].checked_add(row[i]) {
            Some(v) => {
                t.push(v);
            },
            None => {
                proof {
                    let c = combine(nat_row(total@), nat_row(row@));
                    assert(c[i as int] == total@[i as int] as nat + row@[i as int] as nat);
                    assert(!row_fits(c));
                }
                return None;
            },
        }
        i = i + 1;
    }
    proof {
        assert(nat_row(t@) =~= combine(nat_row(total@), nat_row(row@)));
    }
    Some(t)
}

/// Builds the whole report over the resolved sources: every source's rows
/// and diagnostics in order, then the total row when more than one file
/// source was given. `None` when the aggregate total outgrows the machine
/// word, which is when the counting loop would fail.
pub fn report(opts: &Vec<WcCliOpt>, entries: &Vec<SourceEntry>) -> (r: Option<String>)
    ensures
        r is Some <==> totals_ok(opts@, entries_view(entries@)),
        r is Some ==> r->0@ == report_text(opts@, entries_view(entries@)),
{
    let ghost ev = entries_view(entries@);
    let mut out = String::new();
    let mut total: Vec<usize> = Vec::new();
    let mut nf: usize = 0;
    let mut i: usize = 0;
    proof {
        assert(ev.take(0) =~= Seq::<SpecEntry>::empty());
        assert(nat_row(total@) =~= Seq::<nat>::empty());
    }
    while i < entries.len()
        invariant
            i <= entries@.len(),
            ev == entries_view(entries@),
            ev.len() == entries@.len(),
            opts@.len() == opts.len(),
            out@ == entries_text(opts@, ev.take(i as int)),
            nat_row(total@) == total_after(opts@, ev.take(i as int)),
            nf as nat == file_count(ev.take(i as int)),
            nf <= i,
            forall|k: int| 0 <= k <= i ==> row_fits(total_after(opts@, ev.take(k))),
        decreases entries@.len() - i,
    {
        proof {
            assert(ev[i as int] == entry_view(entries@[i as int]));
            assert(ev.take(i as int + 1).drop_last() =~= ev.take(i as int));
            assert(ev.take(i as int + 1).last() == ev[i as int]);
        }
        let ghost prev_total = nat_row(total@);
        match &entries[i] {
            SourceEntry::Stdin { label, content } => {
                let counts = wc(content, opts);
                let line = counts_line(&counts, label.as_str());
                out.append(line.as_str());
                proof {
                    assert(out@ =~= entries_text(opts@, ev.take(i as int + 1)));
                }
            },
            SourceEntry::File { name, outcome } => {
                nf = nf + 1;
                match outcome {
                    Outcome::Readable(c) => {
                        let counts = wc(c, opts);
                        let line = counts_line(&counts, name.as_str());
                        out.append(line.as_str());
                        match add_row(&total, &counts) {
                            Some(t) => {
                                total = t;
                            },
                            None => {
                                proof {
                                    assert(total_after(opts@, ev.take(i as int + 1)) == combine(
                                        prev_total,
                                        nat_row(counts@),
                                    ));
                                    assert(!row_fits(
                                        total_after(opts@, ev.take(i as int + 1)),
                                    ));
                                    assert(!totals_ok(opts@, ev)) by {
                                        assert(ev.take(i as int + 1) =~= ev.take(i as int + 1));
                                    }
                                }
                                return None;
                            },
                        }
                        proof {
                            assert(out@ =~= entries_text(opts@, ev.take(i as int + 1)));
                        }
                    },
                    Outcome::IsDirectory => {
                        let diag = is_dir_line(name.as_str());
                        out.append(diag.as_str());
                        let empty_content = String::new();
                        let counts = wc(&empty_content, opts);
                        let line = counts_line(&counts, name.as_str());
                        out.append(line.as_str());
                        match add_row(&total, &counts) {
                            Some(t) => {
                                total = t;
                            },
                            None => {
                                proof {
                                    assert(total_after(opts@, ev.take(i as int + 1)) == combine(
                                        prev_total,
                                        nat_row(counts@),
                                    ));
                                    assert(!row_fits(
                                        total_after(opts@, ev.take(i as int + 1)),
                                    ));
                                }
                                return None;
                            },
                        }
                        proof {
                            assert(out@ =~= entries_text(opts@, ev.take(i as int + 1)));
                        }
                    },
                    Outcome::NotFound => {
                        let diag = not_found_line(name.as_str());
                        out.append(diag.as_str());
                        proof {
                            assert(out@ =~= entries_text(opts@, ev.take(i as int + 1)));
                        }
                    },
                }
            },
        }
        i = i + 1;
    }
    proof {
        assert(ev.take(entries@.len() as int) =~= ev);
    }
    if nf > 1 {
        let trow = wc_fmt(&total);
        out.append(trow.as_str());
        out.append("total");
        out.append("\n");
        proof {
            reveal_strlit("\n");
            assert(out@ =~= report_text(opts@, ev));
        }
    } else {
        proof {
            assert(out@ =~= report_text(opts@, ev));
        }
    }
    Some(out)
}

} // verus!
