//! Library-wide laws, each stated over the mathematical model and proved
//! for every input: word counts sum over lines, the maximum line length is
//! the maximum over the line decomposition, the aggregate total is the
//! element-wise column sum, and the report is a function of its input.

use vstd::prelude::*;

verus! {

use crate::count::WcCliOpt;
use crate::count::is_wspace;
use crate::count::is_word_start;
use crate::count::last_line_len;
use crate::count::max_line_len;
use crate::count::word_count;
use crate::report::SpecEntry;
use crate::report::combine;
use crate::report::entries_text;
use crate::report::entry_row;
use crate::report::file_count;
use crate::report::report_text;
use crate::report::total_after;
use crate::report::total_line;
use crate::split::first_sep;
use crate::split::split_on;

/// The sum of a sequence of counts.
pub open spec fn seq_sum(s: Seq<nat>) -> nat
    decreases s.len(),
{
    if s.len() == 0 {
        0
    } else {
        s[0] + seq_sum(s.drop_first())
    }
}

/// The largest of a sequence of counts; 0 when there is none.
pub open spec fn seq_max(s: Seq<nat>) -> nat
    decreases s.len(),
{
    if s.len() == 0 {
        0
    } else {
        let m = seq_max(s.drop_first());
        if s[0] > m {
            s[0]
        } else {
            m
        }
    }
}

pub open spec fn nat_max(a: nat, b: nat) -> nat {
    if a > b {
        a
    } else {
        b
    }
}

/// The word count of each piece.
pub open spec fn word_counts_of(ls: Seq<Seq<char>>) -> Seq<nat> {
    ls.map_values(|l: Seq<char>| word_count(l))
}

/// The character length of each piece.
pub open spec fn line_lengths_of(ls: Seq<Seq<char>>) -> Seq<nat> {
    ls.map_values(|l: Seq<char>| l.len())
}

proof fn lemma_first_sep_props(s: Seq<char>, sep: char)
    ensures
        first_sep(s, sep) <= s.len(),
        forall|j: int| 0 <= j < first_sep(s, sep) ==> s[j] != sep,
        first_sep(s, sep) < s.len() ==> s[first_sep(s, sep) as int] == sep,
    decreases s.len(),
{
    if s.len() == 0 {
    } else if s[0] == sep {
    } else {
        lemma_first_sep_props(s.drop_first(), sep);
        assert forall|j: int| 0 <= j < first_sep(s, sep) implies s[j] != sep by {
            if j > 0 {
                assert(s.drop_first()[j - 1] != sep);
            }
        }
        if first_sep(s, sep) < s.len() {
            assert(s[first_sep(s, sep) as int] == s.drop_first()[first_sep(s.drop_first(), sep) as int]);
        }
    }
}

/// Splitting at a whitespace position splits the word count.
proof fn lemma_word_count_split(s: Seq<char>, k: int)
    requires
        0 <= k < s.len(),
        is_wspace(s[k]),
    ensures
        word_count(s) == word_count(s.take(k)) + word_count(s.skip(k + 1)),
    decreases s.len(),
{
    if k == s.len() - 1 {
        assert(!is_word_start(s, s.len() - 1));
        assert(s.drop_last() =~= s.take(k));
        assert(s.skip(k + 1) =~= Seq::<char>::empty());
    } else {
        let d = s.drop_last();
        let u = s.skip(k + 1);
        assert(d[k] == s[k]);
        lemma_word_count_split(d, k);
        assert(d.take(k) =~= s.take(k));
        assert(d.skip(k + 1) =~= u.drop_last());
        let n = s.len() as int;
        assert(u.len() == n - k - 1);
        assert(u[u.len() - 1] == s[n - 1]);
        if u.len() == 1 {
            assert(k == n - 2);
            assert(is_word_start(u, 0) == !is_wspace(u[0]));
            assert(is_word_start(s, n - 1) == (!is_wspace(s[n - 1]) && is_wspace(s[n - 2])));
            assert(is_word_start(s, n - 1) == is_word_start(u, u.len() - 1));
        } else {
            assert(u[u.len() - 2] == s[n - 2]);
            assert(is_word_start(s, n - 1) == is_word_start(u, u.len() - 1));
        }
        assert(word_count(u) == word_count(u.drop_last()) + if is_word_start(u, u.len() - 1) {
            1nat
        } else {
            0
        });
    }
}

/// Law: the word count of any content equals the sum of the word counts of
/// its newline-separated pieces, and the empty content has no words.
pub proof fn lemma_word_count_lines(s: Seq<char>)
    ensures
        word_count(s) == seq_sum(word_counts_of(split_on(s, '\n'))),
        word_count(Seq::<char>::empty()) == 0,
    decreases s.len(),
{
    lemma_first_sep_props(s, '\n');
    let k = first_sep(s, '\n') as int;
    if k >= s.len() {
        assert(split_on(s, '\n') == seq![s]);
        let m = word_counts_of(seq![s]);
        assert(m =~= seq![word_count(s)]);
        assert(m[0] == word_count(s));
        assert(m.drop_first() =~= Seq::<nat>::empty());
        assert(seq_sum(m.drop_first()) == 0);
        assert(seq_sum(m) == word_count(s));
    } else {
        assert(s[k] == '\n');
        assert(is_wspace('\n'));
        lemma_word_count_split(s, k);
        let u = s.skip(k + 1);
        lemma_word_count_lines(u);
        let rest = split_on(u, '\n');
        assert(split_on(s, '\n') == seq![s.take(k)] + rest);
        let m = word_counts_of(seq![s.take(k)] + rest);
        assert(m[0] == word_count(s.take(k)));
        assert(m.drop_first() =~= word_counts_of(rest));
        assert(seq_sum(m) == word_count(s.take(k)) + seq_sum(word_counts_of(rest)));
    }
}

/// A piece with no newline is one line: as long as itself.
proof fn lemma_no_sep_line(s: Seq<char>)
    requires
        forall|j: int| 0 <= j < s.len() ==> s[j] != '\n',
    ensures
        last_line_len(s) == s.len(),
        max_line_len(s) == s.len(),
    decreases s.len(),
{
    if s.len() > 0 {
        assert(forall|j: int| 0 <= j < s.drop_last().len() ==> s.drop_last()[j] != '\n');
        lemma_no_sep_line(s.drop_last());
        assert(s.last() != '\n');
    }
}

/// The trailing line length is read off the part after the last newline.
proof fn lemma_lll_split(s: Seq<char>, k: int)
    requires
        0 <= k < s.len(),
        s[k] == '\n',
    ensures
        last_line_len(s) == last_line_len(s.skip(k + 1)),
    decreases s.len(),
{
    if k == s.len() - 1 {
        assert(s.last() == '\n');
        assert(s.skip(k + 1) =~= Seq::<char>::empty());
    } else {
        let u = s.skip(k + 1);
        assert(u.last() == s.last());
        if s.last() == '\n' {
        } else {
            let d = s.drop_last();
            assert(d[k] == s[k]);
            lemma_lll_split(d, k);
            assert(d.skip(k + 1) =~= u.drop_last());
        }
    }
}

/// Splitting at a newline splits the maximum line length.
proof fn lemma_mll_split(s: Seq<char>, k: int)
    requires
        0 <= k < s.len(),
        s[k] == '\n',
    ensures
        max_line_len(s) == nat_max(max_line_len(s.take(k)), max_line_len(s.skip(k + 1))),
    decreases s.len(),
{
    if k == s.len() - 1 {
        assert(s.drop_last() =~= s.take(k));
        assert(s.skip(k + 1) =~= Seq::<char>::empty());
        assert(last_line_len(s) == 0);
    } else {
        let d = s.drop_last();
        let u = s.skip(k + 1);
        assert(d[k] == s[k]);
        lemma_mll_split(d, k);
        assert(d.take(k) =~= s.take(k));
        assert(d.skip(k + 1) =~= u.drop_last());
        lemma_lll_split(s, k);
        assert(last_line_len(s) == last_line_len(u));
        assert(u.last() == s.last());
        assert(max_line_len(u) == nat_max(max_line_len(u.drop_last()), last_line_len(u)));
        assert(max_line_len(s) == nat_max(max_line_len(d), last_line_len(s)));
    }
}

/// Law: the maximum line length of any content is the largest character
/// length among its newline-separated pieces, and 0 for empty content.
pub proof fn lemma_max_line_length_lines(s: Seq<char>)
    ensures
        max_line_len(s) == seq_max(line_lengths_of(split_on(s, '\n'))),
        max_line_len(Seq::<char>::empty()) == 0,
    decreases s.len(),
{
    lemma_first_sep_props(s, '\n');
    let k = first_sep(s, '\n') as int;
    if k >= s.len() {
        assert(split_on(s, '\n') == seq![s]);
        lemma_no_sep_line(s);
        let m = line_lengths_of(seq![s]);
        assert(m =~= seq![s.len()]);
        assert(m[0] == s.len());
        assert(m.drop_first() =~= Seq::<nat>::empty());
        assert(seq_max(m.drop_first()) == 0);
        assert(seq_max(m) == s.len());
    } else {
        assert(s[k] == '\n');
        lemma_mll_split(s, k);
        let u = s.skip(k + 1);
        lemma_max_line_length_lines(u);
        let rest = split_on(u, '\n');
        assert(split_on(s, '\n') == seq![s.take(k)] + rest);
        let m = line_lengths_of(seq![s.take(k)] + rest);
        assert(m[0] == s.take(k).len());
        assert(m.drop_first() =~= line_lengths_of(rest));
        lemma_no_sep_line(s.take(k));
        assert(seq_max(m) == nat_max(s.take(k).len(), seq_max(line_lengths_of(rest))));
    }
}

/// The rows that enter the aggregate total, in processing order.
pub open spec fn contrib_rows(opts: Seq<WcCliOpt>, es: Seq<SpecEntry>) -> Seq<Seq<nat>>
    decreases es.len(),
{
    if es.len() == 0 {
        Seq::empty()
    } else {
        let r = contrib_rows(opts, es.drop_last());
        match entry_row(opts, es.last()) {
            Some(row) => r.push(row),
            None => r,
        }
    }
}

/// The sum of column `i` over a sequence of rows.
pub open spec fn col_sum(rows: Seq<Seq<nat>>, i: int) -> nat
    decreases rows.len(),
{
    if rows.len() == 0 {
        0
    } else {
        col_sum(rows.drop_last(), i) + rows.last()[i]
    }
}

/// Law: the aggregate total is the element-wise sum of the per-file rows;
/// it is empty exactly when no file source contributed a row.
pub proof fn lemma_total_elementwise(opts: Seq<WcCliOpt>, es: Seq<SpecEntry>)
    ensures
        total_after(opts, es).len() == if contrib_rows(opts, es).len() == 0 {
            0
        } else {
            opts.len()
        },
        forall|i: int| 0 <= i < total_after(opts, es).len() ==> total_after(opts, es)[i] == col_sum(
            contrib_rows(opts, es),
            i,
        ),
    decreases es.len(),
{
    if es.len() == 0 {
    } else {
        let d = es.drop_last();
        lemma_total_elementwise(opts, d);
        let t = total_after(opts, d);
        let rows = contrib_rows(opts, d);
        match entry_row(opts, es.last()) {
            Some(row) => {
                assert(row.len() == opts.len());
                assert(contrib_rows(opts, es) == rows.push(row));
                assert(rows.push(row).drop_last() =~= rows);
                assert(rows.push(row).last() == row);
                if t.len() == 0 {
                    assert(total_after(opts, es) == row);
                    if rows.len() == 0 {
                        assert forall|i: int| 0 <= i < row.len() implies row[i] == col_sum(
                            rows.push(row),
                            i,
                        ) by {
                            assert(col_sum(rows, i) == 0);
                        }
                    } else {
                        assert(opts.len() == 0);
                        assert(row.len() == 0);
                    }
                } else {
                    assert(rows.len() > 0);
                    assert(total_after(opts, es) == combine(t, row));
                }
            },
            None => {
                assert(contrib_rows(opts, es) == rows);
                assert(total_after(opts, es) == t);
            },
        }
    }
}

/// Law: the total row appears in the report exactly when more than one
/// file source was processed; the standard input alone never brings one.
pub proof fn lemma_total_emission(opts: Seq<WcCliOpt>, es: Seq<SpecEntry>)
    ensures
        file_count(es) > 1 ==> report_text(opts, es) == entries_text(opts, es) + total_line(
            opts,
            es,
        ),
        file_count(es) <= 1 ==> report_text(opts, es) == entries_text(opts, es),
{
    if file_count(es) <= 1 {
        assert(entries_text(opts, es) + Seq::<char>::empty() =~= entries_text(opts, es));
    }
}

/// Law: the report is a function of the requested metrics and the resolved
/// sources alone, so two runs over identical input and flags print
/// identical output.
pub proof fn lemma_report_deterministic(
    opts: Seq<WcCliOpt>,
    es: Seq<SpecEntry>,
    out1: Seq<char>,
    out2: Seq<char>,
)
    requires
        out1 == report_text(opts, es),
        out2 == report_text(opts, es),
    ensures
        out1 == out2,
{
}

} // verus!
