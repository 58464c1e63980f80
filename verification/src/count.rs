//! The counting core: the five metrics, their mathematical definitions
//! over a sequence of characters, and verified single-pass counters.

use vstd::prelude::*;

verus! {

use vstd::string::StrSliceExecFns;
use vstd::utf8::encode_utf8;
use vstd::utf8::is_ascii_chars;
use vstd::utf8::is_ascii_chars_encode_utf8;

/// One requested metric.
#[derive(Debug, PartialEq, Eq, Clone, Copy, Structural)]
pub enum WcCliOpt {
    CountBytes,
    CountCharacters,
    CountLines,
    CountWords,
    MaxLineLength,
}

/// Whether `c` has the Unicode `White_Space` property, the classification
/// that word splitting uses.
pub open spec fn is_wspace(c: char) -> bool {
    let u = c as u32;
    (9 <= u && u <= 13) || u == 32 || u == 0x85 || u == 0xa0 || u == 0x1680 || (0x2000 <= u && u
        <= 0x200a) || u == 0x2028 || u == 0x2029 || u == 0x202f || u == 0x205f || u == 0x3000
}

/// How many bytes the UTF-8 form of `s` takes.
pub open spec fn byte_count(s: Seq<char>) -> nat {
    encode_utf8(s).len()
}

/// How many characters `s` has.
pub open spec fn char_count(s: Seq<char>) -> nat {
    s.len()
}

/// How many newline characters `s` has.
pub open spec fn newline_count(s: Seq<char>) -> nat
    decreases s.len(),
{
    if s.len() == 0 {
        0
    } else {
        newline_count(s.drop_last()) + if s.last() == '\n' {
            1nat
        } else {
            0
        }
    }
}

/// How many lines `s` has: one per newline, plus a final line without a
/// trailing newline.
pub open spec fn line_count(s: Seq<char>) -> nat {
    newline_count(s) + if s.len() > 0 && s.last() != '\n' {
        1nat
    } else {
        0
    }
}

/// Whether position `i` starts a word: a non-whitespace character at the
/// start of `s` or right after whitespace.
pub open spec fn is_word_start(s: Seq<char>, i: int) -> bool {
    0 <= i < s.len() && !is_wspace(s[i]) && (i == 0 || is_wspace(s[i - 1]))
}

/// How many words (maximal non-whitespace runs) `s` has.
pub open spec fn word_count(s: Seq<char>) -> nat
    decreases s.len(),
{
    if s.len() == 0 {
        0
    } else {
        word_count(s.drop_last()) + if is_word_start(s, s.len() - 1) {
            1nat
        } else {
            0
        }
    }
}

/// The length of the trailing run of `s` with no newline in it.
pub open spec fn last_line_len(s: Seq<char>) -> nat
    decreases s.len(),
{
    if s.len() == 0 {
        0
    } else if s.last() == '\n' {
        0
    } else {
        1 + last_line_len(s.drop_last())
    }
}

/// The length, in characters, of the longest line of `s`; 0 when `s` is empty.
pub open spec fn max_line_len(s: Seq<char>) -> nat
    decreases s.len(),
{
    if s.len() == 0 {
        0
    } else {
        let m = max_line_len(s.drop_last());
        let c = last_line_len(s);
        if c > m {
            c
        } else {
            m
        }
    }
}

/// The value of one metric on content `s`.
pub open spec fn metric_count(opt: WcCliOpt, s: Seq<char>) -> nat {
    match opt {
        WcCliOpt::CountBytes => byte_count(s),
        WcCliOpt::CountCharacters => char_count(s),
        WcCliOpt::CountLines => line_count(s),
        WcCliOpt::CountWords => word_count(s),
        WcCliOpt::MaxLineLength => max_line_len(s),
    }
}

/// The result row: one count per requested metric, in request order.
pub open spec fn row_of(opts: Seq<WcCliOpt>, s: Seq<char>) -> Seq<nat> {
    opts.map_values(|o: WcCliOpt| metric_count(o, s))
}

/// The counts of a row, as mathematical integers.
pub open spec fn nat_row(v: Seq<usize>) -> Seq<nat> {
    v.map_values(|x: usize| x as nat)
}

fn is_wspace_ch(c: char) -> (r: bool)
    ensures
        r == is_wspace(c),
{
    let u = c as u32;
    (9 <= u && u <= 13) || u == 32 || u == 0x85 || u == 0xa0 || u == 0x1680 || (0x2000 <= u && u
        <= 0x200a) || u == 0x2028 || u == 0x2029 || u == 0x202f || u == 0x205f || u == 0x3000
}

/// Counts the characters of `s`.
pub fn count_chars(s: &str) -> (n: usize)
    ensures
        n == char_count(s@),
{
    s.unicode_len()
}

/// Counts the bytes of the UTF-8 form of `s`.
pub fn count_bytes(s: &str) -> (n: usize)
    ensures
        n == byte_count(s@),
{
    let v = s.as_bytes_vec();
    v.len()
}

proof fn lemma_newline_count_le(s: Seq<char>)
    ensures
        newline_count(s) <= s.len(),
    decreases s.len(),
{
    if s.len() > 0 {
        lemma_newline_count_le(s.drop_last());
    }
}

/// Counts the lines of `s`.
pub fn count_lines(s: &str) -> (n: usize)
    ensures
        n == line_count(s@),
{
    let len = s.unicode_len();
    let mut nl: usize = 0;
    let mut i: usize = 0;
    while i < len
        invariant
            i <= len,
            len == s@.len(),
            nl == newline_count(s@.take(i as int)),
            nl <= i,
        decreases len - i,
    {
        let c = s.get_char(i);
        proof {
            assert(s@.take(i as int + 1).drop_last() =~= s@.take(i as int));
            assert(s@.take(i as int + 1).last() == s@[i as int]);
        }
        if c == '\n' {
            nl = nl + 1;
        }
        i = i + 1;
    }
    proof {
        assert(s@.take(len as int) =~= s@);
    }
    if len > 0 {
        let c = s.get_char(len - 1);
        if c != '\n' {
            proof {
                lemma_newline_count_le(s@.drop_last());
                assert(newline_count(s@) == newline_count(s@.drop_last()));
            }
            nl = nl + 1;
        }
    }
    nl
}

/// Counts the words of `s`.
pub fn count_words(s: &str) -> (n: usize)
    ensures
        n == word_count(s@),
{
    let len = s.unicode_len();
    let mut n: usize = 0;
    let mut i: usize = 0;
    let mut prev_ws: bool = true;
    while i < len
        invariant
            i <= len,
            len == s@.len(),
            n == word_count(s@.take(i as int)),
            n <= i,
            prev_ws == (i == 0 || is_wspace(s@[i as int - 1])),
        decreases len - i,
    {
        let c = s.get_char(i);
        let ws = is_wspace_ch(c);
        proof {
            let t = s@.take(i as int + 1);
            assert(t.drop_last() =~= s@.take(i as int));
            assert(t.last() == s@[i as int]);
            assert(is_word_start(t, i as int) == (!is_wspace(s@[i as int]) && (i == 0 || is_wspace(
                s@[i as int - 1],
            ))));
        }
        if !ws && prev_ws {
            n = n + 1;
        }
        prev_ws = ws;
        i = i + 1;
    }
    proof {
        assert(s@.take(len as int) =~= s@);
    }
    n
}

/// Finds the length of the longest line of `s`.
pub fn max_line_length(s: &str) -> (n: usize)
    ensures
        n == max_line_len(s@),
{
    let len = s.unicode_len();
    let mut cur: usize = 0;
    let mut best: usize = 0;
    let mut i: usize = 0;
    while i < len
        invariant
            i <= len,
            len == s@.len(),
            cur == last_line_len(s@.take(i as int)),
            best == max_line_len(s@.take(i as int)),
            cur <= i,
            best <= i,
        decreases len - i,
    {
        let c = s.get_char(i);
        proof {
            assert(s@.take(i as int + 1).drop_last() =~= s@.take(i as int));
            assert(s@.take(i as int + 1).last() == s@[i as int]);
        }
        if c == '\n' {
            cur = 0;
        } else {
            cur = cur + 1;
        }
        if cur > best {
            best = cur;
        }
        i = i + 1;
    }
    proof {
        assert(s@.take(len as int) =~= s@);
    }
    best
}

/// Computes the requested metrics over `contents`, one count per metric,
/// in request order.
pub fn wc(contents: &String, opts: &Vec<WcCliOpt>) -> (counts: Vec<usize>)
    ensures
        counts@.len() == opts@.len(),
        forall|i: int| 0 <= i < opts@.len() ==> counts@[i] as nat == metric_count(
            opts@[i],
            contents@,
        ),
        nat_row(counts@) == row_of(opts@, contents@),
{
    let mut counts: Vec<usize> = Vec::new();
    let mut i: usize = 0;
    while i < opts.len()
        invariant
            i <= opts@.len(),
            counts@.len() == i,
            forall|j: int| 0 <= j < i ==> counts@[j] as nat == metric_count(opts@[j], contents@),
        decreases opts@.len() - i,
    {
        let c = match opts[i] {
            WcCliOpt::CountBytes => count_bytes(contents.as_str()),
            WcCliOpt::CountCharacters => count_chars(contents.as_str()),
            WcCliOpt::CountLines => count_lines(contents.as_str()),
            WcCliOpt::CountWords => count_words(contents.as_str()),
            WcCliOpt::MaxLineLength => max_line_length(contents.as_str()),
        };
        counts.push(c);
        i = i + 1;
    }
    proof {
        assert(nat_row(counts@) =~= row_of(opts@, contents@));
    }
    counts
}

/// Law: the byte count is never below the character count, and on pure
/// ASCII content the two are equal.
pub proof fn lemma_byte_count_bounds(s: Seq<char>)
    ensures
        byte_count(s) >= char_count(s),
        is_ascii_chars(s) ==> byte_count(s) == char_count(s),
    decreases s.len(),
{
    if s.len() == 0 {
    } else {
        lemma_byte_count_bounds(s.drop_first());
        assert(encode_utf8(s) == vstd::utf8::encode_scalar(s[0] as u32) + encode_utf8(
            s.drop_first(),
        ));
        if is_ascii_chars(s) {
            is_ascii_chars_encode_utf8(s);
        }
    }
}

} // verus!
