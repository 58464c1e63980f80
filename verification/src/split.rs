//! Splitting text on a separator character, keeping every piece: the
//! NUL-delimited file-list format, and the newline decomposition that the
//! counting laws speak of.

use vstd::prelude::*;

verus! {

use vstd::string::StrSliceExecFns;
use vstd::string::StringExecFns;

/// The position of the first `sep` in `s`, or `s.len()` when there is none.
pub open spec fn first_sep(s: Seq<char>, sep: char) -> nat
    decreases s.len(),
{
    if s.len() == 0 {
        0
    } else if s[0] == sep {
        0
    } else {
        1 + first_sep(s.drop_first(), sep)
    }
}

/// `s` split on `sep`: every piece between separators, the pieces before
/// the first and after the last one kept, empty pieces kept too.
pub open spec fn split_on(s: Seq<char>, sep: char) -> Seq<Seq<char>>
    decreases s.len(),
{
    let k = first_sep(s, sep);
    if k >= s.len() {
        seq![s]
    } else {
        seq![s.take(k as int)] + split_on(s.skip(k as int + 1), sep)
    }
}

/// Where the first separator stands: `k` is it, when everything before `k`
/// is separator-free and `k` holds a separator or is the end.
pub proof fn lemma_first_sep_at(s: Seq<char>, sep: char, k: int)
    requires
        0 <= k <= s.len(),
        forall|j: int| 0 <= j < k ==> s[j] != sep,
        k == s.len() || s[k] == sep,
    ensures
        first_sep(s, sep) == k,
    decreases k,
{
    if s.len() == 0 {
    } else if k == 0 {
    } else {
        lemma_first_sep_at(s.drop_first(), sep, k - 1);
    }
}

/// Splits `s` on NUL bytes, the way a `--files0-from` list is read: every
/// piece is kept, a trailing NUL so yields a trailing empty name.
pub fn split_nul(s: &str) -> (r: Vec<String>)
    ensures
        r.deep_view() == split_on(s@, '\0'),
{
    let len = s.unicode_len();
    let mut r: Vec<String> = Vec::new();
    let mut start: usize = 0;
    let mut i: usize = 0;
    proof {
        assert(r.deep_view() =~= Seq::<Seq<char>>::empty());
        assert(s@.skip(0) =~= s@);
        assert(Seq::<Seq<char>>::empty() + split_on(s@, '\0') =~= split_on(s@, '\0'));
    }
    while i < len
        invariant
            start <= i <= len,
            len == s@.len(),
            forall|j: int| start <= j < i ==> s@[j] != '\0',
            split_on(s@, '\0') == r.deep_view() + split_on(s@.skip(start as int), '\0'),
        decreases len - i,
    {
        let c = s.get_char(i);
        if c == '\0' {
            let piece = s.substring_char(start, i);
            let ghost prev = r.deep_view();
            r.push(String::from_str(piece));
            proof {
                let tail = s@.skip(start as int);
                assert(forall|j: int| 0 <= j < i - start ==> tail[j] != '\0');
                assert(tail[i - start as int] == '\0');
                lemma_first_sep_at(tail, '\0', i - start as int);
                assert(tail.take(i - start as int) =~= piece@);
                assert(tail.skip(i - start as int + 1) =~= s@.skip(i as int + 1));
                assert(split_on(tail, '\0') == seq![piece@] + split_on(s@.skip(i as int + 1), '\0'));
                assert(r.deep_view() =~= prev.push(piece@));
                assert(prev + split_on(tail, '\0') =~= r.deep_view() + split_on(
                    s@.skip(i as int + 1),
                    '\0',
                ));
            }
            start = i + 1;
        }
        i = i + 1;
    }
    let piece = s.substring_char(start, len);
    let ghost prev = r.deep_view();
    r.push(String::from_str(piece));
    proof {
        let tail = s@.skip(start as int);
        assert(forall|j: int| 0 <= j < tail.len() ==> tail[j] != '\0');
        lemma_first_sep_at(tail, '\0', tail.len() as int);
        assert(split_on(tail, '\0') == seq![tail]);
        assert(piece@ =~= tail);
        assert(r.deep_view() =~= prev.push(tail));
        assert(r.deep_view() =~= prev + seq![tail]);
    }
    r
}

} // verus!
