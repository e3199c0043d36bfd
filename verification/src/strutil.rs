//! Verified string helpers: suffix tests and stripping, path joining and
//! splitting, dot counting for the CSV key inference, and decimal parsing.

use vstd::prelude::*;
use vstd::string::*;

verus! {

broadcast use vstd::std_specs::vec::group_vec_axioms, vstd::seq::group_seq_axioms;

/// `s` ends with `suffix`.
pub open spec fn ends_with(s: Seq<char>, suffix: Seq<char>) -> bool {
    suffix.len() <= s.len() && s.skip(s.len() - suffix.len() as int) == suffix
}

/// `s` with `suffix` removed from its end (meaningful when `ends_with` holds).
pub open spec fn strip_suffix(s: Seq<char>, suffix: Seq<char>) -> Seq<char> {
    s.take(s.len() - suffix.len() as int)
}

/// Joining a directory and a path fragment, as path pushing does: an empty
/// base or an absolute fragment leaves the fragment alone; otherwise a
/// single separator stands between the two.
pub open spec fn path_join(base: Seq<char>, rest: Seq<char>) -> Seq<char> {
    if base.len() == 0 {
        rest
    } else if rest.len() > 0 && rest[0] == '/' {
        rest
    } else if base.last() == '/' {
        base + rest
    } else {
        base + seq!['/'] + rest
    }
}

/// Index of the last separator in `s`, or `-1` when there is none.
pub open spec fn last_slash(s: Seq<char>) -> int
    decreases s.len(),
{
    if s.len() == 0 {
        -1
    } else if s.last() == '/' {
        s.len() - 1
    } else {
        last_slash(s.drop_last())
    }
}

/// The part after the last separator.
pub open spec fn file_name(s: Seq<char>) -> Seq<char> {
    s.skip(last_slash(s) + 1)
}

/// The part before the last separator (without it); empty when there is none.
pub open spec fn dir_name(s: Seq<char>) -> Seq<char> {
    s.take(if last_slash(s) < 0 { 0 } else { last_slash(s) })
}

pub proof fn lemma_last_slash(s: Seq<char>)
    ensures
        -1 <= last_slash(s) < s.len(),
        last_slash(s) >= 0 ==> s[last_slash(s)] == '/',
        forall|j: int| last_slash(s) < j < s.len() ==> s[j] != '/',
    decreases s.len(),
{
    if s.len() > 0 && s.last() != '/' {
        lemma_last_slash(s.drop_last());
        assert(forall|j: int| 0 <= j < s.len() - 1 ==> s[j] == s.drop_last()[j]);
    }
}

/// How many `.` characters `s` holds.
pub open spec fn dot_count(s: Seq<char>) -> nat
    decreases s.len(),
{
    if s.len() == 0 {
        0
    } else {
        dot_count(s.drop_last()) + (if s.last() == '.' {
            1nat
        } else {
            0nat
        })
    }
}

/// Index of the first `.` in `s`; `s.len()` when there is none.
pub open spec fn first_dot(s: Seq<char>) -> int
    decreases s.len(),
{
    if s.len() == 0 {
        0
    } else if s[0] == '.' {
        0
    } else {
        1 + first_dot(s.skip(1))
    }
}

pub proof fn lemma_first_dot(s: Seq<char>)
    ensures
        0 <= first_dot(s) <= s.len(),
        first_dot(s) < s.len() ==> s[first_dot(s)] == '.',
        forall|j: int| 0 <= j < first_dot(s) ==> s[j] != '.',
        dot_count(s) == 0 ==> first_dot(s) == s.len(),
        first_dot(s) == s.len() ==> dot_count(s) == 0,
    decreases s.len(),
{
    if s.len() > 0 {
        if s[0] == '.' {
            lemma_dot_count_skip(s);
        } else {
            lemma_first_dot(s.skip(1));
            assert(forall|j: int| 1 <= j < s.len() ==> s[j] == s.skip(1)[j - 1]);
            lemma_dot_count_skip(s);
        }
    }
}

/// Dots counted from the front decompose as they do from the back.
pub proof fn lemma_dot_count_skip(s: Seq<char>)
    requires
        s.len() > 0,
    ensures
        dot_count(s) == dot_count(s.skip(1)) + (if s[0] == '.' {
            1nat
        } else {
            0nat
        }),
    decreases s.len(),
{
    if s.len() == 1 {
        assert(s.skip(1).len() == 0);
        assert(dot_count(s.skip(1)) == 0);
        assert(s.drop_last().len() == 0);
        assert(dot_count(s.drop_last()) == 0);
        assert(s[0] == s.last());
    } else {
        lemma_dot_count_skip(s.drop_last());
        assert(s[0] == s.drop_last()[0]);
        assert(s.skip(1).drop_last() =~= s.drop_last().skip(1));
        assert(s.skip(1).last() == s.last());
        assert(s.skip(1).len() > 0);
        assert(dot_count(s.skip(1)) == dot_count(s.skip(1).drop_last()) + (if s.skip(1).last()
            == '.' {
            1nat
        } else {
            0nat
        }));
        assert(dot_count(s) == dot_count(s.drop_last()) + (if s.last() == '.' {
            1nat
        } else {
            0nat
        }));
    }
}

/// The concatenation of two string slices.
pub fn concat2(a: &str, b: &str) -> (r: String)
    ensures
        r@ == a@ + b@,
{
    let mut r = String::from_str(a);
    r.append(b);
    r
}

/// Whether `s` ends with `suffix`, by characters.
pub fn str_ends_with(s: &str, suffix: &str) -> (r: bool)
    ensures
        r == ends_with(s@, suffix@),
{
    let n = s.unicode_len();
    let m = suffix.unicode_len();
    if m > n {
        return false;
    }
    let mut i: usize = 0;
    while i < m
        invariant
            m <= n,
            n == s@.len(),
            m == suffix@.len(),
            i <= m,
            forall|j: int| 0 <= j < i ==> s@[n - m + j] == suffix@[j],
        decreases m - i,
    {
        if s.get_char(n - m + i) != suffix.get_char(i) {
            proof {
                assert(s@.skip(n - m as int)[i as int] != suffix@[i as int]);
            }
            return false;
        }
        i += 1;
    }
    proof {
        assert(s@.skip(n - m as int) =~= suffix@);
    }
    true
}

/// `s` with `suffix` removed from its end.
pub fn str_strip_suffix(s: &str, suffix: &str) -> (r: String)
    requires
        ends_with(s@, suffix@),
    ensures
        r@ == strip_suffix(s@, suffix@),
{
    let n = s.unicode_len();
    let m = suffix.unicode_len();
    String::from_str(s.substring_char(0, n - m))
}

/// Join a base directory and a path fragment.
pub fn join_path(base: &str, rest: &str) -> (r: String)
    ensures
        r@ == path_join(base@, rest@),
{
    if base.unicode_len() == 0 {
        return String::from_str(rest);
    }
    if rest.unicode_len() > 0 && rest.get_char(0) == '/' {
        return String::from_str(rest);
    }
    if base.get_char(base.unicode_len() - 1) == '/' {
        concat2(base, rest)
    } else {
        let mut r = String::from_str(base);
        r.append("/");
        r.append(rest);
        proof {
            reveal_strlit("/");
            assert(base@ + "/"@ + rest@ =~= base@ + seq!['/'] + rest@);
        }
        r
    }
}

/// The position right after the last separator, or `0` when there is none.
fn find_after_slash(s: &str) -> (r: usize)
    ensures
        r == last_slash(s@) + 1,
{
    let n = s.unicode_len();
    let mut i: usize = n;
    while i > 0
        invariant
            i <= n,
            n == s@.len(),
            forall|j: int| i <= j < n ==> s@[j] != '/',
        decreases i,
    {
        if s.get_char(i - 1) == '/' {
            proof {
                lemma_last_slash_from_witness(s@, i - 1 as int);
            }
            return i;
        }
        i -= 1;
    }
    proof {
        lemma_last_slash(s@);
        if last_slash(s@) >= 0 {
            assert(s@[last_slash(s@)] == '/');
        }
    }
    0
}

proof fn lemma_last_slash_from_witness(s: Seq<char>, k: int)
    requires
        0 <= k < s.len(),
        s[k] == '/',
        forall|j: int| k < j < s.len() ==> s[j] != '/',
    ensures
        last_slash(s) == k,
    decreases s.len(),
{
    if k == s.len() - 1 {
    } else {
        assert(s.last() != '/');
        assert(forall|j: int| 0 <= j < s.len() - 1 ==> s.drop_last()[j] == s[j]);
        lemma_last_slash_from_witness(s.drop_last(), k);
    }
}

/// Split a path at its last separator: the directory part (without the
/// separator) and the file name.
pub fn split_path(s: &str) -> (r: (String, String))
    ensures
        r.0@ == dir_name(s@),
        r.1@ == file_name(s@),
{
    let n = s.unicode_len();
    let p = find_after_slash(s);
    proof {
        lemma_last_slash(s@);
    }
    let dir = if p == 0 {
        String::from_str(s.substring_char(0, 0))
    } else {
        String::from_str(s.substring_char(0, p - 1))
    };
    let file = String::from_str(s.substring_char(p, n));
    (dir, file)
}

/// Count the dots in `s`.
pub fn count_dots(s: &str) -> (r: usize)
    ensures
        r == dot_count(s@),
{
    let n = s.unicode_len();
    let mut i: usize = 0;
    let mut c: usize = 0;
    while i < n
        invariant
            i <= n,
            n == s@.len(),
            c <= i,
            c == dot_count(s@.take(i as int)),
        decreases n - i,
    {
        proof {
            assert(s@.take(i + 1 as int).drop_last() =~= s@.take(i as int));
            assert(s@.take(i + 1 as int).last() == s@[i as int]);
        }
        if s.get_char(i) == '.' {
            c += 1;
        }
        i += 1;
    }
    proof {
        assert(s@.take(n as int) =~= s@);
    }
    c
}

/// The index of the first dot in `s`, or its length when there is none.
pub fn find_first_dot(s: &str) -> (r: usize)
    ensures
        r == first_dot(s@),
{
    let n = s.unicode_len();
    let mut i: usize = 0;
    while i < n
        invariant
            i <= n,
            n == s@.len(),
            forall|j: int| 0 <= j < i ==> s@[j] != '.',
        decreases n - i,
    {
        if s.get_char(i) == '.' {
            proof {
                lemma_first_dot_from_witness(s@, i as int);
            }
            return i;
        }
        i += 1;
    }
    proof {
        lemma_first_dot(s@);
        if first_dot(s@) < n {
            assert(s@[first_dot(s@)] == '.');
        }
    }
    n
}

proof fn lemma_first_dot_from_witness(s: Seq<char>, k: int)
    requires
        0 <= k < s.len(),
        s[k] == '.',
        forall|j: int| 0 <= j < k ==> s[j] != '.',
    ensures
        first_dot(s) == k,
    decreases k,
{
    if k > 0 {
        assert(s[0] != '.');
        assert(forall|j: int| 0 <= j < s.len() - 1 ==> s.skip(1)[j] == s[j + 1]);
        lemma_first_dot_from_witness(s.skip(1), k - 1);
    }
}

/// `s` consists of decimal digits only, and is not empty.
pub open spec fn is_digits(s: Seq<char>) -> bool {
    s.len() > 0 && forall|i: int| 0 <= i < s.len() ==> '0' <= #[trigger] s[i] <= '9'
}

/// The value of a digit string read in base ten.
pub open spec fn dec_value(s: Seq<char>) -> nat
    decreases s.len(),
{
    if s.len() == 0 {
        0
    } else {
        (dec_value(s.drop_last()) * 10 + (s.last() as int - '0' as int)) as nat
    }
}

/// Reading more digits never lowers the value.
proof fn lemma_dec_value_prefix(s: Seq<char>, i: int)
    requires
        0 <= i <= s.len(),
        is_digits(s),
    ensures
        dec_value(s) >= dec_value(s.take(i)),
    decreases s.len() - i,
{
    if i < s.len() {
        lemma_dec_value_prefix(s, i + 1);
        assert(s.take(i + 1).drop_last() =~= s.take(i));
        assert(dec_value(s.take(i + 1)) == (dec_value(s.take(i)) * 10 + (s.take(i + 1).last() as int
            - '0' as int)) as nat);
    } else {
        assert(s.take(i) =~= s);
    }
}

/// Parse a small decimal number: the digits' value when `s` is all digits
/// and the value fits in a byte, nothing otherwise.
pub fn parse_u8(s: &str) -> (r: Option<u8>)
    ensures
        match r {
            Some(v) => is_digits(s@) && dec_value(s@) == v,
            None => !(is_digits(s@) && dec_value(s@) <= 255),
        },
{
    let n = s.unicode_len();
    if n == 0 {
        return None;
    }
    let mut i: usize = 0;
    let mut acc: u32 = 0;
    while i < n
        invariant
            i <= n,
            n == s@.len(),
            n > 0,
            acc == dec_value(s@.take(i as int)),
            acc <= 255,
            forall|j: int| 0 <= j < i ==> '0' <= #[trigger] s@[j] <= '9',
        decreases n - i,
    {
        let c = s.get_char(i);
        if c < '0' || c > '9' {
            return None;
        }
        let d: u32 = (c as u32) - ('0' as u32);
        proof {
            assert(s@.take(i + 1 as int).drop_last() =~= s@.take(i as int));
            assert(s@.take(i + 1 as int).last() == s@[i as int]);
        }
        let next: u32 = acc * 10 + d;
        if next > 255 {
            proof {
                if is_digits(s@) {
                    lemma_dec_value_prefix(s@, i + 1 as int);
                }
            }
            return None;
        }
        acc = next;
        i += 1;
    }
    proof {
        assert(s@.take(n as int) =~= s@);
    }
    Some(acc as u8)
}

} // verus!
