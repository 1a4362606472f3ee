//! Character-level helpers: prefix tests and newline scanning.

use vstd::prelude::*;
use vstd::string::*;

verus! {

/// A query string names a commit when it is a character-for-character
/// prefix of the commit's full SHA (an exact match is the full-length
/// prefix).
pub open spec fn ref_matches(q: Seq<char>, sha: Seq<char>) -> bool {
    q.is_prefix_of(sha)
}

/// Whether `q` is a character-for-character prefix of `s`.
pub fn is_char_prefix(q: &str, s: &str) -> (r: bool)
    ensures
        r == q@.is_prefix_of(s@),
{
    let qn = q.unicode_len();
    let sn = s.unicode_len();
    if qn > sn {
        return false;
    }
    let mut i: usize = 0;
    while i < qn
        invariant
            i <= qn,
            qn == q@.len(),
            sn == s@.len(),
            qn <= sn,
            forall|j: int| 0 <= j < i ==> q@[j] == s@[j],
        decreases qn - i,
    {
        if q.get_char(i) != s.get_char(i) {
            assert(q@ !~= s@.subrange(0, qn as int));
            return false;
        }
        i += 1;
    }
    assert(q@ =~= s@.subrange(0, qn as int));
    true
}

/// Whether `a` and `b` hold the same characters.
pub fn str_eq(a: &str, b: &str) -> (r: bool)
    ensures
        r == (a@ == b@),
{
    let an = a.unicode_len();
    let bn = b.unicode_len();
    if an != bn {
        return false;
    }
    let r = is_char_prefix(a, b);
    proof {
        assert(b@.subrange(0, bn as int) =~= b@);
        if a@.is_prefix_of(b@) {
            assert(a@ =~= b@);
        }
    }
    r
}

/// Index of the first newline character in `m`, or `m.len()` when `m`
/// holds none.
pub open spec fn first_newline(m: Seq<char>) -> int
    decreases m.len(),
{
    if m.len() == 0 {
        0
    } else if m[0] == '\n' {
        0
    } else {
        1 + first_newline(m.drop_first())
    }
}

pub proof fn lemma_first_newline(m: Seq<char>)
    ensures
        0 <= first_newline(m) <= m.len(),
        first_newline(m) < m.len() ==> m[first_newline(m)] == '\n',
        forall|j: int| 0 <= j < first_newline(m) ==> m[j] != '\n',
    decreases m.len(),
{
    if m.len() > 0 && m[0] != '\n' {
        lemma_first_newline(m.drop_first());
        assert forall|j: int| 0 <= j < first_newline(m) implies m[j] != '\n' by {
            if j > 0 {
                assert(m.drop_first()[j - 1] == m[j]);
            }
        }
    }
}

/// Any position that carries a newline with none before it is the first
/// newline; so is the length when no position carries one.
pub proof fn lemma_first_newline_unique(m: Seq<char>, i: int)
    requires
        0 <= i <= m.len(),
        i < m.len() ==> m[i] == '\n',
        forall|j: int| 0 <= j < i ==> m[j] != '\n',
    ensures
        i == first_newline(m),
{
    lemma_first_newline(m);
    if i < first_newline(m) {
        assert(m[i] == '\n');
        assert(false);
    }
    if first_newline(m) < i {
        assert(m[first_newline(m)] != '\n');
        assert(false);
    }
}

/// Index of the first newline in `s` at or after `from`, or the length
/// of `s` when there is none.
pub fn find_newline(s: &str, from: usize) -> (i: usize)
    requires
        from <= s@.len(),
    ensures
        from <= i <= s@.len(),
        i < s@.len() ==> s@[i as int] == '\n',
        forall|j: int| from <= j < i ==> s@[j] != '\n',
{
    let n = s.unicode_len();
    let mut i = from;
    while i < n
        invariant
            from <= i <= n,
            n == s@.len(),
            forall|j: int| from <= j < i ==> s@[j] != '\n',
        decreases n - i,
    {
        if s.get_char(i) == '\n' {
            return i;
        }
        i += 1;
    }
    i
}

/// A line as split at a newline: a carriage return standing directly
/// before the newline is dropped.
pub open spec fn strip_cr(l: Seq<char>) -> Seq<char> {
    if l.len() > 0 && l.last() == '\r' {
        l.drop_last()
    } else {
        l
    }
}

/// The lines of `s`, split at newline characters. A carriage return
/// directly before a newline is dropped with it; a carriage return
/// anywhere else stays; a trailing newline closes the last line without
/// opening an empty one.
pub open spec fn spec_lines(s: Seq<char>) -> Seq<Seq<char>>
    decreases s.len(),
    via spec_lines_decreases
{
    if s.len() == 0 {
        Seq::empty()
    } else {
        let i = first_newline(s);
        if i == s.len() {
            seq![s]
        } else {
            seq![strip_cr(s.take(i))] + spec_lines(s.skip(i + 1))
        }
    }
}

#[via_fn]
proof fn spec_lines_decreases(s: Seq<char>) {
    lemma_first_newline(s);
}

/// The lines of `s`, as newline-separated text is displayed.
pub fn split_lines(s: &str) -> (r: Vec<String>)
    ensures
        r.deep_view() == spec_lines(s@),
    decreases s@.len(),
{
    let n = s.unicode_len();
    if n == 0 {
        let r: Vec<String> = Vec::new();
        assert(r.deep_view() =~= spec_lines(s@));
        return r;
    }
    let i = find_newline(s, 0);
    proof {
        lemma_first_newline_unique(s@, i as int);
    }
    if i == n {
        let mut r: Vec<String> = Vec::new();
        r.push(s.to_owned());
        assert(r.deep_view() =~= spec_lines(s@));
        return r;
    }
    let line = if i > 0 && s.get_char(i - 1) == '\r' {
        let l = s.substring_char(0, i - 1);
        assert(l@ =~= strip_cr(s@.take(i as int))) by {
            assert(s@.take(i as int).last() == s@[i - 1]);
            assert(s@.take(i as int).drop_last() =~= s@.subrange(0, i - 1));
        }
        l
    } else {
        let l = s.substring_char(0, i);
        assert(l@ =~= strip_cr(s@.take(i as int))) by {
            if i > 0 {
                assert(s@.take(i as int).last() == s@[i - 1]);
            }
            assert(s@.take(i as int) =~= s@.subrange(0, i as int));
        }
        l
    };
    let rest = s.substring_char(i + 1, n);
    let mut r: Vec<String> = Vec::new();
    r.push(line.to_owned());
    let mut tail = split_lines(rest);
    r.append(&mut tail);
    assert(rest@ =~= s@.skip(i + 1));
    assert(r.deep_view() =~= spec_lines(s@));
    r
}

/// The decimal digit character for `d`.
pub open spec fn digit_char(d: int) -> char {
    if d == 0 {
        '0'
    } else if d == 1 {
        '1'
    } else if d == 2 {
        '2'
    } else if d == 3 {
        '3'
    } else if d == 4 {
        '4'
    } else if d == 5 {
        '5'
    } else if d == 6 {
        '6'
    } else if d == 7 {
        '7'
    } else if d == 8 {
        '8'
    } else {
        '9'
    }
}

/// The decimal numeral of `n`, most significant digit first, without
/// leading zeros (a lone zero for zero itself).
pub open spec fn spec_decimal(n: int) -> Seq<char>
    decreases n,
{
    if n < 10 {
        seq![digit_char(n)]
    } else {
        spec_decimal(n / 10).push(digit_char(n % 10))
    }
}

fn digit_str(d: u64) -> (s: &'static str)
    requires
        d < 10,
    ensures
        s@ == seq![digit_char(d as int)],
{
    proof {
        reveal_strlit("0");
        reveal_strlit("1");
        reveal_strlit("2");
        reveal_strlit("3");
        reveal_strlit("4");
        reveal_strlit("5");
        reveal_strlit("6");
        reveal_strlit("7");
        reveal_strlit("8");
        reveal_strlit("9");
    }
    let s = if d == 0 {
        "0"
    } else if d == 1 {
        "1"
    } else if d == 2 {
        "2"
    } else if d == 3 {
        "3"
    } else if d == 4 {
        "4"
    } else if d == 5 {
        "5"
    } else if d == 6 {
        "6"
    } else if d == 7 {
        "7"
    } else if d == 8 {
        "8"
    } else {
        "9"
    };
    assert(s@ =~= seq![digit_char(d as int)]);
    s
}

/// The decimal numeral of `n` as a string.
pub fn u64_to_decimal(n: u64) -> (s: String)
    ensures
        s@ == spec_decimal(n as int),
    decreases n,
{
    if n < 10 {
        digit_str(n).to_owned()
    } else {
        let mut s = u64_to_decimal(n / 10);
        s.append(digit_str(n % 10));
        assert(s@ =~= spec_decimal(n as int));
        s
    }
}

} // verus!
