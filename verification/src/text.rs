//! Character scanning over strings: finding characters, matching and
//! replacing substrings, trimming, splitting on a separator and reading
//! unsigned integers. Whitespace means the four ASCII blank characters.

use vstd::prelude::*;
use vstd::string::*;

use crate::format_num::{digit_val, is_digit_char, lemma_val_append_ge, spec_val};

verus! {

/// Whether `c` is an ASCII blank: space, tab, carriage return or newline.
pub open spec fn is_space_char(c: char) -> bool {
    c == ' ' || c == '\t' || c == '\r' || c == '\n'
}

/// Whether `c` is an ASCII blank.
pub fn is_space(c: char) -> (r: bool)
    ensures
        r == is_space_char(c),
{
    c == ' ' || c == '\t' || c == '\r' || c == '\n'
}

/// The first index at or after `i` holding `c`, or the length of `s`.
pub open spec fn first_char_from(s: Seq<char>, c: char, i: nat) -> nat
    decreases s.len() - i,
    when i <= s.len()
{
    if i >= s.len() {
        s.len()
    } else if s[i as int] == c {
        i
    } else {
        first_char_from(s, c, i + 1)
    }
}

/// The first index at or after `i` holding a blank, or the length of `s`.
pub open spec fn first_space_from(s: Seq<char>, i: nat) -> nat
    decreases s.len() - i,
    when i <= s.len()
{
    if i >= s.len() {
        s.len()
    } else if is_space_char(s[i as int]) {
        i
    } else {
        first_space_from(s, i + 1)
    }
}

/// The first index at or after `i` holding no blank, or the length of `s`.
pub open spec fn first_non_space_from(s: Seq<char>, i: nat) -> nat
    decreases s.len() - i,
    when i <= s.len()
{
    if i >= s.len() {
        s.len()
    } else if !is_space_char(s[i as int]) {
        i
    } else {
        first_non_space_from(s, i + 1)
    }
}

/// What the scan for a character guarantees about its result.
pub proof fn lemma_first_char_from(s: Seq<char>, c: char, i: nat)
    requires
        i <= s.len(),
    ensures
        i <= first_char_from(s, c, i) <= s.len(),
        first_char_from(s, c, i) < s.len() ==> s[first_char_from(s, c, i) as int] == c,
        forall|j: int| i <= j < first_char_from(s, c, i) ==> s[j] != c,
    decreases s.len() - i,
{
    if i < s.len() && s[i as int] != c {
        lemma_first_char_from(s, c, i + 1);
    }
}

/// What the scan for a blank guarantees about its result.
pub proof fn lemma_first_space_from(s: Seq<char>, i: nat)
    requires
        i <= s.len(),
    ensures
        i <= first_space_from(s, i) <= s.len(),
        first_space_from(s, i) < s.len() ==> is_space_char(s[first_space_from(s, i) as int]),
        forall|j: int| i <= j < first_space_from(s, i) ==> !is_space_char(s[j]),
    decreases s.len() - i,
{
    if i < s.len() && !is_space_char(s[i as int]) {
        lemma_first_space_from(s, i + 1);
    }
}

/// What the scan for a non-blank guarantees about its result.
pub proof fn lemma_first_non_space_from(s: Seq<char>, i: nat)
    requires
        i <= s.len(),
    ensures
        i <= first_non_space_from(s, i) <= s.len(),
        first_non_space_from(s, i) < s.len() ==> !is_space_char(
            s[first_non_space_from(s, i) as int],
        ),
        forall|j: int| i <= j < first_non_space_from(s, i) ==> is_space_char(s[j]),
    decreases s.len() - i,
{
    if i < s.len() && is_space_char(s[i as int]) {
        lemma_first_non_space_from(s, i + 1);
    }
}

/// Scans for the first occurrence of `c` at or after `i`.
pub fn find_char_from(s: &str, c: char, i: usize) -> (r: usize)
    requires
        i <= s@.len(),
    ensures
        r as nat == first_char_from(s@, c, i as nat),
{
    let n: usize = s.unicode_len();
    let mut j: usize = i;
    while j < n
        invariant
            i <= j <= n,
            n == s@.len(),
            first_char_from(s@, c, i as nat) == first_char_from(s@, c, j as nat),
        decreases n - j,
    {
        if s.get_char(j) == c {
            return j;
        }
        j = j + 1;
    }
    n
}

/// Scans for the first blank at or after `i`.
pub fn find_space_from(s: &str, i: usize) -> (r: usize)
    requires
        i <= s@.len(),
    ensures
        r as nat == first_space_from(s@, i as nat),
{
    let n: usize = s.unicode_len();
    let mut j: usize = i;
    while j < n
        invariant
            i <= j <= n,
            n == s@.len(),
            first_space_from(s@, i as nat) == first_space_from(s@, j as nat),
        decreases n - j,
    {
        if is_space(s.get_char(j)) {
            return j;
        }
        j = j + 1;
    }
    n
}

/// Scans for the first non-blank at or after `i`.
pub fn find_non_space_from(s: &str, i: usize) -> (r: usize)
    requires
        i <= s@.len(),
    ensures
        r as nat == first_non_space_from(s@, i as nat),
{
    let n: usize = s.unicode_len();
    let mut j: usize = i;
    while j < n
        invariant
            i <= j <= n,
            n == s@.len(),
            first_non_space_from(s@, i as nat) == first_non_space_from(s@, j as nat),
        decreases n - j,
    {
        if !is_space(s.get_char(j)) {
            return j;
        }
        j = j + 1;
    }
    n
}

/// The index right after the last occurrence of `c`, or zero when `c` does
/// not occur.
pub open spec fn after_last_char(s: Seq<char>, c: char) -> nat
    decreases s.len(),
{
    if s.len() == 0 {
        0
    } else if s.last() == c {
        s.len()
    } else {
        after_last_char(s.drop_last(), c)
    }
}

/// What the backward scan guarantees about its result.
pub proof fn lemma_after_last_char(s: Seq<char>, c: char)
    ensures
        after_last_char(s, c) <= s.len(),
        after_last_char(s, c) > 0 ==> s[after_last_char(s, c) - 1] == c,
        forall|j: int| after_last_char(s, c) <= j < s.len() ==> s[j] != c,
    decreases s.len(),
{
    if s.len() > 0 && s.last() != c {
        lemma_after_last_char(s.drop_last(), c);
        assert forall|j: int| after_last_char(s, c) <= j < s.len() implies s[j] != c by {
            if j < s.len() - 1 {
                assert(s.drop_last()[j] == s[j]);
            }
        }
    }
}

/// Scans backward for the last occurrence of `c`; yields the index one past
/// it, or zero when there is none.
pub fn find_after_last_char(s: &str, c: char) -> (r: usize)
    ensures
        r as nat == after_last_char(s@, c),
{
    let n: usize = s.unicode_len();
    proof {
        assert(s@.take(n as int) =~= s@);
    }
    let mut j: usize = n;
    while j > 0
        invariant
            j <= n,
            n == s@.len(),
            after_last_char(s@, c) == after_last_char(s@.take(j as int), c),
        decreases j,
    {
        if s.get_char(j - 1) == c {
            proof {
                assert(s@.take(j as int).last() == s@[j - 1]);
            }
            return j;
        }
        proof {
            assert(s@.take(j as int).drop_last() =~= s@.take(j - 1));
        }
        j = j - 1;
    }
    proof {
        assert(s@.take(0) =~= Seq::<char>::empty());
    }
    0
}

/// Whether `p` occurs in `s` starting at index `i`.
pub open spec fn matches_at(s: Seq<char>, p: Seq<char>, i: int) -> bool {
    0 <= i && i + p.len() <= s.len() && s.subrange(i, i + p.len() as int) == p
}

/// Whether some index of `s` starts an occurrence of `p`.
pub open spec fn spec_contains_str(s: Seq<char>, p: Seq<char>) -> bool {
    exists|i: int| matches_at(s, p, i)
}

/// Tests whether `p` occurs in `s` starting at index `i`.
pub fn match_at(s: &str, p: &str, i: usize) -> (r: bool)
    ensures
        r == matches_at(s@, p@, i as int),
{
    let n: usize = s.unicode_len();
    let m: usize = p.unicode_len();
    if m > n || i > n - m {
        return false;
    }
    let mut j: usize = 0;
    while j < m
        invariant
            j <= m,
            i + m <= n,
            n == s@.len(),
            m == p@.len(),
            forall|jj: int| 0 <= jj < j ==> s@[i + jj] == p@[jj],
        decreases m - j,
    {
        if s.get_char(i + j) != p.get_char(j) {
            proof {
                assert(s@.subrange(i as int, i + m) != p@) by {
                    assert(s@.subrange(i as int, i + m)[j as int] == s@[i + j]);
                }
            }
            return false;
        }
        j = j + 1;
    }
    proof {
        assert(s@.subrange(i as int, i + m) =~= p@);
    }
    true
}

/// Tests whether `s` starts with `p`.
pub fn starts_with(s: &str, p: &str) -> (r: bool)
    ensures
        r == matches_at(s@, p@, 0),
{
    match_at(s, p, 0)
}

/// Finds the first occurrence of `p` in `s`.
pub fn find_str(s: &str, p: &str) -> (r: Option<usize>)
    ensures
        match r {
            Some(i) => matches_at(s@, p@, i as int) && forall|j: int|
                0 <= j < i ==> !matches_at(s@, p@, j),
            None => !spec_contains_str(s@, p@),
        },
{
    let n: usize = s.unicode_len();
    let m: usize = p.unicode_len();
    if m > n {
        return None;
    }
    if m == 0 {
        proof {
            assert(s@.subrange(0, 0) =~= p@);
        }
        return Some(0);
    }
    let mut i: usize = 0;
    while i <= n - m
        invariant
            1 <= m <= n,
            n == s@.len(),
            m == p@.len(),
            i <= n,
            forall|j: int| 0 <= j < i ==> !matches_at(s@, p@, j),
        decreases n - i,
    {
        if match_at(s, p, i) {
            return Some(i);
        }
        i = i + 1;
    }
    None
}

/// Tests whether `p` occurs anywhere in `s`.
pub fn contains_str(s: &str, p: &str) -> (r: bool)
    ensures
        r == spec_contains_str(s@, p@),
{
    match find_str(s, p) {
        Some(_) => true,
        None => false,
    }
}

/// `s` with every occurrence of `p` replaced by `rep`, scanning left to
/// right without overlap.
pub open spec fn spec_replace(s: Seq<char>, p: Seq<char>, rep: Seq<char>) -> Seq<char>
    decreases s.len(),
    when p.len() > 0
{
    if s.len() < p.len() {
        s
    } else if s.subrange(0, p.len() as int) == p {
        rep + spec_replace(s.skip(p.len() as int), p, rep)
    } else {
        seq![s[0]] + spec_replace(s.drop_first(), p, rep)
    }
}

/// Replaces every occurrence of `p` in `s` by `rep`, left to right.
pub fn replace_str(s: &str, p: &str, rep: &str) -> (r: String)
    requires
        p@.len() > 0,
    ensures
        r@ == spec_replace(s@, p@, rep@),
{
    let n: usize = s.unicode_len();
    let m: usize = p.unicode_len();
    let mut out: String = String::new();
    let mut i: usize = 0;
    proof {
        assert(s@.skip(0) =~= s@);
    }
    while i < n
        invariant
            i <= n,
            n == s@.len(),
            m == p@.len(),
            m >= 1,
            out@ + spec_replace(s@.skip(i as int), p@, rep@) == spec_replace(s@, p@, rep@),
        decreases n - i,
    {
        let ghost tail = s@.skip(i as int);
        if match_at(s, p, i) {
            out.append(rep);
            proof {
                assert(tail.subrange(0, m as int) =~= s@.subrange(i as int, i + m));
                assert(tail.skip(m as int) =~= s@.skip(i + m));
                assert(out@ + spec_replace(s@.skip(i + m), p@, rep@) == spec_replace(
                    s@,
                    p@,
                    rep@,
                ));
            }
            i = i + m;
        } else {
            out.append(s.substring_char(i, i + 1));
            proof {
                assert(tail[0] == s@[i as int]);
                assert(s@.subrange(i as int, i + 1) =~= seq![tail[0]]);
                assert(tail.drop_first() =~= s@.skip(i + 1));
                if tail.len() >= m {
                    assert(tail.subrange(0, m as int) =~= s@.subrange(i as int, i + m));
                    assert(spec_replace(tail, p@, rep@) == seq![tail[0]] + spec_replace(
                        s@.skip(i + 1),
                        p@,
                        rep@,
                    ));
                } else {
                    assert(tail =~= seq![tail[0]] + s@.skip(i + 1));
                    assert(s@.skip(i + 1).len() < m);
                }
                assert(out@ + spec_replace(s@.skip(i + 1), p@, rep@) == spec_replace(
                    s@,
                    p@,
                    rep@,
                ));
            }
            i = i + 1;
        }
    }
    proof {
        assert(s@.skip(n as int) =~= Seq::<char>::empty());
        assert(out@ =~= spec_replace(s@, p@, rep@));
    }
    out
}

/// The index one past the last non-blank character, or zero for an
/// all-blank string.
pub open spec fn last_non_space_end(s: Seq<char>) -> nat
    decreases s.len(),
{
    if s.len() == 0 {
        0
    } else if is_space_char(s.last()) {
        last_non_space_end(s.drop_last())
    } else {
        s.len()
    }
}

/// `s` with leading and trailing ASCII blanks removed.
pub open spec fn spec_trim(s: Seq<char>) -> Seq<char> {
    let a = first_non_space_from(s, 0);
    let b = last_non_space_end(s);
    if a < b {
        s.subrange(a as int, b as int)
    } else {
        Seq::<char>::empty()
    }
}

/// Scans backward for the end of the last non-blank character.
pub fn find_trim_end(s: &str) -> (r: usize)
    ensures
        r as nat == last_non_space_end(s@),
{
    let n: usize = s.unicode_len();
    proof {
        assert(s@.take(n as int) =~= s@);
    }
    let mut b: usize = n;
    while b > 0
        invariant
            b <= n,
            n == s@.len(),
            last_non_space_end(s@) == last_non_space_end(s@.take(b as int)),
        decreases b,
    {
        proof {
            assert(s@.take(b as int).last() == s@[b - 1]);
            assert(s@.take(b as int).drop_last() =~= s@.take(b - 1));
        }
        if !is_space(s.get_char(b - 1)) {
            return b;
        }
        b = b - 1;
    }
    proof {
        assert(s@.take(0) =~= Seq::<char>::empty());
    }
    0
}

/// Removes leading and trailing ASCII blanks.
pub fn trim(s: &str) -> (r: &str)
    ensures
        r@ == spec_trim(s@),
{
    let a: usize = find_non_space_from(s, 0);
    let b: usize = find_trim_end(s);
    proof {
        lemma_first_non_space_from(s@, 0);
        lemma_last_non_space_end(s@);
    }
    if a < b {
        s.substring_char(a, b)
    } else {
        proof {
            reveal_strlit("");
        }
        ""
    }
}

/// The trim end never exceeds the length.
pub proof fn lemma_last_non_space_end(s: Seq<char>)
    ensures
        last_non_space_end(s) <= s.len(),
    decreases s.len(),
{
    if s.len() > 0 && is_space_char(s.last()) {
        lemma_last_non_space_end(s.drop_last());
    }
}

/// Reads the decimal digits of `s` between `a` and `b` as an integer; an
/// empty range counts as zero, a non-digit or a value past `u64::MAX`
/// yields `None`.
pub fn parse_digits_value(s: &str, a: usize, b: usize) -> (r: Option<u64>)
    requires
        a <= b <= s@.len(),
    ensures
        match r {
            Some(v) => (forall|i: int| a <= i < b ==> is_digit_char(#[trigger] s@[i])) && v as nat
                == spec_val(s@.subrange(a as int, b as int)),
            None => !(forall|i: int| a <= i < b ==> is_digit_char(#[trigger] s@[i])) || spec_val(
                s@.subrange(a as int, b as int),
            ) > u64::MAX,
        },
{
    let mut acc: u64 = 0;
    let mut i: usize = a;
    proof {
        assert(s@.subrange(a as int, a as int) =~= Seq::<char>::empty());
    }
    while i < b
        invariant
            a <= i <= b <= s@.len(),
            forall|j: int| a <= j < i ==> is_digit_char(#[trigger] s@[j]),
            acc as nat == spec_val(s@.subrange(a as int, i as int)),
        decreases b - i,
    {
        let c: char = s.get_char(i);
        let ghost pre = s@.subrange(a as int, i as int);
        proof {
            assert(s@.subrange(a as int, i + 1) =~= pre + seq![s@[i as int]]);
            assert((pre + seq![c]).drop_last() =~= pre);
        }
        let d: u64 = if c == '0' {
            0
        } else if c == '1' {
            1
        } else if c == '2' {
            2
        } else if c == '3' {
            3
        } else if c == '4' {
            4
        } else if c == '5' {
            5
        } else if c == '6' {
            6
        } else if c == '7' {
            7
        } else if c == '8' {
            8
        } else if c == '9' {
            9
        } else {
            return None;
        };
        proof {
            assert(d as nat == digit_val(c));
            assert(spec_val(pre + seq![c]) == spec_val(pre) * 10 + digit_val(c));
        }
        let stepped: Option<u64> = acc.checked_mul(10);
        let next: Option<u64> = match stepped {
            Some(x) => x.checked_add(d),
            None => None,
        };
        match next {
            Some(v) => {
                acc = v;
            },
            None => {
                proof {
                    let whole = s@.subrange(a as int, b as int);
                    assert(whole =~= s@.subrange(a as int, i + 1) + s@.subrange(i + 1, b as int));
                    lemma_val_append_ge(s@.subrange(a as int, i + 1), s@.subrange(i + 1, b as int));
                }
                return None;
            },
        }
        i = i + 1;
    }
    Some(acc)
}

/// Reads a non-empty all-digit string as a `u64`.
pub fn parse_u64(s: &str) -> (r: Option<u64>)
    ensures
        match r {
            Some(v) => s@.len() > 0 && (forall|i: int|
                0 <= i < s@.len() ==> is_digit_char(#[trigger] s@[i])) && v as nat == spec_val(s@),
            None => s@.len() == 0 || !(forall|i: int|
                0 <= i < s@.len() ==> is_digit_char(#[trigger] s@[i])) || spec_val(s@) > u64::MAX,
        },
{
    let n: usize = s.unicode_len();
    if n == 0 {
        return None;
    }
    proof {
        assert(s@.subrange(0, n as int) =~= s@);
    }
    parse_digits_value(s, 0, n)
}

/// The pieces of `s` between occurrences of the separator `sep`; without
/// any separator the single piece is `s` itself.
pub open spec fn spec_split(s: Seq<char>, sep: char) -> Seq<Seq<char>>
    decreases s.len(),
{
    if s.len() == 0 {
        seq![Seq::<char>::empty()]
    } else {
        let rest = spec_split(s.drop_first(), sep);
        if s[0] == sep {
            seq![Seq::<char>::empty()] + rest
        } else {
            seq![seq![s[0]] + rest[0]] + rest.drop_first()
        }
    }
}

/// Splitting always yields at least one piece.
pub proof fn lemma_split_nonempty(s: Seq<char>, sep: char)
    ensures
        spec_split(s, sep).len() >= 1,
    decreases s.len(),
{
    if s.len() > 0 {
        lemma_split_nonempty(s.drop_first(), sep);
    }
}

/// A separator-free string is its own single piece.
pub proof fn lemma_split_whole(t: Seq<char>, sep: char)
    requires
        forall|i: int| 0 <= i < t.len() ==> t[i] != sep,
    ensures
        spec_split(t, sep) == seq![t],
    decreases t.len(),
{
    if t.len() == 0 {
        assert(spec_split(t, sep) =~~= seq![t]);
    } else {
        lemma_split_whole(t.drop_first(), sep);
        assert(seq![t[0]] + t.drop_first() =~= t);
        assert(spec_split(t, sep) =~~= seq![t]);
    }
}

/// Peeling one separator-free piece and its separator off the front of a
/// string peels one piece off its split.
pub proof fn lemma_split_chunk(t: Seq<char>, rest: Seq<char>, sep: char)
    requires
        forall|i: int| 0 <= i < t.len() ==> t[i] != sep,
    ensures
        spec_split(t + seq![sep] + rest, sep) == seq![t] + spec_split(rest, sep),
    decreases t.len(),
{
    let s = t + seq![sep] + rest;
    if t.len() == 0 {
        assert(s[0] == sep);
        assert(s.drop_first() =~= rest);
        assert(spec_split(s, sep) =~~= seq![t] + spec_split(rest, sep));
    } else {
        lemma_split_chunk(t.drop_first(), rest, sep);
        assert(s.drop_first() =~= t.drop_first() + seq![sep] + rest);
        lemma_split_nonempty(rest, sep);
        let inner = spec_split(s.drop_first(), sep);
        assert(inner == seq![t.drop_first()] + spec_split(rest, sep));
        assert(inner[0] == t.drop_first());
        assert(s[0] == t[0]);
        assert(seq![s[0]] + inner[0] =~= t);
        assert(inner.drop_first() =~= spec_split(rest, sep));
        assert(spec_split(s, sep) =~~= seq![t] + spec_split(rest, sep));
    }
}

/// One scanning step of a split: the piece between `i` and the next
/// separator at `j` peels off the front of the remaining split.
pub proof fn lemma_split_step(s: Seq<char>, i: nat, j: nat, sep: char)
    requires
        i <= j <= s.len(),
        forall|k: int| i <= k < j ==> s[k] != sep,
        j < s.len() ==> s[j as int] == sep,
    ensures
        j < s.len() ==> spec_split(s.skip(i as int), sep) == seq![s.subrange(i as int, j as int)]
            + spec_split(s.skip(j + 1 as int), sep),
        j == s.len() ==> spec_split(s.skip(i as int), sep) == seq![s.subrange(i as int, j as int)],
{
    let line = s.subrange(i as int, j as int);
    assert forall|k: int| 0 <= k < line.len() implies line[k] != sep by {
        assert(line[k] == s[i + k]);
    }
    if j < s.len() {
        assert(s.skip(i as int) =~= line + seq![sep] + s.skip(j + 1 as int));
        lemma_split_chunk(line, s.skip(j + 1 as int), sep);
    } else {
        assert(s.skip(i as int) =~= line);
        lemma_split_whole(line, sep);
    }
}

/// The first index where `p` occurs in `s`, or `-1` when it never does.
pub open spec fn spec_find_str(s: Seq<char>, p: Seq<char>) -> int
    decreases s.len(),
{
    if p.len() > s.len() {
        -1
    } else if s.subrange(0, p.len() as int) == p {
        0
    } else if s.len() == 0 {
        -1
    } else {
        let r = spec_find_str(s.drop_first(), p);
        if r < 0 {
            -1
        } else {
            r + 1
        }
    }
}

/// What the first-occurrence index guarantees.
pub proof fn lemma_spec_find_str(s: Seq<char>, p: Seq<char>)
    ensures
        spec_find_str(s, p) == -1 ==> !spec_contains_str(s, p),
        spec_find_str(s, p) >= 0 ==> matches_at(s, p, spec_find_str(s, p)) && forall|j: int|
            0 <= j < spec_find_str(s, p) ==> !matches_at(s, p, j),
    decreases s.len(),
{
    let f = spec_find_str(s, p);
    if p.len() > s.len() {
        assert forall|i: int| !matches_at(s, p, i) by {}
    } else if s.subrange(0, p.len() as int) == p {
    } else if s.len() == 0 {
        assert(s.subrange(0, p.len() as int) =~= p);
    } else {
        lemma_spec_find_str(s.drop_first(), p);
        let d = s.drop_first();
        assert forall|i: int| 1 <= i implies matches_at(s, p, i) == matches_at(d, p, i - 1) by {
            if 1 <= i && i + p.len() <= s.len() {
                assert(s.subrange(i, i + p.len() as int) =~= d.subrange(
                    i - 1,
                    i - 1 + p.len() as int,
                ));
            }
        }
        if f == -1 {
            assert forall|i: int| !matches_at(s, p, i) by {
                if i == 0 {
                } else if i >= 1 {
                    assert(!matches_at(d, p, i - 1));
                }
            }
        }
    }
}

/// Whether `s` is a plain decimal number: digits, at most one dot, and at
/// least one digit on some side of it.
pub open spec fn spec_decimal_ok(s: Seq<char>) -> bool {
    let dot = first_char_from(s, '.', 0);
    &&& (forall|i: int| 0 <= i < dot ==> is_digit_char(#[trigger] s[i]))
    &&& (dot == s.len() || forall|i: int| dot < i < s.len() ==> is_digit_char(#[trigger] s[i]))
    &&& (dot > 0 || dot + 1 < s.len())
}

/// The whole-number part of a plain decimal number.
pub open spec fn spec_decimal_int(s: Seq<char>) -> nat {
    spec_val(s.take(first_char_from(s, '.', 0) as int))
}

fn all_digits_in(s: &str, a: usize, b: usize) -> (r: bool)
    requires
        a <= b <= s@.len(),
    ensures
        r == forall|i: int| a <= i < b ==> is_digit_char(#[trigger] s@[i]),
{
    let mut i: usize = a;
    while i < b
        invariant
            a <= i <= b <= s@.len(),
            forall|j: int| a <= j < i ==> is_digit_char(#[trigger] s@[j]),
        decreases b - i,
    {
        let c: char = s.get_char(i);
        let digit: bool = c == '0' || c == '1' || c == '2' || c == '3' || c == '4' || c == '5' || c
            == '6' || c == '7' || c == '8' || c == '9';
        if !digit {
            return false;
        }
        i = i + 1;
    }
    true
}

/// Reads a plain decimal number and truncates it to its whole-number part;
/// `None` when the text is no such number or the part does not fit.
pub fn parse_decimal_trunc(s: &str) -> (r: Option<u64>)
    ensures
        match r {
            Some(v) => spec_decimal_ok(s@) && spec_decimal_int(s@) <= u64::MAX && v as nat
                == spec_decimal_int(s@),
            None => !spec_decimal_ok(s@) || spec_decimal_int(s@) > u64::MAX,
        },
{
    let n: usize = s.unicode_len();
    let dot: usize = find_char_from(s, '.', 0);
    proof {
        lemma_first_char_from(s@, '.', 0);
    }
    if !(dot > 0 || dot + 1 < n) {
        return None;
    }
    if dot < n && !all_digits_in(s, dot + 1, n) {
        return None;
    }
    proof {
        assert(s@.subrange(0, dot as int) =~= s@.take(dot as int));
    }
    parse_digits_value(s, 0, dot)
}

/// Tests whether two strings hold the same characters.
pub fn str_eq(a: &str, b: &str) -> (r: bool)
    ensures
        r == (a@ == b@),
{
    if a.unicode_len() != b.unicode_len() {
        proof {
            assert(a@ != b@);
        }
        return false;
    }
    let r = match_at(a, b, 0);
    proof {
        if r {
            assert(a@.subrange(0, b@.len() as int) =~= a@);
        } else {
            assert(a@.subrange(0, b@.len() as int) =~= a@);
        }
    }
    r
}

} // verus!
