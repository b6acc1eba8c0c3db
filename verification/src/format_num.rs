//! Scaling of raw byte counts into display units and digit-grouped rendering.
//!
//! A `MemUnit` pairs a raw byte count with the unit it should be shown in.
//! `format` scales the count by the unit's divisor, truncates to an integer
//! and groups the decimal digits in threes; `as_str` gives the unit suffix.

use vstd::prelude::*;
use vstd::string::*;

verus! {

/// A raw byte count tagged with the unit tier it is displayed in.
///
/// Decimal tiers (`KB`, `MB`, `GB`, `TB`, `PB`) divide by powers of 1000,
/// binary tiers (`KiB`, `MiB`, `GiB`, `TiB`, `PiB`) by powers of 1024;
/// `B` leaves the count unscaled.
#[derive(Clone, Copy, Debug)]
pub enum MemUnit {
    B(u128),
    KB(u128),
    KiB(u128),
    MB(u128),
    MiB(u128),
    GB(u128),
    GiB(u128),
    TB(u128),
    TiB(u128),
    PB(u128),
    PiB(u128),
}

/// The character for a single decimal digit value.
pub open spec fn digit_char(d: nat) -> char {
    if d == 0 {
        '0'
    } else if d == 1 {
        '1'
    } else if d == 2 {
        '2'
    } else if d == 3 {
        '3'
    } else if d == 4 {
        '4'
    } else if d == 5 {
        '5'
    } else if d == 6 {
        '6'
    } else if d == 7 {
        '7'
    } else if d == 8 {
        '8'
    } else {
        '9'
    }
}

/// The decimal digit string of `n`, most significant digit first.
pub open spec fn spec_digits(n: nat) -> Seq<char>
    decreases n,
{
    if n < 10 {
        seq![digit_char(n)]
    } else {
        spec_digits(n / 10).push(digit_char(n % 10))
    }
}

/// Whether `c` is a decimal digit character.
pub open spec fn is_digit_char(c: char) -> bool {
    c == '0' || c == '1' || c == '2' || c == '3' || c == '4' || c == '5' || c == '6' || c == '7'
        || c == '8' || c == '9'
}

/// Every character of `spec_digits(n)` is a decimal digit.
pub proof fn lemma_digits_are_digit_chars(n: nat)
    ensures
        forall|i: int| 0 <= i < spec_digits(n).len() ==> is_digit_char(#[trigger] spec_digits(n)[i]),
    decreases n,
{
    if n >= 10 {
        lemma_digits_are_digit_chars(n / 10);
        let d = spec_digits(n / 10);
        assert forall|i: int| 0 <= i < spec_digits(n).len() implies is_digit_char(
            #[trigger] spec_digits(n)[i],
        ) by {
            if i < d.len() {
                assert(spec_digits(n)[i] == d[i]);
            } else {
                assert(spec_digits(n)[i] == digit_char(n % 10));
            }
        }
    }
}

/// How the length of the digit string follows the magnitude of `n`.
pub proof fn lemma_digits_len(n: nat)
    ensures
        n < 10 ==> spec_digits(n).len() == 1,
        10 <= n < 100 ==> spec_digits(n).len() == 2,
        100 <= n < 1000 ==> spec_digits(n).len() == 3,
        1000 <= n < 10000 ==> spec_digits(n).len() == 4,
        10000 <= n < 100000 ==> spec_digits(n).len() == 5,
        100000 <= n < 1000000 ==> spec_digits(n).len() == 6,
        1000000 <= n < 10000000 ==> spec_digits(n).len() == 7,
        10000000 <= n < 100000000 ==> spec_digits(n).len() == 8,
        100000000 <= n < 1000000000 ==> spec_digits(n).len() == 9,
        n >= 1000000000 ==> spec_digits(n).len() >= 10,
    decreases n,
{
    if n >= 10 {
        lemma_digits_len(n / 10);
    }
}

/// The one-character string for digit value `d`.
fn digit_str(d: u128) -> (r: &'static str)
    requires
        d < 10,
    ensures
        r@ =~= seq![digit_char(d as nat)],
{
    proof {
        reveal_strlit("0");
        reveal_strlit("1");
        reveal_strlit("2");
        reveal_strlit("3");
        reveal_strlit("4");
        reveal_strlit("5");
        reveal_strlit("6");
        reveal_strlit("7");
        reveal_strlit("8");
        reveal_strlit("9");
    }
    if d == 0 {
        "0"
    } else if d == 1 {
        "1"
    } else if d == 2 {
        "2"
    } else if d == 3 {
        "3"
    } else if d == 4 {
        "4"
    } else if d == 5 {
        "5"
    } else if d == 6 {
        "6"
    } else if d == 7 {
        "7"
    } else if d == 8 {
        "8"
    } else {
        "9"
    }
}

/// Appends the decimal digit string of `n` to `out`.
pub fn push_digits(n: u128, out: &mut String)
    ensures
        final(out)@ == old(out)@ + spec_digits(n as nat),
    decreases n,
{
    if n >= 10 {
        push_digits(n / 10, out);
    }
    let d: u128 = n % 10;
    out.append(digit_str(d));
    proof {
        assert(final(out)@ =~= old(out)@ + spec_digits(n as nat));
    }
}

/// The decimal digit string of `n` as an owned string.
pub fn digits_string(n: u128) -> (r: String)
    ensures
        r@ == spec_digits(n as nat),
{
    let mut s = String::new();
    push_digits(n, &mut s);
    proof {
        assert(s@ =~= spec_digits(n as nat));
    }
    s
}

/// The digit string of `n` grouped in threes from the right, following a
/// fixed table of layouts keyed on the magnitude of `n`:
/// one or three digits pass unchanged, two digits gain one trailing space
/// (column alignment with three-digit values), four to nine digits gain a
/// comma every three digits from the right, and ten or more digits fall
/// back to the ungrouped digit string.
pub open spec fn spec_grouped(n: nat) -> Seq<char> {
    let d = spec_digits(n);
    if n <= 9 {
        d
    } else if n <= 99 {
        d + seq![' ']
    } else if n <= 999 {
        d
    } else if n <= 9999 {
        d.subrange(0, 1) + seq![','] + d.subrange(1, 4)
    } else if n <= 99999 {
        d.subrange(0, 2) + seq![','] + d.subrange(2, 5)
    } else if n <= 999999 {
        d.subrange(0, 3) + seq![','] + d.subrange(3, 6)
    } else if n <= 9999999 {
        d.subrange(0, 1) + seq![','] + d.subrange(1, 4) + seq![','] + d.subrange(4, 7)
    } else if n <= 99999999 {
        d.subrange(0, 2) + seq![','] + d.subrange(2, 5) + seq![','] + d.subrange(5, 8)
    } else if n <= 999999999 {
        d.subrange(0, 3) + seq![','] + d.subrange(3, 6) + seq![','] + d.subrange(6, 9)
    } else {
        d
    }
}

impl MemUnit {
    /// The raw, unscaled byte count carried by this value.
    pub open spec fn raw_bytes(self) -> nat {
        match self {
            MemUnit::B(b) => b as nat,
            MemUnit::KB(b) => b as nat,
            MemUnit::KiB(b) => b as nat,
            MemUnit::MB(b) => b as nat,
            MemUnit::MiB(b) => b as nat,
            MemUnit::GB(b) => b as nat,
            MemUnit::GiB(b) => b as nat,
            MemUnit::TB(b) => b as nat,
            MemUnit::TiB(b) => b as nat,
            MemUnit::PB(b) => b as nat,
            MemUnit::PiB(b) => b as nat,
        }
    }

    /// The divisor the unit tier applies before display.
    pub open spec fn spec_divisor(self) -> nat {
        match self {
            MemUnit::B(_) => 1,
            MemUnit::KB(_) => 1000,
            MemUnit::KiB(_) => 1024,
            MemUnit::MB(_) => 1000000,
            MemUnit::MiB(_) => 1048576,
            MemUnit::GB(_) => 1000000000,
            MemUnit::GiB(_) => 1073741824,
            MemUnit::TB(_) => 1000000000000,
            MemUnit::TiB(_) => 1099511627776,
            MemUnit::PB(_) => 1000000000000000,
            MemUnit::PiB(_) => 1125899906842624,
        }
    }

    /// The byte count scaled to the unit tier, truncated toward zero.
    pub open spec fn scaled(self) -> nat {
        self.raw_bytes() / self.spec_divisor()
    }

    /// The unit suffix appended after the grouped digits.
    pub open spec fn spec_suffix(self) -> Seq<char> {
        match self {
            MemUnit::B(_) => "B"@,
            MemUnit::KB(_) => "KB"@,
            MemUnit::KiB(_) => "KiB"@,
            MemUnit::MB(_) => "MB"@,
            MemUnit::MiB(_) => "MiB"@,
            MemUnit::GB(_) => "GB"@,
            MemUnit::GiB(_) => "GiB"@,
            MemUnit::TB(_) => "TB"@,
            MemUnit::TiB(_) => "TiB"@,
            MemUnit::PB(_) => "PB"@,
            MemUnit::PiB(_) => "PiB"@,
        }
    }

    /// The full display string: grouped scaled digits, then the suffix.
    pub open spec fn spec_display(self) -> Seq<char> {
        spec_grouped(self.scaled()) + self.spec_suffix()
    }

    /// The unit suffix as a string slice.
    pub fn as_str(&self) -> (r: &'static str)
        ensures
            r@ == self.spec_suffix(),
    {
        match self {
            MemUnit::B(_) => "B",
            MemUnit::KB(_) => "KB",
            MemUnit::KiB(_) => "KiB",
            MemUnit::MB(_) => "MB",
            MemUnit::MiB(_) => "MiB",
            MemUnit::GB(_) => "GB",
            MemUnit::GiB(_) => "GiB",
            MemUnit::TB(_) => "TB",
            MemUnit::TiB(_) => "TiB",
            MemUnit::PB(_) => "PB",
            MemUnit::PiB(_) => "PiB",
        }
    }

    /// The byte count scaled to the unit tier, truncated toward zero.
    pub fn scale(&self) -> (r: u128)
        ensures
            r as nat == self.scaled(),
    {
        match self {
            MemUnit::B(b) => *b,
            MemUnit::KB(b) => *b / 1000,
            MemUnit::KiB(b) => *b / 1024,
            MemUnit::MB(b) => *b / 1000000,
            MemUnit::MiB(b) => *b / 1048576,
            MemUnit::GB(b) => *b / 1000000000,
            MemUnit::GiB(b) => *b / 1073741824,
            MemUnit::TB(b) => *b / 1000000000000,
            MemUnit::TiB(b) => *b / 1099511627776,
            MemUnit::PB(b) => *b / 1000000000000000,
            MemUnit::PiB(b) => *b / 1125899906842624,
        }
    }

    /// The scaled value rendered with digit grouping, without the suffix.
    pub fn format(&self) -> (r: String)
        ensures
            r@ == spec_grouped(self.scaled()),
    {
        let scaled: u128 = self.scale();
        let s = digits_string(scaled);
        proof {
            lemma_digits_len(scaled as nat);
            reveal_strlit(",");
            reveal_strlit(" ");
        }
        if scaled <= 9 {
            s
        } else if scaled <= 99 {
            let r = s.concat(" ");
            proof {
                assert(r@ =~= spec_grouped(scaled as nat));
            }
            r
        } else if scaled <= 999 {
            s
        } else if scaled <= 9999 {
            let r = String::from_str(s.as_str().substring_char(0, 1)).concat(",").concat(
                s.as_str().substring_char(1, 4),
            );
            proof {
                assert(r@ =~= spec_grouped(scaled as nat));
            }
            r
        } else if scaled <= 99999 {
            let r = String::from_str(s.as_str().substring_char(0, 2)).concat(",").concat(
                s.as_str().substring_char(2, 5),
            );
            proof {
                assert(r@ =~= spec_grouped(scaled as nat));
            }
            r
        } else if scaled <= 999999 {
            let r = String::from_str(s.as_str().substring_char(0, 3)).concat(",").concat(
                s.as_str().substring_char(3, 6),
            );
            proof {
                assert(r@ =~= spec_grouped(scaled as nat));
            }
            r
        } else if scaled <= 9999999 {
            let r = String::from_str(s.as_str().substring_char(0, 1)).concat(",").concat(
                s.as_str().substring_char(1, 4),
            ).concat(",").concat(s.as_str().substring_char(4, 7));
            proof {
                assert(r@ =~= spec_grouped(scaled as nat));
            }
            r
        } else if scaled <= 99999999 {
            let r = String::from_str(s.as_str().substring_char(0, 2)).concat(",").concat(
                s.as_str().substring_char(2, 5),
            ).concat(",").concat(s.as_str().substring_char(5, 8));
            proof {
                assert(r@ =~= spec_grouped(scaled as nat));
            }
            r
        } else if scaled <= 999999999 {
            let r = String::from_str(s.as_str().substring_char(0, 3)).concat(",").concat(
                s.as_str().substring_char(3, 6),
            ).concat(",").concat(s.as_str().substring_char(6, 9));
            proof {
                assert(r@ =~= spec_grouped(scaled as nat));
            }
            r
        } else {
            s
        }
    }

    /// The complete display string, grouped digits followed by the suffix.
    pub fn to_display_string(&self) -> (r: String)
        ensures
            r@ == self.spec_display(),
    {
        self.format().concat(self.as_str())
    }
}

/// Which ladder of byte-count thresholds picks the display unit for a total.
///
/// `Report` is the coarse two-tier scheme of the one-shot report: `GB` from
/// one decimal gigabyte upward, `MB` below. `Dashboard` is the five-tier
/// ladder of the live dashboard, keyed at powers of 1000: `KB`, `MB`, `GB`,
/// `TB` and `PB` for totals in [10^3, 10^18), and `B` outside that range.
#[derive(Clone, Copy, Debug)]
pub enum TierPolicy {
    Report,
    Dashboard,
}

/// The unit a policy selects for a total byte count.
pub open spec fn spec_select_unit(policy: TierPolicy, total_space: u64) -> MemUnit {
    match policy {
        TierPolicy::Report => if total_space >= 1000000000 {
            MemUnit::GB(total_space as u128)
        } else {
            MemUnit::MB(total_space as u128)
        },
        TierPolicy::Dashboard => if 1000 <= total_space < 1000000 {
            MemUnit::KB(total_space as u128)
        } else if 1000000 <= total_space < 1000000000 {
            MemUnit::MB(total_space as u128)
        } else if 1000000000 <= total_space < 1000000000000 {
            MemUnit::GB(total_space as u128)
        } else if 1000000000000 <= total_space < 1000000000000000 {
            MemUnit::TB(total_space as u128)
        } else if 1000000000000000 <= total_space < 1000000000000000000 {
            MemUnit::PB(total_space as u128)
        } else {
            MemUnit::B(total_space as u128)
        },
    }
}

/// Selects the display unit for a total byte count under a tier policy.
pub fn select_unit(policy: TierPolicy, total_space: u64) -> (r: MemUnit)
    ensures
        r == spec_select_unit(policy, total_space),
{
    match policy {
        TierPolicy::Report => {
            if total_space >= 1000000000 {
                MemUnit::GB(total_space as u128)
            } else {
                MemUnit::MB(total_space as u128)
            }
        },
        TierPolicy::Dashboard => {
            if 1000 <= total_space && total_space < 1000000 {
                MemUnit::KB(total_space as u128)
            } else if 1000000 <= total_space && total_space < 1000000000 {
                MemUnit::MB(total_space as u128)
            } else if 1000000000 <= total_space && total_space < 1000000000000 {
                MemUnit::GB(total_space as u128)
            } else if 1000000000000 <= total_space && total_space < 1000000000000000 {
                MemUnit::TB(total_space as u128)
            } else if 1000000000000000 <= total_space && total_space < 1000000000000000000 {
                MemUnit::PB(total_space as u128)
            } else {
                MemUnit::B(total_space as u128)
            }
        },
    }
}

/// The numeric value of a digit character; non-digits count as zero.
pub open spec fn digit_val(c: char) -> nat {
    if c == '1' {
        1
    } else if c == '2' {
        2
    } else if c == '3' {
        3
    } else if c == '4' {
        4
    } else if c == '5' {
        5
    } else if c == '6' {
        6
    } else if c == '7' {
        7
    } else if c == '8' {
        8
    } else if c == '9' {
        9
    } else {
        0
    }
}

/// The integer a digit string denotes, most significant digit first.
pub open spec fn spec_val(d: Seq<char>) -> nat
    decreases d.len(),
{
    if d.len() == 0 {
        0
    } else {
        spec_val(d.drop_last()) * 10 + digit_val(d.last())
    }
}

/// Whether `c` is one of the two characters grouping may insert.
pub open spec fn is_grouping_char(c: char) -> bool {
    c == ',' || c == ' '
}

/// `s` with every grouping character removed.
pub open spec fn strip_grouping(s: Seq<char>) -> Seq<char>
    decreases s.len(),
{
    if s.len() == 0 {
        s
    } else if is_grouping_char(s[0]) {
        strip_grouping(s.drop_first())
    } else {
        seq![s[0]] + strip_grouping(s.drop_first())
    }
}

/// How often `c` occurs in `s`.
pub open spec fn count_char_in(s: Seq<char>, c: char) -> nat
    decreases s.len(),
{
    if s.len() == 0 {
        0
    } else {
        count_char_in(s.drop_first(), c) + if s[0] == c {
            1nat
        } else {
            0nat
        }
    }
}

/// The digit string of `n` denotes `n`.
pub proof fn lemma_val_of_digits(n: nat)
    ensures
        spec_val(spec_digits(n)) == n,
    decreases n,
{
    reveal_with_fuel(spec_val, 2);
    if n < 10 {
        assert(spec_digits(n).drop_last() =~= Seq::<char>::empty());
        assert(digit_val(digit_char(n)) == n);
    } else {
        lemma_val_of_digits(n / 10);
        assert(spec_digits(n).drop_last() =~= spec_digits(n / 10));
    }
}

/// Stripping distributes over concatenation.
pub proof fn lemma_strip_concat(a: Seq<char>, b: Seq<char>)
    ensures
        strip_grouping(a + b) == strip_grouping(a) + strip_grouping(b),
    decreases a.len(),
{
    if a.len() == 0 {
        assert(a + b =~= b);
        assert(strip_grouping(a) + strip_grouping(b) =~= strip_grouping(b));
    } else {
        assert((a + b).drop_first() =~= a.drop_first() + b);
        lemma_strip_concat(a.drop_first(), b);
        if is_grouping_char(a[0]) {
            assert(strip_grouping(a + b) =~= strip_grouping(a) + strip_grouping(b));
        } else {
            assert(strip_grouping(a + b) =~= strip_grouping(a) + strip_grouping(b));
        }
    }
}

/// A string without grouping characters is unchanged by stripping.
pub proof fn lemma_strip_plain(s: Seq<char>)
    requires
        forall|i: int| 0 <= i < s.len() ==> !is_grouping_char(#[trigger] s[i]),
    ensures
        strip_grouping(s) == s,
    decreases s.len(),
{
    if s.len() > 0 {
        lemma_strip_plain(s.drop_first());
        assert(seq![s[0]] + s.drop_first() =~= s);
    }
}

/// Counting occurrences distributes over concatenation.
pub proof fn lemma_count_concat(a: Seq<char>, b: Seq<char>, c: char)
    ensures
        count_char_in(a + b, c) == count_char_in(a, c) + count_char_in(b, c),
    decreases a.len(),
{
    if a.len() == 0 {
        assert(a + b =~= b);
    } else {
        assert((a + b).drop_first() =~= a.drop_first() + b);
        lemma_count_concat(a.drop_first(), b, c);
    }
}

/// A string of digit characters holds no grouping character.
pub proof fn lemma_digit_chars_not_grouping(s: Seq<char>)
    requires
        forall|i: int| 0 <= i < s.len() ==> is_digit_char(#[trigger] s[i]),
    ensures
        forall|i: int| 0 <= i < s.len() ==> !is_grouping_char(#[trigger] s[i]),
        count_char_in(s, ',') == 0,
        count_char_in(s, ' ') == 0,
    decreases s.len(),
{
    if s.len() > 0 {
        lemma_digit_chars_not_grouping(s.drop_first());
    }
}

proof fn lemma_count_singleton(c: char, x: char)
    ensures
        count_char_in(seq![c], x) == (if c == x {
            1nat
        } else {
            0nat
        }),
{
    reveal_with_fuel(count_char_in, 2);
    assert(seq![c].drop_first() =~= Seq::<char>::empty());
}

proof fn lemma_strip_singleton_grouping(c: char)
    requires
        is_grouping_char(c),
    ensures
        strip_grouping(seq![c]) == Seq::<char>::empty(),
{
    reveal_with_fuel(strip_grouping, 2);
    assert(seq![c].drop_first() =~= Seq::<char>::empty());
    assert(strip_grouping(seq![c]) =~= Seq::<char>::empty());
}

proof fn lemma_subrange_digits(d: Seq<char>, a: int, b: int)
    requires
        forall|i: int| 0 <= i < d.len() ==> is_digit_char(#[trigger] d[i]),
        0 <= a <= b <= d.len(),
    ensures
        forall|i: int|
            0 <= i < d.subrange(a, b).len() ==> is_digit_char(#[trigger] d.subrange(a, b)[i]),
{
    assert forall|i: int| 0 <= i < d.subrange(a, b).len() implies is_digit_char(
        #[trigger] d.subrange(a, b)[i],
    ) by {
        assert(d.subrange(a, b)[i] == d[a + i]);
    }
}

proof fn lemma_strip_one_comma(d: Seq<char>, k: int)
    requires
        forall|i: int| 0 <= i < d.len() ==> is_digit_char(#[trigger] d[i]),
        0 < k < d.len(),
    ensures
        strip_grouping(d.subrange(0, k) + seq![','] + d.subrange(k, d.len() as int)) == d,
{
    let a = d.subrange(0, k);
    let b = d.subrange(k, d.len() as int);
    lemma_subrange_digits(d, 0, k);
    lemma_subrange_digits(d, k, d.len() as int);
    lemma_digit_chars_not_grouping(a);
    lemma_digit_chars_not_grouping(b);
    lemma_strip_plain(a);
    lemma_strip_plain(b);
    lemma_strip_singleton_grouping(',');
    lemma_strip_concat(a + seq![','], b);
    lemma_strip_concat(a, seq![',']);
    assert(strip_grouping(a + seq![','] + b) =~= d);
}

proof fn lemma_strip_two_commas(d: Seq<char>, k1: int, k2: int)
    requires
        forall|i: int| 0 <= i < d.len() ==> is_digit_char(#[trigger] d[i]),
        0 < k1 < k2 < d.len(),
    ensures
        strip_grouping(
            d.subrange(0, k1) + seq![','] + d.subrange(k1, k2) + seq![','] + d.subrange(
                k2,
                d.len() as int,
            ),
        ) == d,
{
    let a = d.subrange(0, k1);
    let b = d.subrange(k1, k2);
    let c = d.subrange(k2, d.len() as int);
    lemma_subrange_digits(d, 0, k1);
    lemma_subrange_digits(d, k1, k2);
    lemma_subrange_digits(d, k2, d.len() as int);
    lemma_digit_chars_not_grouping(a);
    lemma_digit_chars_not_grouping(b);
    lemma_digit_chars_not_grouping(c);
    lemma_strip_plain(a);
    lemma_strip_plain(b);
    lemma_strip_plain(c);
    lemma_strip_singleton_grouping(',');
    lemma_strip_concat(a + seq![','] + b + seq![','], c);
    lemma_strip_concat(a + seq![','] + b, seq![',']);
    lemma_strip_concat(a + seq![','], b);
    lemma_strip_concat(a, seq![',']);
    assert(strip_grouping(a + seq![','] + b + seq![','] + c) =~= d);
}

/// Round trip: removing the grouping characters from a grouped rendering
/// and reading the remaining digits back as an integer recovers the value
/// that was rendered, for every value.
pub proof fn lemma_round_trip(n: nat)
    ensures
        spec_val(strip_grouping(spec_grouped(n))) == n,
{
    let d = spec_digits(n);
    lemma_digits_are_digit_chars(n);
    lemma_digit_chars_not_grouping(d);
    lemma_digits_len(n);
    lemma_val_of_digits(n);
    if n <= 9 || (100 <= n && n <= 999) || n >= 1000000000 {
        lemma_strip_plain(d);
    } else if n <= 99 {
        lemma_strip_concat(d, seq![' ']);
        lemma_strip_plain(d);
        lemma_strip_singleton_grouping(' ');
        assert(strip_grouping(spec_grouped(n)) =~= d);
    } else if n <= 999999 {
        let k: int = if n <= 9999 {
            1
        } else if n <= 99999 {
            2
        } else {
            3
        };
        lemma_strip_one_comma(d, k);
        assert(d.subrange(k, d.len() as int) =~= d.subrange(k, k + 3));
    } else {
        let k: int = if n <= 9999999 {
            1
        } else if n <= 99999999 {
            2
        } else {
            3
        };
        lemma_strip_two_commas(d, k, k + 3);
        assert(d.subrange(k + 3, d.len() as int) =~= d.subrange(k + 3, k + 6));
    }
}

/// The number of separators the grouped rendering holds, as a function of
/// the digit count alone: for up to nine digits there are `(digits - 1) / 3`
/// commas, and a trailing space exactly for two-digit values; from ten
/// digits on the rendering is the plain digit string.
pub proof fn lemma_grouping_separators(n: nat)
    ensures
        spec_digits(n).len() <= 9 ==> count_char_in(spec_grouped(n), ',') == (spec_digits(n).len()
            - 1) / 3,
        spec_digits(n).len() >= 10 ==> count_char_in(spec_grouped(n), ',') == 0,
        count_char_in(spec_grouped(n), ' ') == (if spec_digits(n).len() == 2 {
            1nat
        } else {
            0nat
        }),
{
    let d = spec_digits(n);
    lemma_digits_are_digit_chars(n);
    lemma_digit_chars_not_grouping(d);
    lemma_digits_len(n);
    lemma_count_singleton(',', ',');
    lemma_count_singleton(',', ' ');
    lemma_count_singleton(' ', ',');
    lemma_count_singleton(' ', ' ');
    if n <= 9 || (100 <= n && n <= 999) || n >= 1000000000 {
    } else if n <= 99 {
        lemma_count_concat(d, seq![' '], ',');
        lemma_count_concat(d, seq![' '], ' ');
    } else {
        let k: int = if n <= 9999 || (1000000 <= n && n <= 9999999) {
            1
        } else if n <= 99999 || (10000000 <= n && n <= 99999999) {
            2
        } else {
            3
        };
        let a = d.subrange(0, k);
        lemma_subrange_digits(d, 0, k);
        lemma_digit_chars_not_grouping(a);
        if n <= 999999 {
            let b = d.subrange(k, d.len() as int);
            lemma_subrange_digits(d, k, d.len() as int);
            lemma_digit_chars_not_grouping(b);
            lemma_count_concat(a + seq![','], b, ',');
            lemma_count_concat(a, seq![','], ',');
            lemma_count_concat(a + seq![','], b, ' ');
            lemma_count_concat(a, seq![','], ' ');
            assert(d.subrange(k, k + 3) =~= b);
        } else {
            let b = d.subrange(k, k + 3);
            let c = d.subrange(k + 3, d.len() as int);
            lemma_subrange_digits(d, k, k + 3);
            lemma_subrange_digits(d, k + 3, d.len() as int);
            lemma_digit_chars_not_grouping(b);
            lemma_digit_chars_not_grouping(c);
            lemma_count_concat(a + seq![','] + b + seq![','], c, ',');
            lemma_count_concat(a + seq![','] + b, seq![','], ',');
            lemma_count_concat(a + seq![','], b, ',');
            lemma_count_concat(a, seq![','], ',');
            lemma_count_concat(a + seq![','] + b + seq![','], c, ' ');
            lemma_count_concat(a + seq![','] + b, seq![','], ' ');
            lemma_count_concat(a + seq![','], b, ' ');
            lemma_count_concat(a, seq![','], ' ');
            assert(d.subrange(k + 3, k + 6) =~= c);
        }
    }
}

/// For digit counts up to nine that are no multiple of three, the comma
/// count equals the digit count divided by three. (At a multiple of three
/// the table places one comma fewer: 100 has three digits and none.)
pub proof fn lemma_separator_count(n: nat)
    requires
        spec_digits(n).len() <= 9,
        spec_digits(n).len() % 3 != 0,
    ensures
        count_char_in(spec_grouped(n), ',') == spec_digits(n).len() / 3,
{
    lemma_grouping_separators(n);
}

/// The grouped rendering's length is a function of the digit count alone:
/// digits plus commas, plus the trailing space of the two-digit layout.
pub proof fn lemma_grouped_len(n: nat)
    ensures
        spec_digits(n).len() <= 9 ==> spec_grouped(n).len() == spec_digits(n).len() + (
        spec_digits(n).len() - 1) / 3 + (if spec_digits(n).len() == 2 {
            1int
        } else {
            0int
        }),
        spec_digits(n).len() >= 10 ==> spec_grouped(n).len() == spec_digits(n).len(),
{
    lemma_digits_len(n);
}

/// Appending characters to a digit string never lowers its value.
pub proof fn lemma_val_append_ge(u: Seq<char>, w: Seq<char>)
    ensures
        spec_val(u + w) >= spec_val(u),
    decreases w.len(),
{
    if w.len() == 0 {
        assert(u + w =~= u);
    } else {
        lemma_val_append_ge(u, w.drop_last());
        assert((u + w).drop_last() =~= u + w.drop_last());
        assert(spec_val(u + w) == spec_val(u + w.drop_last()) * 10 + digit_val((u + w).last()));
    }
}

fn char_digit(c: char) -> (r: Option<u128>)
    ensures
        match r {
            Some(v) => is_digit_char(c) && v as nat == digit_val(c),
            None => !is_digit_char(c),
        },
{
    if c == '0' {
        Some(0)
    } else if c == '1' {
        Some(1)
    } else if c == '2' {
        Some(2)
    } else if c == '3' {
        Some(3)
    } else if c == '4' {
        Some(4)
    } else if c == '5' {
        Some(5)
    } else if c == '6' {
        Some(6)
    } else if c == '7' {
        Some(7)
    } else if c == '8' {
        Some(8)
    } else if c == '9' {
        Some(9)
    } else {
        None
    }
}

/// Reads a grouped rendering back as an integer: grouping characters are
/// skipped, digits accumulate, and anything else (or an empty digit string,
/// or a value past `u128::MAX`) yields `None`.
pub fn parse_grouped(s: &str) -> (r: Option<u128>)
    ensures
        match r {
            Some(v) => (forall|i: int|
                0 <= i < s@.len() ==> is_digit_char(#[trigger] s@[i]) || is_grouping_char(s@[i]))
                && strip_grouping(s@).len() > 0 && v as nat == spec_val(strip_grouping(s@)),
            None => !(forall|i: int|
                0 <= i < s@.len() ==> is_digit_char(#[trigger] s@[i]) || is_grouping_char(s@[i]))
                || strip_grouping(s@).len() == 0 || spec_val(strip_grouping(s@)) > u128::MAX,
        },
{
    let n: usize = s.unicode_len();
    let mut acc: u128 = 0;
    let mut seen: bool = false;
    let mut i: usize = 0;
    while i < n
        invariant
            i <= n,
            n == s@.len(),
            forall|j: int|
                0 <= j < i ==> is_digit_char(#[trigger] s@[j]) || is_grouping_char(s@[j]),
            acc as nat == spec_val(strip_grouping(s@.take(i as int))),
            seen == (strip_grouping(s@.take(i as int)).len() > 0),
        decreases n - i,
    {
        let c: char = s.get_char(i);
        proof {
            assert(s@.take(i + 1) =~= s@.take(i as int) + seq![s@[i as int]]);
            lemma_strip_concat(s@.take(i as int), seq![c]);
        }
        match char_digit(c) {
            Some(d) => {
                proof {
                    reveal_with_fuel(strip_grouping, 2);
                    assert(seq![c].drop_first() =~= Seq::<char>::empty());
                    assert(strip_grouping(seq![c]) =~= seq![c]);
                    let t0 = strip_grouping(s@.take(i as int));
                    assert((t0 + seq![c]).drop_last() =~= t0);
                    assert(spec_val(t0 + seq![c]) == spec_val(t0) * 10 + digit_val(c));
                }
                let stepped: Option<u128> = acc.checked_mul(10);
                let next: Option<u128> = match stepped {
                    Some(p) => p.checked_add(d),
                    None => None,
                };
                match next {
                    Some(v) => {
                        acc = v;
                        seen = true;
                    },
                    None => {
                        proof {
                            let t1 = strip_grouping(s@.take(i + 1));
                            assert(spec_val(t1) > u128::MAX);
                            assert(s@ =~= s@.take(i + 1) + s@.skip(i + 1));
                            lemma_strip_concat(s@.take(i + 1), s@.skip(i + 1));
                            lemma_val_append_ge(t1, strip_grouping(s@.skip(i + 1)));
                        }
                        return None;
                    },
                }
            },
            None => {
                if c != ',' && c != ' ' {
                    return None;
                }
                proof {
                    lemma_strip_singleton_grouping(c);
                    assert(strip_grouping(s@.take(i + 1)) =~= strip_grouping(s@.take(i as int)));
                }
            },
        }
        i = i + 1;
    }
    proof {
        assert(s@.take(n as int) =~= s@);
    }
    if seen {
        Some(acc)
    } else {
        None
    }
}

/// Rendering is a pure function of the tagged value: two display strings of
/// the same value are equal character for character.
pub proof fn lemma_display_deterministic(u: MemUnit, r1: Seq<char>, r2: Seq<char>)
    requires
        r1 == u.spec_display(),
        r2 == u.spec_display(),
    ensures
        r1 == r2,
{
}

} // verus!
