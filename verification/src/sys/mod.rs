//! Data contracts for collected system facts and the pure logic that
//! shapes them. Reading `/proc` files, calling the libc interfaces and
//! listing processes stay with the caller; the parsers here take the file
//! contents as plain strings.

pub mod disks;
pub mod os_release;
pub mod process;
pub mod uptime;

use vstd::prelude::*;
use vstd::string::*;

use crate::text::{
    after_last_char, find_after_last_char, find_char_from, find_non_space_from, find_space_from,
    first_char_from, first_non_space_from, first_space_from, lemma_after_last_char,
    lemma_first_char_from, lemma_first_non_space_from, lemma_first_space_from, lemma_split_step,
    matches_at, parse_decimal_trunc, parse_digits_value, replace_str, spec_decimal_int,
    spec_decimal_ok, spec_replace, spec_split, spec_trim, starts_with, str_eq, trim,
};
use crate::format_num::{is_digit_char, spec_val};

verus! {

/// System memory amounts, in the kilobyte units of `/proc/meminfo`.
#[derive(Clone, Copy, Debug, PartialEq, Eq, Structural)]
pub struct MemInfo {
    /// Total physical memory.
    pub total: u64,
    pub free: u64,
    pub cached: u64,
    pub buffers: u64,
    pub sreclaimable: u64,
    pub swap_total: u64,
    pub swap_free: u64,
}

/// Identity and core counts of the processor.
#[derive(Clone, Debug, Default, PartialEq)]
pub struct CpuInfo {
    pub speed: u64,
    pub physical_cores: u64,
    pub logical_cores: u64,
    pub name: String,
}

/// What can go wrong while gathering or digesting system facts.
#[derive(Clone, Copy, Debug, PartialEq, Eq, Structural)]
pub enum Error {
    UnsupportedSystem,
    ExecFailed,
    IO,
    SystemTime,
    General,
    Unknown,
}

impl Error {
    /// A short fixed description of the error kind.
    pub fn description(&self) -> (r: &'static str)
        ensures
            r@ == self.spec_description(),
    {
        match self {
            Error::UnsupportedSystem => "unsupported system",
            Error::ExecFailed => "execution failed",
            Error::IO => "io error",
            Error::SystemTime => "system time",
            Error::General => "general error",
            Error::Unknown => "unknown error",
        }
    }

    /// The description each error kind carries.
    pub open spec fn spec_description(self) -> Seq<char> {
        match self {
            Error::UnsupportedSystem => "unsupported system"@,
            Error::ExecFailed => "execution failed"@,
            Error::IO => "io error"@,
            Error::SystemTime => "system time"@,
            Error::General => "general error"@,
            Error::Unknown => "unknown error"@,
        }
    }
}

/// Start of the first whitespace-separated token of a line.
pub open spec fn line_t1s(l: Seq<char>) -> nat {
    first_non_space_from(l, 0)
}

/// End of the first whitespace-separated token of a line.
pub open spec fn line_t1e(l: Seq<char>) -> nat {
    first_space_from(l, line_t1s(l))
}

/// Start of the second whitespace-separated token of a line.
pub open spec fn line_t2s(l: Seq<char>) -> nat {
    first_non_space_from(l, line_t1e(l))
}

/// End of the second whitespace-separated token of a line.
pub open spec fn line_t2e(l: Seq<char>) -> nat {
    first_space_from(l, line_t2s(l))
}

/// Whether a line has at least two whitespace-separated tokens.
pub open spec fn line_has_two_tokens(l: Seq<char>) -> bool {
    line_t1s(l) < l.len() && line_t2s(l) < l.len()
}

/// The label of a line: its first token, cut at the first colon.
pub open spec fn line_label(l: Seq<char>) -> Seq<char> {
    let c = first_char_from(l, ':', line_t1s(l));
    let e = if c < line_t1e(l) {
        c
    } else {
        line_t1e(l)
    };
    l.subrange(line_t1s(l) as int, e as int)
}

/// The value of a line: its second token read as an unsigned integer, or
/// nothing when the token is not a number that fits.
pub open spec fn line_value(l: Seq<char>) -> Option<u64> {
    let v = l.subrange(line_t2s(l) as int, line_t2e(l) as int);
    if (forall|i: int| 0 <= i < v.len() ==> is_digit_char(#[trigger] v[i])) && spec_val(v)
        <= u64::MAX {
        Some(spec_val(v) as u64)
    } else {
        None
    }
}

/// The value of the last line whose label equals `key`, among lines with
/// two tokens.
pub open spec fn spec_meminfo_get(lines: Seq<Seq<char>>, key: Seq<char>) -> Option<u64>
    decreases lines.len(),
{
    if lines.len() == 0 {
        None
    } else if line_has_two_tokens(lines.last()) && line_label(lines.last()) == key {
        line_value(lines.last())
    } else {
        spec_meminfo_get(lines.drop_last(), key)
    }
}

/// Every line with two tokens carries a readable numeric value.
pub open spec fn spec_meminfo_wellformed(lines: Seq<Seq<char>>) -> bool {
    forall|i: int|
        0 <= i < lines.len() && line_has_two_tokens(#[trigger] lines[i]) ==> line_value(
            lines[i],
        ).is_some()
}

/// Whether a meminfo text yields a complete `MemInfo`.
pub open spec fn spec_meminfo_complete(lines: Seq<Seq<char>>) -> bool {
    &&& spec_meminfo_wellformed(lines)
    &&& spec_meminfo_get(lines, "MemTotal"@).is_some()
    &&& spec_meminfo_get(lines, "MemFree"@).is_some()
    &&& spec_meminfo_get(lines, "Cached"@).is_some()
    &&& spec_meminfo_get(lines, "Buffers"@).is_some()
    &&& spec_meminfo_get(lines, "SReclaimable"@).is_some()
    &&& spec_meminfo_get(lines, "SwapTotal"@).is_some()
    &&& spec_meminfo_get(lines, "SwapFree"@).is_some()
}

proof fn lemma_meminfo_get_step(lines: Seq<Seq<char>>, l: Seq<char>, key: Seq<char>)
    ensures
        spec_meminfo_get(lines.push(l), key) == if line_has_two_tokens(l) && line_label(l)
            == key {
            line_value(l)
        } else {
            spec_meminfo_get(lines, key)
        },
{
    assert(lines.push(l).last() == l);
    assert(lines.push(l).drop_last() =~= lines);
}

/// Running tally of the seven meminfo fields while lines are scanned.
struct MemTally {
    total: Option<u64>,
    free: Option<u64>,
    cached: Option<u64>,
    buffers: Option<u64>,
    sreclaimable: Option<u64>,
    swap_total: Option<u64>,
    swap_free: Option<u64>,
}

spec fn tally_matches(t: MemTally, lines: Seq<Seq<char>>) -> bool {
    &&& t.total == spec_meminfo_get(lines, "MemTotal"@)
    &&& t.free == spec_meminfo_get(lines, "MemFree"@)
    &&& t.cached == spec_meminfo_get(lines, "Cached"@)
    &&& t.buffers == spec_meminfo_get(lines, "Buffers"@)
    &&& t.sreclaimable == spec_meminfo_get(lines, "SReclaimable"@)
    &&& t.swap_total == spec_meminfo_get(lines, "SwapTotal"@)
    &&& t.swap_free == spec_meminfo_get(lines, "SwapFree"@)
}

/// Digests one line into the tally; `false` means the line has two tokens
/// but no readable value.
fn meminfo_line(line: &str, tally: &mut MemTally) -> (ok: bool)
    ensures
        ok == (line_has_two_tokens(line@) ==> line_value(line@).is_some()),
        ok ==> forall|lines: Seq<Seq<char>>|
            tally_matches(*old(tally), lines) ==> tally_matches(
                *final(tally),
                #[trigger] lines.push(line@),
            ),
{
    let n: usize = line.unicode_len();
    let t1s: usize = find_non_space_from(line, 0);
    proof {
        lemma_first_non_space_from(line@, 0);
    }
    if t1s >= n {
        proof {
            assert forall|lines: Seq<Seq<char>>|
                tally_matches(*tally, lines) implies tally_matches(
                *tally,
                #[trigger] lines.push(line@),
            ) by {
                lemma_meminfo_get_step(lines, line@, "MemTotal"@);
                lemma_meminfo_get_step(lines, line@, "MemFree"@);
                lemma_meminfo_get_step(lines, line@, "Cached"@);
                lemma_meminfo_get_step(lines, line@, "Buffers"@);
                lemma_meminfo_get_step(lines, line@, "SReclaimable"@);
                lemma_meminfo_get_step(lines, line@, "SwapTotal"@);
                lemma_meminfo_get_step(lines, line@, "SwapFree"@);
            }
        }
        return true;
    }
    let t1e: usize = find_space_from(line, t1s);
    proof {
        lemma_first_space_from(line@, t1s as nat);
    }
    let t2s: usize = find_non_space_from(line, t1e);
    proof {
        lemma_first_non_space_from(line@, t1e as nat);
    }
    if t2s >= n {
        proof {
            assert forall|lines: Seq<Seq<char>>|
                tally_matches(*tally, lines) implies tally_matches(
                *tally,
                #[trigger] lines.push(line@),
            ) by {
                lemma_meminfo_get_step(lines, line@, "MemTotal"@);
                lemma_meminfo_get_step(lines, line@, "MemFree"@);
                lemma_meminfo_get_step(lines, line@, "Cached"@);
                lemma_meminfo_get_step(lines, line@, "Buffers"@);
                lemma_meminfo_get_step(lines, line@, "SReclaimable"@);
                lemma_meminfo_get_step(lines, line@, "SwapTotal"@);
                lemma_meminfo_get_step(lines, line@, "SwapFree"@);
            }
        }
        return true;
    }
    let t2e: usize = find_space_from(line, t2s);
    proof {
        lemma_first_space_from(line@, t2s as nat);
    }
    let c: usize = find_char_from(line, ':', t1s);
    proof {
        lemma_first_char_from(line@, ':', t1s as nat);
    }
    let e: usize = if c < t1e {
        c
    } else {
        t1e
    };
    let label: &str = line.substring_char(t1s, e);
    let ghost v = line@.subrange(line_t2s(line@) as int, line_t2e(line@) as int);
    proof {
        assert forall|k: int| 0 <= k < v.len() implies v[k] == line@[t2s + k] by {}
    }
    let value: u64 = match parse_digits_value(line, t2s, t2e) {
        Some(v) => v,
        None => {
            proof {
                if (forall|k: int| 0 <= k < v.len() ==> is_digit_char(#[trigger] v[k])) && spec_val(
                    v,
                ) <= u64::MAX {
                    assert forall|ii: int| t2s <= ii < t2e implies is_digit_char(
                        #[trigger] line@[ii],
                    ) by {
                        assert(v[ii - t2s] == line@[ii]);
                    }
                    assert(false);
                }
                assert(line_value(line@).is_none());
            }
            return false;
        },
    };
    proof {
        assert forall|ii: int| 0 <= ii < v.len() implies is_digit_char(#[trigger] v[ii]) by {
            assert(v[ii] == line@[t2s + ii]);
        }
        assert(line_value(line@) == Some(value));
    }
    if str_eq(label, "MemTotal") {
        tally.total = Some(value);
    } else if str_eq(label, "MemFree") {
        tally.free = Some(value);
    } else if str_eq(label, "Cached") {
        tally.cached = Some(value);
    } else if str_eq(label, "Buffers") {
        tally.buffers = Some(value);
    } else if str_eq(label, "SReclaimable") {
        tally.sreclaimable = Some(value);
    } else if str_eq(label, "SwapTotal") {
        tally.swap_total = Some(value);
    } else if str_eq(label, "SwapFree") {
        tally.swap_free = Some(value);
    }
    proof {
        reveal_strlit("MemTotal");
        reveal_strlit("MemFree");
        reveal_strlit("Cached");
        reveal_strlit("Buffers");
        reveal_strlit("SReclaimable");
        reveal_strlit("SwapTotal");
        reveal_strlit("SwapFree");
        assert("MemTotal"@.len() == 8);
        assert("MemFree"@.len() == 7);
        assert("Cached"@.len() == 6);
        assert("Buffers"@.len() == 7);
        assert("SReclaimable"@.len() == 12);
        assert("SwapTotal"@.len() == 9);
        assert("SwapFree"@.len() == 8);
        assert("MemTotal"@[0] == 'M' && "SwapFree"@[0] == 'S');
        assert("MemFree"@[0] == 'M' && "Buffers"@[0] == 'B');
        assert forall|lines: Seq<Seq<char>>|
            tally_matches(*old(tally), lines) implies tally_matches(
            *tally,
            #[trigger] lines.push(line@),
        ) by {
            lemma_meminfo_get_step(lines, line@, "MemTotal"@);
            lemma_meminfo_get_step(lines, line@, "MemFree"@);
            lemma_meminfo_get_step(lines, line@, "Cached"@);
            lemma_meminfo_get_step(lines, line@, "Buffers"@);
            lemma_meminfo_get_step(lines, line@, "SReclaimable"@);
            lemma_meminfo_get_step(lines, line@, "SwapTotal"@);
            lemma_meminfo_get_step(lines, line@, "SwapFree"@);
        }
    }
    true
}

/// Reads the seven memory figures out of a `/proc/meminfo` text: each
/// labelled line carries a number, and the last line per label wins.
/// Yields `Error::Unknown` when a two-token line has an unreadable value
/// or one of the seven labels is missing.
pub fn parse_meminfo(s: &str) -> (r: Result<MemInfo, Error>)
    requires
        s@.len() < usize::MAX,
    ensures
        match r {
            Ok(m) => spec_meminfo_complete(spec_split(s@, '\n')) && Some(m.total)
                == spec_meminfo_get(spec_split(s@, '\n'), "MemTotal"@) && Some(m.free)
                == spec_meminfo_get(spec_split(s@, '\n'), "MemFree"@) && Some(m.cached)
                == spec_meminfo_get(spec_split(s@, '\n'), "Cached"@) && Some(m.buffers)
                == spec_meminfo_get(spec_split(s@, '\n'), "Buffers"@) && Some(m.sreclaimable)
                == spec_meminfo_get(spec_split(s@, '\n'), "SReclaimable"@) && Some(m.swap_total)
                == spec_meminfo_get(spec_split(s@, '\n'), "SwapTotal"@) && Some(m.swap_free)
                == spec_meminfo_get(spec_split(s@, '\n'), "SwapFree"@),
            Err(e) => e == Error::Unknown && !spec_meminfo_complete(spec_split(s@, '\n')),
        },
{
    let ghost all_lines = spec_split(s@, '\n');
    let n: usize = s.unicode_len();
    let mut tally = MemTally {
        total: None,
        free: None,
        cached: None,
        buffers: None,
        sreclaimable: None,
        swap_total: None,
        swap_free: None,
    };
    let ghost mut done: Seq<Seq<char>> = Seq::empty();
    let mut i: usize = 0;
    proof {
        assert(s@.skip(0) =~= s@);
        assert(done + spec_split(s@.skip(0), '\n') =~= all_lines);
    }
    while i <= n
        invariant
            i <= n + 1,
            n == s@.len(),
            n < usize::MAX,
            all_lines == spec_split(s@, '\n'),
            i <= n ==> done + spec_split(s@.skip(i as int), '\n') == all_lines,
            i == n + 1 ==> done == all_lines,
            spec_meminfo_wellformed(done),
            tally_matches(tally, done),
        decreases n + 1 - i,
    {
        let j: usize = find_char_from(s, '\n', i);
        proof {
            lemma_first_char_from(s@, '\n', i as nat);
        }
        let line: &str = s.substring_char(i, j);
        let ghost pre_done = done;
        let ok: bool = meminfo_line(line, &mut tally);
        proof {
            lemma_split_step(s@, i as nat, j as nat, '\n');
            done = done.push(line@);
        }
        if !ok {
            proof {
                let bad = pre_done.len() as int;
                assert(all_lines[bad] == line@);
                assert(line_has_two_tokens(all_lines[bad]));
                assert(line_value(all_lines[bad]).is_none());
                assert(!spec_meminfo_wellformed(all_lines));
            }
            return Err(Error::Unknown);
        }
        proof {
            assert forall|k: int|
                0 <= k < done.len() && line_has_two_tokens(#[trigger] done[k]) implies line_value(
                done[k],
            ).is_some() by {
                if k < pre_done.len() {
                    assert(done[k] == pre_done[k]);
                }
            }
        }
        i = j + 1;
        proof {
            if i <= n {
                assert(done + spec_split(s@.skip(i as int), '\n') =~= all_lines);
            } else {
                assert(done =~= all_lines);
            }
        }
    }
    let (t, f, c2, b, sr, st, sf) = (
        tally.total,
        tally.free,
        tally.cached,
        tally.buffers,
        tally.sreclaimable,
        tally.swap_total,
        tally.swap_free,
    );
    match (t, f, c2, b, sr, st, sf) {
        (Some(total), Some(free), Some(cached), Some(buffers), Some(sreclaimable), Some(
            swap_total,
        ), Some(swap_free)) => Ok(
            MemInfo { total, free, cached, buffers, sreclaimable, swap_total, swap_free },
        ),
        _ => Err(Error::Unknown),
    }
}

/// A string with one trailing newline removed, when it ends with one.
pub open spec fn spec_chomp(s: Seq<char>) -> Seq<char> {
    if s.len() > 0 && s.last() == '\n' {
        s.drop_last()
    } else {
        s
    }
}

/// Removes one trailing newline, as the kernel version file carries.
pub fn strip_trailing_newline(s: &str) -> (r: &str)
    ensures
        r@ == spec_chomp(s@),
{
    let n: usize = s.unicode_len();
    if n > 0 && s.get_char(n - 1) == '\n' {
        proof {
            assert(s@.subrange(0, n - 1) =~= s@.drop_last());
        }
        s.substring_char(0, n - 1)
    } else {
        s
    }
}

/// The index of the first zero byte, or the length when there is none.
pub open spec fn first_nul(b: Seq<u8>, i: nat) -> nat
    decreases b.len() - i,
    when i <= b.len()
{
    if i >= b.len() {
        b.len()
    } else if b[i as int] == 0u8 {
        i
    } else {
        first_nul(b, i + 1)
    }
}

/// Cuts a byte buffer at its first zero byte, as a C string read into a
/// fixed buffer must be.
pub fn truncate_at_nul(b: &Vec<u8>) -> (r: Vec<u8>)
    ensures
        r@ == b@.take(first_nul(b@, 0) as int),
{
    let n: usize = b.len();
    let mut out: Vec<u8> = Vec::new();
    let mut i: usize = 0;
    while i < n
        invariant
            i <= n,
            n == b@.len(),
            first_nul(b@, 0) == first_nul(b@, i as nat),
            out@ == b@.take(i as int),
        decreases n - i,
    {
        let c: u8 = b[i];
        if c == 0 {
            proof {
                assert(out@ =~= b@.take(first_nul(b@, 0) as int));
            }
            return out;
        }
        out.push(c);
        proof {
            assert(out@ =~= b@.take(i + 1));
        }
        i = i + 1;
    }
    proof {
        assert(out@ =~= b@.take(first_nul(b@, 0) as int));
    }
    out
}

/// The first line that starts with `p`, scanning top to bottom.
pub open spec fn spec_first_line_with(lines: Seq<Seq<char>>, p: Seq<char>) -> Option<Seq<char>>
    decreases lines.len(),
{
    if lines.len() == 0 {
        None
    } else if matches_at(lines[0], p, 0) {
        Some(lines[0])
    } else {
        spec_first_line_with(lines.drop_first(), p)
    }
}

proof fn lemma_first_line_with_push(lines: Seq<Seq<char>>, l: Seq<char>, p: Seq<char>)
    ensures
        spec_first_line_with(lines.push(l), p) == match spec_first_line_with(lines, p) {
            Some(x) => Some(x),
            None => if matches_at(l, p, 0) {
                Some(l)
            } else {
                None::<Seq<char>>
            },
        },
    decreases lines.len(),
{
    if lines.len() == 0 {
        reveal_with_fuel(spec_first_line_with, 2);
        assert(lines.push(l)[0] == l);
        assert(lines.push(l).drop_first() =~~= Seq::<Seq<char>>::empty());
    } else {
        assert(lines.push(l)[0] == lines[0]);
        assert(lines.push(l).drop_first() =~~= lines.drop_first().push(l));
        lemma_first_line_with_push(lines.drop_first(), l, p);
    }
}

/// The text of a line after its last colon; the whole line without one.
pub open spec fn spec_after_colon(l: Seq<char>) -> Seq<char> {
    l.skip(after_last_char(l, ':') as int)
}

/// The numeric reading of a `/proc/cpuinfo` line: the text after the last
/// colon, trimmed, read as a plain decimal number truncated to its
/// whole-number part.
pub open spec fn spec_cpu_value(l: Seq<char>) -> Option<u64> {
    let t = spec_trim(spec_after_colon(l));
    if spec_decimal_ok(t) && spec_decimal_int(t) <= u64::MAX {
        Some(spec_decimal_int(t) as u64)
    } else {
        None
    }
}

/// Reads the number a `/proc/cpuinfo` line carries after its colon.
pub fn cpu_line_value(l: &str) -> (r: Option<u64>)
    ensures
        r == spec_cpu_value(l@),
{
    let n: usize = l.unicode_len();
    let start: usize = find_after_last_char(l, ':');
    proof {
        lemma_after_last_char(l@, ':');
    }
    let tail: &str = l.substring_char(start, n);
    let t: &str = trim(tail);
    parse_decimal_trunc(t)
}

/// The brand string cleanup applied to a processor model name: marketing
/// and packaging noise is removed, and "Core2" gains its space back.
pub open spec fn spec_cpu_parse(s: Seq<char>) -> Seq<char> {
    let s1 = spec_replace(s, "(TM)"@, ""@);
    let s2 = spec_replace(s1, "(tm)"@, ""@);
    let s3 = spec_replace(s2, "(R)"@, ""@);
    let s4 = spec_replace(s3, "(r)"@, ""@);
    let s5 = spec_replace(s4, "CPU"@, ""@);
    let s6 = spec_replace(s5, "Processor"@, ""@);
    let s7 = spec_replace(s6, "Dual-Core"@, ""@);
    let s8 = spec_replace(s7, "Quad-Core"@, ""@);
    let s9 = spec_replace(s8, "Six-Core"@, ""@);
    let s10 = spec_replace(s9, "Eight-Core"@, ""@);
    let s11 = spec_replace(s10, "Compute Cores"@, ""@);
    let s12 = spec_replace(s11, "AuthenticAMD"@, ""@);
    let s13 = spec_replace(s12, "with Radeon"@, ""@);
    let s14 = spec_replace(s13, "Graphics"@, ""@);
    let s15 = spec_replace(s14, "altivec supported"@, ""@);
    let s16 = spec_replace(s15, "FPU"@, ""@);
    let s17 = spec_replace(s16, "Chip Revision"@, ""@);
    let s18 = spec_replace(s17, "Technologies, Inc"@, ""@);
    spec_replace(s18, "Core2"@, "Core 2"@)
}

/// Cleans a processor model name of marketing and packaging noise.
pub fn cpu_parse(s: &str) -> (r: String)
    ensures
        r@ == spec_cpu_parse(s@),
{
    proof {
        reveal_strlit("(TM)");
        reveal_strlit("(tm)");
        reveal_strlit("(R)");
        reveal_strlit("(r)");
        reveal_strlit("CPU");
        reveal_strlit("Processor");
        reveal_strlit("Dual-Core");
        reveal_strlit("Quad-Core");
        reveal_strlit("Six-Core");
        reveal_strlit("Eight-Core");
        reveal_strlit("Compute Cores");
        reveal_strlit("AuthenticAMD");
        reveal_strlit("with Radeon");
        reveal_strlit("Graphics");
        reveal_strlit("altivec supported");
        reveal_strlit("FPU");
        reveal_strlit("Chip Revision");
        reveal_strlit("Technologies, Inc");
        reveal_strlit("Core2");
    }
    let s1 = replace_str(s, "(TM)", "");
    let s2 = replace_str(s1.as_str(), "(tm)", "");
    let s3 = replace_str(s2.as_str(), "(R)", "");
    let s4 = replace_str(s3.as_str(), "(r)", "");
    let s5 = replace_str(s4.as_str(), "CPU", "");
    let s6 = replace_str(s5.as_str(), "Processor", "");
    let s7 = replace_str(s6.as_str(), "Dual-Core", "");
    let s8 = replace_str(s7.as_str(), "Quad-Core", "");
    let s9 = replace_str(s8.as_str(), "Six-Core", "");
    let s10 = replace_str(s9.as_str(), "Eight-Core", "");
    let s11 = replace_str(s10.as_str(), "Compute Cores", "");
    let s12 = replace_str(s11.as_str(), "AuthenticAMD", "");
    let s13 = replace_str(s12.as_str(), "with Radeon", "");
    let s14 = replace_str(s13.as_str(), "Graphics", "");
    let s15 = replace_str(s14.as_str(), "altivec supported", "");
    let s16 = replace_str(s15.as_str(), "FPU", "");
    let s17 = replace_str(s16.as_str(), "Chip Revision", "");
    let s18 = replace_str(s17.as_str(), "Technologies, Inc", "");
    replace_str(s18.as_str(), "Core2", "Core 2")
}

/// The model name a `/proc/cpuinfo` line carries: the text after the last
/// colon, cut at the first `@`, trimmed and cleaned up.
pub open spec fn spec_cpu_name(l: Seq<char>) -> Seq<char> {
    let t = spec_after_colon(l);
    spec_cpu_parse(spec_trim(t.take(first_char_from(t, '@', 0) as int)))
}

/// Reads the cleaned model name out of a `/proc/cpuinfo` line.
pub fn cpu_line_name(l: &str) -> (r: String)
    ensures
        r@ == spec_cpu_name(l@),
{
    let n: usize = l.unicode_len();
    let start: usize = find_after_last_char(l, ':');
    proof {
        lemma_after_last_char(l@, ':');
    }
    let tail: &str = l.substring_char(start, n);
    let cut_at: usize = find_char_from(tail, '@', 0);
    proof {
        lemma_first_char_from(tail@, '@', 0);
        assert(tail@.subrange(0, cut_at as int) =~= tail@.take(cut_at as int));
    }
    let cut: &str = tail.substring_char(0, cut_at);
    cpu_parse(trim(cut))
}

/// The line the processor speed is read from: the first "cpu MHz" line,
/// or failing that the first "BogoMIPS" line.
pub open spec fn spec_cpu_speed_line(lines: Seq<Seq<char>>) -> Option<Seq<char>> {
    match spec_first_line_with(lines, "cpu MHz"@) {
        Some(l) => Some(l),
        None => spec_first_line_with(lines, "BogoMIPS"@),
    }
}

/// Whether a cpuinfo text yields a complete `CpuInfo`.
pub open spec fn spec_cpuinfo_complete(lines: Seq<Seq<char>>) -> bool {
    &&& spec_cpu_speed_line(lines).is_some()
    &&& spec_cpu_value(spec_cpu_speed_line(lines).unwrap()).is_some()
    &&& spec_first_line_with(lines, "cpu cores"@).is_some()
    &&& spec_cpu_value(spec_first_line_with(lines, "cpu cores"@).unwrap()).is_some()
    &&& spec_first_line_with(lines, "siblings"@).is_some()
    &&& spec_cpu_value(spec_first_line_with(lines, "siblings"@).unwrap()).is_some()
    &&& spec_first_line_with(lines, "model name"@).is_some()
}

/// Notes the first line matching `p`: fills `holder` once and then keeps it.
fn note_line(holder: &mut Option<String>, line: &str, p: &str)
    ensures
        final(holder).deep_view() == match old(holder).deep_view() {
            Some(x) => Some(x),
            None => if matches_at(line@, p@, 0) {
                Some(line@)
            } else {
                None::<Seq<char>>
            },
        },
{
    if holder.is_none() && starts_with(line, p) {
        *holder = Some(String::from_str(line));
    }
}

/// Reads speed, core counts and model name out of a `/proc/cpuinfo` text.
/// Each figure comes from the first line with its label; the speed falls
/// back from "cpu MHz" to "BogoMIPS". Yields `Error::Unknown` when a line
/// is missing or its number cannot be read.
pub fn cpu_info_from(s: &str) -> (r: Result<CpuInfo, Error>)
    requires
        s@.len() < usize::MAX,
    ensures
        match r {
            Ok(c) => spec_cpuinfo_complete(spec_split(s@, '\n')) && Some(c.speed)
                == spec_cpu_value(spec_cpu_speed_line(spec_split(s@, '\n')).unwrap()) && Some(
                c.physical_cores,
            ) == spec_cpu_value(spec_first_line_with(spec_split(s@, '\n'), "cpu cores"@).unwrap())
                && Some(c.logical_cores) == spec_cpu_value(
                spec_first_line_with(spec_split(s@, '\n'), "siblings"@).unwrap(),
            ) && c.name@ == spec_cpu_name(
                spec_first_line_with(spec_split(s@, '\n'), "model name"@).unwrap(),
            ),
            Err(e) => e == Error::Unknown && !spec_cpuinfo_complete(spec_split(s@, '\n')),
        },
{
    let ghost all_lines = spec_split(s@, '\n');
    let n: usize = s.unicode_len();
    let mut model: Option<String> = None;
    let mut siblings: Option<String> = None;
    let mut cores: Option<String> = None;
    let mut mhz: Option<String> = None;
    let mut bogo: Option<String> = None;
    let ghost mut done: Seq<Seq<char>> = Seq::empty();
    let mut i: usize = 0;
    proof {
        assert(s@.skip(0) =~= s@);
        assert(done + spec_split(s@.skip(0), '\n') =~= all_lines);
    }
    while i <= n
        invariant
            i <= n + 1,
            n == s@.len(),
            n < usize::MAX,
            all_lines == spec_split(s@, '\n'),
            i <= n ==> done + spec_split(s@.skip(i as int), '\n') == all_lines,
            i == n + 1 ==> done == all_lines,
            model.deep_view() == spec_first_line_with(done, "model name"@),
            siblings.deep_view() == spec_first_line_with(done, "siblings"@),
            cores.deep_view() == spec_first_line_with(done, "cpu cores"@),
            mhz.deep_view() == spec_first_line_with(done, "cpu MHz"@),
            bogo.deep_view() == spec_first_line_with(done, "BogoMIPS"@),
        decreases n + 1 - i,
    {
        let j: usize = find_char_from(s, '\n', i);
        proof {
            lemma_first_char_from(s@, '\n', i as nat);
        }
        let line: &str = s.substring_char(i, j);
        note_line(&mut model, line, "model name");
        note_line(&mut siblings, line, "siblings");
        note_line(&mut cores, line, "cpu cores");
        note_line(&mut mhz, line, "cpu MHz");
        note_line(&mut bogo, line, "BogoMIPS");
        proof {
            lemma_split_step(s@, i as nat, j as nat, '\n');
            lemma_first_line_with_push(done, line@, "model name"@);
            lemma_first_line_with_push(done, line@, "siblings"@);
            lemma_first_line_with_push(done, line@, "cpu cores"@);
            lemma_first_line_with_push(done, line@, "cpu MHz"@);
            lemma_first_line_with_push(done, line@, "BogoMIPS"@);
            done = done.push(line@);
        }
        i = j + 1;
        proof {
            if i <= n {
                assert(done + spec_split(s@.skip(i as int), '\n') =~= all_lines);
            } else {
                assert(done =~= all_lines);
            }
        }
    }
    let speed_line: Option<String> = match mhz {
        Some(l) => Some(l),
        None => bogo,
    };
    let speed: u64 = match speed_line {
        Some(l) => match cpu_line_value(l.as_str()) {
            Some(v) => v,
            None => {
                return Err(Error::Unknown);
            },
        },
        None => {
            return Err(Error::Unknown);
        },
    };
    let physical_cores: u64 = match cores {
        Some(l) => match cpu_line_value(l.as_str()) {
            Some(v) => v,
            None => {
                return Err(Error::Unknown);
            },
        },
        None => {
            return Err(Error::Unknown);
        },
    };
    let logical_cores: u64 = match siblings {
        Some(l) => match cpu_line_value(l.as_str()) {
            Some(v) => v,
            None => {
                return Err(Error::Unknown);
            },
        },
        None => {
            return Err(Error::Unknown);
        },
    };
    let name: String = match model {
        Some(l) => cpu_line_name(l.as_str()),
        None => {
            return Err(Error::Unknown);
        },
    };
    Ok(CpuInfo { speed, physical_cores, logical_cores, name })
}

} // verus!
