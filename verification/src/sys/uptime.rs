//! Rendering of an uptime, given in whole seconds, as an English phrase
//! such as "27 years, 4 months, 16 days, 11 hours, 45 minutes, and 36
//! seconds".
//!
//! A year counts 365.25 days (31,557,600 seconds) and a month a twelfth of
//! that (2,630,016 seconds). A unit is mentioned when its value is positive,
//! and an in-between zero unit is kept when flanked by mentioned units the
//! way the conditions below spell out; the word "and" precedes the last
//! unit whenever more than one is mentioned.

use vstd::arithmetic::div_mod::lemma_fundamental_div_mod;
use vstd::prelude::*;
use vstd::string::*;

use crate::format_num::{digits_string, spec_digits};

verus! {

pub const SECONDS_PER_YEAR: u64 = 31557600;

pub const SECONDS_PER_MONTH: u64 = 2630016;

pub const SECONDS_PER_DAY: u64 = 86400;

pub const SECONDS_PER_HOUR: u64 = 3600;

pub const SECONDS_PER_MINUTE: u64 = 60;

/// One mentioned unit: the value, the unit word, and a plural "s" when the
/// value is above one.
pub open spec fn spec_component(v: nat, singular: Seq<char>) -> Seq<char> {
    spec_digits(v) + singular + if v > 1 {
        seq!['s']
    } else {
        Seq::<char>::empty()
    }
}

/// The list of mentioned units for an uptime of `secs` seconds.
pub open spec fn spec_duration_components(secs: nat) -> Seq<Seq<char>> {
    let years = secs / (SECONDS_PER_YEAR as nat);
    let r1 = secs % (SECONDS_PER_YEAR as nat);
    let months = r1 / (SECONDS_PER_MONTH as nat);
    let r2 = r1 % (SECONDS_PER_MONTH as nat);
    let days = r2 / (SECONDS_PER_DAY as nat);
    let r3 = r2 % (SECONDS_PER_DAY as nat);
    let hours = r3 / (SECONDS_PER_HOUR as nat);
    let r4 = r3 % (SECONDS_PER_HOUR as nat);
    let minutes = r4 / (SECONDS_PER_MINUTE as nat);
    let seconds = r4 % (SECONDS_PER_MINUTE as nat);
    (if years > 0 {
        seq![spec_component(years, " year"@)]
    } else {
        Seq::<Seq<char>>::empty()
    }) + (if months > 0 {
        seq![spec_component(months, " month"@)]
    } else {
        Seq::<Seq<char>>::empty()
    }) + (if days > 0 {
        seq![spec_component(days, " day"@)]
    } else {
        Seq::<Seq<char>>::empty()
    }) + (if hours > 0 || (days > 0 && (minutes > 0 || seconds > 0)) {
        seq![spec_component(hours, " hour"@)]
    } else {
        Seq::<Seq<char>>::empty()
    }) + (if minutes > 0 || (hours > 0 && seconds > 0) {
        seq![spec_component(minutes, " minute"@)]
    } else {
        Seq::<Seq<char>>::empty()
    }) + (if seconds > 0 {
        seq![spec_component(seconds, " second"@)]
    } else {
        Seq::<Seq<char>>::empty()
    })
}

/// The pieces joined with ", " between each neighbouring pair.
pub open spec fn spec_join_commas(cs: Seq<Seq<char>>) -> Seq<char>
    decreases cs.len(),
{
    if cs.len() == 0 {
        Seq::<char>::empty()
    } else if cs.len() == 1 {
        cs[0]
    } else {
        spec_join_commas(cs.drop_last()) + seq![',', ' '] + cs.last()
    }
}

/// The full phrase: all pieces joined with ", ", with "and " spliced in
/// front of the last piece when there are at least two.
pub open spec fn spec_format_duration(secs: nat) -> Seq<char> {
    let cs = spec_duration_components(secs);
    if cs.len() <= 1 {
        spec_join_commas(cs)
    } else {
        spec_join_commas(cs.drop_last()) + seq![',', ' '] + "and "@ + cs.last()
    }
}

/// An uptime of at least one second always mentions at least one unit.
pub proof fn lemma_duration_components_nonempty(secs: nat)
    requires
        secs >= 1,
    ensures
        spec_duration_components(secs).len() >= 1,
{
    let years = secs / (SECONDS_PER_YEAR as nat);
    let r1 = secs % (SECONDS_PER_YEAR as nat);
    let months = r1 / (SECONDS_PER_MONTH as nat);
    let r2 = r1 % (SECONDS_PER_MONTH as nat);
    let days = r2 / (SECONDS_PER_DAY as nat);
    let r3 = r2 % (SECONDS_PER_DAY as nat);
    let hours = r3 / (SECONDS_PER_HOUR as nat);
    let r4 = r3 % (SECONDS_PER_HOUR as nat);
    let minutes = r4 / (SECONDS_PER_MINUTE as nat);
    let seconds = r4 % (SECONDS_PER_MINUTE as nat);
    if years == 0 && months == 0 && days == 0 && hours == 0 && minutes == 0 && seconds == 0 {
        lemma_fundamental_div_mod(r4 as int, SECONDS_PER_MINUTE as int);
        lemma_fundamental_div_mod(r3 as int, SECONDS_PER_HOUR as int);
        lemma_fundamental_div_mod(r2 as int, SECONDS_PER_DAY as int);
        lemma_fundamental_div_mod(r1 as int, SECONDS_PER_MONTH as int);
        lemma_fundamental_div_mod(secs as int, SECONDS_PER_YEAR as int);
        assert(false);
    }
}

fn unit_component(v: u64, singular: &str) -> (r: String)
    ensures
        r@ == spec_component(v as nat, singular@),
{
    proof {
        reveal_strlit("s");
    }
    let base = digits_string(v as u128).concat(singular);
    if v > 1 {
        let r = base.concat("s");
        proof {
            assert(r@ =~= spec_component(v as nat, singular@));
        }
        r
    } else {
        proof {
            assert(base@ =~= spec_component(v as nat, singular@));
        }
        base
    }
}

/// The mentioned units of an uptime, each rendered, in display order.
#[verifier::rlimit(50)]
fn duration_components(secs: u64) -> (r: Vec<String>)
    ensures
        r.deep_view() == spec_duration_components(secs as nat),
{
    let years: u64 = secs / SECONDS_PER_YEAR;
    let r1: u64 = secs % SECONDS_PER_YEAR;
    let months: u64 = r1 / SECONDS_PER_MONTH;
    let r2: u64 = r1 % SECONDS_PER_MONTH;
    let days: u64 = r2 / SECONDS_PER_DAY;
    let r3: u64 = r2 % SECONDS_PER_DAY;
    let hours: u64 = r3 / SECONDS_PER_HOUR;
    let r4: u64 = r3 % SECONDS_PER_HOUR;
    let minutes: u64 = r4 / SECONDS_PER_MINUTE;
    let seconds: u64 = r4 % SECONDS_PER_MINUTE;

    let mut comps: Vec<String> = Vec::new();
    if years > 0 {
        comps.push(unit_component(years, " year"));
    }
    if months > 0 {
        comps.push(unit_component(months, " month"));
    }
    if days > 0 {
        comps.push(unit_component(days, " day"));
    }
    if hours > 0 || (days > 0 && (minutes > 0 || seconds > 0)) {
        comps.push(unit_component(hours, " hour"));
    }
    if minutes > 0 || (hours > 0 && seconds > 0) {
        comps.push(unit_component(minutes, " minute"));
    }
    if seconds > 0 {
        comps.push(unit_component(seconds, " second"));
    }
    proof {
        assert(comps.deep_view() =~= spec_duration_components(secs as nat));
    }
    comps
}

/// Renders an uptime of `secs` whole seconds as an English phrase.
pub fn format_duration(secs: u64) -> (r: String)
    requires
        secs >= 1,
    ensures
        r@ == spec_format_duration(secs as nat),
{
    let comps: Vec<String> = duration_components(secs);
    proof {
        lemma_duration_components_nonempty(secs as nat);
    }
    let n: usize = comps.len();
    let mut out: String = String::new();
    out.append(comps[0].as_str());
    proof {
        assert(comps.deep_view().take(1).drop_last() =~= Seq::<Seq<char>>::empty());
        assert(out@ =~= spec_join_commas(comps.deep_view().take(1)));
    }
    let mut k: usize = 1;
    while k < n - 1
        invariant
            1 <= k <= n,
            n >= 2 ==> k <= n - 1,
            n == comps.len(),
            n >= 1,
            out@ == spec_join_commas(comps.deep_view().take(k as int)),
        decreases n - k,
    {
        proof {
            reveal_strlit(", ");
        }
        out.append(", ");
        out.append(comps[k].as_str());
        proof {
            let cs = comps.deep_view();
            assert(cs.take(k + 1).drop_last() =~= cs.take(k as int));
            assert(cs.take(k + 1).last() == cs[k as int]);
            assert(", "@ =~= seq![',', ' ']);
            assert(out@ =~= spec_join_commas(cs.take(k + 1)));
        }
        k = k + 1;
    }
    if n == 1 {
        proof {
            assert(comps.deep_view().take(1) =~= spec_duration_components(secs as nat));
        }
        out
    } else {
        proof {
            reveal_strlit(", and ");
            reveal_strlit(", ");
            reveal_strlit("and ");
        }
        out.append(", and ");
        out.append(comps[n - 1].as_str());
        proof {
            let cs = comps.deep_view();
            assert(cs.take(n - 1) =~= cs.drop_last());
            assert(cs.last() == cs[n - 1]);
            assert(", and "@ =~= seq![',', ' '] + "and "@);
            assert(out@ =~= spec_format_duration(secs as nat));
        }
        out
    }
}

} // verus!
