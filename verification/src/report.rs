//! Proportional bar segments, volume report lines and layout budgeting.
//!
//! A usage bar of a given character width is split into a filled and an
//! empty segment that always sum to exactly the width: the filled part is
//! the ratio rounded up, the empty part the remainder rounded down. A
//! volume report line pairs a mount point with a right-aligned usage
//! descriptor, padding clamped so a narrow terminal can never underflow.

use vstd::arithmetic::div_mod::{
    lemma_div_is_strictly_smaller, lemma_div_of0, lemma_fundamental_div_mod,
    lemma_fundamental_div_mod_converse_div, lemma_fundamental_div_mod_converse_mod,
    lemma_small_mod,
};
use vstd::arithmetic::mul::lemma_mul_upper_bound;
use vstd::prelude::*;
use vstd::string::*;

use crate::format_num::{
    digits_string, spec_digits, spec_select_unit, select_unit, MemUnit, TierPolicy,
};
use crate::services::systemd::UnitState;
use crate::text::{contains_str, spec_contains_str};

verus! {

/// `a / b` rounded up instead of down.
pub open spec fn spec_ceil_div(a: nat, b: nat) -> nat
    recommends
        b > 0,
{
    a / b + if a % b == 0 {
        0nat
    } else {
        1nat
    }
}

fn ceil_div_u128(a: u128, b: u128) -> (r: u128)
    requires
        b > 0,
    ensures
        r as nat == spec_ceil_div(a as nat, b as nat),
{
    let q: u128 = a / b;
    let rem: u128 = a % b;
    if rem == 0 {
        q
    } else {
        proof {
            assert(a as int % 1int == 0) by (nonlinear_arith);
            lemma_small_mod(0nat, b as nat);
            lemma_div_is_strictly_smaller(a as int, b as int);
        }
        q + 1
    }
}

/// The filled segment of a bar: the used/total ratio of the width, rounded up.
pub open spec fn spec_filled_width(used: u64, total: u64, width: usize) -> nat
    recommends
        total > 0,
{
    spec_ceil_div((used * width) as nat, total as nat)
}

/// The empty segment of a bar: the unused share of the width, rounded down.
pub open spec fn spec_empty_width(used: u64, total: u64, width: usize) -> nat
    recommends
        total > 0,
{
    (((total - used) * width) as nat / total as nat)
}

proof fn lemma_bar_split(u: int, t: int, w: int)
    requires
        0 < t,
        0 <= u <= t,
        0 <= w,
    ensures
        spec_ceil_div((u * w) as nat, t as nat) + ((t - u) * w) as nat / t as nat == w,
        spec_ceil_div((u * w) as nat, t as nat) <= w,
{
    let a = u * w;
    let q = a / t;
    let r = a % t;
    lemma_fundamental_div_mod(a, t);
    assert(a == t * q + r);
    assert(0 <= r < t);
    assert(0 <= a <= t * w) by (nonlinear_arith)
        requires
            0 <= u <= t,
            0 <= w,
            a == u * w,
    ;
    assert((t - u) * w == t * w - a) by (nonlinear_arith)
        requires
            a == u * w,
    ;
    // The quotient of `a` cannot exceed `w`, and reaches it only when `a`
    // is an exact multiple of `t`.
    assert(q <= w) by (nonlinear_arith)
        requires
            a == t * q + r,
            0 <= r,
            a <= t * w,
            t > 0,
    ;
    if r == 0 {
        assert(t * w - a == (w - q) * t + 0) by (nonlinear_arith)
            requires
                a == t * q,
        ;
        lemma_fundamental_div_mod_converse_div(t * w - a, t, w - q, 0);
        lemma_fundamental_div_mod_converse_mod(t * w - a, t, w - q, 0);
    } else {
        assert(q < w) by (nonlinear_arith)
            requires
                a == t * q + r,
                r > 0,
                a <= t * w,
                t > 0,
                q <= w,
        ;
        assert(t * w - a == (w - q - 1) * t + (t - r)) by (nonlinear_arith)
            requires
                a == t * q + r,
        ;
        lemma_fundamental_div_mod_converse_div(t * w - a, t, w - q - 1, t - r);
    }
}

/// Splits a bar of `width` characters into filled and empty segment widths
/// for a used/total ratio. The segments always sum to exactly `width`; a
/// zero ratio gives an empty filled segment, a full ratio an empty empty
/// segment, and a zero width two empty segments.
pub fn bar_segments(used: u64, total: u64, width: usize) -> (r: (usize, usize))
    requires
        total > 0,
        used <= total,
    ensures
        r.0 as nat == spec_filled_width(used, total, width),
        r.1 as nat == spec_empty_width(used, total, width),
        r.0 + r.1 == width,
        used == 0 ==> r.0 == 0,
        used == total ==> r.1 == 0,
        width == 0 ==> r.0 == 0 && r.1 == 0,
{
    proof {
        lemma_bar_split(used as int, total as int, width as int);
        lemma_mul_upper_bound(
            used as int,
            0xffff_ffff_ffff_ffff,
            width as int,
            0xffff_ffff_ffff_ffff,
        );
    }
    let num: u128 = (used as u128) * (width as u128);
    let filled_wide: u128 = ceil_div_u128(num, total as u128);
    let filled: usize = filled_wide as usize;
    let empty: usize = width - filled;
    proof {
        if used == 0 {
            assert(spec_ceil_div(0nat, total as nat) == 0) by {
                lemma_fundamental_div_mod_converse_div(0, total as int, 0, 0);
                lemma_fundamental_div_mod_converse_mod(0, total as int, 0, 0);
            }
        }
        if used == total {
            assert(((total - used) as int) * (width as int) == 0) by (nonlinear_arith)
                requires
                    used == total,
            ;
            lemma_div_of0(total as int);
            assert(spec_empty_width(used, total, width) == 0);
        }
    }
    (filled, empty)
}

/// The share of a volume in use, as a whole percentage rounded up.
pub open spec fn spec_percent_used(total_space: u64, available_space: u64) -> nat
    recommends
        total_space > 0,
        available_space <= total_space,
{
    spec_ceil_div(((total_space - available_space) * 100) as nat, total_space as nat)
}

/// Computes the used percentage of a volume, rounded up; never above 100.
pub fn percent_used(total_space: u64, available_space: u64) -> (r: u64)
    requires
        total_space > 0,
        available_space <= total_space,
    ensures
        r as nat == spec_percent_used(total_space, available_space),
        r <= 100,
        available_space == total_space ==> r == 0,
{
    proof {
        lemma_bar_split(
            (total_space - available_space) as int,
            total_space as int,
            100,
        );
        if available_space == total_space {
            lemma_fundamental_div_mod_converse_div(0, total_space as int, 0, 0);
            lemma_fundamental_div_mod_converse_mod(0, total_space as int, 0, 0);
        }
    }
    let num: u128 = ((total_space - available_space) as u128) * 100;
    let r: u128 = ceil_div_u128(num, total_space as u128);
    r as u64
}

/// A run of `n` space characters.
pub open spec fn spec_spaces(n: nat) -> Seq<char> {
    Seq::new(n, |i: int| ' ')
}

/// Builds a padding string of `n` spaces.
pub fn spaces(n: usize) -> (r: String)
    ensures
        r@ == spec_spaces(n as nat),
{
    proof {
        reveal_strlit(" ");
    }
    let mut s = String::new();
    let mut i: usize = 0;
    while i < n
        invariant
            i <= n,
            s@.len() == i,
            forall|j: int| 0 <= j < i ==> s@[j] == ' ',
        decreases n - i,
    {
        proof {
            reveal_strlit(" ");
        }
        s.append(" ");
        i = i + 1;
    }
    proof {
        assert(s@ =~= spec_spaces(n as nat));
    }
    s
}

/// The right-aligned usage descriptor of a volume: its used percentage and
/// its formatted total, under the given unit tier policy.
pub open spec fn spec_descriptor(total_space: u64, available_space: u64, policy: TierPolicy) -> Seq<
    char,
> {
    spec_digits(spec_percent_used(total_space, available_space)) + "% out of "@ + spec_select_unit(
        policy,
        total_space,
    ).spec_display()
}

/// Renders the usage descriptor of a volume.
pub fn volume_descriptor(total_space: u64, available_space: u64, policy: TierPolicy) -> (r: String)
    requires
        total_space > 0,
        available_space <= total_space,
    ensures
        r@ == spec_descriptor(total_space, available_space, policy),
{
    let percent: u64 = percent_used(total_space, available_space);
    let unit: MemUnit = select_unit(policy, total_space);
    let display: String = unit.to_display_string();
    digits_string(percent as u128).concat("% out of ").concat(display.as_str())
}

/// The padding that right-aligns a descriptor: what is left of the terminal
/// width after the mount point, a fixed spacing budget and the descriptor,
/// clamped to zero when the terminal is too narrow.
pub open spec fn spec_volume_padding(
    terminal_width: nat,
    mount_len: nat,
    fixed_offset: nat,
    descriptor_len: nat,
) -> nat {
    if terminal_width >= mount_len + fixed_offset + descriptor_len {
        (terminal_width - (mount_len + fixed_offset + descriptor_len)) as nat
    } else {
        0
    }
}

/// Computes the clamped right-alignment padding.
pub fn volume_padding(
    terminal_width: usize,
    mount_len: usize,
    fixed_offset: usize,
    descriptor_len: usize,
) -> (r: usize)
    ensures
        r as nat == spec_volume_padding(
            terminal_width as nat,
            mount_len as nat,
            fixed_offset as nat,
            descriptor_len as nat,
        ),
{
    let claim: u128 = mount_len as u128 + fixed_offset as u128 + descriptor_len as u128;
    if (terminal_width as u128) >= claim {
        (terminal_width as u128 - claim) as usize
    } else {
        0
    }
}

/// One full report line for a volume: the mount point, then padding that
/// pushes the usage descriptor against the right edge of the terminal.
pub fn volume_line(
    mount_point: &str,
    total_space: u64,
    available_space: u64,
    terminal_width: usize,
    fixed_offset: usize,
    policy: TierPolicy,
) -> (r: String)
    requires
        total_space > 0,
        available_space <= total_space,
    ensures
        r@ == mount_point@ + spec_spaces(
            spec_volume_padding(
                terminal_width as nat,
                mount_point@.len(),
                fixed_offset as nat,
                spec_descriptor(total_space, available_space, policy).len(),
            ),
        ) + spec_descriptor(total_space, available_space, policy),
{
    let descriptor: String = volume_descriptor(total_space, available_space, policy);
    let mount_len: usize = mount_point.unicode_len();
    let descriptor_len: usize = descriptor.as_str().unicode_len();
    let pad: usize = volume_padding(terminal_width, mount_len, fixed_offset, descriptor_len);
    let padding: String = spaces(pad);
    String::from_str(mount_point).concat(padding.as_str()).concat(descriptor.as_str())
}

/// Equal-height slot budget for `n` repeated panels: one slot of height two
/// per panel, computed directly for any `n`.
pub fn gauge_slots(n: usize) -> (r: Vec<u16>)
    ensures
        r@.len() == n,
        forall|i: int| 0 <= i < n ==> r@[i] == 2u16,
{
    let mut slots: Vec<u16> = Vec::new();
    let mut i: usize = 0;
    while i < n
        invariant
            i <= n,
            slots@.len() == i,
            forall|j: int| 0 <= j < i ==> slots@[j] == 2u16,
        decreases n - i,
    {
        slots.push(2);
        i = i + 1;
    }
    slots
}

/// How a fact should be coloured, independent of any terminal library:
/// a healthy state, a worrying one, a failing one, or plain information.
#[derive(Clone, Copy, Debug, PartialEq, Eq, Structural)]
pub enum DisplayIntent {
    Success,
    Warning,
    Critical,
    Info,
}

/// The intent a systemd unit state maps to.
pub open spec fn spec_unit_state_intent(s: UnitState) -> DisplayIntent {
    match s {
        UnitState::Bad | UnitState::Disabled | UnitState::Masked | UnitState::MaskedRuntime
            => DisplayIntent::Critical,
        UnitState::Enabled | UnitState::EnabledRuntime => DisplayIntent::Success,
        _ => DisplayIntent::Info,
    }
}

/// Maps a systemd unit state to a display intent: bad, disabled and
/// masked states are critical, enabled ones are a success, the rest are
/// plain information.
pub fn unit_state_intent(s: &UnitState) -> (r: DisplayIntent)
    ensures
        r == spec_unit_state_intent(*s),
{
    match s {
        UnitState::Bad | UnitState::Disabled | UnitState::Masked | UnitState::MaskedRuntime
            => DisplayIntent::Critical,
        UnitState::Enabled | UnitState::EnabledRuntime => DisplayIntent::Success,
        _ => DisplayIntent::Info,
    }
}

/// The intent a docker status line maps to.
pub open spec fn spec_docker_status_intent(status: Seq<char>) -> DisplayIntent {
    if spec_contains_str(status, "Up"@) {
        DisplayIntent::Success
    } else {
        DisplayIntent::Critical
    }
}

/// Maps a docker status line to a display intent: a running container
/// ("Up ...") is a success, anything else is critical.
pub fn docker_status_intent(status: &str) -> (r: DisplayIntent)
    ensures
        r == spec_docker_status_intent(status@),
{
    if contains_str(status, "Up") {
        DisplayIntent::Success
    } else {
        DisplayIntent::Critical
    }
}

/// The height of the drives panel: two rows per volume plus the border,
/// saturating at the largest terminal row count.
pub fn drives_panel_height(n: usize) -> (r: u16)
    ensures
        r as int == if 2 * (n as int) + 2 <= 65535 {
            2 * (n as int) + 2
        } else {
            65535int
        },
{
    if n <= 32766 {
        (2 * (n as u16)) + 2
    } else {
        65535
    }
}

} // verus!
