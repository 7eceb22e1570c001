//! Radix geometry of the timing wheel.
//!
//! The wheel has [`LEVELS`] levels of [`SLOTS`] slots. A slot of level `l` covers
//! `64^l` consecutive ticks, so one revolution of level `l` covers `64^(l + 1)` ticks and the
//! whole wheel covers [`HORIZON`] ticks.

use vstd::prelude::*;

verus! {

/// Number of wheel levels.
pub const LEVELS: usize = 6;

/// Number of slots in each level.
pub const SLOTS: usize = 64;

/// Number of tick bits that select a slot within one level.
pub const SLOT_BITS: usize = 6;

/// Mask of the tick bits that select a slot within one level.
pub const SLOT_MASK: u64 = 63;

/// Number of ticks that the wheel covers ahead of its position.
pub const HORIZON: u64 = 0x10_0000_0000;

/// Number of ticks that one slot of `level` covers; one revolution of the level below it.
pub open spec fn width(level: int) -> int {
    if level <= 0 {
        1
    } else if level == 1 {
        64
    } else if level == 2 {
        4_096
    } else if level == 3 {
        262_144
    } else if level == 4 {
        16_777_216
    } else if level == 5 {
        1_073_741_824
    } else {
        68_719_476_736
    }
}

/// The slot of `level` that `tick` falls into.
pub open spec fn slot_of(tick: int, level: int) -> int {
    (tick / width(level)) % 64
}

/// The first tick of the `level` slot occurrence that contains `tick`.
pub open spec fn slot_start(tick: int, level: int) -> int {
    (tick / width(level)) * width(level)
}

/// The lowest level whose revolution is longer than `delta`.
pub open spec fn level_of(delta: int) -> int {
    if delta < width(1) {
        0
    } else if delta < width(2) {
        1
    } else if delta < width(3) {
        2
    } else if delta < width(4) {
        3
    } else if delta < width(5) {
        4
    } else {
        5
    }
}

/// The first tick at or after `position` that starts an occurrence of `slot` in `level`.
pub open spec fn occurrence(position: int, level: int, slot: int) -> int {
    let this_revolution = (position / width(level + 1)) * width(level + 1) + slot * width(level);
    if this_revolution < position {
        this_revolution + width(level + 1)
    } else {
        this_revolution
    }
}

/// Whether the slot occurrence that contains `tick` starts within one revolution of `position`.
pub open spec fn in_revolution(position: int, level: int, tick: int) -> bool {
    position <= slot_start(tick, level) < position + width(level + 1)
}

/// The number of tick bits below the ones that select a slot of `level`.
pub fn level_shift(level: usize) -> (shift: usize)
    requires
        level < LEVELS,
    ensures
        shift == 6 * level,
{
    SLOT_BITS * level
}

/// The number of ticks that one slot of `level` covers.
pub fn level_width(level: usize) -> (ticks: u64)
    requires
        level < LEVELS,
    ensures
        ticks == width(level as int),
{
    let shift: usize = level_shift(level);
    proof {
        lemma_shift_is_width(level);
    }
    1u64 << shift
}

/// The level whose slots hold a tick that lies `delta` ticks ahead of the position.
pub fn level_for_delta(delta: u64) -> (level: usize)
    ensures
        level == level_of(delta as int),
{
    let mut level: usize = 0;
    while level < LEVELS - 1
        invariant
            level <= LEVELS - 1,
            level > 0 ==> delta >= width(level as int),
        decreases LEVELS - level,
    {
        if delta < level_width(level + 1) {
            return level;
        }
        level = level + 1;
    }
    LEVELS - 1
}

/// The slot of `level` that `tick` falls into.
pub fn slot_for_tick(tick: u64, level: usize) -> (slot: usize)
    requires
        level < LEVELS,
    ensures
        slot == slot_of(tick as int, level as int),
        slot < SLOTS,
{
    let shift: usize = level_shift(level);
    proof {
        lemma_shift_right(tick, level);
        let group = tick >> shift;
        assert(group & 63u64 == group % 64u64) by (bit_vector);
    }
    ((tick >> shift) & SLOT_MASK) as usize
}

/// The first tick at or after `position` that starts an occurrence of `slot` in `level`, or
/// `None` when it lies beyond the tick range.
pub fn occurrence_start(position: u64, level: usize, slot: usize) -> (start: Option<u64>)
    requires
        level < LEVELS,
        slot < SLOTS,
    ensures
        match start {
            Some(tick) => tick == occurrence(position as int, level as int, slot as int),
            None => occurrence(position as int, level as int, slot as int) > u64::MAX,
        },
{
    let shift: usize = level_shift(level);
    let cycle: u64 = 1u64 << (shift + SLOT_BITS);
    proof {
        lemma_revolution_start(position, slot as u64, level);
        lemma_product(position as int / width(level + 1), level + 1);
        lemma_product(slot as int, level as int);
    }
    let base: u64 = position & !(cycle - 1);
    match base.checked_add((slot as u64) << shift) {
        None => None,
        Some(candidate) => {
            if candidate < position {
                candidate.checked_add(cycle)
            } else {
                Some(candidate)
            }
        },
    }
}

/// A slot width is a power of two.
proof fn lemma_shift_is_width(level: usize)
    requires
        level < LEVELS,
    ensures
        1u64 << ((6 * level) as usize) == width(level as int),
{
    assert(1u64 << 0usize == 1 && 1u64 << 6usize == 64 && 1u64 << 12usize == 4096 && 1u64
        << 18usize == 262144 && 1u64 << 24usize == 16777216 && 1u64 << 30usize == 1073741824)
        by (bit_vector);
}

/// Shifting a tick divides it by a slot width.
proof fn lemma_shift_right(tick: u64, level: usize)
    requires
        level < LEVELS,
    ensures
        tick >> ((6 * level) as usize) == tick as int / width(level as int),
{
    assert(tick >> 0usize == tick && tick >> 6usize == tick / 64 && tick >> 12usize == tick / 4096
        && tick >> 18usize == tick / 262144 && tick >> 24usize == tick / 16777216 && tick >> 30usize
        == tick / 1073741824) by (bit_vector);
}

/// Masking a position rounds it down to the start of a revolution.
proof fn lemma_revolution_start(position: u64, slot: u64, level: usize)
    requires
        level < LEVELS,
        slot < SLOTS,
    ensures
        ({
            let cycle = 1u64 << ((6 * level + 6) as usize);
            &&& cycle == width(level + 1)
            &&& position & !((cycle - 1) as u64) == (position as int / width(level + 1)) * width(
                level + 1,
            )
            &&& slot << ((6 * level) as usize) == slot * width(level as int)
        }),
{
    lemma_product(position as int / width(level + 1), level + 1);
    lemma_product(slot as int, level as int);
    assert(1u64 << 6usize == 64 && 1u64 << 12usize == 4096 && 1u64 << 18usize == 262144 && 1u64
        << 24usize == 16777216 && 1u64 << 30usize == 1073741824 && 1u64 << 36usize == 68719476736)
        by (bit_vector);
    assert(position & !63u64 == (position / 64) * 64 && position & !4095u64 == (position / 4096)
        * 4096 && position & !262143u64 == (position / 262144) * 262144 && position & !16777215u64
        == (position / 16777216) * 16777216 && position & !1073741823u64 == (position / 1073741824)
        * 1073741824 && position & !68719476735u64 == (position / 68719476736) * 68719476736)
        by (bit_vector);
    assert(slot << 0usize == slot && slot << 6usize == slot * 64 && slot << 12usize == slot * 4096
        && slot << 18usize == slot * 262144 && slot << 24usize == slot * 16777216 && slot << 30usize
        == slot * 1073741824) by (bit_vector)
        requires
            slot < 64,
    ;
}

/// Multiplication by a slot width, as a multiplication by its value.
proof fn lemma_product(x: int, level: int)
    requires
        0 <= level <= LEVELS,
    ensures
        level == 0 ==> x * width(level) == x,
        level == 1 ==> x * width(level) == x * 64,
        level == 2 ==> x * width(level) == x * 4_096,
        level == 3 ==> x * width(level) == x * 262_144,
        level == 4 ==> x * width(level) == x * 16_777_216,
        level == 5 ==> x * width(level) == x * 1_073_741_824,
        level == 6 ==> x * width(level) == x * 68_719_476_736,
{
    let w = width(level);
    assert(w == 1 ==> x * w == x) by (nonlinear_arith);
    assert(w == 64 ==> x * w == x * 64) by (nonlinear_arith);
    assert(w == 4_096 ==> x * w == x * 4_096) by (nonlinear_arith);
    assert(w == 262_144 ==> x * w == x * 262_144) by (nonlinear_arith);
    assert(w == 16_777_216 ==> x * w == x * 16_777_216) by (nonlinear_arith);
    assert(w == 1_073_741_824 ==> x * w == x * 1_073_741_824) by (nonlinear_arith);
    assert(w == 68_719_476_736 ==> x * w == x * 68_719_476_736) by (nonlinear_arith);
}

/// A slot occurrence covers one slot width from its start.
proof fn lemma_slot_bounds(tick: int, level: int)
    requires
        0 <= level < LEVELS,
        0 <= tick,
    ensures
        0 <= slot_start(tick, level) <= tick < slot_start(tick, level) + width(level),
{
    let w = width(level);
    assert(0 <= (tick / w) * w <= tick < (tick / w) * w + w) by (nonlinear_arith)
        requires
            w > 0,
            0 <= tick,
    ;
}

/// A tick at or after the position and within the horizon belongs to a level whose slot for it
/// starts within one revolution of the position.
pub proof fn lemma_placement(position: int, tick: int)
    requires
        0 <= position <= tick < position + HORIZON,
    ensures
        0 <= level_of(tick - position) < LEVELS,
        0 <= slot_of(tick, level_of(tick - position)) < SLOTS,
        in_revolution(position, level_of(tick - position), tick),
{
    lemma_slot_bounds(tick, level_of(tick - position));
}

/// Within one revolution of the position a slot starts at most once, at its next occurrence.
pub proof fn lemma_occurrence(position: int, level: int, tick: int)
    requires
        0 <= position,
        0 <= level < LEVELS,
        0 <= tick,
        in_revolution(position, level, tick),
    ensures
        occurrence(position, level, slot_of(tick, level)) == slot_start(tick, level),
        slot_start(tick, level) <= tick < slot_start(tick, level) + width(level),
{
    let slot = slot_of(tick, level);
    lemma_slot_bounds(tick, level);
    lemma_product(tick / width(level), level);
    lemma_product(position / width(level + 1), level + 1);
    lemma_product(slot, level);
    if level == 0 {
    } else if level == 1 {
    } else if level == 2 {
    } else if level == 3 {
    } else if level == 4 {
    } else {
    }
}

/// Slots of one level start at different ticks.
pub proof fn lemma_occurrence_is_injective(position: int, level: int, a: int, b: int)
    requires
        0 <= position,
        0 <= level < LEVELS,
        0 <= a < SLOTS,
        0 <= b < SLOTS,
        occurrence(position, level, a) == occurrence(position, level, b),
    ensures
        a == b,
{
    lemma_product(position / width(level + 1), level + 1);
    lemma_product(a, level);
    lemma_product(b, level);
}

/// Once the position has reached the start of a slot, every tick of that slot belongs to a lower
/// level.
pub proof fn lemma_descends(position: int, level: int, tick: int)
    requires
        0 <= position,
        0 < level < LEVELS,
        position == slot_start(tick, level),
        0 <= tick,
    ensures
        position <= tick < position + HORIZON,
        level_of(tick - position) < level,
{
    lemma_slot_bounds(tick, level);
}

/// A slot starts once in each revolution: its next start lies less than one revolution ahead of the
/// position, at the slot's place within the revolution.
pub proof fn law_slot_starts_once_a_revolution(position: int, level: int, slot: int)
    requires
        0 <= position,
        0 <= level < LEVELS,
        0 <= slot < SLOTS,
    ensures
        position <= occurrence(position, level, slot) < position + width(level + 1),
        occurrence(position, level, slot) % width(level + 1) == slot * width(level),
{
    let cycle = width(level + 1);
    let revolution = position / cycle;
    let offset = slot * width(level);
    assert(0 <= offset < cycle) by {
        lemma_product(slot, level);
    }
    assert(revolution * cycle <= position < revolution * cycle + cycle) by (nonlinear_arith)
        requires
            cycle > 0,
            revolution == position / cycle,
    ;
    assert((revolution + 1) * cycle == revolution * cycle + cycle) by (nonlinear_arith);
    let start = occurrence(position, level, slot);
    if revolution * cycle + offset < position {
        vstd::arithmetic::div_mod::lemma_fundamental_div_mod_converse(
            start,
            cycle,
            revolution + 1,
            offset,
        );
    } else {
        vstd::arithmetic::div_mod::lemma_fundamental_div_mod_converse(
            start,
            cycle,
            revolution,
            offset,
        );
    }
}

/// The level of a distance is the lowest one whose revolution is longer, and a tick's slot counts
/// the slot widths within one revolution.
pub proof fn law_level_is_the_lowest(delta: int, tick: int, level: int)
    requires
        0 <= delta < HORIZON,
        0 <= tick,
        0 <= level < LEVELS,
    ensures
        0 <= level_of(delta) < LEVELS,
        delta < width(level_of(delta) + 1),
        level < level_of(delta) ==> delta >= width(level + 1),
        slot_of(tick, level) == (tick / width(level)) % 64,
        slot_start(tick, level) == (tick / width(level)) * width(level),
{
}

} // verus!
