//! The survival gauges: health, hunger and air.

use crate::damage::{Submersion, AIR_MAX};
use crate::protocol::{MAX_HP, MAX_HUNGER};
use crate::text::{decimal, decimal_of, joined};
use vstd::prelude::*;

verus! {

/// Bubbles in the row for air, one for each second.
pub const BUBBLES: usize = 10;

/// A value held below its maximum.
pub open spec fn capped(v: int, max: int) -> int {
    if v < max {
        v
    } else {
        max
    }
}

/// How far a gauge is filled: so many of so many parts.
#[derive(Clone, Copy, Debug, PartialEq, Eq, Structural)]
pub struct Fill {
    pub part: u16,
    pub whole: u16,
}

fn fill(v: u16, max: u16) -> (f: Fill)
    ensures
        f.part == capped(v as int, max as int),
        f.whole == max,
{
    Fill { part: if v < max { v } else { max }, whole: max }
}

/// How far the health gauge is filled.
pub fn health_fraction(hp: u16) -> (f: Fill)
    ensures
        f.part == capped(hp as int, 20),
        f.whole == MAX_HP,
{
    fill(hp, MAX_HP)
}

/// How far the hunger gauge is filled.
pub fn hunger_fraction(hunger: u16) -> (f: Fill)
    ensures
        f.part == capped(hunger as int, 20),
        f.whole == MAX_HUNGER,
{
    fill(hunger, MAX_HUNGER)
}

/// A gauge's label: the value, a slash, the maximum.
pub open spec fn label_of(v: int, max: int) -> Seq<char> {
    decimal_of(capped(v, max)) + "/"@ + decimal_of(max)
}

fn label(v: u16, max: u16) -> (text: String)
    ensures
        text@ == label_of(v as int, max as int),
{
    let f = fill(v, max);
    let value = decimal(f.part as u64);
    let whole = decimal(max as u64);
    let left = joined(value.as_str(), "/");
    joined(left.as_str(), whole.as_str())
}

/// The health gauge's label.
pub fn health_label(hp: u16) -> (text: String)
    ensures
        text@ == label_of(hp as int, 20),
{
    label(hp, MAX_HP)
}

/// The hunger gauge's label.
pub fn hunger_label(hunger: u16) -> (text: String)
    ensures
        text@ == label_of(hunger as int, 20),
{
    label(hunger, MAX_HUNGER)
}

/// Bubbles that are full: one for each second of air that has begun.
pub open spec fn full_bubbles(air: int) -> int {
    capped((air + 999_999_999) / 1_000_000_000, 10)
}

/// Bubbles that are full.
pub fn filled_bubble_count(air_remaining: u64) -> (n: usize)
    ensures
        n == full_bubbles(air_remaining as int),
{
    let seconds: u64 = air_remaining / 1_000_000_000;
    let begun: u64 = if air_remaining % 1_000_000_000 > 0 { seconds + 1 } else { seconds };
    if begun < BUBBLES as u64 {
        begun as usize
    } else {
        BUBBLES
    }
}

/// What the gauges show.
#[derive(Debug)]
pub struct Hud {
    /// There are gauges at all: only in survival.
    pub visible: bool,
    pub health: Fill,
    pub health_label: String,
    pub hunger: Fill,
    pub hunger_label: String,
    /// Full bubbles; `None` while there is no row of them, above water.
    pub bubbles: Option<usize>,
}

/// What the gauges show.
pub fn hud(survival: bool, hp: u16, hunger: u16, submersion: &Submersion) -> (h: Hud)
    ensures
        h.visible == survival,
        h.health == (Fill { part: capped(hp as int, 20) as u16, whole: 20 }),
        h.health_label@ == label_of(hp as int, 20),
        h.hunger == (Fill { part: capped(hunger as int, 20) as u16, whole: 20 }),
        h.hunger_label@ == label_of(hunger as int, 20),
        h.bubbles == if submersion.air_remaining < AIR_MAX {
            Some(full_bubbles(submersion.air_remaining as int) as usize)
        } else {
            None
        },
{
    Hud {
        visible: survival,
        health: health_fraction(hp),
        health_label: health_label(hp),
        hunger: hunger_fraction(hunger),
        hunger_label: hunger_label(hunger),
        bubbles: if submersion.air_remaining < AIR_MAX {
            Some(filled_bubble_count(submersion.air_remaining))
        } else {
            None
        },
    }
}

/// Gauges show the value itself up to twenty and are full beyond, and there is
/// one full bubble for every second of air that has begun, ten at most.
pub proof fn law_gauges_show_the_value(v: int, air: int, n: int)
    requires
        0 <= v,
        0 <= air,
        0 < n <= 10,
    ensures
        v <= 20 ==> capped(v, 20) == v,
        v >= 20 ==> capped(v, 20) == 20,
        full_bubbles(0) == 0,
        full_bubbles(air) >= n <==> air > (n - 1) * 1_000_000_000,
        full_bubbles(air) <= 10,
{
}

/// A gauge's label is the number shown, a slash and the largest number there
/// is, in digits; beyond the largest it stays.
pub proof fn law_labels_show_both_numbers(v: int, max: int)
    requires
        0 <= v,
        0 <= max,
    ensures
        v <= max ==> label_of(v, max) == decimal_of(v) + seq!['/'] + decimal_of(max),
        v > max ==> label_of(v, max) == decimal_of(max) + seq!['/'] + decimal_of(max),
{
    reveal_strlit("/");
    assert("/"@ =~= seq!['/']);
}

} // verus!
