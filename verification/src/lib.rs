//! A verified core for a dynamically typed table model that is shared with a
//! foreign host across an in-process boundary.
//!
//! The library models tagged-union values (`LuaValue`), tables made of an
//! ordered array part and a keyed hash part (`Table`), and the handle-based
//! ownership protocol (`TableArena`) through which a host that has no
//! automatic memory management builds, reads and releases whole table trees.
//! Beside them stand the exact decimal rendering of double-precision numbers
//! (`numbers`), a small paddle-and-ball simulation (`pong`), and a few plain
//! helpers of the same boundary.

pub mod arena;
pub mod numbers;
pub mod pong;
pub mod tables;

use vstd::prelude::*;

verus! {

/// A plain pair of coordinates.
pub struct Vector2 {
    /// The first coordinate.
    pub x: u32,
    /// The second coordinate.
    pub y: u32,
}

impl Vector2 {
    /// Renders the pair as `{x, y}`.
    pub fn render(&self) -> (s: String)
        ensures
            s@ == seq!['{'] + crate::numbers::dec_digits(self.x as nat) + seq![',', ' ']
                + crate::numbers::dec_digits(self.y as nat) + seq!['}'],
    {
        proof {
            reveal_strlit("{");
            reveal_strlit(", ");
            reveal_strlit("}");
        }
        let mut s = String::from_str("{");
        let xs = crate::numbers::format_u64(self.x as u64);
        s.append(xs.as_str());
        s.append(", ");
        let ys = crate::numbers::format_u64(self.y as u64);
        s.append(ys.as_str());
        s.append("}");
        proof {
            assert(s@ =~= seq!['{'] + crate::numbers::dec_digits(self.x as nat) + seq![
                ',',
                ' ',
            ] + crate::numbers::dec_digits(self.y as nat) + seq!['}']);
        }
        s
    }
}

/// Swaps the two coordinates.
pub fn vector2_swap(vector2: Vector2) -> (r: Vector2)
    ensures
        r.x == vector2.y,
        r.y == vector2.x,
{
    Vector2 { x: vector2.y, y: vector2.x }
}

/// Reports true exactly on even numbers, keeping the boundary's historical
/// behavior under this name.
pub fn is_odd(n: u16) -> (r: bool)
    ensures
        r == (n % 2 == 0),
{
    (n % 2) == 0
}

/// The sum of two numbers. The boundary only ever adds small values, so the
/// sum is required to fit.
pub fn add_two_numbers(x: u32, y: u32) -> (r: u32)
    requires
        x + y <= u32::MAX,
    ensures
        r == x + y,
{
    x + y
}

/// Takes a value back out of its heap allocation.
pub fn unbox<T>(value: Box<T>) -> (r: T)
    ensures
        r == *value,
{
    *value
}

/// Appends a closing heart to a text, the boundary's round-trip marker.
pub fn decorate(text: String) -> (r: String)
    ensures
        r@ == text@ + "\u{1f496}"@,
{
    text.concat("\u{1f496}")
}

} // verus!
