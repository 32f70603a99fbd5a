//! From a vertex of a mesh to a point of the screen: scaling, turning,
//! the change to the camera's frame and the perspective division.
//!
//! Every step works on whole numbers of fixed-point steps, rounds down, and
//! keeps a result that a vector cannot hold at the nearest value that it can.

use crate::arith::{clamp32, clamp_to_i32, floor_div};
use crate::trig::{lemma_whole_turns, SineTable, FULL_TURN};
use crate::vector::{Vector2, Vector3, ONE};
use vstd::prelude::*;

verus! {

/// The product of two fixed-point numbers.
pub open spec fn times(a: int, b: int) -> i32 {
    clamp32((a * b) / (ONE as int))
}

/// `v` with each component multiplied by that of `by`.
pub open spec fn scaled(v: Vector3, by: Vector3) -> Vector3 {
    Vector3 {
        x: times(v.x as int, by.x as int),
        y: times(v.y as int, by.y as int),
        z: times(v.z as int, by.z as int),
    }
}

/// The first coordinate of the point `(a, b)` of a plane after a turn of
/// the plane by the angle of sine `s` and cosine `c`.
pub open spec fn turned_first(a: int, b: int, s: int, c: int) -> i32 {
    clamp32((a * c - b * s) / (ONE as int))
}

/// The second coordinate of the point `(a, b)` of a plane after a turn of
/// the plane by the angle of sine `s` and cosine `c`.
pub open spec fn turned_second(a: int, b: int, s: int, c: int) -> i32 {
    clamp32((a * s + b * c) / (ONE as int))
}

/// `v` turned about the first axis, which takes the second towards the third.
pub open spec fn turned_about_x(v: Vector3, s: int, c: int) -> Vector3 {
    Vector3 {
        x: v.x,
        y: turned_first(v.y as int, v.z as int, s, c),
        z: turned_second(v.y as int, v.z as int, s, c),
    }
}

/// `v` turned about the second axis, which takes the third towards the first.
pub open spec fn turned_about_y(v: Vector3, s: int, c: int) -> Vector3 {
    Vector3 {
        x: turned_second(v.z as int, v.x as int, s, c),
        y: v.y,
        z: turned_first(v.z as int, v.x as int, s, c),
    }
}

/// `v` turned about the third axis, which takes the first towards the second.
pub open spec fn turned_about_z(v: Vector3, s: int, c: int) -> Vector3 {
    Vector3 {
        x: turned_first(v.x as int, v.y as int, s, c),
        y: turned_second(v.x as int, v.y as int, s, c),
        z: v.z,
    }
}

/// `v` turned by the three angles: about the first axis, then about the
/// second, then about the third.
pub open spec fn turned(table: &SineTable, v: Vector3, angles: Vector3) -> Vector3 {
    let about_x = turned_about_x(v, table.sin_of(angles.x as int), table.cos_of(angles.x as int));
    let about_y = turned_about_y(
        about_x,
        table.sin_of(angles.y as int),
        table.cos_of(angles.y as int),
    );
    turned_about_z(about_y, table.sin_of(angles.z as int), table.cos_of(angles.z as int))
}

/// `v` turned back by the three angles: the turns of `turned` undone, the
/// last of them first, each by the opposite angle.
pub open spec fn turned_back(table: &SineTable, v: Vector3, angles: Vector3) -> Vector3 {
    let about_z = turned_about_z(
        v,
        -table.sin_of(angles.z as int),
        table.cos_of(angles.z as int),
    );
    let about_y = turned_about_y(
        about_z,
        -table.sin_of(angles.y as int),
        table.cos_of(angles.y as int),
    );
    turned_about_x(about_y, -table.sin_of(angles.x as int), table.cos_of(angles.x as int))
}

/// `v` as seen from `origin`.
pub open spec fn shifted_back(v: Vector3, origin: Vector3) -> Vector3 {
    Vector3 {
        x: clamp32(v.x - origin.x),
        y: clamp32(v.y - origin.y),
        z: clamp32(v.z - origin.z),
    }
}

/// Where on a screen of `extent` cells a point shows that lies `offset` off
/// the axis of view at the depth `depth`, for a field of view whose half
/// angle has the sine `s` and the cosine `c`: the middle of the screen for a
/// point on the axis, its far edge for a point at the edge of the field.
pub open spec fn screen_coordinate(offset: int, depth: int, s: int, c: int, extent: int) -> i32 {
    clamp32((ONE * extent * (offset * c + depth * s)) / (2 * depth * s))
}

/// Whether a field of view can be drawn with: both half angles lie strictly
/// between zero and a quarter turn, as far as the table tells.
pub open spec fn is_field_of_view(table: &SineTable, fov: Vector2) -> bool {
    &&& table.sin_of(fov.x as int) > 0
    &&& table.cos_of(fov.x as int) > 0
    &&& table.sin_of(fov.y as int) > 0
    &&& table.cos_of(fov.y as int) > 0
}

/// The screen point of a point `c` in the camera's frame: none for a point
/// at the eye's depth or behind it, and none where the field of view cannot
/// be drawn with. The second screen axis points down.
pub open spec fn projected(
    table: &SineTable,
    c: Vector3,
    fov: Vector2,
    width: int,
    height: int,
) -> Option<Vector2> {
    if c.z > 0 && is_field_of_view(table, fov) {
        Some(
            Vector2 {
                x: screen_coordinate(
                    c.x as int,
                    c.z as int,
                    table.sin_of(fov.x as int),
                    table.cos_of(fov.x as int),
                    width,
                ),
                y: screen_coordinate(
                    -c.y,
                    c.z as int,
                    table.sin_of(fov.y as int),
                    table.cos_of(fov.y as int),
                    height,
                ),
            },
        )
    } else {
        None
    }
}

/// Multiplies two fixed-point numbers.
fn multiply(a: i32, b: i32) -> (r: i32)
    ensures
        r == times(a as int, b as int),
{
    assert(-0x4000_0000_0000_0000 <= a * b <= 0x4000_0000_0000_0000) by (nonlinear_arith)
        requires
            -0x8000_0000 <= a <= 0x8000_0000,
            -0x8000_0000 <= b <= 0x8000_0000,
    ;
    clamp_to_i32(floor_div((a as i128) * (b as i128), ONE as i128))
}

/// Multiplies each component of `v` by that of `by`.
pub fn scale(v: Vector3, by: Vector3) -> (r: Vector3)
    ensures
        r == scaled(v, by),
{
    Vector3 { x: multiply(v.x, by.x), y: multiply(v.y, by.y), z: multiply(v.z, by.z) }
}

/// Turns the point `(a, b)` of a plane by the angle of sine `s` and cosine
/// `c`.
fn turn_pair(a: i32, b: i32, s: i32, c: i32) -> (r: (i32, i32))
    ensures
        r.0 == turned_first(a as int, b as int, s as int, c as int),
        r.1 == turned_second(a as int, b as int, s as int, c as int),
{
    assert(-0x4000_0000_0000_0000 <= a * c <= 0x4000_0000_0000_0000) by (nonlinear_arith)
        requires
            -0x8000_0000 <= a <= 0x8000_0000,
            -0x8000_0000 <= c <= 0x8000_0000,
    ;
    assert(-0x4000_0000_0000_0000 <= b * s <= 0x4000_0000_0000_0000) by (nonlinear_arith)
        requires
            -0x8000_0000 <= b <= 0x8000_0000,
            -0x8000_0000 <= s <= 0x8000_0000,
    ;
    assert(-0x4000_0000_0000_0000 <= a * s <= 0x4000_0000_0000_0000) by (nonlinear_arith)
        requires
            -0x8000_0000 <= a <= 0x8000_0000,
            -0x8000_0000 <= s <= 0x8000_0000,
    ;
    assert(-0x4000_0000_0000_0000 <= b * c <= 0x4000_0000_0000_0000) by (nonlinear_arith)
        requires
            -0x8000_0000 <= b <= 0x8000_0000,
            -0x8000_0000 <= c <= 0x8000_0000,
    ;
    let a: i128 = a as i128;
    let b: i128 = b as i128;
    let s: i128 = s as i128;
    let c: i128 = c as i128;
    (
        clamp_to_i32(floor_div(a * c - b * s, ONE as i128)),
        clamp_to_i32(floor_div(a * s + b * c, ONE as i128)),
    )
}

/// Turns `v` about the first axis.
fn turn_about_x(v: Vector3, s: i32, c: i32) -> (r: Vector3)
    ensures
        r == turned_about_x(v, s as int, c as int),
{
    let (y, z) = turn_pair(v.y, v.z, s, c);
    Vector3 { x: v.x, y, z }
}

/// Turns `v` about the second axis.
fn turn_about_y(v: Vector3, s: i32, c: i32) -> (r: Vector3)
    ensures
        r == turned_about_y(v, s as int, c as int),
{
    let (z, x) = turn_pair(v.z, v.x, s, c);
    Vector3 { x, y: v.y, z }
}

/// Turns `v` about the third axis.
fn turn_about_z(v: Vector3, s: i32, c: i32) -> (r: Vector3)
    ensures
        r == turned_about_z(v, s as int, c as int),
{
    let (x, y) = turn_pair(v.x, v.y, s, c);
    Vector3 { x, y, z: v.z }
}

/// Turns `v` by the three angles: about the first axis, then about the
/// second, then about the third.
pub fn turn(table: &SineTable, v: Vector3, angles: Vector3) -> (r: Vector3)
    requires
        table.wf(),
    ensures
        r == turned(table, v, angles),
{
    let about_x = turn_about_x(v, table.sin(angles.x), table.cos(angles.x));
    let about_y = turn_about_y(about_x, table.sin(angles.y), table.cos(angles.y));
    turn_about_z(about_y, table.sin(angles.z), table.cos(angles.z))
}

/// Undoes the turns of `turn`, the last of them first.
pub fn turn_back(table: &SineTable, v: Vector3, angles: Vector3) -> (r: Vector3)
    requires
        table.wf(),
    ensures
        r == turned_back(table, v, angles),
{
    let about_z = turn_about_z(v, -table.sin(angles.z), table.cos(angles.z));
    let about_y = turn_about_y(about_z, -table.sin(angles.y), table.cos(angles.y));
    turn_about_x(about_y, -table.sin(angles.x), table.cos(angles.x))
}

/// Gives `v` as seen from `origin`.
pub fn shift_back(v: Vector3, origin: Vector3) -> (r: Vector3)
    ensures
        r == shifted_back(v, origin),
{
    Vector3 {
        x: clamp_to_i32(v.x as i128 - origin.x as i128),
        y: clamp_to_i32(v.y as i128 - origin.y as i128),
        z: clamp_to_i32(v.z as i128 - origin.z as i128),
    }
}

/// Computes `screen_coordinate`.
fn place(offset: i64, depth: i32, s: i32, c: i32, extent: usize) -> (r: i32)
    requires
        -0x8000_0000 <= offset <= 0x8000_0000,
        0 < depth,
        0 < s <= ONE,
        0 < c <= ONE,
    ensures
        r == screen_coordinate(offset as int, depth as int, s as int, c as int, extent as int),
{
    assert(ONE == 1000);
    assert(-0x400_0000_0000 <= offset * c <= 0x400_0000_0000) by (nonlinear_arith)
        requires
            -0x8000_0000 <= offset <= 0x8000_0000,
            0 < c <= 1000,
    ;
    assert(0 < depth * s <= 0x400_0000_0000) by (nonlinear_arith)
        requires
            0 < depth <= 0x8000_0000,
            0 < s <= 1000,
    ;
    let reach: i128 = (offset as i128) * (c as i128) + (depth as i128) * (s as i128);
    assert(ONE * extent == 1000 * extent) by (nonlinear_arith)
        requires
            ONE == 1000,
    ;
    let span: i128 = (ONE as i128) * (extent as i128);
    assert(-0x800_0000_0000 * 0x1_0000_0000_0000_0000_000 <= span * reach
        <= 0x800_0000_0000 * 0x1_0000_0000_0000_0000_000) by (nonlinear_arith)
        requires
            -0x800_0000_0000 <= reach <= 0x800_0000_0000,
            0 <= span <= 0x1_0000_0000_0000_0000_000,
    ;
    let bottom: i128 = 2 * ((depth as i128) * (s as i128));
    assert(2 * depth * s == 2 * (depth * s)) by (nonlinear_arith);
    assert(ONE * extent * (offset * c + depth * s) == span * reach) by (nonlinear_arith)
        requires
            span == ONE * extent,
            reach == offset * c + depth * s,
    ;
    clamp_to_i32(floor_div(span * reach, bottom))
}

/// Gives the screen point of a point `c` in the camera's frame, on a screen
/// of `width` by `height` cells: none for a point at the eye's depth or
/// behind it, and none where the field of view cannot be drawn with.
pub fn project(table: &SineTable, c: Vector3, fov: Vector2, width: usize, height: usize) -> (r:
    Option<Vector2>)
    requires
        table.wf(),
    ensures
        r == projected(table, c, fov, width as int, height as int),
{
    if c.z <= 0 {
        return None;
    }
    let sx: i32 = table.sin(fov.x);
    let cx: i32 = table.cos(fov.x);
    let sy: i32 = table.sin(fov.y);
    let cy: i32 = table.cos(fov.y);
    if sx <= 0 || cx <= 0 || sy <= 0 || cy <= 0 {
        return None;
    }
    Some(
        Vector2 {
            x: place(c.x as i64, c.z, sx, cx, width),
            y: place(-(c.y as i64), c.z, sy, cy, height),
        },
    )
}

/// Whether the angles `b` are the angles `a`, each with whole turns added or
/// taken away.
pub open spec fn same_directions(a: Vector3, b: Vector3) -> bool {
    &&& (b.x - a.x) % (FULL_TURN as int) == 0
    &&& (b.y - a.y) % (FULL_TURN as int) == 0
    &&& (b.z - a.z) % (FULL_TURN as int) == 0
}

/// Angles that differ by whole turns have the same sine and cosine.
pub proof fn lemma_same_direction(table: &SineTable, a: int, b: int)
    requires
        (b - a) % (FULL_TURN as int) == 0,
    ensures
        table.sin_of(a) == table.sin_of(b),
        table.cos_of(a) == table.cos_of(b),
{
    let turns = (b - a) / (FULL_TURN as int);
    vstd::arithmetic::div_mod::lemma_fundamental_div_mod(b - a, FULL_TURN as int);
    assert(FULL_TURN * turns == turns * FULL_TURN) by (nonlinear_arith);
    lemma_whole_turns(table, a, turns);
}

/// A full turn more or less about any axis turns a point to the same place,
/// and turns it back to the same place.
pub proof fn lemma_turned_whole_turns(table: &SineTable, v: Vector3, a: Vector3, b: Vector3)
    requires
        same_directions(a, b),
    ensures
        turned(table, v, a) == turned(table, v, b),
        turned_back(table, v, a) == turned_back(table, v, b),
{
    lemma_same_direction(table, a.x as int, b.x as int);
    lemma_same_direction(table, a.y as int, b.y as int);
    lemma_same_direction(table, a.z as int, b.z as int);
}

} // verus!
