//! The buildings of every world: each is convex and runs counter-clockwise,
//! and its outline lies outside it.

use crate::constants::{OUTLINE_MARGIN, SPAWN_AREA_SIDE};
use crate::geometry::{outline_vertex, outline_vertices};
use crate::initial_state::{
    generated, layout, layout_outlines, spec_at, template, BLOCK_COUNT, BUILDING_COUNT,
};
use crate::outline::{
    doubled_area, edge, fan_area, is_gentle_corner, is_gently_convex, is_within_reach,
    lemma_outline_vertex_lies_outside, lies_inside, preceding,
};
use crate::scalar::Scalar;
use crate::state::StateView;
use vstd::prelude::*;

verus! {

/// Cross and dot product of two edges between points given in halves: those
/// of the halves, in units of half a unit squared.
proof fn lemma_halves(ax: int, ay: int, bx: int, by: int, cx: int, cy: int, dx: int, dy: int)
    requires
        -1000 <= ax <= 1000,
        -1000 <= ay <= 1000,
        -1000 <= bx <= 1000,
        -1000 <= by <= 1000,
        -1000 <= cx <= 1000,
        -1000 <= cy <= 1000,
        -1000 <= dx <= 1000,
        -1000 <= dy <= 1000,
    ensures
        spec_at(bx, by).spec_minus(spec_at(ax, ay)).cross_exact(
            spec_at(dx, dy).spec_minus(spec_at(cx, cy)),
        ) == 0x4000_0000 * ((bx - ax) * (dy - cy) - (by - ay) * (dx - cx)),
        spec_at(bx, by).spec_minus(spec_at(ax, ay)).dot_exact(
            spec_at(dx, dy).spec_minus(spec_at(cx, cy)),
        ) == 0x4000_0000 * ((bx - ax) * (dx - cx) + (by - ay) * (dy - cy)),
{
    let u = spec_at(bx, by).spec_minus(spec_at(ax, ay));
    let w = spec_at(dx, dy).spec_minus(spec_at(cx, cy));
    let (ux, uy, wx, wy) = (bx - ax, by - ay, dx - cx, dy - cy);
    assert(u.x.raw == ux * 32768 && u.y.raw == uy * 32768);
    assert(w.x.raw == wx * 32768 && w.y.raw == wy * 32768);
    lemma_scaled_product(ux, wy);
    lemma_scaled_product(uy, wx);
    lemma_scaled_product(ux, wx);
    lemma_scaled_product(uy, wy);
    assert(0x4000_0000 * (ux * wy - uy * wx) == 0x4000_0000 * (ux * wy) - 0x4000_0000 * (uy * wx))
        by (nonlinear_arith);
    assert(0x4000_0000 * (ux * wx + uy * wy) == 0x4000_0000 * (ux * wx) + 0x4000_0000 * (uy * wy))
        by (nonlinear_arith);
}

/// The product of two numbers of halves, in raw units.
proof fn lemma_scaled_product(p: int, q: int)
    ensures
        (p * 32768) * (q * 32768) == 0x4000_0000 * (p * q),
{
    assert((p * 32768) * (q * 32768) == 0x4000_0000 * (p * q)) by (nonlinear_arith);
}

/// Every vertex of every building lies within reach.
proof fn lemma_templates_within_reach(k: int)
    requires
        0 <= k < BUILDING_COUNT,
    ensures
        is_within_reach(template(k)),
        3 <= template(k).len() <= 8,
{
}

/// Every building turns gently to the left at every vertex.
proof fn lemma_template_corner(k: int, j: int)
    requires
        0 <= k < BUILDING_COUNT,
        0 <= j < template(k).len(),
    ensures
        is_gentle_corner(template(k), j),
{
    let t = template(k);
    if k < BLOCK_COUNT {
        let x = -40 + 40 * (k / 3);
        let y = -40 + 40 * (k % 3);
        assert(t.len() == 4);
        assert(t[0] == spec_at(x, y));
        assert(t[1] == spec_at(x + 20, y));
        assert(t[2] == spec_at(x + 20, y + 20));
        assert(t[3] == spec_at(x, y + 20));
        if j == 0 {
            lemma_halves(x, y + 20, x, y, x, y, x + 20, y);
            assert((x - x) * (y - y) - (y - (y + 20)) * ((x + 20) - x) == 400) by (nonlinear_arith);
            assert((x - x) * ((x + 20) - x) + (y - (y + 20)) * (y - y) == 0) by (nonlinear_arith);
            assert(edge(t, 3) == spec_at(x, y).spec_minus(spec_at(x, y + 20)));
            assert(edge(t, 0) == spec_at(x + 20, y).spec_minus(spec_at(x, y)));
            assert(is_gentle_corner(t, 0));
        } else if j == 1 {
            lemma_halves(x, y, x + 20, y, x + 20, y, x + 20, y + 20);
            assert(((x + 20) - x) * ((y + 20) - y) - (y - y) * ((x + 20) - (x + 20)) == 400) by (nonlinear_arith);
            assert(((x + 20) - x) * ((x + 20) - (x + 20)) + (y - y) * ((y + 20) - y) == 0) by (nonlinear_arith);
            assert(edge(t, 0) == spec_at(x + 20, y).spec_minus(spec_at(x, y)));
            assert(edge(t, 1) == spec_at(x + 20, y + 20).spec_minus(spec_at(x + 20, y)));
            assert(is_gentle_corner(t, 1));
        } else if j == 2 {
            lemma_halves(x + 20, y, x + 20, y + 20, x + 20, y + 20, x, y + 20);
            assert(((x + 20) - (x + 20)) * ((y + 20) - (y + 20)) - ((y + 20) - y) * (x - (x + 20)) == 400) by (nonlinear_arith);
            assert(((x + 20) - (x + 20)) * (x - (x + 20)) + ((y + 20) - y) * ((y + 20) - (y + 20)) == 0) by (nonlinear_arith);
            assert(edge(t, 1) == spec_at(x + 20, y + 20).spec_minus(spec_at(x + 20, y)));
            assert(edge(t, 2) == spec_at(x, y + 20).spec_minus(spec_at(x + 20, y + 20)));
            assert(is_gentle_corner(t, 2));
        } else {
            lemma_halves(x + 20, y + 20, x, y + 20, x, y + 20, x, y);
            assert((x - (x + 20)) * (y - (y + 20)) - ((y + 20) - (y + 20)) * (x - x) == 400) by (nonlinear_arith);
            assert((x - (x + 20)) * (x - x) + ((y + 20) - (y + 20)) * (y - (y + 20)) == 0) by (nonlinear_arith);
            assert(edge(t, 2) == spec_at(x, y + 20).spec_minus(spec_at(x + 20, y + 20)));
            assert(edge(t, 3) == spec_at(x, y).spec_minus(spec_at(x, y + 20)));
            assert(is_gentle_corner(t, 3));
        }
    } else if k == 21 {
        assert(t.len() == 5);
        assert(t[0] == spec_at(20, 80));
        assert(t[1] == spec_at(60, 80));
        assert(t[2] == spec_at(60, 100));
        assert(t[3] == spec_at(40, 120));
        assert(t[4] == spec_at(20, 120));
        if j == 0 {
            lemma_halves(20, 120, 20, 80, 20, 80, 60, 80);
            assert(edge(t, 4) == spec_at(20, 80).spec_minus(spec_at(20, 120)));
            assert(edge(t, 0) == spec_at(60, 80).spec_minus(spec_at(20, 80)));
            assert(is_gentle_corner(t, 0));
        } else if j == 1 {
            lemma_halves(20, 80, 60, 80, 60, 80, 60, 100);
            assert(edge(t, 0) == spec_at(60, 80).spec_minus(spec_at(20, 80)));
            assert(edge(t, 1) == spec_at(60, 100).spec_minus(spec_at(60, 80)));
            assert(is_gentle_corner(t, 1));
        } else if j == 2 {
            lemma_halves(60, 80, 60, 100, 60, 100, 40, 120);
            assert(edge(t, 1) == spec_at(60, 100).spec_minus(spec_at(60, 80)));
            assert(edge(t, 2) == spec_at(40, 120).spec_minus(spec_at(60, 100)));
            assert(is_gentle_corner(t, 2));
        } else if j == 3 {
            lemma_halves(60, 100, 40, 120, 40, 120, 20, 120);
            assert(edge(t, 2) == spec_at(40, 120).spec_minus(spec_at(60, 100)));
            assert(edge(t, 3) == spec_at(20, 120).spec_minus(spec_at(40, 120)));
            assert(is_gentle_corner(t, 3));
        } else {
            lemma_halves(40, 120, 20, 120, 20, 120, 20, 80);
            assert(edge(t, 3) == spec_at(20, 120).spec_minus(spec_at(40, 120)));
            assert(edge(t, 4) == spec_at(20, 80).spec_minus(spec_at(20, 120)));
            assert(is_gentle_corner(t, 4));
        }
    } else if k == 22 {
        assert(t.len() == 5);
        assert(t[0] == spec_at(140, 80));
        assert(t[1] == spec_at(140, 120));
        assert(t[2] == spec_at(120, 120));
        assert(t[3] == spec_at(100, 100));
        assert(t[4] == spec_at(100, 80));
        if j == 0 {
            lemma_halves(100, 80, 140, 80, 140, 80, 140, 120);
            assert(edge(t, 4) == spec_at(140, 80).spec_minus(spec_at(100, 80)));
            assert(edge(t, 0) == spec_at(140, 120).spec_minus(spec_at(140, 80)));
            assert(is_gentle_corner(t, 0));
        } else if j == 1 {
            lemma_halves(140, 80, 140, 120, 140, 120, 120, 120);
            assert(edge(t, 0) == spec_at(140, 120).spec_minus(spec_at(140, 80)));
            assert(edge(t, 1) == spec_at(120, 120).spec_minus(spec_at(140, 120)));
            assert(is_gentle_corner(t, 1));
        } else if j == 2 {
            lemma_halves(140, 120, 120, 120, 120, 120, 100, 100);
            assert(edge(t, 1) == spec_at(120, 120).spec_minus(spec_at(140, 120)));
            assert(edge(t, 2) == spec_at(100, 100).spec_minus(spec_at(120, 120)));
            assert(is_gentle_corner(t, 2));
        } else if j == 3 {
            lemma_halves(120, 120, 100, 100, 100, 100, 100, 80);
            assert(edge(t, 2) == spec_at(100, 100).spec_minus(spec_at(120, 120)));
            assert(edge(t, 3) == spec_at(100, 80).spec_minus(spec_at(100, 100)));
            assert(is_gentle_corner(t, 3));
        } else {
            lemma_halves(100, 100, 100, 80, 100, 80, 140, 80);
            assert(edge(t, 3) == spec_at(100, 80).spec_minus(spec_at(100, 100)));
            assert(edge(t, 4) == spec_at(140, 80).spec_minus(spec_at(100, 80)));
            assert(is_gentle_corner(t, 4));
        }
    } else if k == 23 {
        assert(t.len() == 8);
        assert(t[0] == spec_at(65, 125));
        assert(t[1] == spec_at(75, 115));
        assert(t[2] == spec_at(85, 115));
        assert(t[3] == spec_at(95, 125));
        assert(t[4] == spec_at(95, 135));
        assert(t[5] == spec_at(85, 145));
        assert(t[6] == spec_at(75, 145));
        assert(t[7] == spec_at(65, 135));
        if j == 0 {
            lemma_halves(65, 135, 65, 125, 65, 125, 75, 115);
            assert(edge(t, 7) == spec_at(65, 125).spec_minus(spec_at(65, 135)));
            assert(edge(t, 0) == spec_at(75, 115).spec_minus(spec_at(65, 125)));
            assert(is_gentle_corner(t, 0));
        } else if j == 1 {
            lemma_halves(65, 125, 75, 115, 75, 115, 85, 115);
            assert(edge(t, 0) == spec_at(75, 115).spec_minus(spec_at(65, 125)));
            assert(edge(t, 1) == spec_at(85, 115).spec_minus(spec_at(75, 115)));
            assert(is_gentle_corner(t, 1));
        } else if j == 2 {
            lemma_halves(75, 115, 85, 115, 85, 115, 95, 125);
            assert(edge(t, 1) == spec_at(85, 115).spec_minus(spec_at(75, 115)));
            assert(edge(t, 2) == spec_at(95, 125).spec_minus(spec_at(85, 115)));
            assert(is_gentle_corner(t, 2));
        } else if j == 3 {
            lemma_halves(85, 115, 95, 125, 95, 125, 95, 135);
            assert(edge(t, 2) == spec_at(95, 125).spec_minus(spec_at(85, 115)));
            assert(edge(t, 3) == spec_at(95, 135).spec_minus(spec_at(95, 125)));
            assert(is_gentle_corner(t, 3));
        } else if j == 4 {
            lemma_halves(95, 125, 95, 135, 95, 135, 85, 145);
            assert(edge(t, 3) == spec_at(95, 135).spec_minus(spec_at(95, 125)));
            assert(edge(t, 4) == spec_at(85, 145).spec_minus(spec_at(95, 135)));
            assert(is_gentle_corner(t, 4));
        } else if j == 5 {
            lemma_halves(95, 135, 85, 145, 85, 145, 75, 145);
            assert(edge(t, 4) == spec_at(85, 145).spec_minus(spec_at(95, 135)));
            assert(edge(t, 5) == spec_at(75, 145).spec_minus(spec_at(85, 145)));
            assert(is_gentle_corner(t, 5));
        } else if j == 6 {
            lemma_halves(85, 145, 75, 145, 75, 145, 65, 135);
            assert(edge(t, 5) == spec_at(75, 145).spec_minus(spec_at(85, 145)));
            assert(edge(t, 6) == spec_at(65, 135).spec_minus(spec_at(75, 145)));
            assert(is_gentle_corner(t, 6));
        } else {
            lemma_halves(75, 145, 65, 135, 65, 135, 65, 125);
            assert(edge(t, 6) == spec_at(65, 135).spec_minus(spec_at(75, 145)));
            assert(edge(t, 7) == spec_at(65, 125).spec_minus(spec_at(65, 135)));
            assert(is_gentle_corner(t, 7));
        }
    } else if k == 24 {
        assert(t.len() == 4);
        assert(t[0] == spec_at(-40, 80));
        assert(t[1] == spec_at(-10, 80));
        assert(t[2] == spec_at(-10, 140));
        assert(t[3] == spec_at(-40, 140));
        if j == 0 {
            lemma_halves(-40, 140, -40, 80, -40, 80, -10, 80);
            assert(edge(t, 3) == spec_at(-40, 80).spec_minus(spec_at(-40, 140)));
            assert(edge(t, 0) == spec_at(-10, 80).spec_minus(spec_at(-40, 80)));
            assert(is_gentle_corner(t, 0));
        } else if j == 1 {
            lemma_halves(-40, 80, -10, 80, -10, 80, -10, 140);
            assert(edge(t, 0) == spec_at(-10, 80).spec_minus(spec_at(-40, 80)));
            assert(edge(t, 1) == spec_at(-10, 140).spec_minus(spec_at(-10, 80)));
            assert(is_gentle_corner(t, 1));
        } else if j == 2 {
            lemma_halves(-10, 80, -10, 140, -10, 140, -40, 140);
            assert(edge(t, 1) == spec_at(-10, 140).spec_minus(spec_at(-10, 80)));
            assert(edge(t, 2) == spec_at(-40, 140).spec_minus(spec_at(-10, 140)));
            assert(is_gentle_corner(t, 2));
        } else {
            lemma_halves(-10, 140, -40, 140, -40, 140, -40, 80);
            assert(edge(t, 2) == spec_at(-40, 140).spec_minus(spec_at(-10, 140)));
            assert(edge(t, 3) == spec_at(-40, 80).spec_minus(spec_at(-40, 140)));
            assert(is_gentle_corner(t, 3));
        }
    } else if k == 25 {
        assert(t.len() == 4);
        assert(t[0] == spec_at(190, 80));
        assert(t[1] == spec_at(190, 140));
        assert(t[2] == spec_at(160, 140));
        assert(t[3] == spec_at(160, 80));
        if j == 0 {
            lemma_halves(160, 80, 190, 80, 190, 80, 190, 140);
            assert(edge(t, 3) == spec_at(190, 80).spec_minus(spec_at(160, 80)));
            assert(edge(t, 0) == spec_at(190, 140).spec_minus(spec_at(190, 80)));
            assert(is_gentle_corner(t, 0));
        } else if j == 1 {
            lemma_halves(190, 80, 190, 140, 190, 140, 160, 140);
            assert(edge(t, 0) == spec_at(190, 140).spec_minus(spec_at(190, 80)));
            assert(edge(t, 1) == spec_at(160, 140).spec_minus(spec_at(190, 140)));
            assert(is_gentle_corner(t, 1));
        } else if j == 2 {
            lemma_halves(190, 140, 160, 140, 160, 140, 160, 80);
            assert(edge(t, 1) == spec_at(160, 140).spec_minus(spec_at(190, 140)));
            assert(edge(t, 2) == spec_at(160, 80).spec_minus(spec_at(160, 140)));
            assert(is_gentle_corner(t, 2));
        } else {
            lemma_halves(160, 140, 160, 80, 160, 80, 190, 80);
            assert(edge(t, 2) == spec_at(160, 80).spec_minus(spec_at(160, 140)));
            assert(edge(t, 3) == spec_at(190, 80).spec_minus(spec_at(160, 80)));
            assert(is_gentle_corner(t, 3));
        }
    } else if k == 26 {
        assert(t.len() == 5);
        assert(t[0] == spec_at(20, 140));
        assert(t[1] == spec_at(40, 140));
        assert(t[2] == spec_at(60, 160));
        assert(t[3] == spec_at(60, 180));
        assert(t[4] == spec_at(20, 180));
        if j == 0 {
            lemma_halves(20, 180, 20, 140, 20, 140, 40, 140);
            assert(edge(t, 4) == spec_at(20, 140).spec_minus(spec_at(20, 180)));
            assert(edge(t, 0) == spec_at(40, 140).spec_minus(spec_at(20, 140)));
            assert(is_gentle_corner(t, 0));
        } else if j == 1 {
            lemma_halves(20, 140, 40, 140, 40, 140, 60, 160);
            assert(edge(t, 0) == spec_at(40, 140).spec_minus(spec_at(20, 140)));
            assert(edge(t, 1) == spec_at(60, 160).spec_minus(spec_at(40, 140)));
            assert(is_gentle_corner(t, 1));
        } else if j == 2 {
            lemma_halves(40, 140, 60, 160, 60, 160, 60, 180);
            assert(edge(t, 1) == spec_at(60, 160).spec_minus(spec_at(40, 140)));
            assert(edge(t, 2) == spec_at(60, 180).spec_minus(spec_at(60, 160)));
            assert(is_gentle_corner(t, 2));
        } else if j == 3 {
            lemma_halves(60, 160, 60, 180, 60, 180, 20, 180);
            assert(edge(t, 2) == spec_at(60, 180).spec_minus(spec_at(60, 160)));
            assert(edge(t, 3) == spec_at(20, 180).spec_minus(spec_at(60, 180)));
            assert(is_gentle_corner(t, 3));
        } else {
            lemma_halves(60, 180, 20, 180, 20, 180, 20, 140);
            assert(edge(t, 3) == spec_at(20, 180).spec_minus(spec_at(60, 180)));
            assert(edge(t, 4) == spec_at(20, 140).spec_minus(spec_at(20, 180)));
            assert(is_gentle_corner(t, 4));
        }
    } else if k == 27 {
        assert(t.len() == 5);
        assert(t[0] == spec_at(140, 140));
        assert(t[1] == spec_at(140, 180));
        assert(t[2] == spec_at(100, 180));
        assert(t[3] == spec_at(100, 160));
        assert(t[4] == spec_at(120, 140));
        if j == 0 {
            lemma_halves(120, 140, 140, 140, 140, 140, 140, 180);
            assert(edge(t, 4) == spec_at(140, 140).spec_minus(spec_at(120, 140)));
            assert(edge(t, 0) == spec_at(140, 180).spec_minus(spec_at(140, 140)));
            assert(is_gentle_corner(t, 0));
        } else if j == 1 {
            lemma_halves(140, 140, 140, 180, 140, 180, 100, 180);
            assert(edge(t, 0) == spec_at(140, 180).spec_minus(spec_at(140, 140)));
            assert(edge(t, 1) == spec_at(100, 180).spec_minus(spec_at(140, 180)));
            assert(is_gentle_corner(t, 1));
        } else if j == 2 {
            lemma_halves(140, 180, 100, 180, 100, 180, 100, 160);
            assert(edge(t, 1) == spec_at(100, 180).spec_minus(spec_at(140, 180)));
            assert(edge(t, 2) == spec_at(100, 160).spec_minus(spec_at(100, 180)));
            assert(is_gentle_corner(t, 2));
        } else if j == 3 {
            lemma_halves(100, 180, 100, 160, 100, 160, 120, 140);
            assert(edge(t, 2) == spec_at(100, 160).spec_minus(spec_at(100, 180)));
            assert(edge(t, 3) == spec_at(120, 140).spec_minus(spec_at(100, 160)));
            assert(is_gentle_corner(t, 3));
        } else {
            lemma_halves(100, 160, 120, 140, 120, 140, 140, 140);
            assert(edge(t, 3) == spec_at(120, 140).spec_minus(spec_at(100, 160)));
            assert(edge(t, 4) == spec_at(140, 140).spec_minus(spec_at(120, 140)));
            assert(is_gentle_corner(t, 4));
        }
    } else if k == 28 {
        assert(t.len() == 4);
        assert(t[0] == spec_at(-50, -50));
        assert(t[1] == spec_at(230, -50));
        assert(t[2] == spec_at(230, -49));
        assert(t[3] == spec_at(-50, -49));
        if j == 0 {
            lemma_halves(-50, -49, -50, -50, -50, -50, 230, -50);
            assert(edge(t, 3) == spec_at(-50, -50).spec_minus(spec_at(-50, -49)));
            assert(edge(t, 0) == spec_at(230, -50).spec_minus(spec_at(-50, -50)));
            assert(is_gentle_corner(t, 0));
        } else if j == 1 {
            lemma_halves(-50, -50, 230, -50, 230, -50, 230, -49);
            assert(edge(t, 0) == spec_at(230, -50).spec_minus(spec_at(-50, -50)));
            assert(edge(t, 1) == spec_at(230, -49).spec_minus(spec_at(230, -50)));
            assert(is_gentle_corner(t, 1));
        } else if j == 2 {
            lemma_halves(230, -50, 230, -49, 230, -49, -50, -49);
            assert(edge(t, 1) == spec_at(230, -49).spec_minus(spec_at(230, -50)));
            assert(edge(t, 2) == spec_at(-50, -49).spec_minus(spec_at(230, -49)));
            assert(is_gentle_corner(t, 2));
        } else {
            lemma_halves(230, -49, -50, -49, -50, -49, -50, -50);
            assert(edge(t, 2) == spec_at(-50, -49).spec_minus(spec_at(230, -49)));
            assert(edge(t, 3) == spec_at(-50, -50).spec_minus(spec_at(-50, -49)));
            assert(is_gentle_corner(t, 3));
        }
    } else if k == 29 {
        assert(t.len() == 4);
        assert(t[0] == spec_at(229, -50));
        assert(t[1] == spec_at(230, -50));
        assert(t[2] == spec_at(230, 230));
        assert(t[3] == spec_at(229, 230));
        if j == 0 {
            lemma_halves(229, 230, 229, -50, 229, -50, 230, -50);
            assert(edge(t, 3) == spec_at(229, -50).spec_minus(spec_at(229, 230)));
            assert(edge(t, 0) == spec_at(230, -50).spec_minus(spec_at(229, -50)));
            assert(is_gentle_corner(t, 0));
        } else if j == 1 {
            lemma_halves(229, -50, 230, -50, 230, -50, 230, 230);
            assert(edge(t, 0) == spec_at(230, -50).spec_minus(spec_at(229, -50)));
            assert(edge(t, 1) == spec_at(230, 230).spec_minus(spec_at(230, -50)));
            assert(is_gentle_corner(t, 1));
        } else if j == 2 {
            lemma_halves(230, -50, 230, 230, 230, 230, 229, 230);
            assert(edge(t, 1) == spec_at(230, 230).spec_minus(spec_at(230, -50)));
            assert(edge(t, 2) == spec_at(229, 230).spec_minus(spec_at(230, 230)));
            assert(is_gentle_corner(t, 2));
        } else {
            lemma_halves(230, 230, 229, 230, 229, 230, 229, -50);
            assert(edge(t, 2) == spec_at(229, 230).spec_minus(spec_at(230, 230)));
            assert(edge(t, 3) == spec_at(229, -50).spec_minus(spec_at(229, 230)));
            assert(is_gentle_corner(t, 3));
        }
    } else if k == 30 {
        assert(t.len() == 4);
        assert(t[0] == spec_at(-50, -50));
        assert(t[1] == spec_at(-49, -50));
        assert(t[2] == spec_at(-49, 230));
        assert(t[3] == spec_at(-50, 230));
        if j == 0 {
            lemma_halves(-50, 230, -50, -50, -50, -50, -49, -50);
            assert(edge(t, 3) == spec_at(-50, -50).spec_minus(spec_at(-50, 230)));
            assert(edge(t, 0) == spec_at(-49, -50).spec_minus(spec_at(-50, -50)));
            assert(is_gentle_corner(t, 0));
        } else if j == 1 {
            lemma_halves(-50, -50, -49, -50, -49, -50, -49, 230);
            assert(edge(t, 0) == spec_at(-49, -50).spec_minus(spec_at(-50, -50)));
            assert(edge(t, 1) == spec_at(-49, 230).spec_minus(spec_at(-49, -50)));
            assert(is_gentle_corner(t, 1));
        } else if j == 2 {
            lemma_halves(-49, -50, -49, 230, -49, 230, -50, 230);
            assert(edge(t, 1) == spec_at(-49, 230).spec_minus(spec_at(-49, -50)));
            assert(edge(t, 2) == spec_at(-50, 230).spec_minus(spec_at(-49, 230)));
            assert(is_gentle_corner(t, 2));
        } else {
            lemma_halves(-49, 230, -50, 230, -50, 230, -50, -50);
            assert(edge(t, 2) == spec_at(-50, 230).spec_minus(spec_at(-49, 230)));
            assert(edge(t, 3) == spec_at(-50, -50).spec_minus(spec_at(-50, 230)));
            assert(is_gentle_corner(t, 3));
        }
    } else {
        assert(t.len() == 4);
        assert(t[0] == spec_at(-50, 229));
        assert(t[1] == spec_at(230, 229));
        assert(t[2] == spec_at(230, 230));
        assert(t[3] == spec_at(-50, 230));
        if j == 0 {
            lemma_halves(-50, 230, -50, 229, -50, 229, 230, 229);
            assert(edge(t, 3) == spec_at(-50, 229).spec_minus(spec_at(-50, 230)));
            assert(edge(t, 0) == spec_at(230, 229).spec_minus(spec_at(-50, 229)));
            assert(is_gentle_corner(t, 0));
        } else if j == 1 {
            lemma_halves(-50, 229, 230, 229, 230, 229, 230, 230);
            assert(edge(t, 0) == spec_at(230, 229).spec_minus(spec_at(-50, 229)));
            assert(edge(t, 1) == spec_at(230, 230).spec_minus(spec_at(230, 229)));
            assert(is_gentle_corner(t, 1));
        } else if j == 2 {
            lemma_halves(230, 229, 230, 230, 230, 230, -50, 230);
            assert(edge(t, 1) == spec_at(230, 230).spec_minus(spec_at(230, 229)));
            assert(edge(t, 2) == spec_at(-50, 230).spec_minus(spec_at(230, 230)));
            assert(is_gentle_corner(t, 2));
        } else {
            lemma_halves(230, 230, -50, 230, -50, 230, -50, 229);
            assert(edge(t, 2) == spec_at(-50, 230).spec_minus(spec_at(230, 230)));
            assert(edge(t, 3) == spec_at(-50, 229).spec_minus(spec_at(-50, 230)));
            assert(is_gentle_corner(t, 3));
        }
    }
}

/// Every building runs counter-clockwise: each triangle from its first
/// vertex does, so its signed area is positive.
proof fn lemma_template_area(k: int)
    requires
        0 <= k < BUILDING_COUNT,
    ensures
        doubled_area(template(k)) > 0,
{
    reveal_with_fuel(fan_area, 9);
    let t = template(k);
    if k < BLOCK_COUNT {
        let x = -40 + 40 * (k / 3);
        let y = -40 + 40 * (k % 3);
        assert(t.len() == 4);
        assert(t[0] == spec_at(x, y));
        assert(t[1] == spec_at(x + 20, y));
        assert(t[2] == spec_at(x + 20, y + 20));
        assert(t[3] == spec_at(x, y + 20));
        lemma_halves(x, y, x + 20, y, x, y, x + 20, y + 20);
        assert(((x + 20) - x) * ((y + 20) - y) - (y - y) * ((x + 20) - x) == 400) by (nonlinear_arith);
        lemma_halves(x, y, x + 20, y + 20, x, y, x, y + 20);
        assert(((x + 20) - x) * ((y + 20) - y) - ((y + 20) - y) * (x - x) == 400) by (nonlinear_arith);
    } else if k == 21 {
        assert(t.len() == 5);
        assert(t[0] == spec_at(20, 80));
        assert(t[1] == spec_at(60, 80));
        assert(t[2] == spec_at(60, 100));
        assert(t[3] == spec_at(40, 120));
        assert(t[4] == spec_at(20, 120));
        lemma_halves(20, 80, 60, 80, 20, 80, 60, 100);
        lemma_halves(20, 80, 60, 100, 20, 80, 40, 120);
        lemma_halves(20, 80, 40, 120, 20, 80, 20, 120);
    } else if k == 22 {
        assert(t.len() == 5);
        assert(t[0] == spec_at(140, 80));
        assert(t[1] == spec_at(140, 120));
        assert(t[2] == spec_at(120, 120));
        assert(t[3] == spec_at(100, 100));
        assert(t[4] == spec_at(100, 80));
        lemma_halves(140, 80, 140, 120, 140, 80, 120, 120);
        lemma_halves(140, 80, 120, 120, 140, 80, 100, 100);
        lemma_halves(140, 80, 100, 100, 140, 80, 100, 80);
    } else if k == 23 {
        assert(t.len() == 8);
        assert(t[0] == spec_at(65, 125));
        assert(t[1] == spec_at(75, 115));
        assert(t[2] == spec_at(85, 115));
        assert(t[3] == spec_at(95, 125));
        assert(t[4] == spec_at(95, 135));
        assert(t[5] == spec_at(85, 145));
        assert(t[6] == spec_at(75, 145));
        assert(t[7] == spec_at(65, 135));
        lemma_halves(65, 125, 75, 115, 65, 125, 85, 115);
        lemma_halves(65, 125, 85, 115, 65, 125, 95, 125);
        lemma_halves(65, 125, 95, 125, 65, 125, 95, 135);
        lemma_halves(65, 125, 95, 135, 65, 125, 85, 145);
        lemma_halves(65, 125, 85, 145, 65, 125, 75, 145);
        lemma_halves(65, 125, 75, 145, 65, 125, 65, 135);
    } else if k == 24 {
        assert(t.len() == 4);
        assert(t[0] == spec_at(-40, 80));
        assert(t[1] == spec_at(-10, 80));
        assert(t[2] == spec_at(-10, 140));
        assert(t[3] == spec_at(-40, 140));
        lemma_halves(-40, 80, -10, 80, -40, 80, -10, 140);
        lemma_halves(-40, 80, -10, 140, -40, 80, -40, 140);
    } else if k == 25 {
        assert(t.len() == 4);
        assert(t[0] == spec_at(190, 80));
        assert(t[1] == spec_at(190, 140));
        assert(t[2] == spec_at(160, 140));
        assert(t[3] == spec_at(160, 80));
        lemma_halves(190, 80, 190, 140, 190, 80, 160, 140);
        lemma_halves(190, 80, 160, 140, 190, 80, 160, 80);
    } else if k == 26 {
        assert(t.len() == 5);
        assert(t[0] == spec_at(20, 140));
        assert(t[1] == spec_at(40, 140));
        assert(t[2] == spec_at(60, 160));
        assert(t[3] == spec_at(60, 180));
        assert(t[4] == spec_at(20, 180));
        lemma_halves(20, 140, 40, 140, 20, 140, 60, 160);
        lemma_halves(20, 140, 60, 160, 20, 140, 60, 180);
        lemma_halves(20, 140, 60, 180, 20, 140, 20, 180);
    } else if k == 27 {
        assert(t.len() == 5);
        assert(t[0] == spec_at(140, 140));
        assert(t[1] == spec_at(140, 180));
        assert(t[2] == spec_at(100, 180));
        assert(t[3] == spec_at(100, 160));
        assert(t[4] == spec_at(120, 140));
        lemma_halves(140, 140, 140, 180, 140, 140, 100, 180);
        lemma_halves(140, 140, 100, 180, 140, 140, 100, 160);
        lemma_halves(140, 140, 100, 160, 140, 140, 120, 140);
    } else if k == 28 {
        assert(t.len() == 4);
        assert(t[0] == spec_at(-50, -50));
        assert(t[1] == spec_at(230, -50));
        assert(t[2] == spec_at(230, -49));
        assert(t[3] == spec_at(-50, -49));
        lemma_halves(-50, -50, 230, -50, -50, -50, 230, -49);
        lemma_halves(-50, -50, 230, -49, -50, -50, -50, -49);
    } else if k == 29 {
        assert(t.len() == 4);
        assert(t[0] == spec_at(229, -50));
        assert(t[1] == spec_at(230, -50));
        assert(t[2] == spec_at(230, 230));
        assert(t[3] == spec_at(229, 230));
        lemma_halves(229, -50, 230, -50, 229, -50, 230, 230);
        lemma_halves(229, -50, 230, 230, 229, -50, 229, 230);
    } else if k == 30 {
        assert(t.len() == 4);
        assert(t[0] == spec_at(-50, -50));
        assert(t[1] == spec_at(-49, -50));
        assert(t[2] == spec_at(-49, 230));
        assert(t[3] == spec_at(-50, 230));
        lemma_halves(-50, -50, -49, -50, -50, -50, -49, 230);
        lemma_halves(-50, -50, -49, 230, -50, -50, -50, 230);
    } else {
        assert(t.len() == 4);
        assert(t[0] == spec_at(-50, 229));
        assert(t[1] == spec_at(230, 229));
        assert(t[2] == spec_at(230, 230));
        assert(t[3] == spec_at(-50, 230));
        lemma_halves(-50, 229, 230, 229, -50, 229, 230, 230);
        lemma_halves(-50, 229, 230, 230, -50, 229, -50, 230);
    }
}

/// Every building is a convex polygon that runs counter-clockwise: it has
/// three vertices or more, its signed area is positive, and it turns to the
/// left at every vertex, by a right angle at the most.
pub proof fn lemma_buildings_are_convex(k: int)
    requires
        0 <= k < BUILDING_COUNT,
    ensures
        is_gently_convex(template(k)),
{
    lemma_templates_within_reach(k);
    lemma_template_area(k);
    assert forall|j: int| 0 <= j < template(k).len() implies #[trigger] is_gentle_corner(
        template(k),
        j,
    ) by {
        lemma_template_corner(k, j);
    }
}

/// The outline of every building lies outside the building: each of its
/// vertices lies strictly to the right of both edges that meet at the
/// vertex of the building that it belongs to, and so not in the building.
pub proof fn lemma_outlines_lie_outside(k: int, j: int)
    requires
        0 <= k < BUILDING_COUNT,
        0 <= j < template(k).len(),
    ensures
        layout_outlines()[k][j] == outline_vertex(template(k), Scalar { raw: OUTLINE_MARGIN }, j),
        !lies_inside(template(k), layout_outlines()[k][j]),
        edge(template(k), j).cross_exact(layout_outlines()[k][j].spec_minus(template(k)[j])) < 0,
        edge(template(k), preceding(template(k), j)).cross_exact(
            layout_outlines()[k][j].spec_minus(template(k)[preceding(template(k), j)]),
        ) < 0,
{
    lemma_templates_within_reach(k);
    lemma_template_corner(k, j);
    lemma_outline_vertex_lies_outside(template(k), Scalar { raw: OUTLINE_MARGIN }, j);
    assert(layout_outlines()[k] == outline_vertices(template(k), Scalar { raw: OUTLINE_MARGIN }));
}

/// In every world that is made, every building is convex and runs
/// counter-clockwise, and every vertex of its outline lies outside it.
pub proof fn lemma_world_outlines_lie_outside(
    entity_count: u32,
    cop_entities: Scalar,
    infected_entities: Scalar,
    random_seed: u32,
    k: int,
    j: int,
)
    requires
        0 <= k < BUILDING_COUNT,
        0 <= j < template(k).len(),
    ensures
        generated(entity_count, cop_entities, infected_entities, random_seed).buildings[k]
            == template(k),
        is_gently_convex(
            generated(entity_count, cop_entities, infected_entities, random_seed).buildings[k],
        ),
        generated(
            entity_count,
            cop_entities,
            infected_entities,
            random_seed,
        ).building_outlines[k].len() == template(k).len(),
        !lies_inside(
            generated(entity_count, cop_entities, infected_entities, random_seed).buildings[k],
            generated(
                entity_count,
                cop_entities,
                infected_entities,
                random_seed,
            ).building_outlines[k][j],
        ),
{
    lemma_buildings_are_convex(k);
    lemma_outlines_lie_outside(k, j);
    assert(layout()[k] == template(k));
}

/// The four walls enclose the spawn area: each is a thin rectangle that
/// lies wholly beyond the area on its side, south, east, west and north,
/// and reaches past the area at both ends.
pub proof fn lemma_walls_enclose_the_spawn_area(j: int)
    requires
        0 <= j < 4,
    ensures
        template(28).len() == 4 && template(29).len() == 4 && template(30).len() == 4
            && template(31).len() == 4,
        template(28)[j].y.raw < 0,
        template(29)[j].x.raw >= SPAWN_AREA_SIDE,
        template(30)[j].x.raw < 0,
        template(31)[j].y.raw >= SPAWN_AREA_SIDE,
        template(28)[0].x.raw < 0 && template(28)[1].x.raw >= SPAWN_AREA_SIDE,
        template(31)[0].x.raw < 0 && template(31)[1].x.raw >= SPAWN_AREA_SIDE,
        template(29)[1].y.raw < 0 && template(29)[2].y.raw >= SPAWN_AREA_SIDE,
        template(30)[1].y.raw < 0 && template(30)[2].y.raw >= SPAWN_AREA_SIDE,
{
}

/// In every well-formed world the outline of every building lies outside
/// the building.
pub proof fn lemma_outline_lies_outside_in(world: StateView, k: int, j: int)
    requires
        world.wf(),
        0 <= k < world.buildings.len(),
        0 <= j < world.buildings[k].len(),
    ensures
        world.building_outlines[k].len() == world.buildings[k].len(),
        !lies_inside(world.buildings[k], world.building_outlines[k][j]),
{
    assert(is_gently_convex(world.buildings[k]));
    assert(is_gentle_corner(world.buildings[k], j));
    lemma_outline_vertex_lies_outside(world.buildings[k], Scalar { raw: OUTLINE_MARGIN }, j);
    assert(world.building_outlines[k] == outline_vertices(
        world.buildings[k],
        Scalar { raw: OUTLINE_MARGIN },
    ));
}

} // verus!
