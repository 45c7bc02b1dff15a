//! The grids that a theory block holds: which ones are present, in which
//! order, and access to each.

use crate::table::{Float, Grid, Grid5, Grid6, SpecGrid, SpecGrid5, SpecGrid6, Text};
use vstd::prelude::*;

verus! {

/// One of the grids a theory block can hold.
#[derive(Debug, Clone, Copy, PartialEq, Eq, Structural)]
pub enum GridSlot {
    /// The grid of a block of fixed scales.
    Fixed,
    /// The scale-independent grid of a block of flexible scales.
    Central,
    /// The grid of the factorisation-scale logarithm.
    F,
    /// The grid of the renormalisation-scale logarithm.
    R,
    /// The grid of the squared renormalisation-scale logarithm.
    RR,
    /// The grid of the squared factorisation-scale logarithm.
    FF,
    /// The grid of the mixed logarithm.
    RF,
}

pub open spec fn slot_if(o: Option<SpecGrid5>, s: GridSlot) -> Seq<GridSlot> {
    if o is Some {
        seq![s]
    } else {
        seq![]
    }
}

/// The grids present in `g`, in the order fixed, or central, F, R, RR, FF,
/// RF.
pub open spec fn spec_grids(g: SpecGrid) -> Seq<GridSlot> {
    match g {
        SpecGrid::Fixed { .. } => seq![GridSlot::Fixed],
        SpecGrid::Flex { grid_f, grid_r, grid_rr, grid_ff, grid_rf, .. } => seq![GridSlot::Central]
            + slot_if(grid_f, GridSlot::F) + slot_if(grid_r, GridSlot::R) + slot_if(grid_rr, GridSlot::RR)
            + slot_if(grid_ff, GridSlot::FF) + slot_if(grid_rf, GridSlot::RF),
    }
}

/// The grid of flexible scales in slot `s` of `g`, where there is one.
pub open spec fn spec_flex_grid(g: SpecGrid, s: GridSlot) -> Option<SpecGrid5> {
    match g {
        SpecGrid::Fixed { .. } => None,
        SpecGrid::Flex { grid, grid_f, grid_r, grid_rr, grid_ff, grid_rf, .. } => match s {
            GridSlot::Fixed => None,
            GridSlot::Central => Some(grid),
            GridSlot::F => grid_f,
            GridSlot::R => grid_r,
            GridSlot::RR => grid_rr,
            GridSlot::FF => grid_ff,
            GridSlot::RF => grid_rf,
        },
    }
}

/// `g` with the grid of flexible scales in slot `s` replaced by `v`, where
/// that slot holds one; `g` unchanged otherwise.
pub open spec fn spec_set_flex_grid(g: SpecGrid, s: GridSlot, v: SpecGrid5) -> SpecGrid {
    match g {
        SpecGrid::Fixed { .. } => g,
        SpecGrid::Flex { scale_node_1, scale_node_2, grid, grid_f, grid_r, grid_rr, grid_ff, grid_rf, sigma_ref_mixed, sigma_ref_s1, sigma_ref_s2 } => match s {
            GridSlot::Fixed => g,
            GridSlot::Central => SpecGrid::Flex { scale_node_1, scale_node_2, grid: v, grid_f, grid_r, grid_rr, grid_ff, grid_rf, sigma_ref_mixed, sigma_ref_s1, sigma_ref_s2 },
            GridSlot::F => if grid_f is Some {
                SpecGrid::Flex { scale_node_1, scale_node_2, grid, grid_f: Some(v), grid_r, grid_rr, grid_ff, grid_rf, sigma_ref_mixed, sigma_ref_s1, sigma_ref_s2 }
            } else {
                g
            },
            GridSlot::R => if grid_r is Some {
                SpecGrid::Flex { scale_node_1, scale_node_2, grid, grid_f, grid_r: Some(v), grid_rr, grid_ff, grid_rf, sigma_ref_mixed, sigma_ref_s1, sigma_ref_s2 }
            } else {
                g
            },
            GridSlot::RR => if grid_rr is Some {
                SpecGrid::Flex { scale_node_1, scale_node_2, grid, grid_f, grid_r, grid_rr: Some(v), grid_ff, grid_rf, sigma_ref_mixed, sigma_ref_s1, sigma_ref_s2 }
            } else {
                g
            },
            GridSlot::FF => if grid_ff is Some {
                SpecGrid::Flex { scale_node_1, scale_node_2, grid, grid_f, grid_r, grid_rr, grid_ff: Some(v), grid_rf, sigma_ref_mixed, sigma_ref_s1, sigma_ref_s2 }
            } else {
                g
            },
            GridSlot::RF => if grid_rf is Some {
                SpecGrid::Flex { scale_node_1, scale_node_2, grid, grid_f, grid_r, grid_rr, grid_ff, grid_rf: Some(v), sigma_ref_mixed, sigma_ref_s1, sigma_ref_s2 }
            } else {
                g
            },
        },
    }
}

/// The grid of fixed scales of `g`, where it has one.
pub open spec fn spec_fixed_grid(g: SpecGrid) -> Option<SpecGrid6> {
    match g {
        SpecGrid::Fixed { grid, .. } => Some(grid),
        SpecGrid::Flex { .. } => None,
    }
}

fn push_if(v: &mut Vec<GridSlot>, o: &Option<Grid5>, s: GridSlot)
    ensures
        final(v)@ == old(v)@ + slot_if(o.deep_view(), s),
{
    if o.is_some() {
        v.push(s);
    } else {
        proof {
            assert(old(v)@ + slot_if(o.deep_view(), s) =~= old(v)@);
        }
    }
}

impl Grid {
    /// The grids present, in the order fixed, or central, F, R, RR, FF, RF.
    pub fn grids(&self) -> (r: Vec<GridSlot>)
        ensures
            r@ == spec_grids(self.deep_view()),
    {
        match self {
            Grid::Fixed { .. } => {
                let v = vec![GridSlot::Fixed];
                proof {
                    assert(v@ =~= seq![GridSlot::Fixed]);
                }
                v
            },
            Grid::Flex { grid_f, grid_r, grid_rr, grid_ff, grid_rf, .. } => {
                let mut v = vec![GridSlot::Central];
                proof {
                    assert(v@ =~= seq![GridSlot::Central]);
                }
                push_if(&mut v, grid_f, GridSlot::F);
                push_if(&mut v, grid_r, GridSlot::R);
                push_if(&mut v, grid_rr, GridSlot::RR);
                push_if(&mut v, grid_ff, GridSlot::FF);
                push_if(&mut v, grid_rf, GridSlot::RF);
                v
            },
        }
    }

    /// The grid of flexible scales in slot `s`, where there is one.
    pub fn flex_grid(&self, s: GridSlot) -> (r: Option<&Grid5>)
        ensures
            r.deep_view() == spec_flex_grid(self.deep_view(), s),
    {
        match self {
            Grid::Fixed { .. } => None,
            Grid::Flex { grid, grid_f, grid_r, grid_rr, grid_ff, grid_rf, .. } => match s {
                GridSlot::Fixed => None,
                GridSlot::Central => Some(grid),
                GridSlot::F => grid_f.as_ref(),
                GridSlot::R => grid_r.as_ref(),
                GridSlot::RR => grid_rr.as_ref(),
                GridSlot::FF => grid_ff.as_ref(),
                GridSlot::RF => grid_rf.as_ref(),
            },
        }
    }

    /// The grid of fixed scales, where there is one.
    pub fn fixed_grid(&self) -> (r: Option<&Grid6>)
        ensures
            r.deep_view() == spec_fixed_grid(self.deep_view()),
    {
        match self {
            Grid::Fixed { grid, .. } => Some(grid),
            Grid::Flex { .. } => None,
        }
    }

    /// Replaces the grid of flexible scales in slot `s` by `v`, where that
    /// slot holds one; leaves the grid unchanged otherwise.
    pub fn set_flex_grid(&mut self, s: GridSlot, v: Grid5)
        ensures
            final(self).deep_view() == spec_set_flex_grid(old(self).deep_view(), s, v.deep_view()),
    {
        match self {
            Grid::Fixed { .. } => {},
            Grid::Flex { grid, grid_f, grid_r, grid_rr, grid_ff, grid_rf, .. } => match s {
                GridSlot::Fixed => {},
                GridSlot::Central => {
                    *grid = v;
                },
                GridSlot::F => {
                    if grid_f.is_some() {
                        *grid_f = Some(v);
                    }
                },
                GridSlot::R => {
                    if grid_r.is_some() {
                        *grid_r = Some(v);
                    }
                },
                GridSlot::RR => {
                    if grid_rr.is_some() {
                        *grid_rr = Some(v);
                    }
                },
                GridSlot::FF => {
                    if grid_ff.is_some() {
                        *grid_ff = Some(v);
                    }
                },
                GridSlot::RF => {
                    if grid_rf.is_some() {
                        *grid_rf = Some(v);
                    }
                },
            },
        }
    }
}

// ---------------------------------------------------------------------------
// Counting entries
// ---------------------------------------------------------------------------

/// The sum of a sequence of counts.
pub open spec fn sum(s: Seq<nat>) -> nat
    decreases s.len(),
{
    if s.len() == 0 {
        0
    } else {
        sum(s.drop_last()) + s.last()
    }
}

/// The number of values in a list of lists.
pub open spec fn entries2(g: Seq<Seq<Text>>) -> nat {
    sum(g.map_values(|r: Seq<Text>| r.len()))
}

pub open spec fn entries3(g: Seq<Seq<Seq<Text>>>) -> nat {
    sum(g.map_values(|r: Seq<Seq<Text>>| entries2(r)))
}

pub open spec fn entries4(g: Seq<Seq<Seq<Seq<Text>>>>) -> nat {
    sum(g.map_values(|r: Seq<Seq<Seq<Text>>>| entries3(r)))
}

/// The number of values in a grid of five dimensions.
pub open spec fn entries5(g: SpecGrid5) -> nat {
    sum(g.map_values(|r: Seq<Seq<Seq<Seq<Text>>>>| entries4(r)))
}

/// A count where it fits in a `usize`.
pub open spec fn fitting(n: nat) -> Option<usize> {
    if n <= usize::MAX {
        Some(n as usize)
    } else {
        None
    }
}

proof fn lemma_sum_step(s: Seq<nat>, i: int)
    requires
        0 <= i < s.len(),
    ensures
        sum(s.take(i + 1)) == sum(s.take(i)) + s[i],
{
    assert(s.take(i + 1).drop_last() =~= s.take(i));
}

proof fn lemma_sum_prefix(s: Seq<nat>, i: int)
    requires
        0 <= i <= s.len(),
    ensures
        sum(s.take(i)) <= sum(s),
        s.take(s.len() as int) == s,
    decreases s.len(),
{
    assert(s.take(s.len() as int) =~= s);
    if i < s.len() {
        lemma_sum_prefix(s.drop_last(), i);
        assert(s.drop_last().take(i) =~= s.take(i));
    }
}

proof fn lemma_sum_element(s: Seq<nat>, i: int)
    requires
        0 <= i < s.len(),
    ensures
        s[i] <= sum(s),
{
    lemma_sum_step(s, i);
    lemma_sum_prefix(s, i + 1);
}

fn count2(g: &Vec<Vec<Float>>) -> (r: Option<usize>)
    ensures
        r == fitting(entries2(g.deep_view())),
{
    let ghost m = g.deep_view().map_values(|r: Seq<Text>| r.len());
    let mut n: usize = 0;
    let mut i: usize = 0;
    while i < g.len()
        invariant
            i <= g.len(),
            m == g.deep_view().map_values(|r: Seq<Text>| r.len()),
            n == sum(m.take(i as int)),
        decreases g.len() - i,
    {
        proof {
            lemma_sum_step(m, i as int);
            lemma_sum_prefix(m, i as int + 1);
            assert(m[i as int] == g[i as int].len());
        }
        match n.checked_add(g[i].len()) {
            Some(k) => n = k,
            None => return None,
        }
        i = i + 1;
    }
    proof {
        lemma_sum_prefix(m, i as int);
    }
    Some(n)
}

fn count3(g: &Vec<Vec<Vec<Float>>>) -> (r: Option<usize>)
    ensures
        r == fitting(entries3(g.deep_view())),
{
    let ghost m = g.deep_view().map_values(|r: Seq<Seq<Text>>| entries2(r));
    let mut n: usize = 0;
    let mut i: usize = 0;
    while i < g.len()
        invariant
            i <= g.len(),
            m == g.deep_view().map_values(|r: Seq<Seq<Text>>| entries2(r)),
            n == sum(m.take(i as int)),
        decreases g.len() - i,
    {
        proof {
            lemma_sum_step(m, i as int);
            lemma_sum_prefix(m, i as int + 1);
            lemma_sum_element(m, i as int);
            assert(m[i as int] == entries2(g[i as int].deep_view()));
        }
        match count2(&g[i]) {
            None => return None,
            Some(c) => match n.checked_add(c) {
                Some(k) => n = k,
                None => return None,
            },
        }
        i = i + 1;
    }
    proof {
        lemma_sum_prefix(m, i as int);
    }
    Some(n)
}

fn count4(g: &Vec<Vec<Vec<Vec<Float>>>>) -> (r: Option<usize>)
    ensures
        r == fitting(entries4(g.deep_view())),
{
    let ghost m = g.deep_view().map_values(|r: Seq<Seq<Seq<Text>>>| entries3(r));
    let mut n: usize = 0;
    let mut i: usize = 0;
    while i < g.len()
        invariant
            i <= g.len(),
            m == g.deep_view().map_values(|r: Seq<Seq<Seq<Text>>>| entries3(r)),
            n == sum(m.take(i as int)),
        decreases g.len() - i,
    {
        proof {
            lemma_sum_step(m, i as int);
            lemma_sum_prefix(m, i as int + 1);
            lemma_sum_element(m, i as int);
            assert(m[i as int] == entries3(g[i as int].deep_view()));
        }
        match count3(&g[i]) {
            None => return None,
            Some(c) => match n.checked_add(c) {
                Some(k) => n = k,
                None => return None,
            },
        }
        i = i + 1;
    }
    proof {
        lemma_sum_prefix(m, i as int);
    }
    Some(n)
}

/// The number of values in a grid of five dimensions; `None` where the
/// count does not fit in a `usize`.
pub fn grid_entries(g: &Grid5) -> (r: Option<usize>)
    ensures
        r == fitting(entries5(g.deep_view())),
{
    let ghost m = g.deep_view().map_values(|r: Seq<Seq<Seq<Seq<Text>>>>| entries4(r));
    let mut n: usize = 0;
    let mut i: usize = 0;
    while i < g.len()
        invariant
            i <= g.len(),
            m == g.deep_view().map_values(|r: Seq<Seq<Seq<Seq<Text>>>>| entries4(r)),
            n == sum(m.take(i as int)),
        decreases g.len() - i,
    {
        proof {
            lemma_sum_step(m, i as int);
            lemma_sum_prefix(m, i as int + 1);
            lemma_sum_element(m, i as int);
            assert(m[i as int] == entries4(g[i as int].deep_view()));
        }
        match count4(&g[i]) {
            None => return None,
            Some(c) => match n.checked_add(c) {
                Some(k) => n = k,
                None => return None,
            },
        }
        i = i + 1;
    }
    proof {
        lemma_sum_prefix(m, i as int);
    }
    Some(n)
}

} // verus!
