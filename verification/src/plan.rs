//! What evaluating a table and rebuilding its scale-dependent grids need:
//! which pieces of each theory block come from the table, which are rebuilt
//! from a lower order, and which lower-order block a rebuilt piece uses.
//! The numbers themselves are computed by the caller.

use vstd::prelude::*;

use crate::table::{BlockData, FastNLOFile, Grid, SpecBlock, SpecBlockData, SpecFile, SpecGrid};

verus! {

/// Where a piece of the scale dependence of a block comes from.
#[derive(Debug, Clone, Copy, PartialEq, Eq, Structural)]
pub enum Piece {
    /// The scale format of the block has no such piece.
    Unused,
    /// The table holds the grid of the piece.
    Table,
    /// The grid is missing and is rebuilt from lower orders.
    Rebuilt,
}

/// The pieces of the scale dependence of one theory block, and its order in
/// the strong coupling above the leading order.
#[derive(Debug, Clone, Copy, PartialEq, Eq, Structural)]
pub struct ScalePlan {
    pub order: usize,
    pub r: Piece,
    pub f: Piece,
    pub rr: Piece,
    pub ff: Piece,
    pub rf: Piece,
}

pub open spec fn piece(active: bool, present: bool) -> Piece {
    if !active {
        Piece::Unused
    } else if present {
        Piece::Table
    } else {
        Piece::Rebuilt
    }
}

/// A theory block with a grid of flexible scales whose power of the strong
/// coupling is at least the leading one.
pub open spec fn flex_theory(alphas_ord: usize, b: SpecBlock) -> bool {
    b.data matches SpecBlockData::TheoryBlock { alphas_power, grid, .. } && grid is Flex && alphas_power
        >= alphas_ord
}

/// The grids that rebuilding the scale dependence of a block fills in.
pub open spec fn rebuild_plan(alphas_ord: usize, b: SpecBlock) -> ScalePlan
    recommends
        flex_theory(alphas_ord, b),
{
    match b.data {
        SpecBlockData::TheoryBlock {
            alphas_power,
            grid: SpecGrid::Flex { grid_f, grid_r, grid_rr, grid_ff, grid_rf, .. },
            ..
        } => ScalePlan {
            order: (alphas_power - alphas_ord) as usize,
            r: piece(b.scale_format >= 5, grid_r is Some),
            f: piece(b.scale_format >= 5, grid_f is Some),
            rr: piece(b.scale_format >= 6, grid_rr is Some),
            ff: piece(b.scale_format >= 7, grid_ff is Some),
            rf: piece(b.scale_format >= 7, grid_rf is Some),
        },
        _ => ScalePlan {
            order: 0,
            r: Piece::Unused,
            f: Piece::Unused,
            rr: Piece::Unused,
            ff: Piece::Unused,
            rf: Piece::Unused,
        },
    }
}

/// Rebuilding runs through every block: all are theory blocks of flexible
/// scales, and a block that rebuilds its first-order pieces is one or two
/// orders above the leading one.
pub open spec fn rebuild_runs(f: SpecFile) -> bool {
    forall|i: int|
        0 <= i < f.blocks.len() ==> {
            let b = #[trigger] f.blocks[i];
            &&& flex_theory(f.metadata.alphas_ord, b)
            &&& {
                let p = rebuild_plan(f.metadata.alphas_ord, b);
                (p.r == Piece::Rebuilt || p.f == Piece::Rebuilt) ==> (p.order == 1 || p.order == 2)
            }
        }
}

/// The pieces that evaluating a block uses; a block above the highest
/// order asked for is left out.
pub open spec fn xsec_plan(alphas_ord: usize, max_order: Option<usize>, b: SpecBlock) -> Option<ScalePlan>
    recommends
        flex_theory(alphas_ord, b),
{
    match b.data {
        SpecBlockData::TheoryBlock {
            alphas_power,
            grid: SpecGrid::Flex { grid_f, grid_r, grid_rr, grid_ff, grid_rf, .. },
            ..
        } => if max_order matches Some(m) && m < alphas_power - alphas_ord {
            None
        } else {
            Some(
                ScalePlan {
                    order: (alphas_power - alphas_ord) as usize,
                    r: piece(b.scale_format >= 5, grid_r is Some),
                    f: piece(b.scale_format >= 5, grid_f is Some),
                    rr: piece(b.scale_format >= 6, grid_rr is Some),
                    ff: piece(b.scale_format >= 7, grid_ff is Some && grid_rf is Some),
                    rf: piece(b.scale_format >= 7, grid_ff is Some && grid_rf is Some),
                },
            )
        },
        _ => None,
    }
}

/// The block is left out of an evaluation up to `max_order`.
pub open spec fn xsec_skips(alphas_ord: usize, max_order: Option<usize>, b: SpecBlock) -> bool {
    b.data matches SpecBlockData::TheoryBlock { alphas_power, .. } && max_order matches Some(m) && alphas_power
        >= alphas_ord && m < alphas_power - alphas_ord
}

/// Evaluation runs through every block: all are theory blocks at or above
/// the leading order, and those it does not leave out have grids of
/// flexible scales.
pub open spec fn xsec_runs(f: SpecFile, max_order: Option<usize>) -> bool {
    forall|i: int|
        0 <= i < f.blocks.len() ==> {
            let b = #[trigger] f.blocks[i];
            &&& b.data is TheoryBlock
            &&& b.data->TheoryBlock_alphas_power >= f.metadata.alphas_ord
            &&& !xsec_skips(f.metadata.alphas_ord, max_order, b) ==> b.data->TheoryBlock_grid is Flex
        }
}

fn make_plan(
    order: usize,
    sf: usize,
    r: bool,
    f: bool,
    rr: bool,
    ff: bool,
    rf: bool,
) -> (p: ScalePlan)
    ensures
        p == (ScalePlan {
            order,
            r: piece(sf >= 5, r),
            f: piece(sf >= 5, f),
            rr: piece(sf >= 6, rr),
            ff: piece(sf >= 7, ff),
            rf: piece(sf >= 7, rf),
        }),
{
    ScalePlan {
        order,
        r: piece_exec(sf >= 5, r),
        f: piece_exec(sf >= 5, f),
        rr: piece_exec(sf >= 6, rr),
        ff: piece_exec(sf >= 7, ff),
        rf: piece_exec(sf >= 7, rf),
    }
}

fn piece_exec(active: bool, present: bool) -> (p: Piece)
    ensures
        p == piece(active, present),
{
    if !active {
        Piece::Unused
    } else if present {
        Piece::Table
    } else {
        Piece::Rebuilt
    }
}

impl FastNLOFile {
    /// For each block, the grids that rebuilding the scale dependence fills
    /// in and the order of the block.
    pub fn rebuild_plan(&self) -> (r: Vec<ScalePlan>)
        requires
            rebuild_runs(self.deep_view()),
        ensures
            r@.len() == self.blocks@.len(),
            forall|i: int|
                0 <= i < r@.len() ==> #[trigger] r@[i] == rebuild_plan(
                    self.metadata.alphas_ord,
                    self.deep_view().blocks[i],
                ),
    {
        let mut out: Vec<ScalePlan> = Vec::new();
        let mut i: usize = 0;
        while i < self.blocks.len()
            invariant
                i <= self.blocks@.len(),
                rebuild_runs(self.deep_view()),
                out@.len() == i,
                forall|k: int|
                    0 <= k < i ==> #[trigger] out@[k] == rebuild_plan(
                        self.metadata.alphas_ord,
                        self.deep_view().blocks[k],
                    ),
            decreases self.blocks@.len() - i,
        {
            let b = &self.blocks[i];
            proof {
                assert(self.deep_view().blocks[i as int] == b.deep_view());
                assert(flex_theory(self.metadata.alphas_ord, b.deep_view()));
            }
            match &b.data {
                BlockData::TheoryBlock {
                    alphas_power,
                    grid: Grid::Flex { grid_f, grid_r, grid_rr, grid_ff, grid_rf, .. },
                    ..
                } => {
                    let p = make_plan(
                        *alphas_power - self.metadata.alphas_ord,
                        b.scale_format,
                        grid_r.is_some(),
                        grid_f.is_some(),
                        grid_rr.is_some(),
                        grid_ff.is_some(),
                        grid_rf.is_some(),
                    );
                    out.push(p);
                },
                _ => {
                    proof {
                        assert(false);
                    }
                },
            }
            i = i + 1;
        }
        out
    }

    /// For each block, the pieces that evaluating the table up to
    /// `max_order` orders above the leading one uses, or `None` for a block
    /// above that order.
    pub fn xsec_plan(&self, max_order: Option<usize>) -> (r: Vec<Option<ScalePlan>>)
        requires
            xsec_runs(self.deep_view(), max_order),
        ensures
            r@.len() == self.blocks@.len(),
            forall|i: int|
                0 <= i < r@.len() ==> #[trigger] r@[i] == xsec_plan(
                    self.metadata.alphas_ord,
                    max_order,
                    self.deep_view().blocks[i],
                ),
    {
        let mut out: Vec<Option<ScalePlan>> = Vec::new();
        let mut i: usize = 0;
        while i < self.blocks.len()
            invariant
                i <= self.blocks@.len(),
                xsec_runs(self.deep_view(), max_order),
                out@.len() == i,
                forall|k: int|
                    0 <= k < i ==> #[trigger] out@[k] == xsec_plan(
                        self.metadata.alphas_ord,
                        max_order,
                        self.deep_view().blocks[k],
                    ),
            decreases self.blocks@.len() - i,
        {
            let b = &self.blocks[i];
            proof {
                assert(self.deep_view().blocks[i as int] == b.deep_view());
            }
            match &b.data {
                BlockData::TheoryBlock { alphas_power, grid, .. } => {
                    let n = *alphas_power - self.metadata.alphas_ord;
                    let skip = match max_order {
                        Some(m) => m < n,
                        None => false,
                    };
                    if skip {
                        out.push(None);
                    } else {
                        match grid {
                            Grid::Flex { grid_f, grid_r, grid_rr, grid_ff, grid_rf, .. } => {
                                let both = grid_ff.is_some() && grid_rf.is_some();
                                let p = make_plan(
                                    n,
                                    b.scale_format,
                                    grid_r.is_some(),
                                    grid_f.is_some(),
                                    grid_rr.is_some(),
                                    both,
                                    both,
                                );
                                out.push(Some(p));
                            },
                            Grid::Fixed { .. } => {
                                proof {
                                    assert(false);
                                }
                            },
                        }
                    }
                },
                _ => {
                    proof {
                        assert(false);
                    }
                },
            }
            i = i + 1;
        }
        out
    }
}


// ---------------------------------------------------------------------------
// Lower orders
// ---------------------------------------------------------------------------

/// The block that a piece of a higher order is rebuilt from, as searching the
/// blocks in order finds it.
#[derive(Debug, Clone)]
pub enum LowerOrder {
    /// The block, and for each of its subprocesses the subprocess of the
    /// higher order with the same flavours.
    Found { block: usize, subprocess_map: Vec<usize> },
    /// A subprocess of the block has no subprocess of the higher order with
    /// the same flavours.
    MissingSubprocess { block: usize, subprocess: usize },
    /// A theory block of fixed scales comes first; those are not provided
    /// for.
    FixedGrid { block: usize },
    /// The power of a theory block plus the order difference overflows.
    Overflow { block: usize },
    /// No block has the lower order.
    NotFound,
}

pub enum SpecLowerOrder {
    Found(int, Seq<int>),
    MissingSubprocess(int, int),
    FixedGrid(int),
    Overflow(int),
    NotFound,
}

impl View for LowerOrder {
    type V = SpecLowerOrder;

    open spec fn view(&self) -> SpecLowerOrder {
        match self {
            LowerOrder::Found { block, subprocess_map } => SpecLowerOrder::Found(
                *block as int,
                Seq::new(subprocess_map@.len(), |k: int| subprocess_map@[k] as int),
            ),
            LowerOrder::MissingSubprocess { block, subprocess } => SpecLowerOrder::MissingSubprocess(
                *block as int,
                *subprocess as int,
            ),
            LowerOrder::FixedGrid { block } => SpecLowerOrder::FixedGrid(*block as int),
            LowerOrder::Overflow { block } => SpecLowerOrder::Overflow(*block as int),
            LowerOrder::NotFound => SpecLowerOrder::NotFound,
        }
    }
}

pub type Flavors = Seq<(isize, isize)>;

/// The first subprocess of `list` from `k` on with the flavours `s`.
pub open spec fn position_from(list: Seq<Flavors>, s: Flavors, k: int) -> Option<int>
    decreases list.len() - k,
{
    if k < 0 || k >= list.len() {
        None
    } else if list[k] == s {
        Some(k)
    } else {
        position_from(list, s, k + 1)
    }
}

/// The subprocesses of `ref_list` with the flavours of each of `subs`, or the
/// first of `subs` that has none.
pub open spec fn subprocess_map(subs: Seq<Flavors>, ref_list: Seq<Flavors>) -> Result<Seq<int>, int>
    decreases subs.len(),
{
    if subs.len() == 0 {
        Ok(seq![])
    } else {
        match subprocess_map(subs.drop_last(), ref_list) {
            Err(k) => Err(k),
            Ok(m) => match position_from(ref_list, subs.last(), 0) {
                Some(j) => Ok(m.push(j)),
                None => Err(subs.len() - 1),
            },
        }
    }
}

/// Searching the blocks from `i` on for the theory block whose power of the
/// strong coupling is `n` below `ref_order`.
pub open spec fn lower_from(
    blocks: Seq<SpecBlock>,
    ref_list: Seq<Flavors>,
    ref_order: usize,
    n: usize,
    i: int,
) -> SpecLowerOrder
    decreases blocks.len() - i,
{
    if i < 0 || i >= blocks.len() {
        SpecLowerOrder::NotFound
    } else {
        match blocks[i].data {
            SpecBlockData::TheoryBlock { alphas_power, grid, pdf_info, .. } => if grid is Fixed {
                SpecLowerOrder::FixedGrid(i)
            } else if alphas_power + n > usize::MAX {
                SpecLowerOrder::Overflow(i)
            } else if alphas_power + n == ref_order {
                match subprocess_map(pdf_info.parton_flavors, ref_list) {
                    Ok(m) => SpecLowerOrder::Found(i, m),
                    Err(k) => SpecLowerOrder::MissingSubprocess(i, k),
                }
            } else {
                lower_from(blocks, ref_list, ref_order, n, i + 1)
            },
            _ => lower_from(blocks, ref_list, ref_order, n, i + 1),
        }
    }
}

fn flavors_equal(a: &Vec<(isize, isize)>, b: &Vec<(isize, isize)>) -> (r: bool)
    ensures
        r == (a.deep_view() == b.deep_view()),
{
    if a.len() != b.len() {
        proof {
            assert(a.deep_view().len() != b.deep_view().len());
        }
        return false;
    }
    let mut i: usize = 0;
    while i < a.len()
        invariant
            i <= a@.len(),
            a@.len() == b@.len(),
            forall|k: int| 0 <= k < i ==> a@[k] == b@[k],
        decreases a@.len() - i,
    {
        if a[i].0 != b[i].0 || a[i].1 != b[i].1 {
            proof {
                assert(a.deep_view()[i as int] != b.deep_view()[i as int]);
            }
            return false;
        }
        i = i + 1;
    }
    proof {
        assert(a.deep_view() =~= b.deep_view());
    }
    true
}

fn position_of(list: &Vec<Vec<(isize, isize)>>, s: &Vec<(isize, isize)>) -> (r: Option<usize>)
    ensures
        match r {
            Some(j) => position_from(list.deep_view(), s.deep_view(), 0) == Some(j as int),
            None => position_from(list.deep_view(), s.deep_view(), 0) is None,
        },
{
    let ghost l = list.deep_view();
    let mut k: usize = 0;
    while k < list.len()
        invariant
            k <= list@.len(),
            l == list.deep_view(),
            position_from(l, s.deep_view(), 0) == position_from(l, s.deep_view(), k as int),
        decreases list@.len() - k,
    {
        if flavors_equal(&list[k], s) {
            return Some(k);
        }
        k = k + 1;
    }
    None
}

fn make_subprocess_map(subs: &Vec<Vec<(isize, isize)>>, ref_list: &Vec<Vec<(isize, isize)>>) -> (r: Result<
    Vec<usize>,
    usize,
>)
    ensures
        match r {
            Ok(m) => subprocess_map(subs.deep_view(), ref_list.deep_view()) == Ok::<Seq<int>, int>(
                Seq::new(m@.len(), |k: int| m@[k] as int),
            ),
            Err(k) => subprocess_map(subs.deep_view(), ref_list.deep_view()) == Err::<Seq<int>, int>(
                k as int,
            ),
        },
{
    let ghost sv = subs.deep_view();
    let mut m: Vec<usize> = Vec::new();
    let mut i: usize = 0;
    proof {
        assert(sv.take(0).len() == 0);
        assert(Seq::new(m@.len(), |k: int| m@[k] as int) =~= Seq::<int>::empty());
    }
    while i < subs.len()
        invariant
            i <= subs@.len(),
            sv == subs.deep_view(),
            subprocess_map(sv.take(i as int), ref_list.deep_view()) == Ok::<Seq<int>, int>(
                Seq::new(m@.len(), |k: int| m@[k] as int),
            ),
        decreases subs@.len() - i,
    {
        proof {
            assert(sv.take(i as int + 1).drop_last() =~= sv.take(i as int));
            assert(sv.take(i as int + 1).last() == sv[i as int]);
        }
        match position_of(ref_list, &subs[i]) {
            Some(j) => {
                let ghost before = m@;
                m.push(j);
                proof {
                    assert(Seq::new(m@.len(), |k: int| m@[k] as int) =~= Seq::new(
                        before.len(),
                        |k: int| before[k] as int,
                    ).push(j as int));
                }
            },
            None => {
                proof {
                    lemma_subprocess_map_prefix(sv, ref_list.deep_view(), i as int + 1);
                }
                return Err(i);
            },
        }
        i = i + 1;
    }
    proof {
        assert(sv.take(i as int) =~= sv);
    }
    Ok(m)
}

/// A subprocess without a partner makes the whole map fail at the first such
/// one.
proof fn lemma_subprocess_map_prefix(subs: Seq<Flavors>, ref_list: Seq<Flavors>, j: int)
    requires
        0 < j <= subs.len(),
        subprocess_map(subs.take(j), ref_list) is Err,
    ensures
        subprocess_map(subs, ref_list) == subprocess_map(subs.take(j), ref_list),
    decreases subs.len() - j,
{
    if j < subs.len() {
        assert(subs.take(j + 1).drop_last() =~= subs.take(j));
        lemma_subprocess_map_prefix(subs, ref_list, j + 1);
    } else {
        assert(subs.take(j) =~= subs);
    }
}

impl FastNLOFile {
    /// The first theory block whose power of the strong coupling is `n` below
    /// `ref_order`, with the subprocesses of `ref_flavors` that its
    /// subprocesses stand for.
    pub fn lower_order_block(&self, ref_flavors: &Vec<Vec<(isize, isize)>>, ref_order: usize, n: usize) -> (r:
        LowerOrder)
        ensures
            r@ == lower_from(self.deep_view().blocks, ref_flavors.deep_view(), ref_order, n, 0),
    {
        let ghost bl = self.deep_view().blocks;
        let mut i: usize = 0;
        while i < self.blocks.len()
            invariant
                i <= self.blocks@.len(),
                bl == self.deep_view().blocks,
                lower_from(bl, ref_flavors.deep_view(), ref_order, n, 0) == lower_from(
                    bl,
                    ref_flavors.deep_view(),
                    ref_order,
                    n,
                    i as int,
                ),
            decreases self.blocks@.len() - i,
        {
            proof {
                assert(bl[i as int] == self.blocks@[i as int].deep_view());
            }
            match &self.blocks[i].data {
                BlockData::TheoryBlock { alphas_power, grid, pdf_info, .. } => {
                    match grid {
                        Grid::Fixed { .. } => {
                            return LowerOrder::FixedGrid { block: i };
                        },
                        Grid::Flex { .. } => {},
                    }
                    match alphas_power.checked_add(n) {
                        None => {
                            return LowerOrder::Overflow { block: i };
                        },
                        Some(sum) => {
                            if sum == ref_order {
                                return match make_subprocess_map(&pdf_info.parton_flavors, ref_flavors) {
                                    Ok(m) => LowerOrder::Found { block: i, subprocess_map: m },
                                    Err(k) => LowerOrder::MissingSubprocess { block: i, subprocess: k },
                                };
                            }
                        },
                    }
                },
                _ => {},
            }
            i = i + 1;
        }
        LowerOrder::NotFound
    }
}


fn block_rebuild_runs(alphas_ord: usize, b: &crate::table::Block) -> (r: bool)
    ensures
        r == {
            let bv = b.deep_view();
            &&& flex_theory(alphas_ord, bv)
            &&& {
                let p = rebuild_plan(alphas_ord, bv);
                (p.r == Piece::Rebuilt || p.f == Piece::Rebuilt) ==> (p.order == 1 || p.order == 2)
            }
        },
{
    match &b.data {
        BlockData::TheoryBlock {
            alphas_power,
            grid: Grid::Flex { grid_f, grid_r, .. },
            ..
        } => {
            if *alphas_power < alphas_ord {
                return false;
            }
            let n = *alphas_power - alphas_ord;
            let first = b.scale_format >= 5 && (grid_r.is_none() || grid_f.is_none());
            !first || n == 1 || n == 2
        },
        _ => false,
    }
}

impl FastNLOFile {
    /// Rebuilding the scale dependence runs through every block.
    pub fn can_rebuild(&self) -> (r: bool)
        ensures
            r == rebuild_runs(self.deep_view()),
    {
        let mut i: usize = 0;
        while i < self.blocks.len()
            invariant
                i <= self.blocks@.len(),
                forall|k: int|
                    0 <= k < i ==> {
                        let b = #[trigger] self.deep_view().blocks[k];
                        &&& flex_theory(self.metadata.alphas_ord, b)
                        &&& {
                            let p = rebuild_plan(self.metadata.alphas_ord, b);
                            (p.r == Piece::Rebuilt || p.f == Piece::Rebuilt) ==> (p.order == 1 || p.order == 2)
                        }
                    },
            decreases self.blocks@.len() - i,
        {
            proof {
                assert(self.deep_view().blocks[i as int] == self.blocks@[i as int].deep_view());
            }
            if !block_rebuild_runs(self.metadata.alphas_ord, &self.blocks[i]) {
                return false;
            }
            i = i + 1;
        }
        true
    }

    /// Evaluating the table up to `max_order` runs through every block.
    pub fn can_evaluate(&self, max_order: Option<usize>) -> (r: bool)
        ensures
            r == xsec_runs(self.deep_view(), max_order),
    {
        let mut i: usize = 0;
        while i < self.blocks.len()
            invariant
                i <= self.blocks@.len(),
                forall|k: int|
                    0 <= k < i ==> {
                        let b = #[trigger] self.deep_view().blocks[k];
                        &&& b.data is TheoryBlock
                        &&& b.data->TheoryBlock_alphas_power >= self.metadata.alphas_ord
                        &&& !xsec_skips(self.metadata.alphas_ord, max_order, b) ==> b.data->TheoryBlock_grid is Flex
                    },
            decreases self.blocks@.len() - i,
        {
            let b = &self.blocks[i];
            proof {
                assert(self.deep_view().blocks[i as int] == b.deep_view());
            }
            match &b.data {
                BlockData::TheoryBlock { alphas_power, grid, .. } => {
                    if *alphas_power < self.metadata.alphas_ord {
                        return false;
                    }
                    let skip = match max_order {
                        Some(m) => m < *alphas_power - self.metadata.alphas_ord,
                        None => false,
                    };
                    let flex = match grid {
                        Grid::Flex { .. } => true,
                        Grid::Fixed { .. } => false,
                    };
                    if !skip && !flex {
                        return false;
                    }
                },
                _ => {
                    return false;
                },
            }
            i = i + 1;
        }
        true
    }
}


/// The name of a perturbative order, counted above the leading one.
pub open spec fn spec_order_label(n: int) -> Option<Seq<char>> {
    if n == 0 {
        Some("LO"@)
    } else if n == 1 {
        Some("NLO"@)
    } else if n == 2 {
        Some("NNLO"@)
    } else if n == 3 {
        Some("N³LO"@)
    } else {
        None
    }
}

/// The name of a perturbative order, counted above the leading one; orders
/// above the third have none.
pub fn order_label(n: usize) -> (r: Option<String>)
    ensures
        match r {
            Some(s) => spec_order_label(n as int) == Some(s@),
            None => spec_order_label(n as int) is None,
        },
{
    if n == 0 {
        Some(String::from_str("LO"))
    } else if n == 1 {
        Some(String::from_str("NLO"))
    } else if n == 2 {
        Some(String::from_str("NNLO"))
    } else if n == 3 {
        Some(String::from_str("N³LO"))
    } else {
        None
    }
}

// ---------------------------------------------------------------------------
// Laws of the plans
// ---------------------------------------------------------------------------

/// Rebuilding a block touches the R and F pieces exactly from scale format
/// 5 on, the RR piece exactly from format 6 on, and the FF and RF pieces
/// exactly from format 7 on; a piece it touches is taken from the table
/// where the block holds its grid and rebuilt where the grid is missing.
/// The order is the block's power of the coupling above the leading one.
pub proof fn lemma_rebuild_plan_pieces(alphas_ord: usize, b: SpecBlock)
    requires
        flex_theory(alphas_ord, b),
    ensures
        ({
            let p = rebuild_plan(alphas_ord, b);
            let sf = b.scale_format;
            let g = b.data->TheoryBlock_grid;
            &&& p.order == b.data->TheoryBlock_alphas_power - alphas_ord
            &&& (p.r == Piece::Unused <==> sf < 5)
            &&& (p.f == Piece::Unused <==> sf < 5)
            &&& (p.rr == Piece::Unused <==> sf < 6)
            &&& (p.ff == Piece::Unused <==> sf < 7)
            &&& (p.rf == Piece::Unused <==> sf < 7)
            &&& (p.r == Piece::Table <==> sf >= 5 && g->grid_r is Some)
            &&& (p.f == Piece::Table <==> sf >= 5 && g->grid_f is Some)
            &&& (p.rr == Piece::Table <==> sf >= 6 && g->grid_rr is Some)
            &&& (p.ff == Piece::Table <==> sf >= 7 && g->grid_ff is Some)
            &&& (p.rf == Piece::Table <==> sf >= 7 && g->grid_rf is Some)
            &&& (p.r == Piece::Rebuilt <==> sf >= 5 && g->grid_r is None)
            &&& (p.f == Piece::Rebuilt <==> sf >= 5 && g->grid_f is None)
            &&& (p.rr == Piece::Rebuilt <==> sf >= 6 && g->grid_rr is None)
            &&& (p.ff == Piece::Rebuilt <==> sf >= 7 && g->grid_ff is None)
            &&& (p.rf == Piece::Rebuilt <==> sf >= 7 && g->grid_rf is None)
        }),
{
}

/// Evaluating up to `max_order` leaves out exactly the blocks above that
/// order. In a block it keeps, the R and F grids count exactly from scale
/// format 5 on and where the block holds them, the RR grid exactly from
/// format 6 on and where the block holds it, and the FF and RF grids
/// exactly from format 7 on and where the block holds both.
pub proof fn lemma_xsec_plan_pieces(alphas_ord: usize, max_order: Option<usize>, b: SpecBlock)
    requires
        flex_theory(alphas_ord, b),
    ensures
        ({
            let sf = b.scale_format;
            let g = b.data->TheoryBlock_grid;
            let order = b.data->TheoryBlock_alphas_power - alphas_ord;
            &&& (xsec_plan(alphas_ord, max_order, b) is None <==> (max_order matches Some(m) && m < order))
            &&& xsec_plan(alphas_ord, max_order, b) matches Some(p) ==> {
                &&& p.order == order
                &&& (p.r == Piece::Unused <==> sf < 5)
                &&& (p.f == Piece::Unused <==> sf < 5)
                &&& (p.rr == Piece::Unused <==> sf < 6)
                &&& (p.ff == Piece::Unused <==> sf < 7)
                &&& (p.rf == Piece::Unused <==> sf < 7)
                &&& (p.r == Piece::Table <==> sf >= 5 && g->grid_r is Some)
                &&& (p.f == Piece::Table <==> sf >= 5 && g->grid_f is Some)
                &&& (p.rr == Piece::Table <==> sf >= 6 && g->grid_rr is Some)
                &&& (p.ff == Piece::Table <==> sf >= 7 && g->grid_ff is Some && g->grid_rf is Some)
                &&& (p.rf == Piece::Table <==> sf >= 7 && g->grid_ff is Some && g->grid_rf is Some)
            }
        }),
{
}

} // verus!
