//! Removing the scale-dependent grids of flexible-scale contributions.

use vstd::prelude::*;

use crate::table::{Block, BlockData, FastNLOFile, Grid, SpecBlock, SpecBlockData, SpecFile, SpecGrid};

verus! {

/// A grid without its scale-dependent parts; a grid of fixed scales is kept.
pub open spec fn stripped_grid(g: SpecGrid) -> SpecGrid {
    match g {
        SpecGrid::Flex {
            scale_node_1,
            scale_node_2,
            grid,
            sigma_ref_mixed,
            sigma_ref_s1,
            sigma_ref_s2,
            ..
        } => SpecGrid::Flex {
            scale_node_1,
            scale_node_2,
            grid,
            grid_f: None,
            grid_r: None,
            grid_rr: None,
            grid_ff: None,
            grid_rf: None,
            sigma_ref_mixed,
            sigma_ref_s1,
            sigma_ref_s2,
        },
        SpecGrid::Fixed { .. } => g,
    }
}

pub open spec fn stripped_data(d: SpecBlockData) -> SpecBlockData {
    match d {
        SpecBlockData::TheoryBlock {
            reference_table,
            i_scale_dependence,
            n_events,
            weight_info,
            alphas_power,
            pdf_info,
            x1_nodes,
            x2_nodes,
            z_nodes,
            scale_dimension,
            scale_description,
            grid,
        } => SpecBlockData::TheoryBlock {
            reference_table,
            i_scale_dependence,
            n_events,
            weight_info,
            alphas_power,
            pdf_info,
            x1_nodes,
            x2_nodes,
            z_nodes,
            scale_dimension,
            scale_description,
            grid: stripped_grid(grid),
        },
        _ => d,
    }
}

/// A block whose theory grid has been stripped; everything else is kept.
pub open spec fn stripped_block(b: SpecBlock) -> SpecBlock {
    SpecBlock { data: stripped_data(b.data), ..b }
}

/// A table whose blocks have all been stripped.
pub open spec fn stripped_file(f: SpecFile) -> SpecFile {
    SpecFile { blocks: Seq::new(f.blocks.len(), |i: int| stripped_block(f.blocks[i])), ..f }
}

impl Block {
    /// Drops the scale-dependent grids of a flexible-scale theory block.
    pub fn strip(&mut self)
        ensures
            final(self).deep_view() == stripped_block(old(self).deep_view()),
    {
        match &mut self.data {
            BlockData::TheoryBlock { grid, .. } => match grid {
                Grid::Flex { grid_f, grid_r, grid_rr, grid_ff, grid_rf, .. } => {
                    *grid_f = None;
                    *grid_r = None;
                    *grid_rr = None;
                    *grid_ff = None;
                    *grid_rf = None;
                },
                Grid::Fixed { .. } => {},
            },
            _ => {},
        }
    }
}

impl FastNLOFile {
    /// Drops the scale-dependent grids of every flexible-scale theory block.
    pub fn strip(&mut self)
        ensures
            final(self).deep_view() == stripped_file(old(self).deep_view()),
    {
        let ghost before = self.blocks.deep_view();
        let n = self.blocks.len();
        let mut i: usize = 0;
        while i < n
            invariant
                n == self.blocks@.len(),
                before.len() == n,
                i <= n,
                self.metadata == old(self).metadata,
                self.bin_info == old(self).bin_info,
                before == old(self).blocks.deep_view(),
                forall|k: int| 0 <= k < i ==> self.blocks.deep_view()[k] == stripped_block(#[trigger] before[k]),
                forall|k: int| i <= k < n ==> self.blocks.deep_view()[k] == #[trigger] before[k],
            decreases n - i,
        {
            self.blocks[i].strip();
            i = i + 1;
        }
        proof {
            assert(self.blocks.deep_view() =~= Seq::new(before.len(), |k: int| stripped_block(before[k])));
        }
    }
}

/// Stripping a table twice leaves it as stripping it once.
pub proof fn lemma_strip_idempotent(f: SpecFile)
    ensures
        stripped_file(stripped_file(f)) == stripped_file(f),
{
    assert(stripped_file(stripped_file(f)).blocks =~= stripped_file(f).blocks);
}


/// Stripping a table keeps its metadata, its bins and every block, and
/// changes nothing but the grids of flexible-scale theory blocks: of those,
/// whatever the block's scale format, the F, R, RR, FF and RF grids are
/// dropped while the scale nodes, the central grid and the reference
/// tables are kept.
pub proof fn lemma_strip_drops_scale_grids(f: SpecFile, i: int)
    requires
        0 <= i < f.blocks.len(),
    ensures
        stripped_file(f).metadata == f.metadata,
        stripped_file(f).bin_info == f.bin_info,
        stripped_file(f).blocks.len() == f.blocks.len(),
        ({
            let a = f.blocks[i];
            let b = stripped_file(f).blocks[i];
            &&& b.scale_format == a.scale_format
            &&& b.description == a.description
            &&& (!(a.data matches SpecBlockData::TheoryBlock { grid: SpecGrid::Flex { .. }, .. }) ==> b == a)
            &&& (a.data matches SpecBlockData::TheoryBlock { grid: SpecGrid::Flex { .. }, .. } ==> {
                let ga = a.data->TheoryBlock_grid;
                let gb = b.data->TheoryBlock_grid;
                &&& b.data is TheoryBlock
                &&& gb is Flex
                &&& gb->grid_f is None
                &&& gb->grid_r is None
                &&& gb->grid_rr is None
                &&& gb->grid_ff is None
                &&& gb->grid_rf is None
                &&& gb->scale_node_1 == ga->scale_node_1
                &&& gb->scale_node_2 == ga->scale_node_2
                &&& gb->Flex_grid == ga->Flex_grid
                &&& gb->sigma_ref_mixed == ga->sigma_ref_mixed
                &&& gb->sigma_ref_s1 == ga->sigma_ref_s1
                &&& gb->sigma_ref_s2 == ga->sigma_ref_s2
                &&& b.data->TheoryBlock_weight_info == a.data->TheoryBlock_weight_info
                &&& b.data->TheoryBlock_alphas_power == a.data->TheoryBlock_alphas_power
                &&& b.data->TheoryBlock_pdf_info == a.data->TheoryBlock_pdf_info
                &&& b.data->TheoryBlock_x1_nodes == a.data->TheoryBlock_x1_nodes
                &&& b.data->TheoryBlock_n_events == a.data->TheoryBlock_n_events
            })
        }),
{
}

/// A block whose scale format is at most `max`; everything else is kept.
pub open spec fn limited_block(b: SpecBlock, max: usize) -> SpecBlock {
    SpecBlock { scale_format: if b.scale_format > max { max } else { b.scale_format }, ..b }
}

impl FastNLOFile {
    /// Lowers the scale format of every block above `max` to `max`, so that
    /// the grids only higher formats hold are no longer asked for.
    pub fn limit_scale_format(&mut self, max: usize)
        ensures
            final(self).metadata == old(self).metadata,
            final(self).bin_info == old(self).bin_info,
            final(self).blocks@.len() == old(self).blocks@.len(),
            forall|i: int|
                0 <= i < final(self).blocks@.len() ==> #[trigger] final(self).blocks.deep_view()[i]
                    == limited_block(old(self).blocks.deep_view()[i], max),
    {
        let ghost before = self.blocks.deep_view();
        let n = self.blocks.len();
        let mut i: usize = 0;
        while i < n
            invariant
                n == self.blocks@.len(),
                before.len() == n,
                i <= n,
                self.metadata == old(self).metadata,
                self.bin_info == old(self).bin_info,
                before == old(self).blocks.deep_view(),
                forall|k: int| 0 <= k < i ==> self.blocks.deep_view()[k] == limited_block(#[trigger] before[k], max),
                forall|k: int| i <= k < n ==> self.blocks.deep_view()[k] == #[trigger] before[k],
            decreases n - i,
        {
            if self.blocks[i].scale_format > max {
                self.blocks[i].scale_format = max;
            }
            i = i + 1;
        }
    }
}

} // verus!
