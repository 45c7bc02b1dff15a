//! Copies of table values that keep every value they hold.

use vstd::prelude::*;

use crate::table::{
    Bin, BinInfo, BinPosition, Block, BlockData, Float, Grid, Metadata, PDFInfo, WeightInfo,
};

verus! {

/// A value that can be copied with everything it holds.
pub trait DeepCopy: Sized + DeepView {
    fn deep_copy(&self) -> (r: Self)
        ensures
            r.deep_view() == self.deep_view(),
    ;
}

impl DeepCopy for usize {
    fn deep_copy(&self) -> (r: usize) {
        *self
    }
}

impl DeepCopy for isize {
    fn deep_copy(&self) -> (r: isize) {
        *self
    }
}

impl DeepCopy for (isize, isize) {
    fn deep_copy(&self) -> (r: (isize, isize)) {
        (self.0, self.1)
    }
}

impl DeepCopy for String {
    fn deep_copy(&self) -> (r: String) {
        self.clone()
    }
}

impl DeepCopy for Float {
    fn deep_copy(&self) -> (r: Float) {
        Float { text: self.text.clone() }
    }
}

impl<T: DeepCopy> DeepCopy for Vec<T> {
    fn deep_copy(&self) -> (r: Vec<T>) {
        let mut r: Vec<T> = Vec::new();
        let mut i: usize = 0;
        while i < self.len()
            invariant
                i <= self@.len(),
                r@.len() == i,
                forall|k: int| 0 <= k < i ==> #[trigger] r@[k].deep_view() == self@[k].deep_view(),
            decreases self@.len() - i,
        {
            r.push(self[i].deep_copy());
            i = i + 1;
        }
        proof {
            assert(r.deep_view() =~= self.deep_view());
        }
        r
    }
}

impl<T: DeepCopy> DeepCopy for Option<T> {
    fn deep_copy(&self) -> (r: Option<T>) {
        match self {
            Some(x) => Some(x.deep_copy()),
            None => None,
        }
    }
}

impl DeepCopy for BinPosition {
    fn deep_copy(&self) -> (r: BinPosition) {
        match self {
            BinPosition::Central(c) => BinPosition::Central(c.deep_copy()),
            BinPosition::Boundaries { low, high } => BinPosition::Boundaries {
                low: low.deep_copy(),
                high: high.deep_copy(),
            },
        }
    }
}

impl DeepCopy for Bin {
    fn deep_copy(&self) -> (r: Bin) {
        Bin { values: self.values.deep_copy(), size: self.size.deep_copy() }
    }
}

impl DeepCopy for BinInfo {
    fn deep_copy(&self) -> (r: BinInfo) {
        BinInfo {
            bins: self.bins.deep_copy(),
            dim_labels: self.dim_labels.deep_copy(),
            diff_bin: self.diff_bin.deep_copy(),
        }
    }
}

impl DeepCopy for Metadata {
    fn deep_copy(&self) -> (r: Metadata) {
        Metadata {
            table_version: self.table_version,
            scenario_name: self.scenario_name.deep_copy(),
            n_contrib: self.n_contrib,
            n_mult: self.n_mult,
            n_data: self.n_data,
            n_user: self.n_user,
            unit: self.unit,
            description: self.description.deep_copy(),
            cms_energy: self.cms_energy.deep_copy(),
            alphas_ord: self.alphas_ord,
        }
    }
}

impl DeepCopy for WeightInfo {
    fn deep_copy(&self) -> (r: WeightInfo) {
        WeightInfo {
            n_events: self.n_events.deep_copy(),
            norm: self.norm.deep_copy(),
            n_tables: self.n_tables,
            n_entries: self.n_entries,
            sum_weights_sq: self.sum_weights_sq.deep_copy(),
            sum_sig_sq: self.sum_sig_sq.deep_copy(),
            sum_sig: self.sum_sig.deep_copy(),
            weight_sq_obs: self.weight_sq_obs.deep_copy(),
            sig_sq_obs: self.sig_sq_obs.deep_copy(),
            sig_obs: self.sig_obs.deep_copy(),
            n_events_obs: self.n_events_obs.deep_copy(),
        }
    }
}

impl DeepCopy for PDFInfo {
    fn deep_copy(&self) -> (r: PDFInfo) {
        PDFInfo {
            pdfs: self.pdfs.deep_copy(),
            n_pdf_dim: self.n_pdf_dim,
            fragmentation_functions: self.fragmentation_functions.deep_copy(),
            n_ff_dim: self.n_ff_dim,
            n_subproc: self.n_subproc,
            pdf_flag_1: self.pdf_flag_1,
            pdf_flag_2: self.pdf_flag_2,
            pdf_flag_3: self.pdf_flag_3,
            parton_flavors: self.parton_flavors.deep_copy(),
        }
    }
}

impl DeepCopy for Grid {
    fn deep_copy(&self) -> (r: Grid) {
        match self {
            Grid::Fixed { n_scale_var, n_scale_node, scale_fac, scale_node, grid } => Grid::Fixed {
                n_scale_var: n_scale_var.deep_copy(),
                n_scale_node: n_scale_node.deep_copy(),
                scale_fac: scale_fac.deep_copy(),
                scale_node: scale_node.deep_copy(),
                grid: grid.deep_copy(),
            },
            Grid::Flex {
                scale_node_1,
                scale_node_2,
                grid,
                grid_f,
                grid_r,
                grid_rr,
                grid_ff,
                grid_rf,
                sigma_ref_mixed,
                sigma_ref_s1,
                sigma_ref_s2,
            } => Grid::Flex {
                scale_node_1: scale_node_1.deep_copy(),
                scale_node_2: scale_node_2.deep_copy(),
                grid: grid.deep_copy(),
                grid_f: grid_f.deep_copy(),
                grid_r: grid_r.deep_copy(),
                grid_rr: grid_rr.deep_copy(),
                grid_ff: grid_ff.deep_copy(),
                grid_rf: grid_rf.deep_copy(),
                sigma_ref_mixed: sigma_ref_mixed.deep_copy(),
                sigma_ref_s1: sigma_ref_s1.deep_copy(),
                sigma_ref_s2: sigma_ref_s2.deep_copy(),
            },
        }
    }
}

impl DeepCopy for BlockData {
    fn deep_copy(&self) -> (r: BlockData) {
        match self {
            BlockData::DataBlock {
                uncorr_sources,
                corr_sources,
                centers,
                values,
                uncorr_low,
                uncorr_high,
                corr_low,
                corr_high,
                corr_matrix,
            } => BlockData::DataBlock {
                uncorr_sources: uncorr_sources.deep_copy(),
                corr_sources: corr_sources.deep_copy(),
                centers: centers.deep_copy(),
                values: values.deep_copy(),
                uncorr_low: uncorr_low.deep_copy(),
                uncorr_high: uncorr_high.deep_copy(),
                corr_low: corr_low.deep_copy(),
                corr_high: corr_high.deep_copy(),
                corr_matrix: corr_matrix.deep_copy(),
            },
            BlockData::MultBlock {
                uncorr_sources,
                corr_sources,
                centers,
                values,
                uncorr_low,
                uncorr_high,
                corr_low,
                corr_high,
            } => BlockData::MultBlock {
                uncorr_sources: uncorr_sources.deep_copy(),
                corr_sources: corr_sources.deep_copy(),
                centers: centers.deep_copy(),
                values: values.deep_copy(),
                uncorr_low: uncorr_low.deep_copy(),
                uncorr_high: uncorr_high.deep_copy(),
                corr_low: corr_low.deep_copy(),
                corr_high: corr_high.deep_copy(),
            },
            BlockData::TheoryBlock {
                reference_table,
                i_scale_dependence,
                n_events,
                weight_info,
                alphas_power,
                pdf_info,
                x1_nodes,
                x2_nodes,
                z_nodes,
                scale_dimension,
                scale_description,
                grid,
            } => BlockData::TheoryBlock {
                reference_table: *reference_table,
                i_scale_dependence: *i_scale_dependence,
                n_events: *n_events,
                weight_info: weight_info.deep_copy(),
                alphas_power: *alphas_power,
                pdf_info: pdf_info.deep_copy(),
                x1_nodes: x1_nodes.deep_copy(),
                x2_nodes: x2_nodes.deep_copy(),
                z_nodes: z_nodes.deep_copy(),
                scale_dimension: scale_dimension.deep_copy(),
                scale_description: scale_description.deep_copy(),
                grid: grid.deep_copy(),
            },
        }
    }
}

impl DeepCopy for Block {
    fn deep_copy(&self) -> (r: Block) {
        Block {
            unit: self.unit,
            data_block: self.data_block,
            mult_block: self.mult_block,
            contribution_type: self.contribution_type,
            contribution_order: self.contribution_order,
            scale_format: self.scale_format,
            description: self.description.deep_copy(),
            code_description: self.code_description.deep_copy(),
            data: self.data.deep_copy(),
            coeff_info_flags_1: self.coeff_info_flags_1.deep_copy(),
            coeff_info_flags_2: self.coeff_info_flags_2.deep_copy(),
            coeff_block_description: self.coeff_block_description.deep_copy(),
            coeff_block_content: self.coeff_block_content.deep_copy(),
        }
    }
}

} // verus!
