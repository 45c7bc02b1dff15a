//! The content of a fastNLO table, value by value as the table text holds it.
//!
//! Real numbers are held as the text of their decimal literal ([`Float`]);
//! grids hold the numbers as written in the table, before the normalisation
//! that a program applies when it computes with them.

use vstd::prelude::*;

verus! {

/// A real number, held as the text of its decimal literal.
#[derive(Debug, Clone)]
pub struct Float {
    pub text: String,
}

impl DeepView for Float {
    type V = Seq<char>;

    open spec fn deep_view(&self) -> Seq<char> {
        self.text@
    }
}

/// A table: its metadata, its binning and its contribution blocks.
#[derive(Debug, Clone)]
pub struct FastNLOFile {
    pub metadata: Metadata,
    pub bin_info: BinInfo,
    pub blocks: Vec<Block>,
}

#[derive(Debug, Clone)]
pub struct Metadata {
    pub table_version: usize,
    pub scenario_name: String,
    pub n_contrib: usize,
    pub n_mult: usize,
    pub n_data: usize,
    pub n_user: usize,
    pub unit: usize,
    pub description: Vec<String>,
    pub cms_energy: Float,
    pub alphas_ord: usize,
}

#[derive(Debug, Clone)]
pub struct BinInfo {
    pub bins: Vec<Bin>,
    pub dim_labels: Vec<String>,
    pub diff_bin: Vec<usize>,
}

#[derive(Debug, Clone)]
pub struct Bin {
    pub values: Vec<BinPosition>,
    pub size: Float,
}

/// Where a bin lies in one dimension of the binning.
#[derive(Debug, Clone)]
pub enum BinPosition {
    Central(Float),
    Boundaries { low: Float, high: Float },
}

#[derive(Debug, Clone)]
pub struct Block {
    pub unit: usize,
    pub data_block: bool,
    pub mult_block: bool,
    pub contribution_type: usize,
    pub contribution_order: usize,
    pub scale_format: usize,
    pub description: Vec<String>,
    pub code_description: Vec<String>,
    pub data: BlockData,
    pub coeff_info_flags_1: Vec<usize>,
    pub coeff_info_flags_2: Vec<usize>,
    pub coeff_block_description: Vec<Vec<String>>,
    pub coeff_block_content: Vec<Vec<Float>>,
}

/// A grid of five dimensions: bin, x node, first scale node, second scale
/// node, subprocess. Its values are the file's values, before any
/// normalisation by the weight or the number of events of the block.
pub type Grid5 = Vec<Vec<Vec<Vec<Vec<Float>>>>>;

/// A grid of six dimensions: bin, scale dimension, scale variation, scale
/// node, x node, subprocess. Its values are the file's values, before any
/// normalisation by the weight or the number of events of the block.
pub type Grid6 = Vec<Vec<Vec<Vec<Vec<Vec<Float>>>>>>;

#[derive(Debug, Clone)]
pub enum BlockData {
    DataBlock {
        uncorr_sources: Vec<String>,
        corr_sources: Vec<String>,
        centers: Vec<Float>,
        values: Vec<Float>,
        uncorr_low: Vec<Vec<Float>>,
        uncorr_high: Vec<Vec<Float>>,
        corr_low: Vec<Vec<Float>>,
        corr_high: Vec<Vec<Float>>,
        corr_matrix: Vec<Vec<Float>>,
    },
    MultBlock {
        uncorr_sources: Vec<String>,
        corr_sources: Vec<String>,
        centers: Vec<Float>,
        values: Vec<Float>,
        uncorr_low: Vec<Vec<Float>>,
        uncorr_high: Vec<Vec<Float>>,
        corr_low: Vec<Vec<Float>>,
        corr_high: Vec<Vec<Float>>,
    },
    TheoryBlock {
        reference_table: bool,
        i_scale_dependence: usize,
        n_events: isize,
        weight_info: Option<WeightInfo>,
        alphas_power: usize,
        pdf_info: PDFInfo,
        x1_nodes: Vec<Vec<Float>>,
        x2_nodes: Vec<Vec<Float>>,
        z_nodes: Vec<Vec<Float>>,
        scale_dimension: Vec<usize>,
        scale_description: Vec<Vec<String>>,
        grid: Grid,
    },
}

#[derive(Debug, Clone)]
pub struct WeightInfo {
    pub n_events: Float,
    pub norm: Float,
    pub n_tables: usize,
    pub n_entries: usize,
    pub sum_weights_sq: Float,
    pub sum_sig_sq: Float,
    pub sum_sig: Float,
    pub weight_sq_obs: Vec<Vec<Float>>,
    pub sig_sq_obs: Vec<Vec<Float>>,
    pub sig_obs: Vec<Vec<Float>>,
    pub n_events_obs: Vec<Vec<usize>>,
}

#[derive(Debug, Clone)]
pub struct PDFInfo {
    pub pdfs: Vec<usize>,
    pub n_pdf_dim: usize,
    pub fragmentation_functions: Vec<usize>,
    pub n_ff_dim: usize,
    pub n_subproc: usize,
    pub pdf_flag_1: usize,
    pub pdf_flag_2: usize,
    pub pdf_flag_3: usize,
    pub parton_flavors: Vec<Vec<(isize, isize)>>,
}

#[derive(Debug, Clone)]
pub enum Grid {
    Fixed {
        n_scale_var: Vec<usize>,
        n_scale_node: Vec<usize>,
        scale_fac: Vec<Vec<Float>>,
        scale_node: Vec<Vec<Vec<Vec<Float>>>>,
        grid: Grid6,
    },
    Flex {
        scale_node_1: Vec<Vec<Float>>,
        scale_node_2: Vec<Vec<Float>>,
        grid: Grid5,
        grid_f: Option<Grid5>,
        grid_r: Option<Grid5>,
        grid_rr: Option<Grid5>,
        grid_ff: Option<Grid5>,
        grid_rf: Option<Grid5>,
        sigma_ref_mixed: Vec<Vec<Float>>,
        sigma_ref_s1: Vec<Vec<Float>>,
        sigma_ref_s2: Vec<Vec<Float>>,
    },
}

/// A block of user data of the metadata section.
#[derive(Debug, Clone)]
pub struct UserBlock {
    pub user_flag: usize,
    pub description: Vec<String>,
    pub lines: Vec<String>,
}

// ---------------------------------------------------------------------------
// Mathematical forms
// ---------------------------------------------------------------------------

pub type Text = Seq<char>;

pub type SpecGrid5 = Seq<Seq<Seq<Seq<Seq<Text>>>>>;

pub type SpecGrid6 = Seq<Seq<Seq<Seq<Seq<Seq<Text>>>>>>;

pub struct SpecFile {
    pub metadata: SpecMetadata,
    pub bin_info: SpecBinInfo,
    pub blocks: Seq<SpecBlock>,
}

pub struct SpecMetadata {
    pub table_version: usize,
    pub scenario_name: Text,
    pub n_contrib: usize,
    pub n_mult: usize,
    pub n_data: usize,
    pub n_user: usize,
    pub unit: usize,
    pub description: Seq<Text>,
    pub cms_energy: Text,
    pub alphas_ord: usize,
}

pub struct SpecBinInfo {
    pub bins: Seq<SpecBin>,
    pub dim_labels: Seq<Text>,
    pub diff_bin: Seq<usize>,
}

pub struct SpecBin {
    pub values: Seq<SpecBinPosition>,
    pub size: Text,
}

pub enum SpecBinPosition {
    Central(Text),
    Boundaries { low: Text, high: Text },
}

pub struct SpecBlock {
    pub unit: usize,
    pub data_block: bool,
    pub mult_block: bool,
    pub contribution_type: usize,
    pub contribution_order: usize,
    pub scale_format: usize,
    pub description: Seq<Text>,
    pub code_description: Seq<Text>,
    pub data: SpecBlockData,
    pub coeff_info_flags_1: Seq<usize>,
    pub coeff_info_flags_2: Seq<usize>,
    pub coeff_block_description: Seq<Seq<Text>>,
    pub coeff_block_content: Seq<Seq<Text>>,
}

pub enum SpecBlockData {
    DataBlock {
        uncorr_sources: Seq<Text>,
        corr_sources: Seq<Text>,
        centers: Seq<Text>,
        values: Seq<Text>,
        uncorr_low: Seq<Seq<Text>>,
        uncorr_high: Seq<Seq<Text>>,
        corr_low: Seq<Seq<Text>>,
        corr_high: Seq<Seq<Text>>,
        corr_matrix: Seq<Seq<Text>>,
    },
    MultBlock {
        uncorr_sources: Seq<Text>,
        corr_sources: Seq<Text>,
        centers: Seq<Text>,
        values: Seq<Text>,
        uncorr_low: Seq<Seq<Text>>,
        uncorr_high: Seq<Seq<Text>>,
        corr_low: Seq<Seq<Text>>,
        corr_high: Seq<Seq<Text>>,
    },
    TheoryBlock {
        reference_table: bool,
        i_scale_dependence: usize,
        n_events: isize,
        weight_info: Option<SpecWeightInfo>,
        alphas_power: usize,
        pdf_info: SpecPDFInfo,
        x1_nodes: Seq<Seq<Text>>,
        x2_nodes: Seq<Seq<Text>>,
        z_nodes: Seq<Seq<Text>>,
        scale_dimension: Seq<usize>,
        scale_description: Seq<Seq<Text>>,
        grid: SpecGrid,
    },
}

pub struct SpecWeightInfo {
    pub n_events: Text,
    pub norm: Text,
    pub n_tables: usize,
    pub n_entries: usize,
    pub sum_weights_sq: Text,
    pub sum_sig_sq: Text,
    pub sum_sig: Text,
    pub weight_sq_obs: Seq<Seq<Text>>,
    pub sig_sq_obs: Seq<Seq<Text>>,
    pub sig_obs: Seq<Seq<Text>>,
    pub n_events_obs: Seq<Seq<usize>>,
}

pub struct SpecPDFInfo {
    pub pdfs: Seq<usize>,
    pub n_pdf_dim: usize,
    pub fragmentation_functions: Seq<usize>,
    pub n_ff_dim: usize,
    pub n_subproc: usize,
    pub pdf_flag_1: usize,
    pub pdf_flag_2: usize,
    pub pdf_flag_3: usize,
    pub parton_flavors: Seq<Seq<(isize, isize)>>,
}

pub enum SpecGrid {
    Fixed {
        n_scale_var: Seq<usize>,
        n_scale_node: Seq<usize>,
        scale_fac: Seq<Seq<Text>>,
        scale_node: Seq<Seq<Seq<Seq<Text>>>>,
        grid: SpecGrid6,
    },
    Flex {
        scale_node_1: Seq<Seq<Text>>,
        scale_node_2: Seq<Seq<Text>>,
        grid: SpecGrid5,
        grid_f: Option<SpecGrid5>,
        grid_r: Option<SpecGrid5>,
        grid_rr: Option<SpecGrid5>,
        grid_ff: Option<SpecGrid5>,
        grid_rf: Option<SpecGrid5>,
        sigma_ref_mixed: Seq<Seq<Text>>,
        sigma_ref_s1: Seq<Seq<Text>>,
        sigma_ref_s2: Seq<Seq<Text>>,
    },
}

impl DeepView for FastNLOFile {
    type V = SpecFile;

    open spec fn deep_view(&self) -> SpecFile {
        SpecFile {
            metadata: self.metadata.deep_view(),
            bin_info: self.bin_info.deep_view(),
            blocks: self.blocks.deep_view(),
        }
    }
}

impl DeepView for Metadata {
    type V = SpecMetadata;

    open spec fn deep_view(&self) -> SpecMetadata {
        SpecMetadata {
            table_version: self.table_version,
            scenario_name: self.scenario_name@,
            n_contrib: self.n_contrib,
            n_mult: self.n_mult,
            n_data: self.n_data,
            n_user: self.n_user,
            unit: self.unit,
            description: self.description.deep_view(),
            cms_energy: self.cms_energy.deep_view(),
            alphas_ord: self.alphas_ord,
        }
    }
}

impl DeepView for BinInfo {
    type V = SpecBinInfo;

    open spec fn deep_view(&self) -> SpecBinInfo {
        SpecBinInfo {
            bins: self.bins.deep_view(),
            dim_labels: self.dim_labels.deep_view(),
            diff_bin: self.diff_bin.deep_view(),
        }
    }
}

impl DeepView for Bin {
    type V = SpecBin;

    open spec fn deep_view(&self) -> SpecBin {
        SpecBin { values: self.values.deep_view(), size: self.size.deep_view() }
    }
}

impl DeepView for BinPosition {
    type V = SpecBinPosition;

    open spec fn deep_view(&self) -> SpecBinPosition {
        match self {
            BinPosition::Central(c) => SpecBinPosition::Central(c.deep_view()),
            BinPosition::Boundaries { low, high } => SpecBinPosition::Boundaries {
                low: low.deep_view(),
                high: high.deep_view(),
            },
        }
    }
}

impl DeepView for Block {
    type V = SpecBlock;

    open spec fn deep_view(&self) -> SpecBlock {
        SpecBlock {
            unit: self.unit,
            data_block: self.data_block,
            mult_block: self.mult_block,
            contribution_type: self.contribution_type,
            contribution_order: self.contribution_order,
            scale_format: self.scale_format,
            description: self.description.deep_view(),
            code_description: self.code_description.deep_view(),
            data: self.data.deep_view(),
            coeff_info_flags_1: self.coeff_info_flags_1.deep_view(),
            coeff_info_flags_2: self.coeff_info_flags_2.deep_view(),
            coeff_block_description: self.coeff_block_description.deep_view(),
            coeff_block_content: self.coeff_block_content.deep_view(),
        }
    }
}

impl DeepView for BlockData {
    type V = SpecBlockData;

    open spec fn deep_view(&self) -> SpecBlockData {
        match self {
            BlockData::DataBlock {
                uncorr_sources,
                corr_sources,
                centers,
                values,
                uncorr_low,
                uncorr_high,
                corr_low,
                corr_high,
                corr_matrix,
            } => SpecBlockData::DataBlock {
                uncorr_sources: uncorr_sources.deep_view(),
                corr_sources: corr_sources.deep_view(),
                centers: centers.deep_view(),
                values: values.deep_view(),
                uncorr_low: uncorr_low.deep_view(),
                uncorr_high: uncorr_high.deep_view(),
                corr_low: corr_low.deep_view(),
                corr_high: corr_high.deep_view(),
                corr_matrix: corr_matrix.deep_view(),
            },
            BlockData::MultBlock {
                uncorr_sources,
                corr_sources,
                centers,
                values,
                uncorr_low,
                uncorr_high,
                corr_low,
                corr_high,
            } => SpecBlockData::MultBlock {
                uncorr_sources: uncorr_sources.deep_view(),
                corr_sources: corr_sources.deep_view(),
                centers: centers.deep_view(),
                values: values.deep_view(),
                uncorr_low: uncorr_low.deep_view(),
                uncorr_high: uncorr_high.deep_view(),
                corr_low: corr_low.deep_view(),
                corr_high: corr_high.deep_view(),
            },
            BlockData::TheoryBlock {
                reference_table,
                i_scale_dependence,
                n_events,
                weight_info,
                alphas_power,
                pdf_info,
                x1_nodes,
                x2_nodes,
                z_nodes,
                scale_dimension,
                scale_description,
                grid,
            } => SpecBlockData::TheoryBlock {
                reference_table: *reference_table,
                i_scale_dependence: *i_scale_dependence,
                n_events: *n_events,
                weight_info: weight_info.deep_view(),
                alphas_power: *alphas_power,
                pdf_info: pdf_info.deep_view(),
                x1_nodes: x1_nodes.deep_view(),
                x2_nodes: x2_nodes.deep_view(),
                z_nodes: z_nodes.deep_view(),
                scale_dimension: scale_dimension.deep_view(),
                scale_description: scale_description.deep_view(),
                grid: grid.deep_view(),
            },
        }
    }
}

impl DeepView for WeightInfo {
    type V = SpecWeightInfo;

    open spec fn deep_view(&self) -> SpecWeightInfo {
        SpecWeightInfo {
            n_events: self.n_events.deep_view(),
            norm: self.norm.deep_view(),
            n_tables: self.n_tables,
            n_entries: self.n_entries,
            sum_weights_sq: self.sum_weights_sq.deep_view(),
            sum_sig_sq: self.sum_sig_sq.deep_view(),
            sum_sig: self.sum_sig.deep_view(),
            weight_sq_obs: self.weight_sq_obs.deep_view(),
            sig_sq_obs: self.sig_sq_obs.deep_view(),
            sig_obs: self.sig_obs.deep_view(),
            n_events_obs: self.n_events_obs.deep_view(),
        }
    }
}

impl DeepView for PDFInfo {
    type V = SpecPDFInfo;

    open spec fn deep_view(&self) -> SpecPDFInfo {
        SpecPDFInfo {
            pdfs: self.pdfs.deep_view(),
            n_pdf_dim: self.n_pdf_dim,
            fragmentation_functions: self.fragmentation_functions.deep_view(),
            n_ff_dim: self.n_ff_dim,
            n_subproc: self.n_subproc,
            pdf_flag_1: self.pdf_flag_1,
            pdf_flag_2: self.pdf_flag_2,
            pdf_flag_3: self.pdf_flag_3,
            parton_flavors: self.parton_flavors.deep_view(),
        }
    }
}

impl DeepView for Grid {
    type V = SpecGrid;

    open spec fn deep_view(&self) -> SpecGrid {
        match self {
            Grid::Fixed { n_scale_var, n_scale_node, scale_fac, scale_node, grid } => SpecGrid::Fixed {
                n_scale_var: n_scale_var.deep_view(),
                n_scale_node: n_scale_node.deep_view(),
                scale_fac: scale_fac.deep_view(),
                scale_node: scale_node.deep_view(),
                grid: grid.deep_view(),
            },
            Grid::Flex {
                scale_node_1,
                scale_node_2,
                grid,
                grid_f,
                grid_r,
                grid_rr,
                grid_ff,
                grid_rf,
                sigma_ref_mixed,
                sigma_ref_s1,
                sigma_ref_s2,
            } => SpecGrid::Flex {
                scale_node_1: scale_node_1.deep_view(),
                scale_node_2: scale_node_2.deep_view(),
                grid: grid.deep_view(),
                grid_f: grid_f.deep_view(),
                grid_r: grid_r.deep_view(),
                grid_rr: grid_rr.deep_view(),
                grid_ff: grid_ff.deep_view(),
                grid_rf: grid_rf.deep_view(),
                sigma_ref_mixed: sigma_ref_mixed.deep_view(),
                sigma_ref_s1: sigma_ref_s1.deep_view(),
                sigma_ref_s2: sigma_ref_s2.deep_view(),
            },
        }
    }
}

} // verus!
