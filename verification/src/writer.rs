//! Writing a table as text.
//!
//! Each `ser_*` function states the lines that writing a part of the table
//! gives; the writing function of the same part appends exactly these lines.

use vstd::prelude::*;

use crate::error::WriteError;
use crate::reader::separator;
use crate::table::{
    Bin, BinInfo, BinPosition, Block, BlockData, FastNLOFile, Float, Grid, Grid5, Grid6, Metadata, PDFInfo,
    SpecBin, SpecBinInfo, SpecBinPosition, SpecBlock, SpecBlockData, SpecFile, SpecGrid, SpecGrid5,
    SpecMetadata, SpecPDFInfo, SpecWeightInfo, Text, WeightInfo,
};
use crate::text::{decimal, join_lines, lemma_join_concat, signed_decimal};
use crate::values::{LineValue, Lines};

verus! {

// ---------------------------------------------------------------------------
// Lines of lists
// ---------------------------------------------------------------------------

/// The lines of the parts, one part after the other.
pub open spec fn concat(parts: Seq<Lines>) -> Lines
    decreases parts.len(),
{
    if parts.len() == 0 {
        seq![]
    } else {
        concat(parts.drop_last()) + parts.last()
    }
}

/// One line per value.
pub open spec fn ser_iter<T: LineValue>(xs: Seq<T::V>) -> Lines {
    Seq::new(xs.len(), |i: int| T::spec_to_line(xs[i]))
}

/// The number of values, then one line per value.
pub open spec fn ser_slice<T: LineValue>(xs: Seq<T::V>) -> Lines {
    seq![decimal(xs.len())] + ser_iter::<T>(xs)
}

/// Each list as its number of values and its values.
pub open spec fn ser_rows<T: LineValue>(xss: Seq<Seq<T::V>>) -> Lines {
    concat(Seq::new(xss.len(), |i: int| ser_slice::<T>(xss[i])))
}

/// The number of lists, then each list with its number of values.
pub open spec fn ser_nested<T: LineValue>(xss: Seq<Seq<T::V>>) -> Lines {
    seq![decimal(xss.len())] + ser_rows::<T>(xss)
}

/// The values of all lists, one line each, without counts.
pub open spec fn ser_flat<T: LineValue>(xss: Seq<Seq<T::V>>) -> Lines {
    concat(Seq::new(xss.len(), |i: int| ser_iter::<T>(xss[i])))
}

pub proof fn lemma_concat_step(parts: Seq<Lines>, i: int)
    requires
        0 <= i < parts.len(),
    ensures
        concat(parts.take(i + 1)) == concat(parts.take(i)) + parts[i],
{
    assert(parts.take(i + 1).drop_last() =~= parts.take(i));
}

pub proof fn lemma_concat_all(parts: Seq<Lines>)
    ensures
        concat(parts.take(parts.len() as int)) == concat(parts),
{
    assert(parts.take(parts.len() as int) =~= parts);
}

/// After writing part `i` of a list of parts.
proof fn lemma_write_step(start: Seq<char>, parts: Seq<Lines>, i: int)
    requires
        0 <= i < parts.len(),
    ensures
        start + join_lines(concat(parts.take(i))) + join_lines(parts[i]) == start + join_lines(
            concat(parts.take(i + 1)),
        ),
{
    lemma_concat_step(parts, i);
    lemma_join_concat(concat(parts.take(i)), parts[i]);
}

proof fn lemma_write_concat(start: Seq<char>, a: Lines, b: Lines)
    ensures
        start + join_lines(a) + join_lines(b) == start + join_lines(a + b),
{
    lemma_join_concat(a, b);
}

/// Appends one line.
fn push_line(w: &mut String, line: &String)
    ensures
        final(w)@ == old(w)@ + join_lines(seq![line@]),
{
    w.append(line.as_str());
    w.append("\n");
    proof {
        reveal_strlit("\n");
        let l = seq![line@];
        assert(l.drop_first() =~= Seq::<Seq<char>>::empty());
        assert(join_lines(l) == line@ + seq!['\n'] + join_lines(l.drop_first()));
        assert(final(w)@ =~= old(w)@ + join_lines(l));
    }
}

/// Writes a value on a line of its own.
pub fn w_literal<T: LineValue>(w: &mut String, x: &T)
    ensures
        final(w)@ == old(w)@ + join_lines(seq![T::spec_to_line(x.deep_view())]),
{
    let line = x.to_line();
    push_line(w, &line);
}

/// Writes a count on a line of its own.
fn w_count(w: &mut String, n: usize)
    ensures
        final(w)@ == old(w)@ + join_lines(seq![decimal(n as nat)]),
{
    w_literal(w, &n);
}

/// Writes the values, one line each.
pub fn w_iter<T: LineValue>(w: &mut String, x: &Vec<T>)
    ensures
        final(w)@ == old(w)@ + join_lines(ser_iter::<T>(x.deep_view())),
{
    let ghost start = w@;
    let ghost parts = Seq::new(x.deep_view().len(), |i: int| seq![T::spec_to_line(x.deep_view()[i])]);
    let mut i: usize = 0;
    proof {
        assert(parts.take(0) =~= Seq::<Lines>::empty());
        assert(start + join_lines(concat(parts.take(0))) =~= start);
    }
    while i < x.len()
        invariant
            i <= x@.len(),
            parts.len() == x@.len(),
            parts == Seq::new(x.deep_view().len(), |i: int| seq![T::spec_to_line(x.deep_view()[i])]),
            w@ == start + join_lines(concat(parts.take(i as int))),
        decreases x@.len() - i,
    {
        w_literal(w, &x[i]);
        proof {
            lemma_write_step(start, parts, i as int);
        }
        i = i + 1;
    }
    proof {
        lemma_concat_all(parts);
        lemma_concat_singletons(parts, ser_iter::<T>(x.deep_view()));
    }
}

/// Lists of one line each, one after the other, give those lines.
proof fn lemma_concat_singletons(parts: Seq<Lines>, lines: Lines)
    requires
        parts.len() == lines.len(),
        forall|i: int| 0 <= i < parts.len() ==> #[trigger] parts[i] == seq![lines[i]],
    ensures
        concat(parts) == lines,
    decreases parts.len(),
{
    if parts.len() > 0 {
        let n = parts.len() - 1;
        assert forall|i: int| 0 <= i < parts.drop_last().len() implies #[trigger] parts.drop_last()[i]
            == seq![lines.drop_last()[i]] by {
            assert(parts.drop_last()[i] == parts[i]);
        }
        lemma_concat_singletons(parts.drop_last(), lines.drop_last());
        assert(parts.last() == seq![lines[n]]);
        assert(lines.drop_last() + seq![lines[n]] =~= lines);
    }
}

/// Writes the number of values, then the values.
pub fn w_slice<T: LineValue>(w: &mut String, x: &Vec<T>)
    ensures
        final(w)@ == old(w)@ + join_lines(ser_slice::<T>(x.deep_view())),
{
    let ghost start = w@;
    w_count(w, x.len());
    w_iter(w, x);
    proof {
        lemma_write_concat(start, seq![decimal(x@.len() as nat)], ser_iter::<T>(x.deep_view()));
    }
}

/// Writes each list with its number of values.
fn w_rows<T: LineValue>(w: &mut String, x: &Vec<Vec<T>>)
    ensures
        final(w)@ == old(w)@ + join_lines(ser_rows::<T>(x.deep_view())),
{
    let ghost start = w@;
    let ghost parts = Seq::new(x.deep_view().len(), |i: int| ser_slice::<T>(x.deep_view()[i]));
    let mut i: usize = 0;
    proof {
        assert(parts.take(0) =~= Seq::<Lines>::empty());
        assert(start + join_lines(concat(parts.take(0))) =~= start);
    }
    while i < x.len()
        invariant
            i <= x@.len(),
            parts.len() == x@.len(),
            parts == Seq::new(x.deep_view().len(), |i: int| ser_slice::<T>(x.deep_view()[i])),
            w@ == start + join_lines(concat(parts.take(i as int))),
        decreases x@.len() - i,
    {
        w_slice(w, &x[i]);
        proof {
            lemma_write_step(start, parts, i as int);
        }
        i = i + 1;
    }
    proof {
        lemma_concat_all(parts);
    }
}

/// Writes the number of lists, then each list with its number of values.
pub fn w_nested_vec<T: LineValue>(w: &mut String, x: &Vec<Vec<T>>)
    ensures
        final(w)@ == old(w)@ + join_lines(ser_nested::<T>(x.deep_view())),
{
    let ghost start = w@;
    w_count(w, x.len());
    w_rows(w, x);
    proof {
        lemma_write_concat(start, seq![decimal(x@.len() as nat)], ser_rows::<T>(x.deep_view()));
    }
}

/// Writes the values of all lists, one line each.
fn w_flat<T: LineValue>(w: &mut String, x: &Vec<Vec<T>>)
    ensures
        final(w)@ == old(w)@ + join_lines(ser_flat::<T>(x.deep_view())),
{
    let ghost start = w@;
    let ghost parts = Seq::new(x.deep_view().len(), |i: int| ser_iter::<T>(x.deep_view()[i]));
    let mut i: usize = 0;
    proof {
        assert(parts.take(0) =~= Seq::<Lines>::empty());
        assert(start + join_lines(concat(parts.take(0))) =~= start);
    }
    while i < x.len()
        invariant
            i <= x@.len(),
            parts.len() == x@.len(),
            parts == Seq::new(x.deep_view().len(), |i: int| ser_iter::<T>(x.deep_view()[i])),
            w@ == start + join_lines(concat(parts.take(i as int))),
        decreases x@.len() - i,
    {
        w_iter(w, &x[i]);
        proof {
            lemma_write_step(start, parts, i as int);
        }
        i = i + 1;
    }
    proof {
        lemma_concat_all(parts);
    }
}


// ---------------------------------------------------------------------------
// The lines of a table
// ---------------------------------------------------------------------------

/// The line of a count.
pub open spec fn count_line(n: int) -> Text {
    decimal(n as nat)
}

/// The line of a flag: `1` when it is set, `0` when not.
pub open spec fn flag_line(b: bool) -> Text {
    if b {
        decimal(1)
    } else {
        decimal(0)
    }
}

/// A count of parts, then the parts.
pub open spec fn counted(parts: Seq<Lines>) -> Lines {
    seq![count_line(parts.len() as int)] + concat(parts)
}

#[verifier::opaque]
pub open spec fn ser_metadata(m: SpecMetadata) -> Lines {
    seq![
        count_line(m.table_version as int),
        m.scenario_name,
        count_line(m.n_contrib as int),
        count_line(m.n_mult as int),
        count_line(m.n_data as int),
        count_line(0),
        count_line(0),
        count_line(0),
        count_line(0),
        separator(),
        count_line(m.unit as int),
    ] + ser_slice::<String>(m.description) + seq![m.cms_energy, count_line(m.alphas_ord as int)]
}

pub open spec fn ser_position(v: SpecBinPosition) -> Lines {
    match v {
        SpecBinPosition::Central(x) => seq![x],
        SpecBinPosition::Boundaries { low, high } => seq![low, high],
    }
}

pub open spec fn ser_bin(b: SpecBin) -> Lines {
    concat(Seq::new(b.values.len(), |j: int| ser_position(b.values[j])))
}

/// The binning; the number of dimensions is that of the first bin.
#[verifier::opaque]
pub open spec fn ser_bins(bi: SpecBinInfo) -> Lines
    recommends
        bi.bins.len() > 0,
{
    seq![count_line(bi.bins.len() as int), count_line(bi.bins[0].values.len() as int)]
        + ser_iter::<String>(bi.dim_labels) + ser_iter::<usize>(bi.diff_bin) + concat(
        Seq::new(bi.bins.len(), |i: int| ser_bin(bi.bins[i])),
    ) + Seq::new(bi.bins.len(), |i: int| bi.bins[i].size)
}

/// Pairs of low and high values of row `i`, for the first `n` columns.
pub open spec fn ser_pairs(low: Seq<Seq<Text>>, high: Seq<Seq<Text>>, i: int, n: nat) -> Lines {
    concat(Seq::new(n, |j: int| seq![low[i][j], high[i][j]]))
}

pub open spec fn ser_data_row(
    centers: Seq<Text>,
    values: Seq<Text>,
    uncorr_low: Seq<Seq<Text>>,
    uncorr_high: Seq<Seq<Text>>,
    corr_low: Seq<Seq<Text>>,
    corr_high: Seq<Seq<Text>>,
    nu: nat,
    nc: nat,
    i: int,
) -> Lines {
    seq![centers[i], values[i]] + ser_pairs(uncorr_low, uncorr_high, i, nu) + ser_pairs(
        corr_low,
        corr_high,
        i,
        nc,
    )
}

pub open spec fn ser_data_rows(
    centers: Seq<Text>,
    values: Seq<Text>,
    uncorr_low: Seq<Seq<Text>>,
    uncorr_high: Seq<Seq<Text>>,
    corr_low: Seq<Seq<Text>>,
    corr_high: Seq<Seq<Text>>,
    nu: nat,
    nc: nat,
) -> Lines {
    concat(
        Seq::new(
            centers.len(),
            |i: int| ser_data_row(centers, values, uncorr_low, uncorr_high, corr_low, corr_high, nu, nc, i),
        ),
    )
}

/// The rows of a block of data; those of a table of data end with the
/// correlation matrix.
#[verifier::opaque]
pub open spec fn ser_data(d: SpecBlockData) -> Lines {
    match d {
        SpecBlockData::DataBlock {
            uncorr_sources,
            corr_sources,
            centers,
            values,
            uncorr_low,
            uncorr_high,
            corr_low,
            corr_high,
            corr_matrix,
        } => ser_slice::<String>(uncorr_sources) + ser_slice::<String>(corr_sources) + ser_data_rows(
            centers,
            values,
            uncorr_low,
            uncorr_high,
            corr_low,
            corr_high,
            uncorr_sources.len(),
            corr_sources.len(),
        ) + seq![count_line(corr_matrix.len() as int)] + ser_flat::<Float>(corr_matrix),
        SpecBlockData::MultBlock {
            uncorr_sources,
            corr_sources,
            centers,
            values,
            uncorr_low,
            uncorr_high,
            corr_low,
            corr_high,
        } => ser_slice::<String>(uncorr_sources) + ser_slice::<String>(corr_sources) + ser_data_rows(
            centers,
            values,
            uncorr_low,
            uncorr_high,
            corr_low,
            corr_high,
            uncorr_sources.len(),
            corr_sources.len(),
        ),
        SpecBlockData::TheoryBlock { .. } => ser_theory(d),
    }
}

#[verifier::opaque]
pub open spec fn ser_weight_info(wi: SpecWeightInfo, n_events: isize) -> Lines {
    seq![wi.n_events, wi.norm] + (if n_events <= -2 {
        seq![count_line(wi.n_tables as int)]
    } else {
        Seq::<Text>::empty()
    }) + seq![count_line(wi.n_entries as int), wi.sum_weights_sq, wi.sum_sig_sq, wi.sum_sig]
        + ser_nested::<Float>(wi.weight_sq_obs) + ser_nested::<Float>(wi.sig_sq_obs) + ser_nested::<
        Float,
    >(wi.sig_obs) + ser_nested::<usize>(wi.n_events_obs)
}

pub open spec fn ser_flavor_pair(f: (isize, isize)) -> Lines {
    seq![signed_decimal(f.0 as int), signed_decimal(f.1 as int)]
}

pub open spec fn ser_flavors(sp: Seq<(isize, isize)>) -> Lines {
    seq![count_line(sp.len() as int)] + concat(Seq::new(sp.len(), |k: int| ser_flavor_pair(sp[k])))
}

#[verifier::opaque]
pub open spec fn ser_pdf_info(pdf: SpecPDFInfo) -> Lines {
    ser_slice::<usize>(pdf.pdfs) + seq![count_line(pdf.n_pdf_dim as int)] + ser_slice::<usize>(
        pdf.fragmentation_functions,
    ) + seq![
        count_line(pdf.n_ff_dim as int),
        count_line(pdf.n_subproc as int),
        count_line(pdf.pdf_flag_1 as int),
        count_line(pdf.pdf_flag_2 as int),
        count_line(pdf.pdf_flag_3 as int),
    ] + if pdf.pdf_flag_2 == 0 {
        seq![count_line(0)] + concat(
            Seq::new(pdf.parton_flavors.len(), |i: int| ser_flavors(pdf.parton_flavors[i])),
        )
    } else {
        Seq::<Text>::empty()
    }
}

/// The values of a list of lists of lists, in order.
pub open spec fn ser_flat3(x: Seq<Seq<Seq<Text>>>) -> Lines {
    concat(Seq::new(x.len(), |i: int| ser_flat::<Float>(x[i])))
}

pub open spec fn ser_flat4(x: Seq<Seq<Seq<Seq<Text>>>>) -> Lines {
    concat(Seq::new(x.len(), |i: int| ser_flat3(x[i])))
}

pub open spec fn ser_flat5(x: SpecGrid5) -> Lines {
    concat(Seq::new(x.len(), |i: int| ser_flat4(x[i])))
}

pub open spec fn ser_flat6(x: Seq<SpecGrid5>) -> Lines {
    concat(Seq::new(x.len(), |i: int| ser_flat5(x[i])))
}

/// Second scale nodes of one first scale node: their count, then the values
/// of each.
pub open spec fn ser_g4(x: Seq<Seq<Text>>) -> Lines {
    seq![count_line(x.len() as int)] + ser_flat::<Float>(x)
}

pub open spec fn ser_g3(x: Seq<Seq<Seq<Text>>>) -> Lines {
    counted(Seq::new(x.len(), |i: int| ser_g4(x[i])))
}

pub open spec fn ser_g2(x: Seq<Seq<Seq<Seq<Text>>>>) -> Lines {
    counted(Seq::new(x.len(), |i: int| ser_g3(x[i])))
}

/// A grid of five dimensions, with the number of entries of each of its
/// first four dimensions before them.
pub open spec fn ser_grid5(g: SpecGrid5) -> Lines {
    counted(Seq::new(g.len(), |i: int| ser_g2(g[i])))
}

pub open spec fn ser_opt_grid(g: Option<SpecGrid5>) -> Lines {
    match g {
        Some(x) => ser_grid5(x),
        None => Seq::<Text>::empty(),
    }
}

pub open spec fn ser_fixed_pairs(var: Seq<usize>, node: Seq<usize>) -> Lines {
    concat(Seq::new(var.len(), |i: int| seq![count_line(var[i] as int), count_line(node[i] as int)]))
}

#[verifier::opaque]
pub open spec fn ser_grid(g: SpecGrid) -> Lines {
    match g {
        SpecGrid::Fixed { n_scale_var, n_scale_node, scale_fac, scale_node, grid } => ser_fixed_pairs(
            n_scale_var,
            n_scale_node,
        ) + ser_flat::<Float>(scale_fac) + ser_flat4(scale_node) + ser_flat6(grid),
        SpecGrid::Flex {
            scale_node_1,
            scale_node_2,
            grid,
            grid_f,
            grid_r,
            grid_rr,
            grid_ff,
            grid_rf,
            sigma_ref_mixed,
            sigma_ref_s1,
            sigma_ref_s2,
        } => ser_nested::<Float>(scale_node_1) + ser_nested::<Float>(scale_node_2) + ser_grid5(grid)
            + ser_opt_grid(grid_f) + ser_opt_grid(grid_r) + ser_opt_grid(grid_rr) + ser_opt_grid(
            grid_ff,
        ) + ser_opt_grid(grid_rf) + ser_g4(sigma_ref_mixed) + ser_g4(sigma_ref_s1) + ser_g4(
            sigma_ref_s2,
        ),
    }
}

#[verifier::opaque]
pub open spec fn ser_theory(d: SpecBlockData) -> Lines
    recommends
        d is TheoryBlock,
{
    match d {
        SpecBlockData::TheoryBlock {
            reference_table,
            i_scale_dependence,
            n_events,
            weight_info,
            alphas_power,
            pdf_info,
            x1_nodes,
            x2_nodes,
            z_nodes,
            scale_dimension,
            scale_description,
            grid,
        } => seq![
            flag_line(reference_table),
            count_line(i_scale_dependence as int),
            signed_decimal(n_events as int),
        ] + (match weight_info {
            Some(wi) => ser_weight_info(wi, n_events),
            None => Seq::<Text>::empty(),
        }) + seq![count_line(alphas_power as int)] + ser_pdf_info(pdf_info) + ser_rows::<Float>(
            x1_nodes,
        ) + ser_rows::<Float>(x2_nodes) + ser_rows::<Float>(z_nodes) + seq![
            count_line(scale_dimension.len() as int),
            count_line(scale_description.len() as int),
        ] + ser_iter::<usize>(scale_dimension) + ser_rows::<String>(scale_description) + ser_grid(
            grid,
        ),
        _ => Seq::<Text>::empty(),
    }
}

pub open spec fn ser_coeff_item(b: SpecBlock, i: int) -> Lines {
    seq![count_line(b.coeff_info_flags_1[i] as int), count_line(b.coeff_info_flags_2[i] as int)]
        + ser_slice::<String>(b.coeff_block_description[i]) + ser_slice::<Float>(
        b.coeff_block_content[i],
    )
}

#[verifier::opaque]
pub open spec fn ser_block(b: SpecBlock) -> Lines {
    seq![
        separator(),
        count_line(b.unit as int),
        flag_line(b.data_block),
        flag_line(b.mult_block),
        count_line(b.contribution_type as int),
        count_line(b.contribution_order as int),
        count_line(b.scale_format as int),
    ] + ser_slice::<String>(b.description) + ser_slice::<String>(b.code_description) + ser_data(
        b.data,
    ) + counted(Seq::new(b.coeff_info_flags_1.len(), |i: int| ser_coeff_item(b, i)))
}

/// The lines of a table.
#[verifier::opaque]
pub open spec fn ser_file(f: SpecFile) -> Lines {
    seq![separator()] + ser_metadata(f.metadata) + ser_bins(f.bin_info) + seq![count_line(0)]
        + concat(Seq::new(f.blocks.len(), |i: int| ser_block(f.blocks[i]))) + seq![
        separator(),
        separator(),
    ]
}


/// Writes the values of a list of lists of lists.
fn w_flat3(w: &mut String, x: &Vec<Vec<Vec<Float>>>)
    ensures
        final(w)@ == old(w)@ + join_lines(concat(Seq::new(x.deep_view().len(), |i: int| ser_flat::<Float>(x.deep_view()[i])))),
{
    let ghost start = w@;
    let ghost parts = Seq::new(x.deep_view().len(), |i: int| ser_flat::<Float>(x.deep_view()[i]));
    let mut i: usize = 0;
    proof {
        assert(parts.take(0) =~= Seq::<Lines>::empty());
        assert(start + join_lines(concat(parts.take(0))) =~= start);
    }
    while i < x.len()
        invariant
            i <= x@.len(),
            parts.len() == x@.len(),
            parts == Seq::new(x.deep_view().len(), |i: int| ser_flat::<Float>(x.deep_view()[i])),
            w@ == start + join_lines(concat(parts.take(i as int))),
        decreases x@.len() - i,
    {
        w_flat(w, &x[i]);
        proof {
            lemma_write_step(start, parts, i as int);
        }
        i = i + 1;
    }
    proof {
        lemma_concat_all(parts);
    }
}

/// Writes the values of four nested lists.
fn w_flat4(w: &mut String, x: &Vec<Vec<Vec<Vec<Float>>>>)
    ensures
        final(w)@ == old(w)@ + join_lines(concat(Seq::new(x.deep_view().len(), |i: int| ser_flat3(x.deep_view()[i])))),
{
    let ghost start = w@;
    let ghost parts = Seq::new(x.deep_view().len(), |i: int| ser_flat3(x.deep_view()[i]));
    let mut i: usize = 0;
    proof {
        assert(parts.take(0) =~= Seq::<Lines>::empty());
        assert(start + join_lines(concat(parts.take(0))) =~= start);
    }
    while i < x.len()
        invariant
            i <= x@.len(),
            parts.len() == x@.len(),
            parts == Seq::new(x.deep_view().len(), |i: int| ser_flat3(x.deep_view()[i])),
            w@ == start + join_lines(concat(parts.take(i as int))),
        decreases x@.len() - i,
    {
        w_flat3(w, &x[i]);
        proof {
            lemma_write_step(start, parts, i as int);
        }
        i = i + 1;
    }
    proof {
        lemma_concat_all(parts);
    }
}

/// Writes the values of a grid of five dimensions.
fn w_flat5(w: &mut String, x: &Grid5)
    ensures
        final(w)@ == old(w)@ + join_lines(concat(Seq::new(x.deep_view().len(), |i: int| ser_flat4(x.deep_view()[i])))),
{
    let ghost start = w@;
    let ghost parts = Seq::new(x.deep_view().len(), |i: int| ser_flat4(x.deep_view()[i]));
    let mut i: usize = 0;
    proof {
        assert(parts.take(0) =~= Seq::<Lines>::empty());
        assert(start + join_lines(concat(parts.take(0))) =~= start);
    }
    while i < x.len()
        invariant
            i <= x@.len(),
            parts.len() == x@.len(),
            parts == Seq::new(x.deep_view().len(), |i: int| ser_flat4(x.deep_view()[i])),
            w@ == start + join_lines(concat(parts.take(i as int))),
        decreases x@.len() - i,
    {
        w_flat4(w, &x[i]);
        proof {
            lemma_write_step(start, parts, i as int);
        }
        i = i + 1;
    }
    proof {
        lemma_concat_all(parts);
    }
}

/// Writes the values of a grid of six dimensions.
fn w_flat6(w: &mut String, x: &Grid6)
    ensures
        final(w)@ == old(w)@ + join_lines(concat(Seq::new(x.deep_view().len(), |i: int| ser_flat5(x.deep_view()[i])))),
{
    let ghost start = w@;
    let ghost parts = Seq::new(x.deep_view().len(), |i: int| ser_flat5(x.deep_view()[i]));
    let mut i: usize = 0;
    proof {
        assert(parts.take(0) =~= Seq::<Lines>::empty());
        assert(start + join_lines(concat(parts.take(0))) =~= start);
    }
    while i < x.len()
        invariant
            i <= x@.len(),
            parts.len() == x@.len(),
            parts == Seq::new(x.deep_view().len(), |i: int| ser_flat5(x.deep_view()[i])),
            w@ == start + join_lines(concat(parts.take(i as int))),
        decreases x@.len() - i,
    {
        w_flat5(w, &x[i]);
        proof {
            lemma_write_step(start, parts, i as int);
        }
        i = i + 1;
    }
    proof {
        lemma_concat_all(parts);
    }
}

/// Writes the number of lists, then the values of all of them.
fn w_g4(w: &mut String, x: &Vec<Vec<Float>>)
    ensures
        final(w)@ == old(w)@ + join_lines(ser_g4(x.deep_view())),
{
    let ghost start = w@;
    w_count(w, x.len());
    w_flat(w, x);
    proof {
        lemma_write_concat(start, seq![count_line(x@.len() as int)], ser_flat::<Float>(x.deep_view()));
    }
}

/// Writes each first scale node of an x node.
fn w_g3_parts(w: &mut String, x: &Vec<Vec<Vec<Float>>>)
    ensures
        final(w)@ == old(w)@ + join_lines(concat(Seq::new(x.deep_view().len(), |i: int| ser_g4(x.deep_view()[i])))),
{
    let ghost start = w@;
    let ghost parts = Seq::new(x.deep_view().len(), |i: int| ser_g4(x.deep_view()[i]));
    let mut i: usize = 0;
    proof {
        assert(parts.take(0) =~= Seq::<Lines>::empty());
        assert(start + join_lines(concat(parts.take(0))) =~= start);
    }
    while i < x.len()
        invariant
            i <= x@.len(),
            parts.len() == x@.len(),
            parts == Seq::new(x.deep_view().len(), |i: int| ser_g4(x.deep_view()[i])),
            w@ == start + join_lines(concat(parts.take(i as int))),
        decreases x@.len() - i,
    {
        w_g4(w, &x[i]);
        proof {
            lemma_write_step(start, parts, i as int);
        }
        i = i + 1;
    }
    proof {
        lemma_concat_all(parts);
    }
}

/// Writes the first scale nodes of an x node, with their number.
fn w_g3(w: &mut String, x: &Vec<Vec<Vec<Float>>>)
    ensures
        final(w)@ == old(w)@ + join_lines(counted(Seq::new(x.deep_view().len(), |i: int| ser_g4(x.deep_view()[i])))),
{
    let ghost start = w@;
    w_count(w, x.len());
    w_g3_parts(w, x);
    proof {
        lemma_write_concat(start, seq![count_line(x@.len() as int)], concat(Seq::new(x.deep_view().len(), |i: int| ser_g4(x.deep_view()[i]))));
    }
}

/// Writes each x node of a bin.
fn w_g2_parts(w: &mut String, x: &Vec<Vec<Vec<Vec<Float>>>>)
    ensures
        final(w)@ == old(w)@ + join_lines(concat(Seq::new(x.deep_view().len(), |i: int| ser_g3(x.deep_view()[i])))),
{
    let ghost start = w@;
    let ghost parts = Seq::new(x.deep_view().len(), |i: int| ser_g3(x.deep_view()[i]));
    let mut i: usize = 0;
    proof {
        assert(parts.take(0) =~= Seq::<Lines>::empty());
        assert(start + join_lines(concat(parts.take(0))) =~= start);
    }
    while i < x.len()
        invariant
            i <= x@.len(),
            parts.len() == x@.len(),
            parts == Seq::new(x.deep_view().len(), |i: int| ser_g3(x.deep_view()[i])),
            w@ == start + join_lines(concat(parts.take(i as int))),
        decreases x@.len() - i,
    {
        w_g3(w, &x[i]);
        proof {
            lemma_write_step(start, parts, i as int);
        }
        i = i + 1;
    }
    proof {
        lemma_concat_all(parts);
    }
}

/// Writes the x nodes of a bin, with their number.
fn w_g2(w: &mut String, x: &Vec<Vec<Vec<Vec<Float>>>>)
    ensures
        final(w)@ == old(w)@ + join_lines(counted(Seq::new(x.deep_view().len(), |i: int| ser_g3(x.deep_view()[i])))),
{
    let ghost start = w@;
    w_count(w, x.len());
    w_g2_parts(w, x);
    proof {
        lemma_write_concat(start, seq![count_line(x@.len() as int)], concat(Seq::new(x.deep_view().len(), |i: int| ser_g3(x.deep_view()[i]))));
    }
}

/// Writes each bin of a grid.
fn w_grid5_parts(w: &mut String, x: &Grid5)
    ensures
        final(w)@ == old(w)@ + join_lines(concat(Seq::new(x.deep_view().len(), |i: int| ser_g2(x.deep_view()[i])))),
{
    let ghost start = w@;
    let ghost parts = Seq::new(x.deep_view().len(), |i: int| ser_g2(x.deep_view()[i]));
    let mut i: usize = 0;
    proof {
        assert(parts.take(0) =~= Seq::<Lines>::empty());
        assert(start + join_lines(concat(parts.take(0))) =~= start);
    }
    while i < x.len()
        invariant
            i <= x@.len(),
            parts.len() == x@.len(),
            parts == Seq::new(x.deep_view().len(), |i: int| ser_g2(x.deep_view()[i])),
            w@ == start + join_lines(concat(parts.take(i as int))),
        decreases x@.len() - i,
    {
        w_g2(w, &x[i]);
        proof {
            lemma_write_step(start, parts, i as int);
        }
        i = i + 1;
    }
    proof {
        lemma_concat_all(parts);
    }
}

/// Writes a grid of five dimensions with the number of entries of its first four.
fn w_grid5(w: &mut String, x: &Grid5)
    ensures
        final(w)@ == old(w)@ + join_lines(counted(Seq::new(x.deep_view().len(), |i: int| ser_g2(x.deep_view()[i])))),
{
    let ghost start = w@;
    w_count(w, x.len());
    w_grid5_parts(w, x);
    proof {
        lemma_write_concat(start, seq![count_line(x@.len() as int)], concat(Seq::new(x.deep_view().len(), |i: int| ser_g2(x.deep_view()[i]))));
    }
}


/// The separator line.
fn separator_line() -> (r: String)
    ensures
        r@ == separator(),
{
    let r = String::from_str("1234567890");
    proof {
        reveal_strlit("1234567890");
        assert(r@ =~= separator());
    }
    r
}

/// Writes a flag as `1` or `0`.
fn w_flag(w: &mut String, b: bool)
    ensures
        final(w)@ == old(w)@ + join_lines(seq![flag_line(b)]),
{
    if b {
        w_count(w, 1);
    } else {
        w_count(w, 0);
    }
}

fn write_metadata(w: &mut String, m: &Metadata)
    ensures
        final(w)@ == old(w)@ + join_lines(ser_metadata(m.deep_view())),
{
    let sep = separator_line();
    let ghost start = w@;
    let ghost mut acc: Lines = Seq::empty();
    proof {
        assert(start + join_lines(acc) =~= start);
    }
    w_count(w, m.table_version);
    proof {
        lemma_write_concat(start, acc, seq![count_line(m.table_version as int)]);
        acc = acc + seq![count_line(m.table_version as int)];
    }
    w_literal(w, &m.scenario_name);
    proof {
        lemma_write_concat(start, acc, seq![m.scenario_name@]);
        acc = acc + seq![m.scenario_name@];
    }
    w_count(w, m.n_contrib);
    proof {
        lemma_write_concat(start, acc, seq![count_line(m.n_contrib as int)]);
        acc = acc + seq![count_line(m.n_contrib as int)];
    }
    w_count(w, m.n_mult);
    proof {
        lemma_write_concat(start, acc, seq![count_line(m.n_mult as int)]);
        acc = acc + seq![count_line(m.n_mult as int)];
    }
    w_count(w, m.n_data);
    proof {
        lemma_write_concat(start, acc, seq![count_line(m.n_data as int)]);
        acc = acc + seq![count_line(m.n_data as int)];
    }
    w_count(w, 0);
    proof {
        lemma_write_concat(start, acc, seq![count_line(0)]);
        acc = acc + seq![count_line(0)];
    }
    w_count(w, 0);
    proof {
        lemma_write_concat(start, acc, seq![count_line(0)]);
        acc = acc + seq![count_line(0)];
    }
    w_count(w, 0);
    proof {
        lemma_write_concat(start, acc, seq![count_line(0)]);
        acc = acc + seq![count_line(0)];
    }
    w_count(w, 0);
    proof {
        lemma_write_concat(start, acc, seq![count_line(0)]);
        acc = acc + seq![count_line(0)];
    }
    push_line(w, &sep);
    proof {
        lemma_write_concat(start, acc, seq![separator()]);
        acc = acc + seq![separator()];
    }
    w_count(w, m.unit);
    proof {
        lemma_write_concat(start, acc, seq![count_line(m.unit as int)]);
        acc = acc + seq![count_line(m.unit as int)];
    }
    w_slice(w, &m.description);
    proof {
        lemma_write_concat(start, acc, ser_slice::<String>(m.description.deep_view()));
        acc = acc + ser_slice::<String>(m.description.deep_view());
    }
    w_literal(w, &m.cms_energy);
    proof {
        lemma_write_concat(start, acc, seq![m.cms_energy.text@]);
        acc = acc + seq![m.cms_energy.text@];
    }
    w_count(w, m.alphas_ord);
    proof {
        lemma_write_concat(start, acc, seq![count_line(m.alphas_ord as int)]);
        acc = acc + seq![count_line(m.alphas_ord as int)];
    }
    proof {
        reveal(ser_metadata);
        assert(acc =~= ser_metadata(m.deep_view()));
    }
}

fn write_position(w: &mut String, v: &BinPosition)
    ensures
        final(w)@ == old(w)@ + join_lines(ser_position(v.deep_view())),
{
    match v {
        BinPosition::Central(x) => {
            w_literal(w, x);
        },
        BinPosition::Boundaries { low, high } => {
            let ghost start = w@;
            w_literal(w, low);
            w_literal(w, high);
            proof {
                lemma_write_concat(start, seq![low.text@], seq![high.text@]);
                assert(seq![low.text@] + seq![high.text@] =~= seq![low.text@, high.text@]);
            }
        },
    }
}

/// Writes where a bin lies in each dimension.
fn write_bin_positions(w: &mut String, x: &Vec<BinPosition>)
    ensures
        final(w)@ == old(w)@ + join_lines(concat(Seq::new(x.deep_view().len(), |i: int| ser_position(x.deep_view()[i])))),
{
    let ghost start = w@;
    let ghost parts = Seq::new(x.deep_view().len(), |i: int| ser_position(x.deep_view()[i]));
    let mut i: usize = 0;
    proof {
        assert(parts.take(0) =~= Seq::<Lines>::empty());
        assert(start + join_lines(concat(parts.take(0))) =~= start);
    }
    while i < x.len()
        invariant
            i <= x@.len(),
            parts.len() == x@.len(),
            parts == Seq::new(x.deep_view().len(), |i: int| ser_position(x.deep_view()[i])),
            w@ == start + join_lines(concat(parts.take(i as int))),
        decreases x@.len() - i,
    {
        write_position(w, &x[i]);
        proof {
            lemma_write_step(start, parts, i as int);
        }
        i = i + 1;
    }
    proof {
        lemma_concat_all(parts);
    }
}

/// Writes where each bin lies.
fn write_bin_list(w: &mut String, x: &Vec<Bin>)
    ensures
        final(w)@ == old(w)@ + join_lines(concat(Seq::new(x.deep_view().len(), |i: int| ser_bin(x.deep_view()[i])))),
{
    let ghost start = w@;
    let ghost parts = Seq::new(x.deep_view().len(), |i: int| ser_bin(x.deep_view()[i]));
    let mut i: usize = 0;
    proof {
        assert(parts.take(0) =~= Seq::<Lines>::empty());
        assert(start + join_lines(concat(parts.take(0))) =~= start);
    }
    while i < x.len()
        invariant
            i <= x@.len(),
            parts.len() == x@.len(),
            parts == Seq::new(x.deep_view().len(), |i: int| ser_bin(x.deep_view()[i])),
            w@ == start + join_lines(concat(parts.take(i as int))),
        decreases x@.len() - i,
    {
        write_bin_positions(w, &x[i].values);
        proof {
            lemma_write_step(start, parts, i as int);
        }
        i = i + 1;
    }
    proof {
        lemma_concat_all(parts);
    }
}

/// Writes the size of each bin.
fn write_bin_sizes(w: &mut String, x: &Vec<Bin>)
    ensures
        final(w)@ == old(w)@ + join_lines(Seq::new(x.deep_view().len(), |i: int| x.deep_view()[i].size)),
{
    let ghost start = w@;
    let ghost lines = Seq::new(x.deep_view().len(), |i: int| x.deep_view()[i].size);
    let ghost parts = Seq::new(x.deep_view().len(), |i: int| seq![lines[i]]);
    let mut i: usize = 0;
    proof {
        assert(parts.take(0) =~= Seq::<Lines>::empty());
        assert(start + join_lines(concat(parts.take(0))) =~= start);
    }
    while i < x.len()
        invariant
            i <= x@.len(),
            parts.len() == x@.len(),
            lines == Seq::new(x.deep_view().len(), |i: int| x.deep_view()[i].size),
            parts == Seq::new(x.deep_view().len(), |i: int| seq![lines[i]]),
            w@ == start + join_lines(concat(parts.take(i as int))),
        decreases x@.len() - i,
    {
        w_literal(w, &x[i].size);
        proof {
            lemma_write_step(start, parts, i as int);
        }
        i = i + 1;
    }
    proof {
        lemma_concat_all(parts);
        lemma_concat_singletons(parts, lines);
    }
}

fn write_bins(w: &mut String, bi: &BinInfo)
    requires
        bi.bins@.len() > 0,
    ensures
        final(w)@ == old(w)@ + join_lines(ser_bins(bi.deep_view())),
{
    let ghost start = w@;
    let ghost mut acc: Lines = Seq::empty();
    proof {
        assert(start + join_lines(acc) =~= start);
    }
    w_count(w, bi.bins.len());
    proof {
        lemma_write_concat(start, acc, seq![count_line(bi.bins@.len() as int)]);
        acc = acc + seq![count_line(bi.bins@.len() as int)];
    }
    w_count(w, bi.bins[0].values.len());
    proof {
        lemma_write_concat(start, acc, seq![count_line(bi.bins@[0].values@.len() as int)]);
        acc = acc + seq![count_line(bi.bins@[0].values@.len() as int)];
    }
    w_iter(w, &bi.dim_labels);
    proof {
        lemma_write_concat(start, acc, ser_iter::<String>(bi.dim_labels.deep_view()));
        acc = acc + ser_iter::<String>(bi.dim_labels.deep_view());
    }
    w_iter(w, &bi.diff_bin);
    proof {
        lemma_write_concat(start, acc, ser_iter::<usize>(bi.diff_bin.deep_view()));
        acc = acc + ser_iter::<usize>(bi.diff_bin.deep_view());
    }
    write_bin_list(w, &bi.bins);
    proof {
        lemma_write_concat(start, acc, concat(Seq::new(bi.bins.deep_view().len(), |i: int| ser_bin(bi.bins.deep_view()[i]))));
        acc = acc + concat(Seq::new(bi.bins.deep_view().len(), |i: int| ser_bin(bi.bins.deep_view()[i])));
    }
    write_bin_sizes(w, &bi.bins);
    proof {
        lemma_write_concat(start, acc, Seq::new(bi.bins.deep_view().len(), |i: int| bi.bins.deep_view()[i].size));
        acc = acc + Seq::new(bi.bins.deep_view().len(), |i: int| bi.bins.deep_view()[i].size);
    }
    proof {
        reveal(ser_bins);
        assert(acc =~= ser_bins(bi.deep_view()));
    }
}


/// Row `i` of a table of low and high values holds at least `n` values.
pub open spec fn has_pairs(low: Seq<Seq<Text>>, high: Seq<Seq<Text>>, i: int, n: nat) -> bool {
    &&& 0 <= i < low.len()
    &&& 0 <= i < high.len()
    &&& n <= low[i].len()
    &&& n <= high[i].len()
}

/// The rows of a block of data can be written: each row has its value and
/// its uncertainties.
pub open spec fn rows_writable(
    centers: Seq<Text>,
    values: Seq<Text>,
    uncorr_low: Seq<Seq<Text>>,
    uncorr_high: Seq<Seq<Text>>,
    corr_low: Seq<Seq<Text>>,
    corr_high: Seq<Seq<Text>>,
    nu: nat,
    nc: nat,
) -> bool {
    &&& centers.len() <= values.len()
    &&& forall|i: int|
        0 <= i < centers.len() ==> #[trigger] has_pairs(uncorr_low, uncorr_high, i, nu) && has_pairs(
            corr_low,
            corr_high,
            i,
            nc,
        )
}

fn write_pairs(w: &mut String, low: &Vec<Vec<Float>>, high: &Vec<Vec<Float>>, i: usize, n: usize)
    requires
        has_pairs(low.deep_view(), high.deep_view(), i as int, n as nat),
    ensures
        final(w)@ == old(w)@ + join_lines(ser_pairs(low.deep_view(), high.deep_view(), i as int, n as nat)),
{
    let ghost start = w@;
    let ghost lo = low.deep_view();
    let ghost hi = high.deep_view();
    let ghost parts = Seq::new(n as nat, |j: int| seq![lo[i as int][j], hi[i as int][j]]);
    let mut j: usize = 0;
    proof {
        assert(parts.take(0) =~= Seq::<Lines>::empty());
        assert(start + join_lines(concat(parts.take(0))) =~= start);
    }
    while j < n
        invariant
            j <= n,
            lo == low.deep_view(),
            hi == high.deep_view(),
            has_pairs(lo, hi, i as int, n as nat),
            parts == Seq::new(n as nat, |j: int| seq![lo[i as int][j], hi[i as int][j]]),
            w@ == start + join_lines(concat(parts.take(j as int))),
        decreases n - j,
    {
        let ghost before = w@;
        w_literal(w, &low[i][j]);
        w_literal(w, &high[i][j]);
        proof {
            assert(low@[i as int].deep_view()[j as int] == lo[i as int][j as int]);
            assert(high@[i as int].deep_view()[j as int] == hi[i as int][j as int]);
            lemma_write_concat(before, seq![lo[i as int][j as int]], seq![hi[i as int][j as int]]);
            assert(seq![lo[i as int][j as int]] + seq![hi[i as int][j as int]] =~= parts[j as int]);
            lemma_write_step(start, parts, j as int);
        }
        j = j + 1;
    }
    proof {
        lemma_concat_all(parts);
    }
}

fn write_data_row(
    w: &mut String,
    centers: &Vec<Float>,
    values: &Vec<Float>,
    uncorr_low: &Vec<Vec<Float>>,
    uncorr_high: &Vec<Vec<Float>>,
    corr_low: &Vec<Vec<Float>>,
    corr_high: &Vec<Vec<Float>>,
    nu: usize,
    nc: usize,
    i: usize,
)
    requires
        i < centers@.len(),
        i < values@.len(),
        has_pairs(uncorr_low.deep_view(), uncorr_high.deep_view(), i as int, nu as nat),
        has_pairs(corr_low.deep_view(), corr_high.deep_view(), i as int, nc as nat),
    ensures
        final(w)@ == old(w)@ + join_lines(
            ser_data_row(
                centers.deep_view(),
                values.deep_view(),
                uncorr_low.deep_view(),
                uncorr_high.deep_view(),
                corr_low.deep_view(),
                corr_high.deep_view(),
                nu as nat,
                nc as nat,
                i as int,
            ),
        ),
{
    let ghost start = w@;
    let ghost mut acc: Lines = Seq::empty();
    proof {
        assert(start + join_lines(acc) =~= start);
    }
    w_literal(w, &centers[i]);
    proof {
        lemma_write_concat(start, acc, seq![centers.deep_view()[i as int]]);
        acc = acc + seq![centers.deep_view()[i as int]];
    }
    w_literal(w, &values[i]);
    proof {
        lemma_write_concat(start, acc, seq![values.deep_view()[i as int]]);
        acc = acc + seq![values.deep_view()[i as int]];
    }
    write_pairs(w, uncorr_low, uncorr_high, i, nu);
    proof {
        lemma_write_concat(start, acc, ser_pairs(uncorr_low.deep_view(), uncorr_high.deep_view(), i as int, nu as nat));
        acc = acc + ser_pairs(uncorr_low.deep_view(), uncorr_high.deep_view(), i as int, nu as nat);
    }
    write_pairs(w, corr_low, corr_high, i, nc);
    proof {
        lemma_write_concat(start, acc, ser_pairs(corr_low.deep_view(), corr_high.deep_view(), i as int, nc as nat));
        acc = acc + ser_pairs(corr_low.deep_view(), corr_high.deep_view(), i as int, nc as nat);
    }
    proof {
        assert(acc =~= ser_data_row(
            centers.deep_view(),
            values.deep_view(),
            uncorr_low.deep_view(),
            uncorr_high.deep_view(),
            corr_low.deep_view(),
            corr_high.deep_view(),
            nu as nat,
            nc as nat,
            i as int,
        ));
    }
}

fn write_data_rows(
    w: &mut String,
    centers: &Vec<Float>,
    values: &Vec<Float>,
    uncorr_low: &Vec<Vec<Float>>,
    uncorr_high: &Vec<Vec<Float>>,
    corr_low: &Vec<Vec<Float>>,
    corr_high: &Vec<Vec<Float>>,
    nu: usize,
    nc: usize,
)
    requires
        rows_writable(
            centers.deep_view(),
            values.deep_view(),
            uncorr_low.deep_view(),
            uncorr_high.deep_view(),
            corr_low.deep_view(),
            corr_high.deep_view(),
            nu as nat,
            nc as nat,
        ),
    ensures
        final(w)@ == old(w)@ + join_lines(
            ser_data_rows(
                centers.deep_view(),
                values.deep_view(),
                uncorr_low.deep_view(),
                uncorr_high.deep_view(),
                corr_low.deep_view(),
                corr_high.deep_view(),
                nu as nat,
                nc as nat,
            ),
        ),
{
    let ghost start = w@;
    let ghost parts = Seq::new(
        centers.deep_view().len(),
        |i: int|
            ser_data_row(
                centers.deep_view(),
                values.deep_view(),
                uncorr_low.deep_view(),
                uncorr_high.deep_view(),
                corr_low.deep_view(),
                corr_high.deep_view(),
                nu as nat,
                nc as nat,
                i,
            ),
    );
    let mut i: usize = 0;
    proof {
        assert(parts.take(0) =~= Seq::<Lines>::empty());
        assert(start + join_lines(concat(parts.take(0))) =~= start);
    }
    while i < centers.len()
        invariant
            i <= centers@.len(),
            parts.len() == centers@.len(),
            parts == Seq::new(
                centers.deep_view().len(),
                |i: int|
                    ser_data_row(
                        centers.deep_view(),
                        values.deep_view(),
                        uncorr_low.deep_view(),
                        uncorr_high.deep_view(),
                        corr_low.deep_view(),
                        corr_high.deep_view(),
                        nu as nat,
                        nc as nat,
                        i,
                    ),
            ),
            rows_writable(
                centers.deep_view(),
                values.deep_view(),
                uncorr_low.deep_view(),
                uncorr_high.deep_view(),
                corr_low.deep_view(),
                corr_high.deep_view(),
                nu as nat,
                nc as nat,
            ),
            w@ == start + join_lines(concat(parts.take(i as int))),
        decreases centers@.len() - i,
    {
        proof {
            assert(has_pairs(uncorr_low.deep_view(), uncorr_high.deep_view(), i as int, nu as nat));
        }
        write_data_row(w, centers, values, uncorr_low, uncorr_high, corr_low, corr_high, nu, nc, i);
        proof {
            lemma_write_step(start, parts, i as int);
        }
        i = i + 1;
    }
    proof {
        lemma_concat_all(parts);
    }
}


fn write_weight_info(w: &mut String, wi: &WeightInfo, n_events: isize)
    ensures
        final(w)@ == old(w)@ + join_lines(ser_weight_info(wi.deep_view(), n_events)),
{
    let ghost start = w@;
    let ghost mut acc: Lines = Seq::empty();
    proof {
        assert(start + join_lines(acc) =~= start);
    }
    w_literal(w, &wi.n_events);
    proof {
        lemma_write_concat(start, acc, seq![wi.n_events.text@]);
        acc = acc + seq![wi.n_events.text@];
    }
    w_literal(w, &wi.norm);
    proof {
        lemma_write_concat(start, acc, seq![wi.norm.text@]);
        acc = acc + seq![wi.norm.text@];
    }
    if n_events <= -2 {
        w_count(w, wi.n_tables);
        proof {
            lemma_write_concat(start, acc, seq![count_line(wi.n_tables as int)]);
            acc = acc + seq![count_line(wi.n_tables as int)];
        }
    }
    w_count(w, wi.n_entries);
    proof {
        lemma_write_concat(start, acc, seq![count_line(wi.n_entries as int)]);
        acc = acc + seq![count_line(wi.n_entries as int)];
    }
    w_literal(w, &wi.sum_weights_sq);
    proof {
        lemma_write_concat(start, acc, seq![wi.sum_weights_sq.text@]);
        acc = acc + seq![wi.sum_weights_sq.text@];
    }
    w_literal(w, &wi.sum_sig_sq);
    proof {
        lemma_write_concat(start, acc, seq![wi.sum_sig_sq.text@]);
        acc = acc + seq![wi.sum_sig_sq.text@];
    }
    w_literal(w, &wi.sum_sig);
    proof {
        lemma_write_concat(start, acc, seq![wi.sum_sig.text@]);
        acc = acc + seq![wi.sum_sig.text@];
    }
    w_nested_vec(w, &wi.weight_sq_obs);
    proof {
        lemma_write_concat(start, acc, ser_nested::<Float>(wi.weight_sq_obs.deep_view()));
        acc = acc + ser_nested::<Float>(wi.weight_sq_obs.deep_view());
    }
    w_nested_vec(w, &wi.sig_sq_obs);
    proof {
        lemma_write_concat(start, acc, ser_nested::<Float>(wi.sig_sq_obs.deep_view()));
        acc = acc + ser_nested::<Float>(wi.sig_sq_obs.deep_view());
    }
    w_nested_vec(w, &wi.sig_obs);
    proof {
        lemma_write_concat(start, acc, ser_nested::<Float>(wi.sig_obs.deep_view()));
        acc = acc + ser_nested::<Float>(wi.sig_obs.deep_view());
    }
    w_nested_vec(w, &wi.n_events_obs);
    proof {
        lemma_write_concat(start, acc, ser_nested::<usize>(wi.n_events_obs.deep_view()));
        acc = acc + ser_nested::<usize>(wi.n_events_obs.deep_view());
    }
    proof {
        reveal(ser_weight_info);
        assert(acc =~= ser_weight_info(wi.deep_view(), n_events));
    }
}

fn write_flavor_pair(w: &mut String, f: &(isize, isize))
    ensures
        final(w)@ == old(w)@ + join_lines(ser_flavor_pair(*f)),
{
    let ghost start = w@;
    w_literal(w, &f.0);
    w_literal(w, &f.1);
    proof {
        lemma_write_concat(start, seq![signed_decimal(f.0 as int)], seq![signed_decimal(f.1 as int)]);
        assert(seq![signed_decimal(f.0 as int)] + seq![signed_decimal(f.1 as int)] =~= ser_flavor_pair(*f));
    }
}

/// Writes the flavour pairs of a subprocess.
fn write_flavor_pairs(w: &mut String, x: &Vec<(isize, isize)>)
    ensures
        final(w)@ == old(w)@ + join_lines(concat(Seq::new(x.deep_view().len(), |i: int| ser_flavor_pair(x.deep_view()[i])))),
{
    let ghost start = w@;
    let ghost parts = Seq::new(x.deep_view().len(), |i: int| ser_flavor_pair(x.deep_view()[i]));
    let mut i: usize = 0;
    proof {
        assert(parts.take(0) =~= Seq::<Lines>::empty());
        assert(start + join_lines(concat(parts.take(0))) =~= start);
    }
    while i < x.len()
        invariant
            i <= x@.len(),
            parts.len() == x@.len(),
            parts == Seq::new(x.deep_view().len(), |i: int| ser_flavor_pair(x.deep_view()[i])),
            w@ == start + join_lines(concat(parts.take(i as int))),
        decreases x@.len() - i,
    {
        write_flavor_pair(w, &x[i]);
        proof {
            lemma_write_step(start, parts, i as int);
        }
        i = i + 1;
    }
    proof {
        lemma_concat_all(parts);
    }
}

fn write_flavors(w: &mut String, x: &Vec<(isize, isize)>)
    ensures
        final(w)@ == old(w)@ + join_lines(ser_flavors(x.deep_view())),
{
    let ghost start = w@;
    w_count(w, x.len());
    write_flavor_pairs(w, x);
    proof {
        lemma_write_concat(
            start,
            seq![count_line(x@.len() as int)],
            concat(Seq::new(x.deep_view().len(), |k: int| ser_flavor_pair(x.deep_view()[k]))),
        );
    }
}

/// Writes the flavours of each subprocess.
fn write_all_flavors(w: &mut String, x: &Vec<Vec<(isize, isize)>>)
    ensures
        final(w)@ == old(w)@ + join_lines(concat(Seq::new(x.deep_view().len(), |i: int| ser_flavors(x.deep_view()[i])))),
{
    let ghost start = w@;
    let ghost parts = Seq::new(x.deep_view().len(), |i: int| ser_flavors(x.deep_view()[i]));
    let mut i: usize = 0;
    proof {
        assert(parts.take(0) =~= Seq::<Lines>::empty());
        assert(start + join_lines(concat(parts.take(0))) =~= start);
    }
    while i < x.len()
        invariant
            i <= x@.len(),
            parts.len() == x@.len(),
            parts == Seq::new(x.deep_view().len(), |i: int| ser_flavors(x.deep_view()[i])),
            w@ == start + join_lines(concat(parts.take(i as int))),
        decreases x@.len() - i,
    {
        write_flavors(w, &x[i]);
        proof {
            lemma_write_step(start, parts, i as int);
        }
        i = i + 1;
    }
    proof {
        lemma_concat_all(parts);
    }
}

fn write_pdf_info(w: &mut String, pdf: &PDFInfo)
    ensures
        final(w)@ == old(w)@ + join_lines(ser_pdf_info(pdf.deep_view())),
{
    let ghost start = w@;
    let ghost mut acc: Lines = Seq::empty();
    proof {
        assert(start + join_lines(acc) =~= start);
    }
    w_slice(w, &pdf.pdfs);
    proof {
        lemma_write_concat(start, acc, ser_slice::<usize>(pdf.pdfs.deep_view()));
        acc = acc + ser_slice::<usize>(pdf.pdfs.deep_view());
    }
    w_count(w, pdf.n_pdf_dim);
    proof {
        lemma_write_concat(start, acc, seq![count_line(pdf.n_pdf_dim as int)]);
        acc = acc + seq![count_line(pdf.n_pdf_dim as int)];
    }
    w_slice(w, &pdf.fragmentation_functions);
    proof {
        lemma_write_concat(start, acc, ser_slice::<usize>(pdf.fragmentation_functions.deep_view()));
        acc = acc + ser_slice::<usize>(pdf.fragmentation_functions.deep_view());
    }
    w_count(w, pdf.n_ff_dim);
    proof {
        lemma_write_concat(start, acc, seq![count_line(pdf.n_ff_dim as int)]);
        acc = acc + seq![count_line(pdf.n_ff_dim as int)];
    }
    w_count(w, pdf.n_subproc);
    proof {
        lemma_write_concat(start, acc, seq![count_line(pdf.n_subproc as int)]);
        acc = acc + seq![count_line(pdf.n_subproc as int)];
    }
    w_count(w, pdf.pdf_flag_1);
    proof {
        lemma_write_concat(start, acc, seq![count_line(pdf.pdf_flag_1 as int)]);
        acc = acc + seq![count_line(pdf.pdf_flag_1 as int)];
    }
    w_count(w, pdf.pdf_flag_2);
    proof {
        lemma_write_concat(start, acc, seq![count_line(pdf.pdf_flag_2 as int)]);
        acc = acc + seq![count_line(pdf.pdf_flag_2 as int)];
    }
    w_count(w, pdf.pdf_flag_3);
    proof {
        lemma_write_concat(start, acc, seq![count_line(pdf.pdf_flag_3 as int)]);
        acc = acc + seq![count_line(pdf.pdf_flag_3 as int)];
    }
    if pdf.pdf_flag_2 == 0 {
        w_count(w, 0);
        proof {
            lemma_write_concat(start, acc, seq![count_line(0)]);
            acc = acc + seq![count_line(0)];
        }
        write_all_flavors(w, &pdf.parton_flavors);
        proof {
            let fl = concat(
                Seq::new(pdf.parton_flavors.deep_view().len(), |i: int| ser_flavors(pdf.parton_flavors.deep_view()[i])),
            );
            lemma_write_concat(start, acc, fl);
            acc = acc + fl;
        }
    }
    proof {
        reveal(ser_pdf_info);
        assert(acc =~= ser_pdf_info(pdf.deep_view()));
    }
}


fn write_opt_grid(w: &mut String, g: &Option<Grid5>)
    ensures
        final(w)@ == old(w)@ + join_lines(ser_opt_grid(g.deep_view())),
{
    match g {
        Some(x) => {
            w_grid5(w, x);
        },
        None => {
            proof {
                assert(old(w)@ + join_lines(Seq::<Text>::empty()) =~= old(w)@);
            }
        },
    }
}

fn write_fixed_pairs(w: &mut String, var: &Vec<usize>, node: &Vec<usize>)
    requires
        var@.len() <= node@.len(),
    ensures
        final(w)@ == old(w)@ + join_lines(ser_fixed_pairs(var.deep_view(), node.deep_view())),
{
    let ghost start = w@;
    let ghost va = var.deep_view();
    let ghost no = node.deep_view();
    let ghost parts = Seq::new(va.len(), |i: int| seq![count_line(va[i] as int), count_line(no[i] as int)]);
    let mut i: usize = 0;
    proof {
        assert(parts.take(0) =~= Seq::<Lines>::empty());
        assert(start + join_lines(concat(parts.take(0))) =~= start);
    }
    while i < var.len()
        invariant
            i <= var@.len(),
            var@.len() <= node@.len(),
            va == var.deep_view(),
            no == node.deep_view(),
            parts == Seq::new(va.len(), |i: int| seq![count_line(va[i] as int), count_line(no[i] as int)]),
            w@ == start + join_lines(concat(parts.take(i as int))),
        decreases var@.len() - i,
    {
        let ghost before = w@;
        w_count(w, var[i]);
        w_count(w, node[i]);
        proof {
            lemma_write_concat(before, seq![count_line(va[i as int] as int)], seq![count_line(no[i as int] as int)]);
            assert(seq![count_line(va[i as int] as int)] + seq![count_line(no[i as int] as int)] =~= parts[i as int]);
            lemma_write_step(start, parts, i as int);
        }
        i = i + 1;
    }
    proof {
        lemma_concat_all(parts);
    }
}

/// A grid can be written: each scale dimension of a fixed grid has its
/// number of scale nodes.
pub open spec fn grid_writable(g: SpecGrid) -> bool {
    match g {
        SpecGrid::Fixed { n_scale_var, n_scale_node, .. } => n_scale_var.len() <= n_scale_node.len(),
        SpecGrid::Flex { .. } => true,
    }
}

fn write_grid(w: &mut String, g: &Grid)
    requires
        grid_writable(g.deep_view()),
    ensures
        final(w)@ == old(w)@ + join_lines(ser_grid(g.deep_view())),
{
    match g {
        Grid::Fixed { n_scale_var, n_scale_node, scale_fac, scale_node, grid } => {
            let ghost start = w@;
            let ghost mut acc: Lines = Seq::empty();
            proof {
                assert(start + join_lines(acc) =~= start);
            }
            write_fixed_pairs(w, n_scale_var, n_scale_node);
            proof {
                lemma_write_concat(start, acc, ser_fixed_pairs(n_scale_var.deep_view(), n_scale_node.deep_view()));
                acc = acc + ser_fixed_pairs(n_scale_var.deep_view(), n_scale_node.deep_view());
            }
            w_flat(w, scale_fac);
            proof {
                lemma_write_concat(start, acc, ser_flat::<Float>(scale_fac.deep_view()));
                acc = acc + ser_flat::<Float>(scale_fac.deep_view());
            }
            w_flat4(w, scale_node);
            proof {
                lemma_write_concat(start, acc, concat(Seq::new(scale_node.deep_view().len(), |i: int| ser_flat3(scale_node.deep_view()[i]))));
                acc = acc + concat(Seq::new(scale_node.deep_view().len(), |i: int| ser_flat3(scale_node.deep_view()[i])));
            }
            w_flat6(w, grid);
            proof {
                lemma_write_concat(start, acc, concat(Seq::new(grid.deep_view().len(), |i: int| ser_flat5(grid.deep_view()[i]))));
                acc = acc + concat(Seq::new(grid.deep_view().len(), |i: int| ser_flat5(grid.deep_view()[i])));
            }
            proof {
                reveal(ser_grid);
                assert(acc =~= ser_grid(g.deep_view()));
            }
        },
        Grid::Flex {
            scale_node_1,
            scale_node_2,
            grid,
            grid_f,
            grid_r,
            grid_rr,
            grid_ff,
            grid_rf,
            sigma_ref_mixed,
            sigma_ref_s1,
            sigma_ref_s2,
        } => {
            let ghost start = w@;
            let ghost mut acc: Lines = Seq::empty();
            proof {
                assert(start + join_lines(acc) =~= start);
            }
            w_nested_vec(w, scale_node_1);
            proof {
                lemma_write_concat(start, acc, ser_nested::<Float>(scale_node_1.deep_view()));
                acc = acc + ser_nested::<Float>(scale_node_1.deep_view());
            }
            w_nested_vec(w, scale_node_2);
            proof {
                lemma_write_concat(start, acc, ser_nested::<Float>(scale_node_2.deep_view()));
                acc = acc + ser_nested::<Float>(scale_node_2.deep_view());
            }
            w_grid5(w, grid);
            proof {
                lemma_write_concat(start, acc, ser_grid5(grid.deep_view()));
                acc = acc + ser_grid5(grid.deep_view());
            }
            write_opt_grid(w, grid_f);
            proof {
                lemma_write_concat(start, acc, ser_opt_grid(grid_f.deep_view()));
                acc = acc + ser_opt_grid(grid_f.deep_view());
            }
            write_opt_grid(w, grid_r);
            proof {
                lemma_write_concat(start, acc, ser_opt_grid(grid_r.deep_view()));
                acc = acc + ser_opt_grid(grid_r.deep_view());
            }
            write_opt_grid(w, grid_rr);
            proof {
                lemma_write_concat(start, acc, ser_opt_grid(grid_rr.deep_view()));
                acc = acc + ser_opt_grid(grid_rr.deep_view());
            }
            write_opt_grid(w, grid_ff);
            proof {
                lemma_write_concat(start, acc, ser_opt_grid(grid_ff.deep_view()));
                acc = acc + ser_opt_grid(grid_ff.deep_view());
            }
            write_opt_grid(w, grid_rf);
            proof {
                lemma_write_concat(start, acc, ser_opt_grid(grid_rf.deep_view()));
                acc = acc + ser_opt_grid(grid_rf.deep_view());
            }
            w_g4(w, sigma_ref_mixed);
            proof {
                lemma_write_concat(start, acc, ser_g4(sigma_ref_mixed.deep_view()));
                acc = acc + ser_g4(sigma_ref_mixed.deep_view());
            }
            w_g4(w, sigma_ref_s1);
            proof {
                lemma_write_concat(start, acc, ser_g4(sigma_ref_s1.deep_view()));
                acc = acc + ser_g4(sigma_ref_s1.deep_view());
            }
            w_g4(w, sigma_ref_s2);
            proof {
                lemma_write_concat(start, acc, ser_g4(sigma_ref_s2.deep_view()));
                acc = acc + ser_g4(sigma_ref_s2.deep_view());
            }
            proof {
                reveal(ser_grid);
                assert(acc =~= ser_grid(g.deep_view()));
            }
        },
    }
}


#[verifier::rlimit(40)]
fn write_theory(w: &mut String, d: &BlockData)
    requires
        d is TheoryBlock,
        grid_writable(d.deep_view()->TheoryBlock_grid),
    ensures
        final(w)@ == old(w)@ + join_lines(ser_theory(d.deep_view())),
{
    match d {
        BlockData::TheoryBlock {
            reference_table,
            i_scale_dependence,
            n_events,
            weight_info,
            alphas_power,
            pdf_info,
            x1_nodes,
            x2_nodes,
            z_nodes,
            scale_dimension,
            scale_description,
            grid,
        } => {
            let ghost start = w@;
            let ghost mut acc: Lines = Seq::empty();
            proof {
                assert(start + join_lines(acc) =~= start);
            }
            w_flag(w, *reference_table);
            proof {
                lemma_write_concat(start, acc, seq![flag_line(*reference_table)]);
                acc = acc + seq![flag_line(*reference_table)];
            }
            w_count(w, *i_scale_dependence);
            proof {
                lemma_write_concat(start, acc, seq![count_line(*i_scale_dependence as int)]);
                acc = acc + seq![count_line(*i_scale_dependence as int)];
            }
            w_literal(w, n_events);
            proof {
                lemma_write_concat(start, acc, seq![signed_decimal(*n_events as int)]);
                acc = acc + seq![signed_decimal(*n_events as int)];
            }
            match weight_info {
                Some(wi) => {
                    write_weight_info(w, wi, *n_events);
                    proof {
                        lemma_write_concat(start, acc, ser_weight_info(wi.deep_view(), *n_events));
                        acc = acc + ser_weight_info(wi.deep_view(), *n_events);
                    }
                },
                None => {},
            }
            w_count(w, *alphas_power);
            proof {
                lemma_write_concat(start, acc, seq![count_line(*alphas_power as int)]);
                acc = acc + seq![count_line(*alphas_power as int)];
            }
            write_pdf_info(w, pdf_info);
            proof {
                lemma_write_concat(start, acc, ser_pdf_info(pdf_info.deep_view()));
                acc = acc + ser_pdf_info(pdf_info.deep_view());
            }
            w_rows(w, x1_nodes);
            proof {
                lemma_write_concat(start, acc, ser_rows::<Float>(x1_nodes.deep_view()));
                acc = acc + ser_rows::<Float>(x1_nodes.deep_view());
            }
            w_rows(w, x2_nodes);
            proof {
                lemma_write_concat(start, acc, ser_rows::<Float>(x2_nodes.deep_view()));
                acc = acc + ser_rows::<Float>(x2_nodes.deep_view());
            }
            w_rows(w, z_nodes);
            proof {
                lemma_write_concat(start, acc, ser_rows::<Float>(z_nodes.deep_view()));
                acc = acc + ser_rows::<Float>(z_nodes.deep_view());
            }
            w_count(w, scale_dimension.len());
            proof {
                lemma_write_concat(start, acc, seq![count_line(scale_dimension@.len() as int)]);
                acc = acc + seq![count_line(scale_dimension@.len() as int)];
            }
            w_count(w, scale_description.len());
            proof {
                lemma_write_concat(start, acc, seq![count_line(scale_description@.len() as int)]);
                acc = acc + seq![count_line(scale_description@.len() as int)];
            }
            w_iter(w, scale_dimension);
            proof {
                lemma_write_concat(start, acc, ser_iter::<usize>(scale_dimension.deep_view()));
                acc = acc + ser_iter::<usize>(scale_dimension.deep_view());
            }
            w_rows(w, scale_description);
            proof {
                lemma_write_concat(start, acc, ser_rows::<String>(scale_description.deep_view()));
                acc = acc + ser_rows::<String>(scale_description.deep_view());
            }
            write_grid(w, grid);
            proof {
                lemma_write_concat(start, acc, ser_grid(grid.deep_view()));
                acc = acc + ser_grid(grid.deep_view());
            }
            proof {
                reveal(ser_theory);
                assert(acc =~= ser_theory(d.deep_view()));
            }
        },
        _ => {
            proof {
                assert(false);
            }
        },
    }
}

/// The data of a block can be written.
pub open spec fn data_writable(d: SpecBlockData) -> bool {
    match d {
        SpecBlockData::DataBlock {
            uncorr_sources,
            corr_sources,
            centers,
            values,
            uncorr_low,
            uncorr_high,
            corr_low,
            corr_high,
            ..
        } => rows_writable(
            centers,
            values,
            uncorr_low,
            uncorr_high,
            corr_low,
            corr_high,
            uncorr_sources.len(),
            corr_sources.len(),
        ),
        SpecBlockData::MultBlock {
            uncorr_sources,
            corr_sources,
            centers,
            values,
            uncorr_low,
            uncorr_high,
            corr_low,
            corr_high,
        } => rows_writable(
            centers,
            values,
            uncorr_low,
            uncorr_high,
            corr_low,
            corr_high,
            uncorr_sources.len(),
            corr_sources.len(),
        ),
        SpecBlockData::TheoryBlock { grid, .. } => grid_writable(grid),
    }
}

fn write_data(w: &mut String, d: &BlockData)
    requires
        data_writable(d.deep_view()),
    ensures
        final(w)@ == old(w)@ + join_lines(ser_data(d.deep_view())),
{
    match d {
        BlockData::DataBlock {
            uncorr_sources,
            corr_sources,
            centers,
            values,
            uncorr_low,
            uncorr_high,
            corr_low,
            corr_high,
            corr_matrix,
        } => {
            let ghost start = w@;
            let ghost mut acc: Lines = Seq::empty();
            proof {
                assert(start + join_lines(acc) =~= start);
            }
            w_slice(w, uncorr_sources);
            proof {
                lemma_write_concat(start, acc, ser_slice::<String>(uncorr_sources.deep_view()));
                acc = acc + ser_slice::<String>(uncorr_sources.deep_view());
            }
            w_slice(w, corr_sources);
            proof {
                lemma_write_concat(start, acc, ser_slice::<String>(corr_sources.deep_view()));
                acc = acc + ser_slice::<String>(corr_sources.deep_view());
            }
            write_data_rows(w, centers, values, uncorr_low, uncorr_high, corr_low, corr_high, uncorr_sources.len(), corr_sources.len());
            proof {
                lemma_write_concat(start, acc, ser_data_rows(centers.deep_view(), values.deep_view(), uncorr_low.deep_view(), uncorr_high.deep_view(), corr_low.deep_view(), corr_high.deep_view(), uncorr_sources@.len() as nat, corr_sources@.len() as nat));
                acc = acc + ser_data_rows(centers.deep_view(), values.deep_view(), uncorr_low.deep_view(), uncorr_high.deep_view(), corr_low.deep_view(), corr_high.deep_view(), uncorr_sources@.len() as nat, corr_sources@.len() as nat);
            }
            w_count(w, corr_matrix.len());
            proof {
                lemma_write_concat(start, acc, seq![count_line(corr_matrix@.len() as int)]);
                acc = acc + seq![count_line(corr_matrix@.len() as int)];
            }
            w_flat(w, corr_matrix);
            proof {
                lemma_write_concat(start, acc, ser_flat::<Float>(corr_matrix.deep_view()));
                acc = acc + ser_flat::<Float>(corr_matrix.deep_view());
            }
            proof {
                reveal(ser_data);
                assert(acc =~= ser_data(d.deep_view()));
            }
        },
        BlockData::MultBlock {
            uncorr_sources,
            corr_sources,
            centers,
            values,
            uncorr_low,
            uncorr_high,
            corr_low,
            corr_high,
        } => {
            let ghost start = w@;
            let ghost mut acc: Lines = Seq::empty();
            proof {
                assert(start + join_lines(acc) =~= start);
            }
            w_slice(w, uncorr_sources);
            proof {
                lemma_write_concat(start, acc, ser_slice::<String>(uncorr_sources.deep_view()));
                acc = acc + ser_slice::<String>(uncorr_sources.deep_view());
            }
            w_slice(w, corr_sources);
            proof {
                lemma_write_concat(start, acc, ser_slice::<String>(corr_sources.deep_view()));
                acc = acc + ser_slice::<String>(corr_sources.deep_view());
            }
            write_data_rows(w, centers, values, uncorr_low, uncorr_high, corr_low, corr_high, uncorr_sources.len(), corr_sources.len());
            proof {
                lemma_write_concat(start, acc, ser_data_rows(centers.deep_view(), values.deep_view(), uncorr_low.deep_view(), uncorr_high.deep_view(), corr_low.deep_view(), corr_high.deep_view(), uncorr_sources@.len() as nat, corr_sources@.len() as nat));
                acc = acc + ser_data_rows(centers.deep_view(), values.deep_view(), uncorr_low.deep_view(), uncorr_high.deep_view(), corr_low.deep_view(), corr_high.deep_view(), uncorr_sources@.len() as nat, corr_sources@.len() as nat);
            }
            proof {
                reveal(ser_data);
                assert(acc =~= ser_data(d.deep_view()));
            }
        },
        BlockData::TheoryBlock { .. } => {
            write_theory(w, d);
            proof {
                reveal(ser_data);
            }
        },
    }
}

/// The items of the coefficient information of a block each have their
/// second flag, description and content.
pub open spec fn coeff_writable(b: SpecBlock) -> bool {
    &&& b.coeff_info_flags_1.len() <= b.coeff_info_flags_2.len()
    &&& b.coeff_info_flags_1.len() <= b.coeff_block_description.len()
    &&& b.coeff_info_flags_1.len() <= b.coeff_block_content.len()
}

pub open spec fn block_writable(b: SpecBlock) -> bool {
    data_writable(b.data) && coeff_writable(b)
}

fn write_coeff_item(w: &mut String, b: &Block, i: usize)
    requires
        i < b.coeff_info_flags_1@.len(),
        coeff_writable(b.deep_view()),
    ensures
        final(w)@ == old(w)@ + join_lines(ser_coeff_item(b.deep_view(), i as int)),
{
    let ghost start = w@;
    let ghost mut acc: Lines = Seq::empty();
    proof {
        assert(start + join_lines(acc) =~= start);
    }
    w_count(w, b.coeff_info_flags_1[i]);
    proof {
        lemma_write_concat(start, acc, seq![count_line(b.coeff_info_flags_1@[i as int] as int)]);
        acc = acc + seq![count_line(b.coeff_info_flags_1@[i as int] as int)];
    }
    w_count(w, b.coeff_info_flags_2[i]);
    proof {
        lemma_write_concat(start, acc, seq![count_line(b.coeff_info_flags_2@[i as int] as int)]);
        acc = acc + seq![count_line(b.coeff_info_flags_2@[i as int] as int)];
    }
    w_slice(w, &b.coeff_block_description[i]);
    proof {
        lemma_write_concat(start, acc, ser_slice::<String>(b.coeff_block_description@[i as int].deep_view()));
        acc = acc + ser_slice::<String>(b.coeff_block_description@[i as int].deep_view());
    }
    w_slice(w, &b.coeff_block_content[i]);
    proof {
        lemma_write_concat(start, acc, ser_slice::<Float>(b.coeff_block_content@[i as int].deep_view()));
        acc = acc + ser_slice::<Float>(b.coeff_block_content@[i as int].deep_view());
    }
    proof {
        assert(acc =~= ser_coeff_item(b.deep_view(), i as int));
    }
}

fn write_coeff_items(w: &mut String, b: &Block)
    requires
        coeff_writable(b.deep_view()),
    ensures
        final(w)@ == old(w)@ + join_lines(
            concat(Seq::new(b.coeff_info_flags_1@.len(), |i: int| ser_coeff_item(b.deep_view(), i))),
        ),
{
    let ghost start = w@;
    let ghost parts = Seq::new(b.coeff_info_flags_1@.len(), |i: int| ser_coeff_item(b.deep_view(), i));
    let mut i: usize = 0;
    proof {
        assert(parts.take(0) =~= Seq::<Lines>::empty());
        assert(start + join_lines(concat(parts.take(0))) =~= start);
    }
    while i < b.coeff_info_flags_1.len()
        invariant
            i <= b.coeff_info_flags_1@.len(),
            coeff_writable(b.deep_view()),
            parts == Seq::new(b.coeff_info_flags_1@.len(), |i: int| ser_coeff_item(b.deep_view(), i)),
            w@ == start + join_lines(concat(parts.take(i as int))),
        decreases b.coeff_info_flags_1@.len() - i,
    {
        write_coeff_item(w, b, i);
        proof {
            lemma_write_step(start, parts, i as int);
        }
        i = i + 1;
    }
    proof {
        lemma_concat_all(parts);
    }
}

fn write_block(w: &mut String, b: &Block)
    requires
        block_writable(b.deep_view()),
    ensures
        final(w)@ == old(w)@ + join_lines(ser_block(b.deep_view())),
{
    let sep = separator_line();
    let ghost start = w@;
    let ghost mut acc: Lines = Seq::empty();
    proof {
        assert(start + join_lines(acc) =~= start);
    }
    push_line(w, &sep);
    proof {
        lemma_write_concat(start, acc, seq![separator()]);
        acc = acc + seq![separator()];
    }
    w_count(w, b.unit);
    proof {
        lemma_write_concat(start, acc, seq![count_line(b.unit as int)]);
        acc = acc + seq![count_line(b.unit as int)];
    }
    w_flag(w, b.data_block);
    proof {
        lemma_write_concat(start, acc, seq![flag_line(b.data_block)]);
        acc = acc + seq![flag_line(b.data_block)];
    }
    w_flag(w, b.mult_block);
    proof {
        lemma_write_concat(start, acc, seq![flag_line(b.mult_block)]);
        acc = acc + seq![flag_line(b.mult_block)];
    }
    w_count(w, b.contribution_type);
    proof {
        lemma_write_concat(start, acc, seq![count_line(b.contribution_type as int)]);
        acc = acc + seq![count_line(b.contribution_type as int)];
    }
    w_count(w, b.contribution_order);
    proof {
        lemma_write_concat(start, acc, seq![count_line(b.contribution_order as int)]);
        acc = acc + seq![count_line(b.contribution_order as int)];
    }
    w_count(w, b.scale_format);
    proof {
        lemma_write_concat(start, acc, seq![count_line(b.scale_format as int)]);
        acc = acc + seq![count_line(b.scale_format as int)];
    }
    w_slice(w, &b.description);
    proof {
        lemma_write_concat(start, acc, ser_slice::<String>(b.description.deep_view()));
        acc = acc + ser_slice::<String>(b.description.deep_view());
    }
    w_slice(w, &b.code_description);
    proof {
        lemma_write_concat(start, acc, ser_slice::<String>(b.code_description.deep_view()));
        acc = acc + ser_slice::<String>(b.code_description.deep_view());
    }
    write_data(w, &b.data);
    proof {
        lemma_write_concat(start, acc, ser_data(b.data.deep_view()));
        acc = acc + ser_data(b.data.deep_view());
    }
    w_count(w, b.coeff_info_flags_1.len());
    proof {
        lemma_write_concat(start, acc, seq![count_line(b.coeff_info_flags_1@.len() as int)]);
        acc = acc + seq![count_line(b.coeff_info_flags_1@.len() as int)];
    }
    write_coeff_items(w, b);
    proof {
        lemma_write_concat(start, acc, concat(Seq::new(b.coeff_info_flags_1@.len(), |i: int| ser_coeff_item(b.deep_view(), i))));
        acc = acc + concat(Seq::new(b.coeff_info_flags_1@.len(), |i: int| ser_coeff_item(b.deep_view(), i)));
    }
    proof {
        reveal(ser_block);
        assert(acc =~= ser_block(b.deep_view()));
    }
}

/// A table can be written: it has a bin, and each of its blocks can be
/// written.
pub open spec fn file_writable(f: SpecFile) -> bool {
    &&& f.bin_info.bins.len() > 0
    &&& forall|i: int| 0 <= i < f.blocks.len() ==> #[trigger] block_writable(f.blocks[i])
}

/// Writes the blocks one after the other.
fn write_blocks(w: &mut String, x: &Vec<Block>)
    requires
        forall|i: int| 0 <= i < x@.len() ==> #[trigger] block_writable(x.deep_view()[i]),
    ensures
        final(w)@ == old(w)@ + join_lines(concat(Seq::new(x.deep_view().len(), |i: int| ser_block(x.deep_view()[i])))),
{
    let ghost start = w@;
    let ghost parts = Seq::new(x.deep_view().len(), |i: int| ser_block(x.deep_view()[i]));
    let mut i: usize = 0;
    proof {
        assert(parts.take(0) =~= Seq::<Lines>::empty());
        assert(start + join_lines(concat(parts.take(0))) =~= start);
    }
    while i < x.len()
        invariant
            i <= x@.len(),
            parts.len() == x@.len(),
            parts == Seq::new(x.deep_view().len(), |i: int| ser_block(x.deep_view()[i])),
            w@ == start + join_lines(concat(parts.take(i as int))),
            forall|i: int| 0 <= i < x@.len() ==> #[trigger] block_writable(x.deep_view()[i]),
        decreases x@.len() - i,
    {
        proof {
            assert(block_writable(x.deep_view()[i as int]));
        }
        write_block(w, &x[i]);
        proof {
            lemma_write_step(start, parts, i as int);
        }
        i = i + 1;
    }
    proof {
        lemma_concat_all(parts);
    }
}

/// Writes the table.
#[verifier::rlimit(40)]
fn write_table(w: &mut String, t: &FastNLOFile)
    requires
        file_writable(t.deep_view()),
    ensures
        final(w)@ == old(w)@ + join_lines(ser_file(t.deep_view())),
{
    let sep = separator_line();
    let ghost start = w@;
    let ghost mut acc: Lines = Seq::empty();
    proof {
        assert(start + join_lines(acc) =~= start);
        assert(t.deep_view().blocks == t.blocks.deep_view());
    }
    push_line(w, &sep);
    proof {
        lemma_write_concat(start, acc, seq![separator()]);
        acc = acc + seq![separator()];
    }
    write_metadata(w, &t.metadata);
    proof {
        lemma_write_concat(start, acc, ser_metadata(t.metadata.deep_view()));
        acc = acc + ser_metadata(t.metadata.deep_view());
    }
    write_bins(w, &t.bin_info);
    proof {
        lemma_write_concat(start, acc, ser_bins(t.bin_info.deep_view()));
        acc = acc + ser_bins(t.bin_info.deep_view());
    }
    w_count(w, 0);
    proof {
        lemma_write_concat(start, acc, seq![count_line(0)]);
        acc = acc + seq![count_line(0)];
    }
    write_blocks(w, &t.blocks);
    proof {
        lemma_write_concat(start, acc, concat(Seq::new(t.blocks.deep_view().len(), |i: int| ser_block(t.blocks.deep_view()[i]))));
        acc = acc + concat(Seq::new(t.blocks.deep_view().len(), |i: int| ser_block(t.blocks.deep_view()[i])));
    }
    push_line(w, &sep);
    proof {
        lemma_write_concat(start, acc, seq![separator()]);
        acc = acc + seq![separator()];
    }
    push_line(w, &sep);
    proof {
        lemma_write_concat(start, acc, seq![separator()]);
        acc = acc + seq![separator()];
    }
    proof {
        reveal(ser_file);
        assert(acc =~= ser_file(t.deep_view()));
    }
}


impl FastNLOFile {
    /// Appends the text of the table; writing to a `String` never fails.
    pub fn write(&self, w: &mut String) -> (r: Result<(), WriteError>)
        requires
            file_writable(self.deep_view()),
        ensures
            r is Ok,
            final(w)@ == old(w)@ + join_lines(ser_file(self.deep_view())),
    {
        write_table(w, self);
        Ok(())
    }
}


fn pairs_present(low: &Vec<Vec<Float>>, high: &Vec<Vec<Float>>, i: usize, n: usize) -> (r: bool)
    ensures
        r == has_pairs(low.deep_view(), high.deep_view(), i as int, n as nat),
{
    i < low.len() && i < high.len() && n <= low[i].len() && n <= high[i].len()
}

fn rows_present(
    centers: &Vec<Float>,
    values: &Vec<Float>,
    uncorr_low: &Vec<Vec<Float>>,
    uncorr_high: &Vec<Vec<Float>>,
    corr_low: &Vec<Vec<Float>>,
    corr_high: &Vec<Vec<Float>>,
    nu: usize,
    nc: usize,
) -> (r: bool)
    ensures
        r == rows_writable(
            centers.deep_view(),
            values.deep_view(),
            uncorr_low.deep_view(),
            uncorr_high.deep_view(),
            corr_low.deep_view(),
            corr_high.deep_view(),
            nu as nat,
            nc as nat,
        ),
{
    if centers.len() > values.len() {
        return false;
    }
    let mut i: usize = 0;
    while i < centers.len()
        invariant
            i <= centers@.len(),
            forall|k: int|
                0 <= k < i ==> #[trigger] has_pairs(uncorr_low.deep_view(), uncorr_high.deep_view(), k, nu as nat)
                    && has_pairs(corr_low.deep_view(), corr_high.deep_view(), k, nc as nat),
        decreases centers@.len() - i,
    {
        let a = pairs_present(uncorr_low, uncorr_high, i, nu);
        let c = pairs_present(corr_low, corr_high, i, nc);
        if !a || !c {
            return false;
        }
        proof {
            assert(has_pairs(uncorr_low.deep_view(), uncorr_high.deep_view(), i as int, nu as nat));
            assert(has_pairs(corr_low.deep_view(), corr_high.deep_view(), i as int, nc as nat));
            assert forall|k: int| 0 <= k < i + 1 implies #[trigger] has_pairs(
                uncorr_low.deep_view(),
                uncorr_high.deep_view(),
                k,
                nu as nat,
            ) && has_pairs(corr_low.deep_view(), corr_high.deep_view(), k, nc as nat) by {
                if k < i {
                    assert(has_pairs(uncorr_low.deep_view(), uncorr_high.deep_view(), k, nu as nat));
                }
            }
        }
        i = i + 1;
    }
    true
}

fn block_can_write(b: &Block) -> (r: bool)
    ensures
        r == block_writable(b.deep_view()),
{
    let data_ok = match &b.data {
        BlockData::DataBlock {
            uncorr_sources,
            corr_sources,
            centers,
            values,
            uncorr_low,
            uncorr_high,
            corr_low,
            corr_high,
            ..
        } => rows_present(
            centers,
            values,
            uncorr_low,
            uncorr_high,
            corr_low,
            corr_high,
            uncorr_sources.len(),
            corr_sources.len(),
        ),
        BlockData::MultBlock {
            uncorr_sources,
            corr_sources,
            centers,
            values,
            uncorr_low,
            uncorr_high,
            corr_low,
            corr_high,
        } => rows_present(
            centers,
            values,
            uncorr_low,
            uncorr_high,
            corr_low,
            corr_high,
            uncorr_sources.len(),
            corr_sources.len(),
        ),
        BlockData::TheoryBlock { grid, .. } => match grid {
            Grid::Fixed { n_scale_var, n_scale_node, .. } => n_scale_var.len() <= n_scale_node.len(),
            Grid::Flex { .. } => true,
        },
    };
    let n = b.coeff_info_flags_1.len();
    data_ok && n <= b.coeff_info_flags_2.len() && n <= b.coeff_block_description.len() && n
        <= b.coeff_block_content.len()
}

impl FastNLOFile {
    /// The table can be written.
    pub fn can_write(&self) -> (r: bool)
        ensures
            r == file_writable(self.deep_view()),
    {
        if self.bin_info.bins.len() == 0 {
            return false;
        }
        let mut i: usize = 0;
        while i < self.blocks.len()
            invariant
                i <= self.blocks@.len(),
                forall|k: int| 0 <= k < i ==> #[trigger] block_writable(self.deep_view().blocks[k]),
            decreases self.blocks@.len() - i,
        {
            proof {
                assert(self.deep_view().blocks[i as int] == self.blocks@[i as int].deep_view());
            }
            if !block_can_write(&self.blocks[i]) {
                return false;
            }
            i = i + 1;
        }
        true
    }
}

} // verus!
