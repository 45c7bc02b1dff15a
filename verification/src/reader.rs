//! Reading a table from its text.
//!
//! Each `sp_*` function states what reading a part of the table gives, from
//! a given line on; the function of the same name without the prefix reads
//! that part and gives exactly that.

use vstd::prelude::*;

use crate::error::{ReadFailure, SpecFailure};
use crate::table::{
    Bin, BinInfo, BinPosition, Block, BlockData, FastNLOFile, Float, Grid, Grid5, Grid6, Metadata,
    PDFInfo, SpecBin, SpecBinInfo, SpecBinPosition, SpecBlock, SpecBlockData, SpecFile, SpecGrid,
    SpecGrid5, SpecGrid6, SpecMetadata, SpecPDFInfo, SpecWeightInfo, Text, WeightInfo,
};
use crate::error::ReadError;
use crate::text::{lemma_chars_deep_view, split_lines, split_lines_exec, str_chars};
use crate::values::{
    ends_within, prepend_sr, sp_nested, sp_nested_counted, sp_take, sp_take_counted,
    sp_take_multiple, sp_takes, sp_matrix_strict, sr_view, take, take_counted, take_matrix_strict,
    take_multiple, take_nested_counted, take_nested_vec, takes, Lines, SR,
};

verus! {

/// The line that opens and closes each section of the table.
pub open spec fn separator() -> Seq<char> {
    seq!['1', '2', '3', '4', '5', '6', '7', '8', '9', '0']
}

pub open spec fn pos_view(r: Result<usize, ReadFailure>) -> Result<int, SpecFailure> {
    match r {
        Ok(p) => Ok(p as int),
        Err(f) => Err(f@),
    }
}

pub open spec fn pos_within(r: Result<usize, ReadFailure>, n: int) -> bool {
    r matches Ok(q) ==> q <= n
}

/// The separator line at `p`; anything else there stops the reading.
pub open spec fn sp_sep(ls: Lines, p: int) -> Result<int, SpecFailure> {
    if 0 <= p < ls.len() && ls[p] == separator() {
        Ok(p + 1)
    } else {
        Err(SpecFailure::Abort)
    }
}

/// The first separator line at or after `p`, or the end of the text.
pub open spec fn skip_to_sep(ls: Lines, p: int) -> int
    decreases ls.len() - p,
{
    if p < 0 || p >= ls.len() || ls[p] == separator() {
        p
    } else {
        skip_to_sep(ls, p + 1)
    }
}

fn is_separator(l: &Vec<char>) -> (b: bool)
    ensures
        b == (l@ == separator()),
{
    let sep = ['1', '2', '3', '4', '5', '6', '7', '8', '9', '0'];
    if l.len() != 10 {
        return false;
    }
    let mut i: usize = 0;
    while i < 10
        invariant
            l@.len() == 10,
            i <= 10,
            sep@ == separator(),
            forall|k: int| 0 <= k < i ==> l@[k] == separator()[k],
        decreases 10 - i,
    {
        if l[i] != sep[i] {
            return false;
        }
        i = i + 1;
    }
    proof {
        assert(l@ =~= separator());
    }
    true
}

fn expect_sep(ls: &Vec<Vec<char>>, p: usize) -> (r: Result<usize, ReadFailure>)
    ensures
        pos_view(r) == sp_sep(ls.deep_view(), p as int),
        pos_within(r, ls@.len() as int),
{
    if p >= ls.len() {
        return Err(ReadFailure::Abort);
    }
    proof {
        lemma_chars_deep_view(&ls@[p as int]);
    }
    if is_separator(&ls[p]) {
        Ok(p + 1)
    } else {
        Err(ReadFailure::Abort)
    }
}

fn skip_to_separator(ls: &Vec<Vec<char>>, p: usize) -> (q: usize)
    requires
        p <= ls@.len(),
    ensures
        q == skip_to_sep(ls.deep_view(), p as int),
        p <= q <= ls@.len(),
{
    let mut q = p;
    while q < ls.len()
        invariant
            p <= q <= ls@.len(),
            skip_to_sep(ls.deep_view(), p as int) == skip_to_sep(ls.deep_view(), q as int),
        decreases ls@.len() - q,
    {
        proof {
            lemma_chars_deep_view(&ls@[q as int]);
        }
        if is_separator(&ls[q]) {
            return q;
        }
        q = q + 1;
    }
    q
}

// ---------------------------------------------------------------------------
// Metadata
// ---------------------------------------------------------------------------

/// `n` blocks of user data: a flag, a described list of lines; they are read
/// and left aside.
pub open spec fn sp_user_blocks(ls: Lines, p: int, n: nat) -> Result<int, SpecFailure>
    decreases n,
{
    if n == 0 {
        Ok(p)
    } else {
        match sp_take::<usize>(ls, p) {
            Err(e) => Err(e),
            Ok((_, q1)) => match sp_take_counted::<String>(ls, q1) {
                Err(e) => Err(e),
                Ok((_, q2)) => match sp_take_counted::<String>(ls, q2) {
                    Err(e) => Err(e),
                    Ok((_, q3)) => sp_user_blocks(ls, q3, (n - 1) as nat),
                },
            },
        }
    }
}

fn read_user_blocks(ls: &Vec<Vec<char>>, p: usize, n: usize) -> (r: Result<usize, ReadFailure>)
    requires
        p <= ls@.len(),
    ensures
        pos_view(r) == sp_user_blocks(ls.deep_view(), p as int, n as nat),
        pos_within(r, ls@.len() as int),
{
    let ghost l = ls.deep_view();
    let mut q = p;
    let mut i: usize = 0;
    while i < n
        invariant
            l == ls.deep_view(),
            q <= ls@.len(),
            i <= n,
            sp_user_blocks(l, p as int, n as nat) == sp_user_blocks(l, q as int, (n - i) as nat),
        decreases n - i,
    {
        let (_, q1) = match take::<usize>(ls, q) {
            Ok(x) => x,
            Err(e) => {
                return Err(e);
            },
        };
        let (_, q2) = match take_counted::<String>(ls, q1) {
            Ok(x) => x,
            Err(e) => {
                return Err(e);
            },
        };
        let (_, q3) = match take_counted::<String>(ls, q2) {
            Ok(x) => x,
            Err(e) => {
                return Err(e);
            },
        };
        q = q3;
        i = i + 1;
    }
    Ok(q)
}

/// The counts at the head of the table.
pub struct SpecHead {
    pub table_version: usize,
    pub scenario_name: Seq<char>,
    pub n_contrib: usize,
    pub n_mult: usize,
    pub n_data: usize,
    pub n_user: usize,
}

/// The first section: version, scenario, block counts, user blocks.
pub open spec fn sp_head(ls: Lines, p: int) -> SR<SpecHead> {
    match sp_sep(ls, p) {
        Err(e) => Err(e),
        Ok(p0) => match sp_take::<usize>(ls, p0) {
            Err(e) => Err(e),
            Ok((table_version, p1)) => match sp_take::<String>(ls, p1) {
                Err(e) => Err(e),
                Ok((scenario_name, p2)) => match sp_take::<usize>(ls, p2) {
                    Err(e) => Err(e),
                    Ok((n_contrib, p3)) => match sp_take::<usize>(ls, p3) {
                        Err(e) => Err(e),
                        Ok((n_mult, p4)) => match sp_take::<usize>(ls, p4) {
                            Err(e) => Err(e),
                            Ok((n_data, p5)) => match sp_take::<usize>(ls, p5) {
                                Err(e) => Err(e),
                                Ok((n_user, p6)) => match sp_user_blocks(ls, p6, n_user as nat) {
                                    Err(e) => Err(e),
                                    Ok(p7) => Ok(
                                        (
                                            SpecHead {
                                                table_version,
                                                scenario_name,
                                                n_contrib,
                                                n_mult,
                                                n_data,
                                                n_user,
                                            },
                                            p7,
                                        ),
                                    ),
                                },
                            },
                        },
                    },
                },
            },
        },
    }
}

pub struct Head {
    pub table_version: usize,
    pub scenario_name: String,
    pub n_contrib: usize,
    pub n_mult: usize,
    pub n_data: usize,
    pub n_user: usize,
}

impl DeepView for Head {
    type V = SpecHead;

    open spec fn deep_view(&self) -> SpecHead {
        SpecHead {
            table_version: self.table_version,
            scenario_name: self.scenario_name@,
            n_contrib: self.n_contrib,
            n_mult: self.n_mult,
            n_data: self.n_data,
            n_user: self.n_user,
        }
    }
}

fn read_head(ls: &Vec<Vec<char>>, p: usize) -> (r: Result<(Head, usize), ReadFailure>)
    ensures
        sr_view(r) == sp_head(ls.deep_view(), p as int),
        ends_within(r, ls@.len() as int),
{
    let p0 = match expect_sep(ls, p) {
        Ok(x) => x,
        Err(e) => {
            return Err(e);
        },
    };
    let (table_version, p1) = match take::<usize>(ls, p0) {
        Ok(x) => x,
        Err(e) => {
            return Err(e);
        },
    };
    let (scenario_name, p2) = match take::<String>(ls, p1) {
        Ok(x) => x,
        Err(e) => {
            return Err(e);
        },
    };
    let (n_contrib, p3) = match take::<usize>(ls, p2) {
        Ok(x) => x,
        Err(e) => {
            return Err(e);
        },
    };
    let (n_mult, p4) = match take::<usize>(ls, p3) {
        Ok(x) => x,
        Err(e) => {
            return Err(e);
        },
    };
    let (n_data, p5) = match take::<usize>(ls, p4) {
        Ok(x) => x,
        Err(e) => {
            return Err(e);
        },
    };
    let (n_user, p6) = match take::<usize>(ls, p5) {
        Ok(x) => x,
        Err(e) => {
            return Err(e);
        },
    };
    let p7 = match read_user_blocks(ls, p6, n_user) {
        Ok(x) => x,
        Err(e) => {
            return Err(e);
        },
    };
    Ok((Head { table_version, scenario_name, n_contrib, n_mult, n_data, n_user }, p7))
}

/// The physics metadata after the head: unit, description, energy, order.
pub open spec fn sp_physics(ls: Lines, p: int) -> SR<(usize, Seq<Text>, Text, usize)> {
    match sp_sep(ls, skip_to_sep(ls, p)) {
        Err(e) => Err(e),
        Ok(p0) => match sp_take::<usize>(ls, p0) {
            Err(e) => Err(e),
            Ok((unit, p1)) => match sp_take_counted::<String>(ls, p1) {
                Err(e) => Err(e),
                Ok((description, p2)) => match sp_take::<Float>(ls, p2) {
                    Err(e) => Err(e),
                    Ok((cms_energy, p3)) => match sp_take::<usize>(ls, p3) {
                        Err(e) => Err(e),
                        Ok((alphas_ord, p4)) => Ok(((unit, description, cms_energy, alphas_ord), p4)),
                    },
                },
            },
        },
    }
}

fn read_physics(ls: &Vec<Vec<char>>, p: usize) -> (r: Result<
    ((usize, Vec<String>, Float, usize), usize),
    ReadFailure,
>)
    requires
        p <= ls@.len(),
    ensures
        sr_view(r) == sp_physics(ls.deep_view(), p as int),
        ends_within(r, ls@.len() as int),
{
    let s = skip_to_separator(ls, p);
    let p0 = match expect_sep(ls, s) {
        Ok(x) => x,
        Err(e) => {
            return Err(e);
        },
    };
    let (unit, p1) = match take::<usize>(ls, p0) {
        Ok(x) => x,
        Err(e) => {
            return Err(e);
        },
    };
    let (description, p2) = match take_counted::<String>(ls, p1) {
        Ok(x) => x,
        Err(e) => {
            return Err(e);
        },
    };
    let (cms_energy, p3) = match take::<Float>(ls, p2) {
        Ok(x) => x,
        Err(e) => {
            return Err(e);
        },
    };
    let (alphas_ord, p4) = match take::<usize>(ls, p3) {
        Ok(x) => x,
        Err(e) => {
            return Err(e);
        },
    };
    Ok(((unit, description, cms_energy, alphas_ord), p4))
}

// ---------------------------------------------------------------------------
// Binning
// ---------------------------------------------------------------------------

/// The positions of one bin in the dimensions `j..` of the binning; a kind of
/// dimension other than 1 (central value) or 2 (boundaries) stops the reading.
pub open spec fn sp_bin_values(ls: Lines, p: int, diff_bin: Seq<usize>, j: int) -> SR<
    Seq<SpecBinPosition>,
>
    decreases diff_bin.len() - j,
{
    if j < 0 || j >= diff_bin.len() {
        Ok((seq![], p))
    } else if diff_bin[j] == 1 {
        match sp_take::<Float>(ls, p) {
            Err(e) => Err(e),
            Ok((c, q)) => prepend_one(SpecBinPosition::Central(c), sp_bin_values(ls, q, diff_bin, j + 1)),
        }
    } else if diff_bin[j] == 2 {
        match sp_take::<Float>(ls, p) {
            Err(e) => Err(e),
            Ok((low, q1)) => match sp_take::<Float>(ls, q1) {
                Err(e) => Err(e),
                Ok((high, q2)) => prepend_one(
                    SpecBinPosition::Boundaries { low, high },
                    sp_bin_values(ls, q2, diff_bin, j + 1),
                ),
            },
        }
    } else {
        Err(SpecFailure::Abort)
    }
}

pub open spec fn prepend_one<V>(a: V, r: SR<Seq<V>>) -> SR<Seq<V>> {
    match r {
        Ok((vs, q)) => Ok((seq![a] + vs, q)),
        Err(e) => Err(e),
    }
}

/// The positions of the bins `i..n`.
pub open spec fn sp_bin_positions(ls: Lines, p: int, diff_bin: Seq<usize>, n: nat) -> SR<
    Seq<Seq<SpecBinPosition>>,
>
    decreases n,
{
    if n == 0 {
        Ok((seq![], p))
    } else {
        match sp_bin_values(ls, p, diff_bin, 0) {
            Err(e) => Err(e),
            Ok((vs, q)) => prepend_one(vs, sp_bin_positions(ls, q, diff_bin, (n - 1) as nat)),
        }
    }
}

pub open spec fn zip_bins(positions: Seq<Seq<SpecBinPosition>>, sizes: Seq<Text>) -> Seq<SpecBin> {
    Seq::new(positions.len(), |i: int| SpecBin { values: positions[i], size: sizes[i] })
}

/// The binning: number of bins, dimensions, labels, kinds, positions, sizes.
#[verifier::opaque]
pub open spec fn sp_bin_info(ls: Lines, p: int) -> SR<SpecBinInfo> {
    match sp_take::<usize>(ls, p) {
        Err(e) => Err(e),
        Ok((n_bins, p1)) => match sp_take::<usize>(ls, p1) {
            Err(e) => Err(e),
            Ok((n_dim, p2)) => match sp_take_multiple::<String>(ls, p2, n_dim as nat) {
                Err(e) => Err(e),
                Ok((dim_labels, p3)) => match sp_take_multiple::<usize>(ls, p3, n_dim as nat) {
                    Err(e) => Err(e),
                    Ok((diff_bin, p4)) => match sp_bin_positions(ls, p4, diff_bin, n_bins as nat) {
                        Err(e) => Err(e),
                        Ok((positions, p5)) => match sp_take_multiple::<Float>(ls, p5, n_bins as nat) {
                            Err(e) => Err(e),
                            Ok((sizes, p6)) => Ok(
                                (
                                    SpecBinInfo { bins: zip_bins(positions, sizes), dim_labels, diff_bin },
                                    p6,
                                ),
                            ),
                        },
                    },
                },
            },
        },
    }
}

fn read_bin_values(ls: &Vec<Vec<char>>, p: usize, diff_bin: &Vec<usize>) -> (r: Result<
    (Vec<BinPosition>, usize),
    ReadFailure,
>)
    requires
        p <= ls@.len(),
    ensures
        sr_view(r) == sp_bin_values(ls.deep_view(), p as int, diff_bin@, 0),
        ends_within(r, ls@.len() as int),
        r matches Ok((vs, _)) ==> vs@.len() == diff_bin@.len(),
{
    let ghost l = ls.deep_view();
    let mut out: Vec<BinPosition> = Vec::new();
    let mut q = p;
    let mut j: usize = 0;
    while j < diff_bin.len()
        invariant
            l == ls.deep_view(),
            q <= ls@.len(),
            j <= diff_bin@.len(),
            out@.len() == j,
            sp_bin_values(l, p as int, diff_bin@, 0) == prepend_sr(
                out.deep_view(),
                sp_bin_values(l, q as int, diff_bin@, j as int),
            ),
        decreases diff_bin@.len() - j,
    {
        let ghost old_out = out.deep_view();
        if diff_bin[j] == 1 {
            let (c, q1) = match take::<Float>(ls, q) {
                Ok(x) => x,
                Err(e) => {
                    return Err(e);
                },
            };
            let ghost item = SpecBinPosition::Central(c.deep_view());
            out.push(BinPosition::Central(c));
            proof {
                assert(out.deep_view() =~= old_out + seq![item]);
                let rest = sp_bin_values(l, q1 as int, diff_bin@, j + 1);
                if rest is Ok {
                    assert(old_out + (seq![item] + rest->Ok_0.0) == old_out + seq![item] + rest->Ok_0.0);
                }
            }
            q = q1;
        } else if diff_bin[j] == 2 {
            let (low, q1) = match take::<Float>(ls, q) {
                Ok(x) => x,
                Err(e) => {
                    return Err(e);
                },
            };
            let (high, q2) = match take::<Float>(ls, q1) {
                Ok(x) => x,
                Err(e) => {
                    return Err(e);
                },
            };
            let ghost item = SpecBinPosition::Boundaries { low: low.deep_view(), high: high.deep_view() };
            out.push(BinPosition::Boundaries { low, high });
            proof {
                assert(out.deep_view() =~= old_out + seq![item]);
                let rest = sp_bin_values(l, q2 as int, diff_bin@, j + 1);
                if rest is Ok {
                    assert(old_out + (seq![item] + rest->Ok_0.0) == old_out + seq![item] + rest->Ok_0.0);
                }
            }
            q = q2;
        } else {
            return Err(ReadFailure::Abort);
        }
        j = j + 1;
    }
    proof {
        assert(out.deep_view() + Seq::<SpecBinPosition>::empty() == out.deep_view());
    }
    Ok((out, q))
}

fn read_bin_positions(ls: &Vec<Vec<char>>, p: usize, diff_bin: &Vec<usize>, n: usize) -> (r: Result<
    (Vec<Vec<BinPosition>>, usize),
    ReadFailure,
>)
    requires
        p <= ls@.len(),
    ensures
        sr_view(r) == sp_bin_positions(ls.deep_view(), p as int, diff_bin@, n as nat),
        ends_within(r, ls@.len() as int),
        r matches Ok((vs, _)) ==> vs@.len() == n,
{
    let ghost l = ls.deep_view();
    let mut out: Vec<Vec<BinPosition>> = Vec::new();
    let mut q = p;
    let mut i: usize = 0;
    while i < n
        invariant
            l == ls.deep_view(),
            q <= ls@.len(),
            i <= n,
            out@.len() == i,
            sp_bin_positions(l, p as int, diff_bin@, n as nat) == prepend_sr(
                out.deep_view(),
                sp_bin_positions(l, q as int, diff_bin@, (n - i) as nat),
            ),
        decreases n - i,
    {
        let (vs, q1) = match read_bin_values(ls, q, diff_bin) {
            Ok(x) => x,
            Err(e) => {
                return Err(e);
            },
        };
        let ghost old_out = out.deep_view();
        let ghost item = vs.deep_view();
        out.push(vs);
        proof {
            assert(out.deep_view() =~= old_out + seq![item]);
            let rest = sp_bin_positions(l, q1 as int, diff_bin@, (n - i - 1) as nat);
            if rest is Ok {
                assert(old_out + (seq![item] + rest->Ok_0.0) == old_out + seq![item] + rest->Ok_0.0);
            }
        }
        q = q1;
        i = i + 1;
    }
    proof {
        assert(out.deep_view() + Seq::<Seq<SpecBinPosition>>::empty() == out.deep_view());
    }
    Ok((out, q))
}

fn read_bin_info(ls: &Vec<Vec<char>>, p: usize) -> (r: Result<(BinInfo, usize), ReadFailure>)
    requires
        p <= ls@.len(),
    ensures
        sr_view(r) == sp_bin_info(ls.deep_view(), p as int),
        ends_within(r, ls@.len() as int),
{
    proof {
        reveal(sp_bin_info);
    }
    let (n_bins, p1) = match take::<usize>(ls, p) {
        Ok(x) => x,
        Err(e) => {
            return Err(e);
        },
    };
    let (n_dim, p2) = match take::<usize>(ls, p1) {
        Ok(x) => x,
        Err(e) => {
            return Err(e);
        },
    };
    let (dim_labels, p3) = match take_multiple::<String>(ls, p2, n_dim) {
        Ok(x) => x,
        Err(e) => {
            return Err(e);
        },
    };
    let (diff_bin, p4) = match take_multiple::<usize>(ls, p3, n_dim) {
        Ok(x) => x,
        Err(e) => {
            return Err(e);
        },
    };
    proof {
        assert(diff_bin.deep_view() =~= diff_bin@);
    }
    let (mut positions, p5) = match read_bin_positions(ls, p4, &diff_bin, n_bins) {
        Ok(x) => x,
        Err(e) => {
            return Err(e);
        },
    };
    let (mut sizes, p6) = match take_multiple::<Float>(ls, p5, n_bins) {
        Ok(x) => x,
        Err(e) => {
            return Err(e);
        },
    };
    let ghost pv = positions.deep_view();
    let ghost sv = sizes.deep_view();
    // Pair each bin's positions with its size, from the last bin down.
    let mut rev: Vec<Bin> = Vec::new();
    let mut k: usize = n_bins;
    while k > 0
        invariant
            positions@.len() == k,
            sizes@.len() == k,
            k <= n_bins,
            pv.len() == n_bins,
            sv.len() == n_bins,
            rev@.len() == n_bins - k,
            forall|i: int| 0 <= i < k ==> #[trigger] positions@[i].deep_view() == pv[i],
            forall|i: int| 0 <= i < k ==> #[trigger] sizes@[i].deep_view() == sv[i],
            forall|i: int|
                0 <= i < n_bins - k ==> #[trigger] rev@[i].deep_view() == zip_bins(pv, sv)[n_bins - 1
                    - i],
        decreases k,
    {
        let values = positions.pop().unwrap();
        let size = sizes.pop().unwrap();
        rev.push(Bin { values, size });
        k = k - 1;
    }
    let mut bins: Vec<Bin> = Vec::new();
    while rev.len() > 0
        invariant
            bins@.len() + rev@.len() == n_bins,
            forall|i: int|
                0 <= i < rev@.len() ==> #[trigger] rev@[i].deep_view() == zip_bins(pv, sv)[n_bins - 1
                    - i],
            forall|i: int| 0 <= i < bins@.len() ==> #[trigger] bins@[i].deep_view() == zip_bins(pv, sv)[i],
            pv.len() == n_bins,
        decreases rev@.len(),
    {
        let b = rev.pop().unwrap();
        bins.push(b);
    }
    proof {
        assert(bins.deep_view() =~= zip_bins(pv, sv));
        assert(dim_labels.deep_view() == dim_labels.deep_view());
    }
    Ok((BinInfo { bins, dim_labels, diff_bin }, p6))
}

/// The normalisation flag and, when it is set, the denominator table and the
/// bins it refers to; they are read and left aside.
pub open spec fn sp_norm_pairs(ls: Lines, p: int, n: nat) -> Result<int, SpecFailure>
    decreases n,
{
    if n == 0 {
        Ok(p)
    } else {
        match sp_take::<isize>(ls, p) {
            Err(e) => Err(e),
            Ok((_, q1)) => match sp_take::<isize>(ls, q1) {
                Err(e) => Err(e),
                Ok((_, q2)) => sp_norm_pairs(ls, q2, (n - 1) as nat),
            },
        }
    }
}

pub open spec fn sp_norm(ls: Lines, p: int, n_dim: nat) -> Result<int, SpecFailure> {
    match sp_take::<isize>(ls, p) {
        Err(e) => Err(e),
        Ok((flag, q1)) => {
            let after_table = if flag < 0 {
                match sp_take::<String>(ls, q1) {
                    Err(e) => Err(e),
                    Ok((_, q2)) => Ok(q2),
                }
            } else {
                Ok(q1)
            };
            match after_table {
                Err(e) => Err(e),
                Ok(q2) => if flag != 0 {
                    sp_norm_pairs(ls, q2, n_dim)
                } else {
                    Ok(q2)
                },
            }
        },
    }
}

fn read_norm(ls: &Vec<Vec<char>>, p: usize, n_dim: usize) -> (r: Result<usize, ReadFailure>)
    requires
        p <= ls@.len(),
    ensures
        pos_view(r) == sp_norm(ls.deep_view(), p as int, n_dim as nat),
        pos_within(r, ls@.len() as int),
{
    let ghost l = ls.deep_view();
    let (flag, q1) = match take::<isize>(ls, p) {
        Ok(x) => x,
        Err(e) => {
            return Err(e);
        },
    };
    let mut q = q1;
    if flag < 0 {
        let (_, q2) = match take::<String>(ls, q1) {
            Ok(x) => x,
            Err(e) => {
                return Err(e);
            },
        };
        q = q2;
    }
    if flag != 0 {
        let ghost start = q;
        assert(sp_norm(l, p as int, n_dim as nat) == sp_norm_pairs(l, start as int, n_dim as nat));
        let mut i: usize = 0;
        while i < n_dim
            invariant
                sp_norm(l, p as int, n_dim as nat) == sp_norm_pairs(l, start as int, n_dim as nat),
                l == ls.deep_view(),
                q <= ls@.len(),
                i <= n_dim,
                sp_norm_pairs(l, start as int, n_dim as nat) == sp_norm_pairs(
                    l,
                    q as int,
                    (n_dim - i) as nat,
                ),
            decreases n_dim - i,
        {
            let (_, a) = match take::<isize>(ls, q) {
                Ok(x) => x,
                Err(e) => {
                    return Err(e);
                },
            };
            let (_, b) = match take::<isize>(ls, a) {
                Ok(x) => x,
                Err(e) => {
                    return Err(e);
                },
            };
            q = b;
            i = i + 1;
        }
    }
    Ok(q)
}


// ---------------------------------------------------------------------------
// Data blocks
// ---------------------------------------------------------------------------

/// The per-bin columns of a data block.
pub struct SpecColumns {
    pub centers: Seq<Text>,
    pub values: Seq<Text>,
    pub uncorr_low: Seq<Seq<Text>>,
    pub uncorr_high: Seq<Seq<Text>>,
    pub corr_low: Seq<Seq<Text>>,
    pub corr_high: Seq<Seq<Text>>,
}

pub struct Columns {
    pub centers: Vec<Float>,
    pub values: Vec<Float>,
    pub uncorr_low: Vec<Vec<Float>>,
    pub uncorr_high: Vec<Vec<Float>>,
    pub corr_low: Vec<Vec<Float>>,
    pub corr_high: Vec<Vec<Float>>,
}

impl DeepView for Columns {
    type V = SpecColumns;

    open spec fn deep_view(&self) -> SpecColumns {
        SpecColumns {
            centers: self.centers.deep_view(),
            values: self.values.deep_view(),
            uncorr_low: self.uncorr_low.deep_view(),
            uncorr_high: self.uncorr_high.deep_view(),
            corr_low: self.corr_low.deep_view(),
            corr_high: self.corr_high.deep_view(),
        }
    }
}

/// `n` pairs of values, low then high.
pub open spec fn sp_pairs(ls: Lines, p: int, n: nat) -> SR<(Seq<Text>, Seq<Text>)>
    decreases n,
{
    if n == 0 {
        Ok(((seq![], seq![]), p))
    } else {
        match sp_take::<Float>(ls, p) {
            Err(e) => Err(e),
            Ok((lo, q1)) => match sp_take::<Float>(ls, q1) {
                Err(e) => Err(e),
                Ok((hi, q2)) => match sp_pairs(ls, q2, (n - 1) as nat) {
                    Err(e) => Err(e),
                    Ok(((los, his), q3)) => Ok(((seq![lo] + los, seq![hi] + his), q3)),
                },
            },
        }
    }
}

pub open spec fn cons_row(
    c: Text,
    v: Text,
    ulo: Seq<Text>,
    uhi: Seq<Text>,
    clo: Seq<Text>,
    chi: Seq<Text>,
    r: SR<SpecColumns>,
) -> SR<SpecColumns> {
    match r {
        Err(e) => Err(e),
        Ok((cols, q)) => Ok(
            (
                SpecColumns {
                    centers: seq![c] + cols.centers,
                    values: seq![v] + cols.values,
                    uncorr_low: seq![ulo] + cols.uncorr_low,
                    uncorr_high: seq![uhi] + cols.uncorr_high,
                    corr_low: seq![clo] + cols.corr_low,
                    corr_high: seq![chi] + cols.corr_high,
                },
                q,
            ),
        ),
    }
}

/// `n` bins of a data block: center, value, the uncorrelated and the
/// correlated uncertainties.
pub open spec fn sp_rows(ls: Lines, p: int, n: nat, nu: nat, nc: nat) -> SR<SpecColumns>
    decreases n,
{
    if n == 0 {
        Ok(
            (
                SpecColumns {
                    centers: seq![],
                    values: seq![],
                    uncorr_low: seq![],
                    uncorr_high: seq![],
                    corr_low: seq![],
                    corr_high: seq![],
                },
                p,
            ),
        )
    } else {
        match sp_take::<Float>(ls, p) {
            Err(e) => Err(e),
            Ok((c, q1)) => match sp_take::<Float>(ls, q1) {
                Err(e) => Err(e),
                Ok((v, q2)) => match sp_pairs(ls, q2, nu) {
                    Err(e) => Err(e),
                    Ok(((ulo, uhi), q3)) => match sp_pairs(ls, q3, nc) {
                        Err(e) => Err(e),
                        Ok(((clo, chi), q4)) => cons_row(
                            c,
                            v,
                            ulo,
                            uhi,
                            clo,
                            chi,
                            sp_rows(ls, q4, (n - 1) as nat, nu, nc),
                        ),
                    },
                },
            },
        }
    }
}

fn read_pairs(ls: &Vec<Vec<char>>, p: usize, n: usize) -> (r: Result<
    ((Vec<Float>, Vec<Float>), usize),
    ReadFailure,
>)
    requires
        p <= ls@.len(),
    ensures
        sr_view(r) == sp_pairs(ls.deep_view(), p as int, n as nat),
        ends_within(r, ls@.len() as int),
{
    let ghost l = ls.deep_view();
    let mut los: Vec<Float> = Vec::new();
    let mut his: Vec<Float> = Vec::new();
    let mut q = p;
    let mut i: usize = 0;
    while i < n
        invariant
            l == ls.deep_view(),
            q <= ls@.len(),
            i <= n,
            sp_pairs(l, p as int, n as nat) == match sp_pairs(l, q as int, (n - i) as nat) {
                Err(e) => Err(e),
                Ok(((a, b), q2)) => Ok(((los.deep_view() + a, his.deep_view() + b), q2)),
            },
        decreases n - i,
    {
        let (lo, q1) = match take::<Float>(ls, q) {
            Ok(x) => x,
            Err(e) => {
                return Err(e);
            },
        };
        let (hi, q2) = match take::<Float>(ls, q1) {
            Ok(x) => x,
            Err(e) => {
                return Err(e);
            },
        };
        let ghost ol = los.deep_view();
        let ghost oh = his.deep_view();
        let ghost lv = lo.deep_view();
        let ghost hv = hi.deep_view();
        los.push(lo);
        his.push(hi);
        proof {
            assert(los.deep_view() =~= ol + seq![lv]);
            assert(his.deep_view() =~= oh + seq![hv]);
            let rest = sp_pairs(l, q2 as int, (n - i - 1) as nat);
            if rest is Ok {
                let ((a, b), _) = rest->Ok_0;
                assert(ol + (seq![lv] + a) == ol + seq![lv] + a);
                assert(oh + (seq![hv] + b) == oh + seq![hv] + b);
            }
        }
        q = q2;
        i = i + 1;
    }
    proof {
        assert(los.deep_view() + Seq::<Text>::empty() == los.deep_view());
        assert(his.deep_view() + Seq::<Text>::empty() == his.deep_view());
    }
    Ok(((los, his), q))
}

fn read_rows(ls: &Vec<Vec<char>>, p: usize, n: usize, nu: usize, nc: usize) -> (r: Result<
    (Columns, usize),
    ReadFailure,
>)
    requires
        p <= ls@.len(),
    ensures
        sr_view(r) == sp_rows(ls.deep_view(), p as int, n as nat, nu as nat, nc as nat),
        ends_within(r, ls@.len() as int),
{
    let ghost l = ls.deep_view();
    let mut cols = Columns {
        centers: Vec::new(),
        values: Vec::new(),
        uncorr_low: Vec::new(),
        uncorr_high: Vec::new(),
        corr_low: Vec::new(),
        corr_high: Vec::new(),
    };
    let mut q = p;
    let mut i: usize = 0;
    while i < n
        invariant
            l == ls.deep_view(),
            q <= ls@.len(),
            i <= n,
            sp_rows(l, p as int, n as nat, nu as nat, nc as nat) == match sp_rows(
                l,
                q as int,
                (n - i) as nat,
                nu as nat,
                nc as nat,
            ) {
                Err(e) => Err(e),
                Ok((rest, q2)) => Ok::<(SpecColumns, int), SpecFailure>(
                    (
                        SpecColumns {
                            centers: cols.deep_view().centers + rest.centers,
                            values: cols.deep_view().values + rest.values,
                            uncorr_low: cols.deep_view().uncorr_low + rest.uncorr_low,
                            uncorr_high: cols.deep_view().uncorr_high + rest.uncorr_high,
                            corr_low: cols.deep_view().corr_low + rest.corr_low,
                            corr_high: cols.deep_view().corr_high + rest.corr_high,
                        },
                        q2,
                    ),
                ),
            },
        decreases n - i,
    {
        let (c, q1) = match take::<Float>(ls, q) {
            Ok(x) => x,
            Err(e) => {
                return Err(e);
            },
        };
        let (v, q2) = match take::<Float>(ls, q1) {
            Ok(x) => x,
            Err(e) => {
                return Err(e);
            },
        };
        let ((ulo, uhi), q3) = match read_pairs(ls, q2, nu) {
            Ok(x) => x,
            Err(e) => {
                return Err(e);
            },
        };
        let ((clo, chi), q4) = match read_pairs(ls, q3, nc) {
            Ok(x) => x,
            Err(e) => {
                return Err(e);
            },
        };
        let ghost old = cols.deep_view();
        let ghost row = (c.deep_view(), v.deep_view(), ulo.deep_view(), uhi.deep_view(), clo.deep_view(), chi.deep_view());
        cols.centers.push(c);
        cols.values.push(v);
        cols.uncorr_low.push(ulo);
        cols.uncorr_high.push(uhi);
        cols.corr_low.push(clo);
        cols.corr_high.push(chi);
        proof {
            let now = cols.deep_view();
            assert(now.centers =~= old.centers + seq![row.0]);
            assert(now.values =~= old.values + seq![row.1]);
            assert(now.uncorr_low =~= old.uncorr_low + seq![row.2]);
            assert(now.uncorr_high =~= old.uncorr_high + seq![row.3]);
            assert(now.corr_low =~= old.corr_low + seq![row.4]);
            assert(now.corr_high =~= old.corr_high + seq![row.5]);
            let rest = sp_rows(l, q4 as int, (n - i - 1) as nat, nu as nat, nc as nat);
            if rest is Ok {
                let (rc, _) = rest->Ok_0;
                assert(old.centers + (seq![row.0] + rc.centers) == now.centers + rc.centers);
                assert(old.values + (seq![row.1] + rc.values) == now.values + rc.values);
                assert(old.uncorr_low + (seq![row.2] + rc.uncorr_low) == now.uncorr_low + rc.uncorr_low);
                assert(old.uncorr_high + (seq![row.3] + rc.uncorr_high) == now.uncorr_high + rc.uncorr_high);
                assert(old.corr_low + (seq![row.4] + rc.corr_low) == now.corr_low + rc.corr_low);
                assert(old.corr_high + (seq![row.5] + rc.corr_high) == now.corr_high + rc.corr_high);
            }
        }
        q = q4;
        i = i + 1;
    }
    proof {
        let now = cols.deep_view();
        assert(now.centers + Seq::<Text>::empty() == now.centers);
        assert(now.values + Seq::<Text>::empty() == now.values);
        assert(now.uncorr_low + Seq::<Seq<Text>>::empty() == now.uncorr_low);
        assert(now.uncorr_high + Seq::<Seq<Text>>::empty() == now.uncorr_high);
        assert(now.corr_low + Seq::<Seq<Text>>::empty() == now.corr_low);
        assert(now.corr_high + Seq::<Seq<Text>>::empty() == now.corr_high);
    }
    Ok((cols, q))
}

/// The sources of uncertainty of a data block and its per-bin columns.
pub open spec fn sp_data_head(ls: Lines, p: int, n_bins: nat) -> SR<(Seq<Text>, Seq<Text>, SpecColumns)> {
    match sp_take::<usize>(ls, p) {
        Err(e) => Err(e),
        Ok((nu, q1)) => match sp_take_multiple::<String>(ls, q1, nu as nat) {
            Err(e) => Err(e),
            Ok((us, q2)) => match sp_take::<usize>(ls, q2) {
                Err(e) => Err(e),
                Ok((nc, q3)) => match sp_take_multiple::<String>(ls, q3, nc as nat) {
                    Err(e) => Err(e),
                    Ok((cs, q4)) => match sp_rows(ls, q4, n_bins, nu as nat, nc as nat) {
                        Err(e) => Err(e),
                        Ok((cols, q5)) => Ok(((us, cs, cols), q5)),
                    },
                },
            },
        },
    }
}

fn read_data_head(ls: &Vec<Vec<char>>, p: usize, n_bins: usize) -> (r: Result<
    ((Vec<String>, Vec<String>, Columns), usize),
    ReadFailure,
>)
    requires
        p <= ls@.len(),
    ensures
        sr_view(r) == sp_data_head(ls.deep_view(), p as int, n_bins as nat),
        ends_within(r, ls@.len() as int),
{
    let (nu, q1) = match take::<usize>(ls, p) {
        Ok(x) => x,
        Err(e) => {
            return Err(e);
        },
    };
    let (us, q2) = match take_multiple::<String>(ls, q1, nu) {
        Ok(x) => x,
        Err(e) => {
            return Err(e);
        },
    };
    let (nc, q3) = match take::<usize>(ls, q2) {
        Ok(x) => x,
        Err(e) => {
            return Err(e);
        },
    };
    let (cs, q4) = match take_multiple::<String>(ls, q3, nc) {
        Ok(x) => x,
        Err(e) => {
            return Err(e);
        },
    };
    let (cols, q5) = match read_rows(ls, q4, n_bins, nu, nc) {
        Ok(x) => x,
        Err(e) => {
            return Err(e);
        },
    };
    Ok(((us, cs, cols), q5))
}

/// A data block (with the correlation matrix) or a multiplicative block
/// (without).
pub open spec fn sp_data_block(ls: Lines, p: int, n_bins: nat, with_matrix: bool) -> SR<
    SpecBlockData,
> {
    match sp_data_head(ls, p, n_bins) {
        Err(e) => Err(e),
        Ok(((us, cs, cols), q1)) => if with_matrix {
            match sp_take::<usize>(ls, q1) {
                Err(e) => Err(e),
                Ok((n_mat, q2)) => if n_bins * n_bins > usize::MAX {
                    Err(SpecFailure::Abort)
                } else {
                    match sp_matrix_strict::<Float>(ls, q2, n_mat as nat, n_bins * n_bins) {
                        Err(e) => Err(e),
                        Ok((m, q3)) => Ok(
                            (
                                SpecBlockData::DataBlock {
                                    uncorr_sources: us,
                                    corr_sources: cs,
                                    centers: cols.centers,
                                    values: cols.values,
                                    uncorr_low: cols.uncorr_low,
                                    uncorr_high: cols.uncorr_high,
                                    corr_low: cols.corr_low,
                                    corr_high: cols.corr_high,
                                    corr_matrix: m,
                                },
                                q3,
                            ),
                        ),
                    }
                },
            }
        } else {
            Ok(
                (
                    SpecBlockData::MultBlock {
                        uncorr_sources: us,
                        corr_sources: cs,
                        centers: cols.centers,
                        values: cols.values,
                        uncorr_low: cols.uncorr_low,
                        uncorr_high: cols.uncorr_high,
                        corr_low: cols.corr_low,
                        corr_high: cols.corr_high,
                    },
                    q1,
                ),
            )
        },
    }
}

fn read_data_block(ls: &Vec<Vec<char>>, p: usize, n_bins: usize, with_matrix: bool) -> (r: Result<
    (BlockData, usize),
    ReadFailure,
>)
    requires
        p <= ls@.len(),
    ensures
        sr_view(r) == sp_data_block(ls.deep_view(), p as int, n_bins as nat, with_matrix),
        ends_within(r, ls@.len() as int),
{
    let ((us, cs, cols), q1) = match read_data_head(ls, p, n_bins) {
        Ok(x) => x,
        Err(e) => {
            return Err(e);
        },
    };
    if with_matrix {
        let (n_mat, q2) = match take::<usize>(ls, q1) {
            Ok(x) => x,
            Err(e) => {
                return Err(e);
            },
        };
        let sq = match n_bins.checked_mul(n_bins) {
            Some(x) => x,
            None => {
                return Err(ReadFailure::Abort);
            },
        };
        let (m, q3) = match take_matrix_strict::<Float>(ls, q2, n_mat, sq) {
            Ok(x) => x,
            Err(e) => {
                return Err(e);
            },
        };
        Ok(
            (
                BlockData::DataBlock {
                    uncorr_sources: us,
                    corr_sources: cs,
                    centers: cols.centers,
                    values: cols.values,
                    uncorr_low: cols.uncorr_low,
                    uncorr_high: cols.uncorr_high,
                    corr_low: cols.corr_low,
                    corr_high: cols.corr_high,
                    corr_matrix: m,
                },
                q3,
            ),
        )
    } else {
        Ok(
            (
                BlockData::MultBlock {
                    uncorr_sources: us,
                    corr_sources: cs,
                    centers: cols.centers,
                    values: cols.values,
                    uncorr_low: cols.uncorr_low,
                    uncorr_high: cols.uncorr_high,
                    corr_low: cols.corr_low,
                    corr_high: cols.corr_high,
                },
                q1,
            ),
        )
    }
}

// ---------------------------------------------------------------------------
// Theory blocks: weights and partons
// ---------------------------------------------------------------------------

/// The sums of the weight information.
pub open spec fn sp_weight_sums(ls: Lines, p: int, n_events: isize) -> SR<
    (Text, Text, usize, usize, Text, Text, Text),
> {
    match sp_take::<Float>(ls, p) {
        Err(e) => Err(e),
        Ok((ev, q1)) => match sp_take::<Float>(ls, q1) {
            Err(e) => Err(e),
            Ok((norm, q2)) => {
                let tables = if n_events <= -2 {
                    sp_take::<usize>(ls, q2)
                } else {
                    Ok((1usize, q2))
                };
                match tables {
                    Err(e) => Err(e),
                    Ok((n_tables, q3)) => match sp_take::<usize>(ls, q3) {
                        Err(e) => Err(e),
                        Ok((n_entries, q4)) => match sp_take::<Float>(ls, q4) {
                            Err(e) => Err(e),
                            Ok((sws, q5)) => match sp_take::<Float>(ls, q5) {
                                Err(e) => Err(e),
                                Ok((sss, q6)) => match sp_take::<Float>(ls, q6) {
                                    Err(e) => Err(e),
                                    Ok((ss, q7)) => Ok(
                                        ((ev, norm, n_tables, n_entries, sws, sss, ss), q7),
                                    ),
                                },
                            },
                        },
                    },
                }
            },
        },
    }
}

fn read_weight_sums(ls: &Vec<Vec<char>>, p: usize, n_events: isize) -> (r: Result<
    ((Float, Float, usize, usize, Float, Float, Float), usize),
    ReadFailure,
>)
    requires
        p <= ls@.len(),
    ensures
        sr_view(r) == sp_weight_sums(ls.deep_view(), p as int, n_events),
        ends_within(r, ls@.len() as int),
{
    let (ev, q1) = match take::<Float>(ls, p) {
        Ok(x) => x,
        Err(e) => {
            return Err(e);
        },
    };
    let (norm, q2) = match take::<Float>(ls, q1) {
        Ok(x) => x,
        Err(e) => {
            return Err(e);
        },
    };
    let (n_tables, q3) = if n_events <= -2 {
        match take::<usize>(ls, q2) {
            Ok(x) => x,
            Err(e) => {
                return Err(e);
            },
        }
    } else {
        (1usize, q2)
    };
    let (n_entries, q4) = match take::<usize>(ls, q3) {
        Ok(x) => x,
        Err(e) => {
            return Err(e);
        },
    };
    let (sws, q5) = match take::<Float>(ls, q4) {
        Ok(x) => x,
        Err(e) => {
            return Err(e);
        },
    };
    let (sss, q6) = match take::<Float>(ls, q5) {
        Ok(x) => x,
        Err(e) => {
            return Err(e);
        },
    };
    let (ss, q7) = match take::<Float>(ls, q6) {
        Ok(x) => x,
        Err(e) => {
            return Err(e);
        },
    };
    Ok(((ev, norm, n_tables, n_entries, sws, sss, ss), q7))
}

/// The weight information of a theory block.
pub open spec fn sp_weight_info(ls: Lines, p: int, n_events: isize) -> SR<SpecWeightInfo> {
    match sp_weight_sums(ls, p, n_events) {
        Err(e) => Err(e),
        Ok(((ev, norm, n_tables, n_entries, sws, sss, ss), q1)) => match sp_nested_counted::<Float>(
            ls,
            q1,
        ) {
            Err(e) => Err(e),
            Ok((wso, q2)) => match sp_nested_counted::<Float>(ls, q2) {
                Err(e) => Err(e),
                Ok((sso, q3)) => match sp_nested_counted::<Float>(ls, q3) {
                    Err(e) => Err(e),
                    Ok((so, q4)) => match sp_nested_counted::<usize>(ls, q4) {
                        Err(e) => Err(e),
                        Ok((neo, q5)) => Ok(
                            (
                                SpecWeightInfo {
                                    n_events: ev,
                                    norm,
                                    n_tables,
                                    n_entries,
                                    sum_weights_sq: sws,
                                    sum_sig_sq: sss,
                                    sum_sig: ss,
                                    weight_sq_obs: wso,
                                    sig_sq_obs: sso,
                                    sig_obs: so,
                                    n_events_obs: neo,
                                },
                                q5,
                            ),
                        ),
                    },
                },
            },
        },
    }
}

fn read_weight_info(ls: &Vec<Vec<char>>, p: usize, n_events: isize) -> (r: Result<
    (WeightInfo, usize),
    ReadFailure,
>)
    requires
        p <= ls@.len(),
    ensures
        sr_view(r) == sp_weight_info(ls.deep_view(), p as int, n_events),
        ends_within(r, ls@.len() as int),
{
    let ((ev, norm, n_tables, n_entries, sws, sss, ss), q1) = match read_weight_sums(
        ls,
        p,
        n_events,
    ) {
        Ok(x) => x,
        Err(e) => {
            return Err(e);
        },
    };
    let (wso, q2) = match take_nested_counted::<Float>(ls, q1) {
        Ok(x) => x,
        Err(e) => {
            return Err(e);
        },
    };
    let (sso, q3) = match take_nested_counted::<Float>(ls, q2) {
        Ok(x) => x,
        Err(e) => {
            return Err(e);
        },
    };
    let (so, q4) = match take_nested_counted::<Float>(ls, q3) {
        Ok(x) => x,
        Err(e) => {
            return Err(e);
        },
    };
    let (neo, q5) = match take_nested_counted::<usize>(ls, q4) {
        Ok(x) => x,
        Err(e) => {
            return Err(e);
        },
    };
    Ok(
        (
            WeightInfo {
                n_events: ev,
                norm,
                n_tables,
                n_entries,
                sum_weights_sq: sws,
                sum_sig_sq: sss,
                sum_sig: ss,
                weight_sq_obs: wso,
                sig_sq_obs: sso,
                sig_obs: so,
                n_events_obs: neo,
            },
            q5,
        ),
    )
}

/// `n` pairs of parton flavours.
pub open spec fn sp_flavor_pairs(ls: Lines, p: int, n: nat) -> SR<Seq<(isize, isize)>>
    decreases n,
{
    if n == 0 {
        Ok((seq![], p))
    } else {
        match sp_take::<isize>(ls, p) {
            Err(e) => Err(e),
            Ok((a, q1)) => match sp_take::<isize>(ls, q1) {
                Err(e) => Err(e),
                Ok((b, q2)) => prepend_one((a, b), sp_flavor_pairs(ls, q2, (n - 1) as nat)),
            },
        }
    }
}

/// The flavour pairs of `n` subprocesses, each a count and that many pairs.
pub open spec fn sp_flavors(ls: Lines, p: int, n: nat) -> SR<Seq<Seq<(isize, isize)>>>
    decreases n,
{
    if n == 0 {
        Ok((seq![], p))
    } else {
        match sp_take::<usize>(ls, p) {
            Err(e) => Err(e),
            Ok((m, q1)) => match sp_flavor_pairs(ls, q1, m as nat) {
                Err(e) => Err(e),
                Ok((pairs, q2)) => prepend_one(pairs, sp_flavors(ls, q2, (n - 1) as nat)),
            },
        }
    }
}

fn read_flavor_pairs(ls: &Vec<Vec<char>>, p: usize, n: usize) -> (r: Result<
    (Vec<(isize, isize)>, usize),
    ReadFailure,
>)
    requires
        p <= ls@.len(),
    ensures
        sr_view(r) == sp_flavor_pairs(ls.deep_view(), p as int, n as nat),
        ends_within(r, ls@.len() as int),
{
    let ghost l = ls.deep_view();
    let mut out: Vec<(isize, isize)> = Vec::new();
    let mut q = p;
    let mut i: usize = 0;
    while i < n
        invariant
            l == ls.deep_view(),
            q <= ls@.len(),
            i <= n,
            sp_flavor_pairs(l, p as int, n as nat) == prepend_sr(
                out.deep_view(),
                sp_flavor_pairs(l, q as int, (n - i) as nat),
            ),
        decreases n - i,
    {
        let (a, q1) = match take::<isize>(ls, q) {
            Ok(x) => x,
            Err(e) => {
                return Err(e);
            },
        };
        let (b, q2) = match take::<isize>(ls, q1) {
            Ok(x) => x,
            Err(e) => {
                return Err(e);
            },
        };
        let ghost old_out = out.deep_view();
        out.push((a, b));
        proof {
            assert(out.deep_view() =~= old_out + seq![(a, b)]);
            let rest = sp_flavor_pairs(l, q2 as int, (n - i - 1) as nat);
            if rest is Ok {
                assert(old_out + (seq![(a, b)] + rest->Ok_0.0) == old_out + seq![(a, b)] + rest->Ok_0.0);
            }
        }
        q = q2;
        i = i + 1;
    }
    proof {
        assert(out.deep_view() + Seq::<(isize, isize)>::empty() == out.deep_view());
    }
    Ok((out, q))
}

fn read_flavors(ls: &Vec<Vec<char>>, p: usize, n: usize) -> (r: Result<
    (Vec<Vec<(isize, isize)>>, usize),
    ReadFailure,
>)
    requires
        p <= ls@.len(),
    ensures
        sr_view(r) == sp_flavors(ls.deep_view(), p as int, n as nat),
        ends_within(r, ls@.len() as int),
{
    let ghost l = ls.deep_view();
    let mut out: Vec<Vec<(isize, isize)>> = Vec::new();
    let mut q = p;
    let mut i: usize = 0;
    while i < n
        invariant
            l == ls.deep_view(),
            q <= ls@.len(),
            i <= n,
            sp_flavors(l, p as int, n as nat) == prepend_sr(
                out.deep_view(),
                sp_flavors(l, q as int, (n - i) as nat),
            ),
        decreases n - i,
    {
        let (m, q1) = match take::<usize>(ls, q) {
            Ok(x) => x,
            Err(e) => {
                return Err(e);
            },
        };
        let (pairs, q2) = match read_flavor_pairs(ls, q1, m) {
            Ok(x) => x,
            Err(e) => {
                return Err(e);
            },
        };
        let ghost old_out = out.deep_view();
        let ghost pv = pairs.deep_view();
        out.push(pairs);
        proof {
            assert(out.deep_view() =~= old_out + seq![pv]);
            let rest = sp_flavors(l, q2 as int, (n - i - 1) as nat);
            if rest is Ok {
                assert(old_out + (seq![pv] + rest->Ok_0.0) == old_out + seq![pv] + rest->Ok_0.0);
            }
        }
        q = q2;
        i = i + 1;
    }
    proof {
        assert(out.deep_view() + Seq::<Seq<(isize, isize)>>::empty() == out.deep_view());
    }
    Ok((out, q))
}

/// The partons of a theory block; a coefficient format other than 0 stops
/// the reading.
pub open spec fn sp_pdf_info(ls: Lines, p: int) -> SR<SpecPDFInfo> {
    match sp_take_counted::<usize>(ls, p) {
        Err(e) => Err(e),
        Ok((pdfs, q1)) => match sp_take::<usize>(ls, q1) {
            Err(e) => Err(e),
            Ok((n_pdf_dim, q2)) => match sp_take_counted::<usize>(ls, q2) {
                Err(e) => Err(e),
                Ok((ffs, q3)) => match sp_take::<usize>(ls, q3) {
                    Err(e) => Err(e),
                    Ok((n_ff_dim, q4)) => match sp_take::<usize>(ls, q4) {
                        Err(e) => Err(e),
                        Ok((n_subproc, q5)) => match sp_take::<usize>(ls, q5) {
                            Err(e) => Err(e),
                            Ok((f1, q6)) => match sp_take::<usize>(ls, q6) {
                                Err(e) => Err(e),
                                Ok((f2, q7)) => match sp_take::<usize>(ls, q7) {
                                    Err(e) => Err(e),
                                    Ok((f3, q8)) => {
                                        let flavors = if f2 == 0 {
                                            match sp_take::<usize>(ls, q8) {
                                                Err(e) => Err(e),
                                                Ok((cf, q9)) => if cf == 0 {
                                                    sp_flavors(ls, q9, n_subproc as nat)
                                                } else {
                                                    Err(SpecFailure::Abort)
                                                },
                                            }
                                        } else {
                                            Ok((seq![], q8))
                                        };
                                        match flavors {
                                            Err(e) => Err(e),
                                            Ok((fl, q10)) => Ok(
                                                (
                                                    SpecPDFInfo {
                                                        pdfs,
                                                        n_pdf_dim,
                                                        fragmentation_functions: ffs,
                                                        n_ff_dim,
                                                        n_subproc,
                                                        pdf_flag_1: f1,
                                                        pdf_flag_2: f2,
                                                        pdf_flag_3: f3,
                                                        parton_flavors: fl,
                                                    },
                                                    q10,
                                                ),
                                            ),
                                        }
                                    },
                                },
                            },
                        },
                    },
                },
            },
        },
    }
}

fn read_pdf_info(ls: &Vec<Vec<char>>, p: usize) -> (r: Result<(PDFInfo, usize), ReadFailure>)
    requires
        p <= ls@.len(),
    ensures
        sr_view(r) == sp_pdf_info(ls.deep_view(), p as int),
        ends_within(r, ls@.len() as int),
{
    let (pdfs, q1) = match take_counted::<usize>(ls, p) {
        Ok(x) => x,
        Err(e) => {
            return Err(e);
        },
    };
    let (n_pdf_dim, q2) = match take::<usize>(ls, q1) {
        Ok(x) => x,
        Err(e) => {
            return Err(e);
        },
    };
    let (ffs, q3) = match take_counted::<usize>(ls, q2) {
        Ok(x) => x,
        Err(e) => {
            return Err(e);
        },
    };
    let (n_ff_dim, q4) = match take::<usize>(ls, q3) {
        Ok(x) => x,
        Err(e) => {
            return Err(e);
        },
    };
    let (n_subproc, q5) = match take::<usize>(ls, q4) {
        Ok(x) => x,
        Err(e) => {
            return Err(e);
        },
    };
    let (f1, q6) = match take::<usize>(ls, q5) {
        Ok(x) => x,
        Err(e) => {
            return Err(e);
        },
    };
    let (f2, q7) = match take::<usize>(ls, q6) {
        Ok(x) => x,
        Err(e) => {
            return Err(e);
        },
    };
    let (f3, q8) = match take::<usize>(ls, q7) {
        Ok(x) => x,
        Err(e) => {
            return Err(e);
        },
    };
    let (fl, q10) = if f2 == 0 {
        let (cf, q9) = match take::<usize>(ls, q8) {
            Ok(x) => x,
            Err(e) => {
                return Err(e);
            },
        };
        if cf != 0 {
            return Err(ReadFailure::Abort);
        }
        match read_flavors(ls, q9, n_subproc) {
            Ok(x) => x,
            Err(e) => {
                return Err(e);
            },
        }
    } else {
        let v: Vec<Vec<(isize, isize)>> = Vec::new();
        proof {
            assert(v.deep_view() =~= Seq::<Seq<(isize, isize)>>::empty());
        }
        (v, q8)
    };
    Ok(
        (
            PDFInfo {
                pdfs,
                n_pdf_dim,
                fragmentation_functions: ffs,
                n_ff_dim,
                n_subproc,
                pdf_flag_1: f1,
                pdf_flag_2: f2,
                pdf_flag_3: f3,
                parton_flavors: fl,
            },
            q10,
        ),
    )
}


// ---------------------------------------------------------------------------
// Grids: shapes
// ---------------------------------------------------------------------------

/// The value that fills the places of a grid that the table leaves out.
pub open spec fn zero_text() -> Text {
    seq!['0']
}

/// `s` cut or filled up with `filler` to the length `n`.
pub open spec fn fit<T>(s: Seq<T>, n: nat, filler: T) -> Seq<T> {
    Seq::new(n, |i: int| if i < s.len() { s[i] } else { filler })
}

pub open spec fn zeros1(a: nat) -> Seq<Text> {
    Seq::new(a, |i: int| zero_text())
}

pub open spec fn zeros2(a: nat, b: nat) -> Seq<Seq<Text>> {
    Seq::new(a, |i: int| zeros1(b))
}

pub open spec fn zeros3(a: nat, b: nat, c: nat) -> Seq<Seq<Seq<Text>>> {
    Seq::new(a, |i: int| zeros2(b, c))
}

pub open spec fn zeros4(a: nat, b: nat, c: nat, d: nat) -> Seq<Seq<Seq<Seq<Text>>>> {
    Seq::new(a, |i: int| zeros3(b, c, d))
}

fn zero_float() -> (r: Float)
    ensures
        r.deep_view() == zero_text(),
{
    let r = Float { text: String::from_str("0") };
    proof {
        reveal_strlit("0");
    }
    r
}

fn make_zeros1(a: usize) -> (r: Vec<Float>)
    ensures
        r.deep_view() == zeros1(a as nat),
{
    let mut r: Vec<Float> = Vec::new();
    let mut i: usize = 0;
    while i < a
        invariant
            i <= a,
            r@.len() == i,
            forall|k: int| 0 <= k < i ==> #[trigger] r@[k].deep_view() == zero_text(),
        decreases a - i,
    {
        r.push(zero_float());
        i = i + 1;
    }
    proof {
        assert(r.deep_view() =~= zeros1(a as nat));
    }
    r
}

fn make_zeros2(a: usize, b: usize) -> (r: Vec<Vec<Float>>)
    ensures
        r.deep_view() == zeros2(a as nat, b as nat),
{
    let mut r: Vec<Vec<Float>> = Vec::new();
    let mut i: usize = 0;
    while i < a
        invariant
            i <= a,
            r@.len() == i,
            forall|k: int| 0 <= k < i ==> #[trigger] r@[k].deep_view() == zeros1(b as nat),
        decreases a - i,
    {
        r.push(make_zeros1(b));
        i = i + 1;
    }
    proof {
        assert(r.deep_view() =~= zeros2(a as nat, b as nat));
    }
    r
}

fn make_zeros3(a: usize, b: usize, c: usize) -> (r: Vec<Vec<Vec<Float>>>)
    ensures
        r.deep_view() == zeros3(a as nat, b as nat, c as nat),
{
    let mut r: Vec<Vec<Vec<Float>>> = Vec::new();
    let mut i: usize = 0;
    while i < a
        invariant
            i <= a,
            r@.len() == i,
            forall|k: int| 0 <= k < i ==> #[trigger] r@[k].deep_view() == zeros2(b as nat, c as nat),
        decreases a - i,
    {
        r.push(make_zeros2(b, c));
        i = i + 1;
    }
    proof {
        assert(r.deep_view() =~= zeros3(a as nat, b as nat, c as nat));
    }
    r
}

fn make_zeros4(a: usize, b: usize, c: usize, d: usize) -> (r: Vec<Vec<Vec<Vec<Float>>>>)
    ensures
        r.deep_view() == zeros4(a as nat, b as nat, c as nat, d as nat),
{
    let mut r: Vec<Vec<Vec<Vec<Float>>>> = Vec::new();
    let mut i: usize = 0;
    while i < a
        invariant
            i <= a,
            r@.len() == i,
            forall|k: int|
                0 <= k < i ==> #[trigger] r@[k].deep_view() == zeros3(b as nat, c as nat, d as nat),
        decreases a - i,
    {
        r.push(make_zeros3(b, c, d));
        i = i + 1;
    }
    proof {
        assert(r.deep_view() =~= zeros4(a as nat, b as nat, c as nat, d as nat));
    }
    r
}

fn fit_floats(v: Vec<Float>, n: usize) -> (r: Vec<Float>)
    ensures
        r.deep_view() == fit(v.deep_view(), n as nat, zero_text()),
{
    let ghost old = v.deep_view();
    let mut v = v;
    while v.len() > n
        invariant
            v@.len() <= old.len(),
            v@.len() == old.len() || v@.len() >= n,
            forall|k: int| 0 <= k < v@.len() ==> #[trigger] v@[k].deep_view() == old[k],
        decreases v@.len(),
    {
        v.pop();
    }
    while v.len() < n
        invariant
            v@.len() <= n,
            v@.len() >= old.len() || v@.len() == n,
            forall|k: int|
                0 <= k < v@.len() ==> #[trigger] v@[k].deep_view() == (if k < old.len() {
                    old[k]
                } else {
                    zero_text()
                }),
        decreases n - v@.len(),
    {
        v.push(zero_float());
    }
    proof {
        assert(v.deep_view() =~= fit(old, n as nat, zero_text()));
    }
    v
}

fn fit_rows1(v: Vec<Vec<Float>>, n: usize, b: usize) -> (r: Vec<Vec<Float>>)
    ensures
        r.deep_view() == fit(v.deep_view(), n as nat, zeros1(b as nat)),
{
    let ghost old = v.deep_view();
    let mut v = v;
    while v.len() > n
        invariant
            v@.len() <= old.len(),
            v@.len() == old.len() || v@.len() >= n,
            forall|k: int| 0 <= k < v@.len() ==> #[trigger] v@[k].deep_view() == old[k],
        decreases v@.len(),
    {
        v.pop();
    }
    while v.len() < n
        invariant
            v@.len() <= n,
            v@.len() >= old.len() || v@.len() == n,
            forall|k: int|
                0 <= k < v@.len() ==> #[trigger] v@[k].deep_view() == (if k < old.len() {
                    old[k]
                } else {
                    zeros1(b as nat)
                }),
        decreases n - v@.len(),
    {
        v.push(make_zeros1(b));
    }
    proof {
        assert(v.deep_view() =~= fit(old, n as nat, zeros1(b as nat)));
    }
    v
}

fn fit_rows2(v: Vec<Vec<Vec<Float>>>, n: usize, b: usize, c: usize) -> (r: Vec<Vec<Vec<Float>>>)
    ensures
        r.deep_view() == fit(v.deep_view(), n as nat, zeros2(b as nat, c as nat)),
{
    let ghost old = v.deep_view();
    let mut v = v;
    while v.len() > n
        invariant
            v@.len() <= old.len(),
            v@.len() == old.len() || v@.len() >= n,
            forall|k: int| 0 <= k < v@.len() ==> #[trigger] v@[k].deep_view() == old[k],
        decreases v@.len(),
    {
        v.pop();
    }
    while v.len() < n
        invariant
            v@.len() <= n,
            v@.len() >= old.len() || v@.len() == n,
            forall|k: int|
                0 <= k < v@.len() ==> #[trigger] v@[k].deep_view() == (if k < old.len() {
                    old[k]
                } else {
                    zeros2(b as nat, c as nat)
                }),
        decreases n - v@.len(),
    {
        v.push(make_zeros2(b, c));
    }
    proof {
        assert(v.deep_view() =~= fit(old, n as nat, zeros2(b as nat, c as nat)));
    }
    v
}

fn fit_rows3(v: Vec<Vec<Vec<Vec<Float>>>>, n: usize, b: usize, c: usize, d: usize) -> (r: Vec<
    Vec<Vec<Vec<Float>>>,
>)
    ensures
        r.deep_view() == fit(v.deep_view(), n as nat, zeros3(b as nat, c as nat, d as nat)),
{
    let ghost old = v.deep_view();
    let mut v = v;
    while v.len() > n
        invariant
            v@.len() <= old.len(),
            v@.len() == old.len() || v@.len() >= n,
            forall|k: int| 0 <= k < v@.len() ==> #[trigger] v@[k].deep_view() == old[k],
        decreases v@.len(),
    {
        v.pop();
    }
    while v.len() < n
        invariant
            v@.len() <= n,
            v@.len() >= old.len() || v@.len() == n,
            forall|k: int|
                0 <= k < v@.len() ==> #[trigger] v@[k].deep_view() == (if k < old.len() {
                    old[k]
                } else {
                    zeros3(b as nat, c as nat, d as nat)
                }),
        decreases n - v@.len(),
    {
        v.push(make_zeros3(b, c, d));
    }
    proof {
        assert(v.deep_view() =~= fit(old, n as nat, zeros3(b as nat, c as nat, d as nat)));
    }
    v
}

fn fit_rows4(v: Grid5, n: usize, b: usize, c: usize, d: usize, e: usize) -> (r: Grid5)
    ensures
        r.deep_view() == fit(v.deep_view(), n as nat, zeros4(b as nat, c as nat, d as nat, e as nat)),
{
    let ghost old = v.deep_view();
    let mut v = v;
    while v.len() > n
        invariant
            v@.len() <= old.len(),
            v@.len() == old.len() || v@.len() >= n,
            forall|k: int| 0 <= k < v@.len() ==> #[trigger] v@[k].deep_view() == old[k],
        decreases v@.len(),
    {
        v.pop();
    }
    while v.len() < n
        invariant
            v@.len() <= n,
            v@.len() >= old.len() || v@.len() == n,
            forall|k: int|
                0 <= k < v@.len() ==> #[trigger] v@[k].deep_view() == (if k < old.len() {
                    old[k]
                } else {
                    zeros4(b as nat, c as nat, d as nat, e as nat)
                }),
        decreases n - v@.len(),
    {
        v.push(make_zeros4(b, c, d, e));
    }
    proof {
        assert(v.deep_view() =~= fit(old, n as nat, zeros4(b as nat, c as nat, d as nat, e as nat)));
    }
    v
}

/// The number of x nodes of bin `i`: one grid of x₁ nodes, the half-square
/// of a symmetric pair of them, or the product of the x₁ and x₂ grids.
pub open spec fn nx_of(n_pdf_dim: usize, x1: Seq<Seq<Text>>, x2: Seq<Seq<Text>>, i: int) -> int {
    if n_pdf_dim == 0 {
        x1[i].len() as int
    } else if n_pdf_dim == 1 {
        ((x1[i].len() * x1[i].len() + x1[i].len()) / 2) as int
    } else {
        (x1[i].len() * x2[i].len()) as int
    }
}

/// The number of bins for which the number of x nodes is computed.
pub open spec fn nx_bins(n_pdf_dim: usize, x1: Seq<Seq<Text>>, x2: Seq<Seq<Text>>) -> int {
    if n_pdf_dim == 2 && x2.len() < x1.len() {
        x2.len() as int
    } else {
        x1.len() as int
    }
}

/// The products in these numbers fit the machine's integers.
pub open spec fn nx_fits(n_pdf_dim: usize, x1: Seq<Seq<Text>>, x2: Seq<Seq<Text>>) -> bool {
    forall|i: int|
        0 <= i < nx_bins(n_pdf_dim, x1, x2) ==> {
            &&& #[trigger] x1[i].len() <= usize::MAX
            &&& (n_pdf_dim == 1 ==> x1[i].len() * x1[i].len() + x1[i].len() <= usize::MAX)
            &&& (n_pdf_dim == 2 ==> x1[i].len() * x2[i].len() <= usize::MAX)
        }
}

pub open spec fn max_nx(n_pdf_dim: usize, x1: Seq<Seq<Text>>, x2: Seq<Seq<Text>>, k: int) -> int
    decreases k,
{
    if k <= 0 {
        0
    } else {
        let m = max_nx(n_pdf_dim, x1, x2, k - 1);
        let v = nx_of(n_pdf_dim, x1, x2, k - 1);
        if v > m {
            v
        } else {
            m
        }
    }
}

/// The largest number of x nodes over the bins; no bins, an unknown
/// dimension or numbers too large for the machine stop the reading.
pub open spec fn sp_nxmax(n_pdf_dim: usize, x1: Seq<Seq<Text>>, x2: Seq<Seq<Text>>) -> Result<
    usize,
    SpecFailure,
> {
    if n_pdf_dim > 2 || nx_bins(n_pdf_dim, x1, x2) == 0 || !nx_fits(n_pdf_dim, x1, x2) {
        Err(SpecFailure::Abort)
    } else {
        Ok(max_nx(n_pdf_dim, x1, x2, nx_bins(n_pdf_dim, x1, x2)) as usize)
    }
}

proof fn lemma_max_nx_bounds(n_pdf_dim: usize, x1: Seq<Seq<Text>>, x2: Seq<Seq<Text>>, k: int)
    requires
        n_pdf_dim <= 2,
        0 <= k <= nx_bins(n_pdf_dim, x1, x2),
        nx_fits(n_pdf_dim, x1, x2),
    ensures
        0 <= max_nx(n_pdf_dim, x1, x2, k) <= usize::MAX,
        forall|i: int| 0 <= i < k ==> nx_of(n_pdf_dim, x1, x2, i) <= max_nx(n_pdf_dim, x1, x2, k),
    decreases k,
{
    if k > 0 {
        lemma_max_nx_bounds(n_pdf_dim, x1, x2, k - 1);
        let i = k - 1;
        let a = x1[i].len();
        assert(a <= usize::MAX);
        assert(n_pdf_dim == 1 ==> a * a + a <= usize::MAX);
        assert(n_pdf_dim == 2 ==> a * x2[i].len() <= usize::MAX);
        assert(0 <= a * a) by (nonlinear_arith);
        if n_pdf_dim == 1 {
            assert(0 <= (a * a + a) / 2 <= a * a + a) by (nonlinear_arith)
                requires
                    0 <= a * a,
            ;
        }
        if n_pdf_dim == 2 {
            let b = x2[i].len();
            assert(0 <= a * b) by (nonlinear_arith);
        }
        assert(0 <= nx_of(n_pdf_dim, x1, x2, i) <= usize::MAX);
    }
}

/// The number of x nodes of each bin.
fn nx_counts(n_pdf_dim: usize, x1: &Vec<Vec<Float>>, x2: &Vec<Vec<Float>>) -> (r: Option<Vec<usize>>)
    ensures
        match r {
            Some(v) => {
                &&& n_pdf_dim <= 2
                &&& nx_fits(n_pdf_dim, x1.deep_view(), x2.deep_view())
                &&& v@.len() == nx_bins(n_pdf_dim, x1.deep_view(), x2.deep_view())
                &&& forall|i: int|
                    0 <= i < v@.len() ==> #[trigger] v@[i] == nx_of(
                        n_pdf_dim,
                        x1.deep_view(),
                        x2.deep_view(),
                        i,
                    )
            },
            None => n_pdf_dim > 2 || !nx_fits(n_pdf_dim, x1.deep_view(), x2.deep_view()),
        },
{
    if n_pdf_dim > 2 {
        return None;
    }
    let ghost a = x1.deep_view();
    let ghost b = x2.deep_view();
    let count = if n_pdf_dim == 2 && x2.len() < x1.len() {
        x2.len()
    } else {
        x1.len()
    };
    let mut out: Vec<usize> = Vec::new();
    let mut i: usize = 0;
    while i < count
        invariant
            n_pdf_dim <= 2,
            a == x1.deep_view(),
            b == x2.deep_view(),
            count == nx_bins(n_pdf_dim, a, b),
            count <= x1@.len(),
            n_pdf_dim == 2 ==> count <= x2@.len(),
            i <= count,
            out@.len() == i,
            forall|k: int| 0 <= k < i ==> #[trigger] out@[k] == nx_of(n_pdf_dim, a, b, k),
            forall|k: int|
                0 <= k < i ==> {
                    &&& #[trigger] a[k].len() <= usize::MAX
                    &&& (n_pdf_dim == 1 ==> a[k].len() * a[k].len() + a[k].len() <= usize::MAX)
                    &&& (n_pdf_dim == 2 ==> a[k].len() * b[k].len() <= usize::MAX)
                },
        decreases count - i,
    {
        let l1 = x1[i].len();
        assert(a[i as int].len() == l1);
        let v = if n_pdf_dim == 0 {
            l1
        } else if n_pdf_dim == 1 {
            let sq = match l1.checked_mul(l1) {
                Some(x) => x,
                None => {
                    return None;
                },
            };
            let s = match sq.checked_add(l1) {
                Some(x) => x,
                None => {
                    return None;
                },
            };
            s / 2
        } else {
            let l2 = x2[i].len();
            assert(b[i as int].len() == l2);
            match l1.checked_mul(l2) {
                Some(x) => x,
                None => {
                    return None;
                },
            }
        };
        out.push(v);
        i = i + 1;
    }
    Some(out)
}

/// The largest of the numbers.
fn max_of(v: &Vec<usize>) -> (m: usize)
    ensures
        v@.len() > 0 ==> exists|i: int| 0 <= i < v@.len() && m == v@[i],
        forall|i: int| 0 <= i < v@.len() ==> v@[i] <= m,
{
    let mut m: usize = 0;
    let mut i: usize = 0;
    while i < v.len()
        invariant
            i <= v@.len(),
            i > 0 ==> exists|k: int| 0 <= k < i && m == v@[k],
            forall|k: int| 0 <= k < i ==> v@[k] <= m,
        decreases v@.len() - i,
    {
        if i == 0 || v[i] > m {
            m = v[i];
        }
        i = i + 1;
    }
    m
}

proof fn lemma_max_nx_is_max(n_pdf_dim: usize, x1: Seq<Seq<Text>>, x2: Seq<Seq<Text>>, k: int, m: int)
    requires
        k > 0,
        exists|i: int| 0 <= i < k && m == nx_of(n_pdf_dim, x1, x2, i),
        forall|i: int| 0 <= i < k ==> nx_of(n_pdf_dim, x1, x2, i) <= m,
    ensures
        max_nx(n_pdf_dim, x1, x2, k) == m,
    decreases k,
{
    lemma_max_nx_upper(n_pdf_dim, x1, x2, k, m);
    let i = choose|i: int| 0 <= i < k && m == nx_of(n_pdf_dim, x1, x2, i);
    lemma_max_nx_lower(n_pdf_dim, x1, x2, k, i);
}

proof fn lemma_max_nx_upper(n_pdf_dim: usize, x1: Seq<Seq<Text>>, x2: Seq<Seq<Text>>, k: int, m: int)
    requires
        m >= 0,
        forall|i: int| 0 <= i < k ==> nx_of(n_pdf_dim, x1, x2, i) <= m,
    ensures
        max_nx(n_pdf_dim, x1, x2, k) <= m,
    decreases k,
{
    if k > 0 {
        lemma_max_nx_upper(n_pdf_dim, x1, x2, k - 1, m);
    }
}

proof fn lemma_max_nx_lower(n_pdf_dim: usize, x1: Seq<Seq<Text>>, x2: Seq<Seq<Text>>, k: int, i: int)
    requires
        0 <= i < k,
    ensures
        nx_of(n_pdf_dim, x1, x2, i) <= max_nx(n_pdf_dim, x1, x2, k),
    decreases k,
{
    if i < k - 1 {
        lemma_max_nx_lower(n_pdf_dim, x1, x2, k - 1, i);
    }
}

/// The largest number of x nodes over the bins.
fn nxmax(n_pdf_dim: usize, x1: &Vec<Vec<Float>>, x2: &Vec<Vec<Float>>) -> (r: Result<
    usize,
    ReadFailure,
>)
    ensures
        match r {
            Ok(v) => sp_nxmax(n_pdf_dim, x1.deep_view(), x2.deep_view()) == Ok::<usize, SpecFailure>(v),
            Err(f) => sp_nxmax(n_pdf_dim, x1.deep_view(), x2.deep_view()) == Err::<usize, SpecFailure>(f@),
        },
{
    let counts = match nx_counts(n_pdf_dim, x1, x2) {
        Some(c) => c,
        None => {
            return Err(ReadFailure::Abort);
        },
    };
    if counts.len() == 0 {
        return Err(ReadFailure::Abort);
    }
    let m = max_of(&counts);
    proof {
        let a = x1.deep_view();
        let b = x2.deep_view();
        let k = counts@.len() as int;
        assert(exists|i: int| 0 <= i < k && m == nx_of(n_pdf_dim, a, b, i)) by {
            let i = choose|i: int| 0 <= i < counts@.len() && m == counts@[i];
            assert(counts@[i] == nx_of(n_pdf_dim, a, b, i));
        }
        assert forall|i: int| 0 <= i < k implies nx_of(n_pdf_dim, a, b, i) <= m by {
            assert(counts@[i] == nx_of(n_pdf_dim, a, b, i));
        }
        lemma_max_nx_is_max(n_pdf_dim, a, b, k, m as int);
    }
    Ok(m)
}


// ---------------------------------------------------------------------------
// Grids of scale-flexible tables
// ---------------------------------------------------------------------------

/// The shape of a grid: bins, x nodes, first and second scale nodes,
/// subprocesses.
pub type Dims = (usize, usize, usize, usize, usize);

/// The values of the subprocesses at one place `(i, j, k, l)` of a grid; a
/// place outside the shape stops the reading once a value is read for it.
pub open spec fn sp_leaf(ls: Lines, p: int, ns: nat, inside: bool) -> SR<Seq<Text>> {
    if ns == 0 {
        Ok((seq![], p))
    } else {
        match sp_take::<Float>(ls, p) {
            Err(e) => Err(e),
            Ok((v, q)) => if !inside {
                Err(SpecFailure::Abort)
            } else {
                match sp_takes::<Float>(ls, q, (ns - 1) as nat) {
                    Err(e) => Err(e),
                    Ok((vs, q2)) => Ok((seq![v] + vs, q2)),
                }
            },
        }
    }
}

pub open spec fn inside(d: Dims, i: int, j: int, k: int, l: int) -> bool {
    i < d.0 && j < d.1 && k < d.2 && l < d.3
}

/// The second scale nodes `l..s2` at `(i, j, k)`.
pub open spec fn sp_lv4(ls: Lines, p: int, d: Dims, i: int, j: int, k: int, s2: int, l: int) -> SR<
    Seq<Seq<Text>>,
>
    decreases s2 - l,
{
    if l >= s2 {
        Ok((seq![], p))
    } else {
        match sp_leaf(ls, p, d.4 as nat, inside(d, i, j, k, l)) {
            Err(e) => Err(e),
            Ok((row, q)) => prepend_one(row, sp_lv4(ls, q, d, i, j, k, s2, l + 1)),
        }
    }
}

/// The first scale nodes `k..s1` at `(i, j)`, each a count and its second
/// scale nodes.
pub open spec fn sp_lv3(ls: Lines, p: int, d: Dims, i: int, j: int, s1: int, k: int) -> SR<
    Seq<Seq<Seq<Text>>>,
>
    decreases s1 - k,
{
    if k >= s1 {
        Ok((seq![], p))
    } else {
        match sp_take::<usize>(ls, p) {
            Err(e) => Err(e),
            Ok((s2, q)) => match sp_lv4(ls, q, d, i, j, k, s2 as int, 0) {
                Err(e) => Err(e),
                Ok((rows, q2)) => prepend_one(
                    fit(rows, d.3 as nat, zeros1(d.4 as nat)),
                    sp_lv3(ls, q2, d, i, j, s1, k + 1),
                ),
            },
        }
    }
}

/// The x nodes `j..nx` of bin `i`.
pub open spec fn sp_lv2(ls: Lines, p: int, d: Dims, i: int, nx: int, j: int) -> SR<
    Seq<Seq<Seq<Seq<Text>>>>,
>
    decreases nx - j,
{
    if j >= nx {
        Ok((seq![], p))
    } else {
        match sp_take::<usize>(ls, p) {
            Err(e) => Err(e),
            Ok((s1, q)) => match sp_lv3(ls, q, d, i, j, s1 as int, 0) {
                Err(e) => Err(e),
                Ok((rows, q2)) => prepend_one(
                    fit(rows, d.2 as nat, zeros2(d.3 as nat, d.4 as nat)),
                    sp_lv2(ls, q2, d, i, nx, j + 1),
                ),
            },
        }
    }
}

/// The bins `i..n`.
pub open spec fn sp_lv1(ls: Lines, p: int, d: Dims, n: int, i: int) -> SR<SpecGrid5>
    decreases n - i,
{
    if i >= n {
        Ok((seq![], p))
    } else {
        match sp_take::<usize>(ls, p) {
            Err(e) => Err(e),
            Ok((nx, q)) => match sp_lv2(ls, q, d, i, nx as int, 0) {
                Err(e) => Err(e),
                Ok((rows, q2)) => prepend_one(
                    fit(rows, d.1 as nat, zeros3(d.2 as nat, d.3 as nat, d.4 as nat)),
                    sp_lv1(ls, q2, d, n, i + 1),
                ),
            },
        }
    }
}

/// A grid of the shape `d`: the number of bins, then each bin with its
/// counts; places the table leaves out hold zero.
pub open spec fn sp_fill(ls: Lines, p: int, d: Dims) -> SR<SpecGrid5> {
    match sp_take::<usize>(ls, p) {
        Err(e) => Err(e),
        Ok((n, q)) => match sp_lv1(ls, q, d, n as int, 0) {
            Err(e) => Err(e),
            Ok((rows, q2)) => Ok(
                (fit(rows, d.0 as nat, zeros4(d.1 as nat, d.2 as nat, d.3 as nat, d.4 as nat)), q2),
            ),
        },
    }
}

fn read_leaf(ls: &Vec<Vec<char>>, p: usize, ns: usize, inside: bool) -> (r: Result<
    (Vec<Float>, usize),
    ReadFailure,
>)
    requires
        p <= ls@.len(),
    ensures
        sr_view(r) == sp_leaf(ls.deep_view(), p as int, ns as nat, inside),
        ends_within(r, ls@.len() as int),
{
    if ns == 0 {
        let v: Vec<Float> = Vec::new();
        proof {
            assert(v.deep_view() =~= Seq::<Text>::empty());
        }
        return Ok((v, p));
    }
    let (v, q) = match take::<Float>(ls, p) {
        Ok(x) => x,
        Err(e) => {
            return Err(e);
        },
    };
    if !inside {
        return Err(ReadFailure::Abort);
    }
    let (rest, q2) = match takes::<Float>(ls, q, ns - 1) {
        Ok(x) => x,
        Err(e) => {
            return Err(e);
        },
    };
    let ghost vv = v.deep_view();
    let ghost rv = rest.deep_view();
    let mut out: Vec<Float> = Vec::new();
    out.push(v);
    let mut rest = rest;
    let mut tail: Vec<Float> = Vec::new();
    // Move the rest after the first value, keeping the order.
    while rest.len() > 0
        invariant
            rest@.len() + tail@.len() == rv.len(),
            forall|k: int| 0 <= k < rest@.len() ==> #[trigger] rest@[k].deep_view() == rv[k],
            forall|k: int|
                0 <= k < tail@.len() ==> #[trigger] tail@[k].deep_view() == rv[rv.len() - 1 - k],
        decreases rest@.len(),
    {
        let x = rest.pop().unwrap();
        tail.push(x);
    }
    while tail.len() > 0
        invariant
            out@.len() + tail@.len() == rv.len() + 1,
            out@.len() >= 1,
            out@[0].deep_view() == vv,
            forall|k: int| 1 <= k < out@.len() ==> #[trigger] out@[k].deep_view() == rv[k - 1],
            forall|k: int|
                0 <= k < tail@.len() ==> #[trigger] tail@[k].deep_view() == rv[rv.len() - 1 - k],
        decreases tail@.len(),
    {
        let x = tail.pop().unwrap();
        out.push(x);
    }
    proof {
        assert(out.deep_view() =~= seq![vv] + rv);
    }
    Ok((out, q2))
}

fn read_lv4(
    ls: &Vec<Vec<char>>,
    p: usize,
    d: Dims,
    i: usize,
    j: usize,
    k: usize,
    s2: usize,
) -> (r: Result<(Vec<Vec<Float>>, usize), ReadFailure>)
    requires
        p <= ls@.len(),
    ensures
        sr_view(r) == sp_lv4(ls.deep_view(), p as int, d, i as int, j as int, k as int, s2 as int, 0),
        ends_within(r, ls@.len() as int),
{
    let ghost lsv = ls.deep_view();
    let mut out: Vec<Vec<Float>> = Vec::new();
    let mut q = p;
    let mut l: usize = 0;
    while l < s2
        invariant
            lsv == ls.deep_view(),
            q <= ls@.len(),
            l <= s2,
            sp_lv4(lsv, p as int, d, i as int, j as int, k as int, s2 as int, 0) == prepend_sr(
                out.deep_view(),
                sp_lv4(lsv, q as int, d, i as int, j as int, k as int, s2 as int, l as int),
            ),
        decreases s2 - l,
    {
        let ins = i < d.0 && j < d.1 && k < d.2 && l < d.3;
        let (row, q1) = match read_leaf(ls, q, d.4, ins) {
            Ok(x) => x,
            Err(e) => {
                return Err(e);
            },
        };
        let ghost old_out = out.deep_view();
        let ghost rv = row.deep_view();
        out.push(row);
        proof {
            assert(out.deep_view() =~= old_out + seq![rv]);
            let rest = sp_lv4(lsv, q1 as int, d, i as int, j as int, k as int, s2 as int, l + 1);
            if rest is Ok {
                assert(old_out + (seq![rv] + rest->Ok_0.0) == old_out + seq![rv] + rest->Ok_0.0);
            }
        }
        q = q1;
        l = l + 1;
    }
    proof {
        assert(out.deep_view() + Seq::<Seq<Text>>::empty() == out.deep_view());
    }
    Ok((out, q))
}

fn read_lv3(ls: &Vec<Vec<char>>, p: usize, d: Dims, i: usize, j: usize, s1: usize) -> (r: Result<
    (Vec<Vec<Vec<Float>>>, usize),
    ReadFailure,
>)
    requires
        p <= ls@.len(),
    ensures
        sr_view(r) == sp_lv3(ls.deep_view(), p as int, d, i as int, j as int, s1 as int, 0),
        ends_within(r, ls@.len() as int),
{
    let ghost lsv = ls.deep_view();
    let mut out: Vec<Vec<Vec<Float>>> = Vec::new();
    let mut q = p;
    let mut k: usize = 0;
    while k < s1
        invariant
            lsv == ls.deep_view(),
            q <= ls@.len(),
            k <= s1,
            sp_lv3(lsv, p as int, d, i as int, j as int, s1 as int, 0) == prepend_sr(
                out.deep_view(),
                sp_lv3(lsv, q as int, d, i as int, j as int, s1 as int, k as int),
            ),
        decreases s1 - k,
    {
        let (s2, q1) = match take::<usize>(ls, q) {
            Ok(x) => x,
            Err(e) => {
                return Err(e);
            },
        };
        let (rows, q2) = match read_lv4(ls, q1, d, i, j, k, s2) {
            Ok(x) => x,
            Err(e) => {
                return Err(e);
            },
        };
        let rows = fit_rows1(rows, d.3, d.4);
        let ghost old_out = out.deep_view();
        let ghost rv = rows.deep_view();
        out.push(rows);
        proof {
            assert(out.deep_view() =~= old_out + seq![rv]);
            let rest = sp_lv3(lsv, q2 as int, d, i as int, j as int, s1 as int, k + 1);
            if rest is Ok {
                assert(old_out + (seq![rv] + rest->Ok_0.0) == old_out + seq![rv] + rest->Ok_0.0);
            }
        }
        q = q2;
        k = k + 1;
    }
    proof {
        assert(out.deep_view() + Seq::<Seq<Seq<Text>>>::empty() == out.deep_view());
    }
    Ok((out, q))
}

fn read_lv2(ls: &Vec<Vec<char>>, p: usize, d: Dims, i: usize, nx: usize) -> (r: Result<
    (Vec<Vec<Vec<Vec<Float>>>>, usize),
    ReadFailure,
>)
    requires
        p <= ls@.len(),
    ensures
        sr_view(r) == sp_lv2(ls.deep_view(), p as int, d, i as int, nx as int, 0),
        ends_within(r, ls@.len() as int),
{
    let ghost lsv = ls.deep_view();
    let mut out: Vec<Vec<Vec<Vec<Float>>>> = Vec::new();
    let mut q = p;
    let mut j: usize = 0;
    while j < nx
        invariant
            lsv == ls.deep_view(),
            q <= ls@.len(),
            j <= nx,
            sp_lv2(lsv, p as int, d, i as int, nx as int, 0) == prepend_sr(
                out.deep_view(),
                sp_lv2(lsv, q as int, d, i as int, nx as int, j as int),
            ),
        decreases nx - j,
    {
        let (s1, q1) = match take::<usize>(ls, q) {
            Ok(x) => x,
            Err(e) => {
                return Err(e);
            },
        };
        let (rows, q2) = match read_lv3(ls, q1, d, i, j, s1) {
            Ok(x) => x,
            Err(e) => {
                return Err(e);
            },
        };
        let rows = fit_rows2(rows, d.2, d.3, d.4);
        let ghost old_out = out.deep_view();
        let ghost rv = rows.deep_view();
        out.push(rows);
        proof {
            assert(out.deep_view() =~= old_out + seq![rv]);
            let rest = sp_lv2(lsv, q2 as int, d, i as int, nx as int, j + 1);
            if rest is Ok {
                assert(old_out + (seq![rv] + rest->Ok_0.0) == old_out + seq![rv] + rest->Ok_0.0);
            }
        }
        q = q2;
        j = j + 1;
    }
    proof {
        assert(out.deep_view() + Seq::<Seq<Seq<Seq<Text>>>>::empty() == out.deep_view());
    }
    Ok((out, q))
}

fn read_lv1(ls: &Vec<Vec<char>>, p: usize, d: Dims, n: usize) -> (r: Result<(Grid5, usize), ReadFailure>)
    requires
        p <= ls@.len(),
    ensures
        sr_view(r) == sp_lv1(ls.deep_view(), p as int, d, n as int, 0),
        ends_within(r, ls@.len() as int),
{
    let ghost lsv = ls.deep_view();
    let mut out: Grid5 = Vec::new();
    let mut q = p;
    let mut i: usize = 0;
    while i < n
        invariant
            lsv == ls.deep_view(),
            q <= ls@.len(),
            i <= n,
            sp_lv1(lsv, p as int, d, n as int, 0) == prepend_sr(
                out.deep_view(),
                sp_lv1(lsv, q as int, d, n as int, i as int),
            ),
        decreases n - i,
    {
        let (nx, q1) = match take::<usize>(ls, q) {
            Ok(x) => x,
            Err(e) => {
                return Err(e);
            },
        };
        let (rows, q2) = match read_lv2(ls, q1, d, i, nx) {
            Ok(x) => x,
            Err(e) => {
                return Err(e);
            },
        };
        let rows = fit_rows3(rows, d.1, d.2, d.3, d.4);
        let ghost old_out = out.deep_view();
        let ghost rv = rows.deep_view();
        out.push(rows);
        proof {
            assert(out.deep_view() =~= old_out + seq![rv]);
            let rest = sp_lv1(lsv, q2 as int, d, n as int, i + 1);
            if rest is Ok {
                assert(old_out + (seq![rv] + rest->Ok_0.0) == old_out + seq![rv] + rest->Ok_0.0);
            }
        }
        q = q2;
        i = i + 1;
    }
    proof {
        assert(out.deep_view() + Seq::<Seq<Seq<Seq<Seq<Text>>>>>::empty() == out.deep_view());
    }
    Ok((out, q))
}

fn read_fill(ls: &Vec<Vec<char>>, p: usize, d: Dims) -> (r: Result<(Grid5, usize), ReadFailure>)
    requires
        p <= ls@.len(),
    ensures
        sr_view(r) == sp_fill(ls.deep_view(), p as int, d),
        ends_within(r, ls@.len() as int),
{
    let (n, q) = match take::<usize>(ls, p) {
        Ok(x) => x,
        Err(e) => {
            return Err(e);
        },
    };
    let (rows, q2) = match read_lv1(ls, q, d, n) {
        Ok(x) => x,
        Err(e) => {
            return Err(e);
        },
    };
    Ok((fit_rows4(rows, d.0, d.1, d.2, d.3, d.4), q2))
}

/// The scale nodes of bins `i..n`: each a count (not for the first bin) and
/// `n_sn` values.
pub open spec fn sp_scale_rows(ls: Lines, p: int, n_sn: nat, n: int, i: int) -> SR<Seq<Seq<Text>>>
    decreases n - i,
{
    if i >= n {
        Ok((seq![], p))
    } else {
        let after_count = if i != 0 {
            match sp_take::<usize>(ls, p) {
                Err(e) => Err(e),
                Ok((_, q)) => Ok(q),
            }
        } else {
            Ok(p)
        };
        match after_count {
            Err(e) => Err(e),
            Ok(q) => match sp_takes::<Float>(ls, q, n_sn) {
                Err(e) => Err(e),
                Ok((row, q2)) => prepend_one(row, sp_scale_rows(ls, q2, n_sn, n, i + 1)),
            },
        }
    }
}

/// The nodes of one scale: a count of bins (left aside), the number of nodes,
/// then the nodes of each bin.
pub open spec fn sp_scale_nodes(ls: Lines, p: int, n_bins: nat) -> SR<(usize, Seq<Seq<Text>>)> {
    match sp_take::<usize>(ls, p) {
        Err(e) => Err(e),
        Ok((_, q1)) => match sp_take::<usize>(ls, q1) {
            Err(e) => Err(e),
            Ok((n_sn, q2)) => match sp_scale_rows(ls, q2, n_sn as nat, n_bins as int, 0) {
                Err(e) => Err(e),
                Ok((rows, q3)) => Ok(((n_sn, rows), q3)),
            },
        },
    }
}

fn read_scale_nodes(ls: &Vec<Vec<char>>, p: usize, n_bins: usize) -> (r: Result<
    ((usize, Vec<Vec<Float>>), usize),
    ReadFailure,
>)
    requires
        p <= ls@.len(),
    ensures
        sr_view(r) == sp_scale_nodes(ls.deep_view(), p as int, n_bins as nat),
        ends_within(r, ls@.len() as int),
{
    let ghost lsv = ls.deep_view();
    let (_, q1) = match take::<usize>(ls, p) {
        Ok(x) => x,
        Err(e) => {
            return Err(e);
        },
    };
    let (n_sn, q2) = match take::<usize>(ls, q1) {
        Ok(x) => x,
        Err(e) => {
            return Err(e);
        },
    };
    let mut out: Vec<Vec<Float>> = Vec::new();
    let mut q = q2;
    let mut i: usize = 0;
    while i < n_bins
        invariant
            lsv == ls.deep_view(),
            q <= ls@.len(),
            i <= n_bins,
            sp_scale_nodes(lsv, p as int, n_bins as nat) == match sp_scale_rows(
                lsv,
                q2 as int,
                n_sn as nat,
                n_bins as int,
                0,
            ) {
                Err(e) => Err(e),
                Ok((rows, q3)) => Ok::<((usize, Seq<Seq<Text>>), int), SpecFailure>(((n_sn, rows), q3)),
            },
            sp_scale_rows(lsv, q2 as int, n_sn as nat, n_bins as int, 0) == prepend_sr(
                out.deep_view(),
                sp_scale_rows(lsv, q as int, n_sn as nat, n_bins as int, i as int),
            ),
        decreases n_bins - i,
    {
        let mut q0 = q;
        if i != 0 {
            let (_, a) = match take::<usize>(ls, q) {
                Ok(x) => x,
                Err(e) => {
                    return Err(e);
                },
            };
            q0 = a;
        }
        let (row, q1) = match takes::<Float>(ls, q0, n_sn) {
            Ok(x) => x,
            Err(e) => {
                return Err(e);
            },
        };
        let ghost old_out = out.deep_view();
        let ghost rv = row.deep_view();
        out.push(row);
        proof {
            assert(out.deep_view() =~= old_out + seq![rv]);
            let rest = sp_scale_rows(lsv, q1 as int, n_sn as nat, n_bins as int, i + 1);
            if rest is Ok {
                assert(old_out + (seq![rv] + rest->Ok_0.0) == old_out + seq![rv] + rest->Ok_0.0);
            }
        }
        q = q1;
        i = i + 1;
    }
    proof {
        assert(out.deep_view() + Seq::<Seq<Text>>::empty() == out.deep_view());
    }
    Ok(((n_sn, out), q))
}

/// A table of reference values: a count of bins (left aside), then the
/// values of each bin and subprocess; any failure in the values stops the
/// reading.
pub open spec fn sp_sigma(ls: Lines, p: int, n_bins: nat, ns: nat) -> SR<Seq<Seq<Text>>> {
    match sp_take::<usize>(ls, p) {
        Err(e) => Err(e),
        Ok((_, q)) => sp_matrix_strict::<Float>(ls, q, n_bins, ns),
    }
}

fn read_sigma(ls: &Vec<Vec<char>>, p: usize, n_bins: usize, ns: usize) -> (r: Result<
    (Vec<Vec<Float>>, usize),
    ReadFailure,
>)
    requires
        p <= ls@.len(),
    ensures
        sr_view(r) == sp_sigma(ls.deep_view(), p as int, n_bins as nat, ns as nat),
        ends_within(r, ls@.len() as int),
{
    let (_, q) = match take::<usize>(ls, p) {
        Ok(x) => x,
        Err(e) => {
            return Err(e);
        },
    };
    take_matrix_strict::<Float>(ls, q, n_bins, ns)
}

/// A grid that the scale format provides for, or none.
pub open spec fn sp_opt_grid(ls: Lines, p: int, d: Dims, present: bool) -> SR<Option<SpecGrid5>> {
    if present {
        match sp_fill(ls, p, d) {
            Err(e) => Err(e),
            Ok((g, q)) => Ok((Some(g), q)),
        }
    } else {
        Ok((None, p))
    }
}

fn read_opt_grid(ls: &Vec<Vec<char>>, p: usize, d: Dims, present: bool) -> (r: Result<
    (Option<Grid5>, usize),
    ReadFailure,
>)
    requires
        p <= ls@.len(),
    ensures
        sr_view(r) == sp_opt_grid(ls.deep_view(), p as int, d, present),
        ends_within(r, ls@.len() as int),
{
    if present {
        match read_fill(ls, p, d) {
            Ok((g, q)) => Ok((Some(g), q)),
            Err(e) => Err(e),
        }
    } else {
        Ok((None, p))
    }
}

/// The nodes of the two scales and the largest number of x nodes.
pub open spec fn sp_flex_nodes(
    ls: Lines,
    p: int,
    n_bins: nat,
    n_pdf_dim: usize,
    x1: Seq<Seq<Text>>,
    x2: Seq<Seq<Text>>,
) -> SR<(usize, Seq<Seq<Text>>, usize, Seq<Seq<Text>>, usize)> {
    match sp_scale_nodes(ls, p, n_bins) {
        Err(e) => Err(e),
        Ok(((n1, sn1), q1)) => match sp_scale_nodes(ls, q1, n_bins) {
            Err(e) => Err(e),
            Ok(((n2, sn2), q2)) => match sp_nxmax(n_pdf_dim, x1, x2) {
                Err(e) => Err(e),
                Ok(nxm) => Ok(((n1, sn1, n2, sn2, nxm), q2)),
            },
        },
    }
}

/// The six grids of a flexible table, as many as the scale format provides.
pub open spec fn sp_flex_grids(ls: Lines, p: int, d: Dims, sf: usize) -> SR<
    (SpecGrid5, Option<SpecGrid5>, Option<SpecGrid5>, Option<SpecGrid5>, Option<SpecGrid5>, Option<SpecGrid5>),
> {
    match sp_fill(ls, p, d) {
        Err(e) => Err(e),
        Ok((g, q1)) => match sp_opt_grid(ls, q1, d, sf >= 5) {
            Err(e) => Err(e),
            Ok((gf, q2)) => match sp_opt_grid(ls, q2, d, sf >= 5) {
                Err(e) => Err(e),
                Ok((gr, q3)) => match sp_opt_grid(ls, q3, d, sf >= 6) {
                    Err(e) => Err(e),
                    Ok((grr, q4)) => match sp_opt_grid(ls, q4, d, sf >= 7) {
                        Err(e) => Err(e),
                        Ok((gff, q5)) => match sp_opt_grid(ls, q5, d, sf >= 7) {
                            Err(e) => Err(e),
                            Ok((grf, q6)) => Ok(((g, gf, gr, grr, gff, grf), q6)),
                        },
                    },
                },
            },
        },
    }
}

/// The grid of a scale-flexible table (scale formats 4 to 7).
#[verifier::opaque]
pub open spec fn sp_flex(
    ls: Lines,
    p: int,
    sf: usize,
    n_bins: usize,
    ns: usize,
    n_pdf_dim: usize,
    x1: Seq<Seq<Text>>,
    x2: Seq<Seq<Text>>,
) -> SR<SpecGrid> {
    match sp_flex_nodes(ls, p, n_bins as nat, n_pdf_dim, x1, x2) {
        Err(e) => Err(e),
        Ok(((n1, sn1, n2, sn2, nxm), q1)) => {
            let d: Dims = (n_bins, nxm, n1, n2, ns);
            match sp_flex_grids(ls, q1, d, sf) {
                Err(e) => Err(e),
                Ok(((g, gf, gr, grr, gff, grf), q2)) => match sp_sigma(ls, q2, n_bins as nat, ns as nat) {
                    Err(e) => Err(e),
                    Ok((m, q3)) => match sp_sigma(ls, q3, n_bins as nat, ns as nat) {
                        Err(e) => Err(e),
                        Ok((s1, q4)) => match sp_sigma(ls, q4, n_bins as nat, ns as nat) {
                            Err(e) => Err(e),
                            Ok((s2, q5)) => Ok(
                                (
                                    SpecGrid::Flex {
                                        scale_node_1: sn1,
                                        scale_node_2: sn2,
                                        grid: g,
                                        grid_f: gf,
                                        grid_r: gr,
                                        grid_rr: grr,
                                        grid_ff: gff,
                                        grid_rf: grf,
                                        sigma_ref_mixed: m,
                                        sigma_ref_s1: s1,
                                        sigma_ref_s2: s2,
                                    },
                                    q5,
                                ),
                            ),
                        },
                    },
                },
            }
        },
    }
}

fn read_flex_nodes(
    ls: &Vec<Vec<char>>,
    p: usize,
    n_bins: usize,
    n_pdf_dim: usize,
    x1: &Vec<Vec<Float>>,
    x2: &Vec<Vec<Float>>,
) -> (r: Result<((usize, Vec<Vec<Float>>, usize, Vec<Vec<Float>>, usize), usize), ReadFailure>)
    requires
        p <= ls@.len(),
    ensures
        sr_view(r) == sp_flex_nodes(
            ls.deep_view(),
            p as int,
            n_bins as nat,
            n_pdf_dim,
            x1.deep_view(),
            x2.deep_view(),
        ),
        ends_within(r, ls@.len() as int),
{
    let ((n1, sn1), q1) = match read_scale_nodes(ls, p, n_bins) {
        Ok(x) => x,
        Err(e) => {
            return Err(e);
        },
    };
    let ((n2, sn2), q2) = match read_scale_nodes(ls, q1, n_bins) {
        Ok(x) => x,
        Err(e) => {
            return Err(e);
        },
    };
    let nxm = match nxmax(n_pdf_dim, x1, x2) {
        Ok(x) => x,
        Err(e) => {
            return Err(e);
        },
    };
    Ok(((n1, sn1, n2, sn2, nxm), q2))
}

fn read_flex_grids(ls: &Vec<Vec<char>>, p: usize, d: Dims, sf: usize) -> (r: Result<
    ((Grid5, Option<Grid5>, Option<Grid5>, Option<Grid5>, Option<Grid5>, Option<Grid5>), usize),
    ReadFailure,
>)
    requires
        p <= ls@.len(),
    ensures
        sr_view(r) == sp_flex_grids(ls.deep_view(), p as int, d, sf),
        ends_within(r, ls@.len() as int),
{
    let (g, q1) = match read_fill(ls, p, d) {
        Ok(x) => x,
        Err(e) => {
            return Err(e);
        },
    };
    let (gf, q2) = match read_opt_grid(ls, q1, d, sf >= 5) {
        Ok(x) => x,
        Err(e) => {
            return Err(e);
        },
    };
    let (gr, q3) = match read_opt_grid(ls, q2, d, sf >= 5) {
        Ok(x) => x,
        Err(e) => {
            return Err(e);
        },
    };
    let (grr, q4) = match read_opt_grid(ls, q3, d, sf >= 6) {
        Ok(x) => x,
        Err(e) => {
            return Err(e);
        },
    };
    let (gff, q5) = match read_opt_grid(ls, q4, d, sf >= 7) {
        Ok(x) => x,
        Err(e) => {
            return Err(e);
        },
    };
    let (grf, q6) = match read_opt_grid(ls, q5, d, sf >= 7) {
        Ok(x) => x,
        Err(e) => {
            return Err(e);
        },
    };
    Ok(((g, gf, gr, grr, gff, grf), q6))
}

fn read_flex(
    ls: &Vec<Vec<char>>,
    p: usize,
    sf: usize,
    n_bins: usize,
    ns: usize,
    n_pdf_dim: usize,
    x1: &Vec<Vec<Float>>,
    x2: &Vec<Vec<Float>>,
) -> (r: Result<(Grid, usize), ReadFailure>)
    requires
        p <= ls@.len(),
    ensures
        sr_view(r) == sp_flex(
            ls.deep_view(),
            p as int,
            sf,
            n_bins,
            ns,
            n_pdf_dim,
            x1.deep_view(),
            x2.deep_view(),
        ),
        ends_within(r, ls@.len() as int),
{
    proof {
        reveal(sp_flex);
    }
    let ((n1, sn1, n2, sn2, nxm), q1) = match read_flex_nodes(ls, p, n_bins, n_pdf_dim, x1, x2) {
        Ok(x) => x,
        Err(e) => {
            return Err(e);
        },
    };
    let d: Dims = (n_bins, nxm, n1, n2, ns);
    let ((g, gf, gr, grr, gff, grf), q2) = match read_flex_grids(ls, q1, d, sf) {
        Ok(x) => x,
        Err(e) => {
            return Err(e);
        },
    };
    let (m, q3) = match read_sigma(ls, q2, n_bins, ns) {
        Ok(x) => x,
        Err(e) => {
            return Err(e);
        },
    };
    let (s1, q4) = match read_sigma(ls, q3, n_bins, ns) {
        Ok(x) => x,
        Err(e) => {
            return Err(e);
        },
    };
    let (s2, q5) = match read_sigma(ls, q4, n_bins, ns) {
        Ok(x) => x,
        Err(e) => {
            return Err(e);
        },
    };
    Ok(
        (
            Grid::Flex {
                scale_node_1: sn1,
                scale_node_2: sn2,
                grid: g,
                grid_f: gf,
                grid_r: gr,
                grid_rr: grr,
                grid_ff: gff,
                grid_rf: grf,
                sigma_ref_mixed: m,
                sigma_ref_s1: s1,
                sigma_ref_s2: s2,
            },
            q5,
        ),
    )
}


// ---------------------------------------------------------------------------
// Grids of fixed-scale tables
// ---------------------------------------------------------------------------

/// `n` pairs of counts: scale variations and scale nodes of each scale
/// dimension.
pub open spec fn sp_fixed_pairs(ls: Lines, p: int, n: nat) -> SR<(Seq<usize>, Seq<usize>)>
    decreases n,
{
    if n == 0 {
        Ok(((seq![], seq![]), p))
    } else {
        match sp_take::<usize>(ls, p) {
            Err(e) => Err(e),
            Ok((a, q1)) => match sp_take::<usize>(ls, q1) {
                Err(e) => Err(e),
                Ok((b, q2)) => match sp_fixed_pairs(ls, q2, (n - 1) as nat) {
                    Err(e) => Err(e),
                    Ok(((xs, ys), q3)) => Ok(((seq![a] + xs, seq![b] + ys), q3)),
                },
            },
        }
    }
}

/// The largest of the numbers, 0 for none.
pub open spec fn seq_max(s: Seq<usize>) -> nat
    decreases s.len(),
{
    if s.len() == 0 {
        0
    } else {
        let m = seq_max(s.drop_last());
        if s.last() > m {
            s.last() as nat
        } else {
            m
        }
    }
}

proof fn lemma_seq_max(s: Seq<usize>, m: usize)
    requires
        s.len() > 0,
        exists|i: int| 0 <= i < s.len() && m == s[i],
        forall|i: int| 0 <= i < s.len() ==> s[i] <= m,
    ensures
        seq_max(s) == m,
{
    lemma_seq_max_upper(s, m);
    let i = choose|i: int| 0 <= i < s.len() && m == s[i];
    lemma_seq_max_lower(s, i);
}

proof fn lemma_seq_max_upper(s: Seq<usize>, m: usize)
    requires
        forall|i: int| 0 <= i < s.len() ==> s[i] <= m,
    ensures
        seq_max(s) <= m,
    decreases s.len(),
{
    if s.len() > 0 {
        assert forall|i: int| 0 <= i < s.drop_last().len() implies s.drop_last()[i] <= m by {
            assert(s.drop_last()[i] == s[i]);
        }
        lemma_seq_max_upper(s.drop_last(), m);
    }
}

proof fn lemma_seq_max_lower(s: Seq<usize>, i: int)
    requires
        0 <= i < s.len(),
    ensures
        s[i] <= seq_max(s),
    decreases s.len(),
{
    if i < s.len() - 1 {
        assert(s.drop_last()[i] == s[i]);
        lemma_seq_max_lower(s.drop_last(), i);
    }
}

/// The scale factors of the scale dimensions `i..`, each filled up to `vmax`.
pub open spec fn sp_fac_rows(ls: Lines, p: int, var: Seq<usize>, vmax: nat, i: int) -> SR<Seq<Seq<Text>>>
    decreases var.len() - i,
{
    if i < 0 || i >= var.len() {
        Ok((seq![], p))
    } else {
        match sp_takes::<Float>(ls, p, var[i] as nat) {
            Err(e) => Err(e),
            Ok((row, q)) => prepend_one(fit(row, vmax, zero_text()), sp_fac_rows(ls, q, var, vmax, i + 1)),
        }
    }
}

/// The scale nodes of the variations `k..ck` of one scale dimension.
pub open spec fn sp_node_k(ls: Lines, p: int, ck: int, cl: nat, nmax: nat, k: int) -> SR<Seq<Seq<Text>>>
    decreases ck - k,
{
    if k >= ck {
        Ok((seq![], p))
    } else {
        match sp_takes::<Float>(ls, p, cl) {
            Err(e) => Err(e),
            Ok((row, q)) => prepend_one(fit(row, nmax, zero_text()), sp_node_k(ls, q, ck, cl, nmax, k + 1)),
        }
    }
}

/// The scale nodes of the scale dimensions `j..` of one bin.
pub open spec fn sp_node_j(
    ls: Lines,
    p: int,
    var: Seq<usize>,
    node: Seq<usize>,
    vmax: nat,
    nmax: nat,
    j: int,
) -> SR<Seq<Seq<Seq<Text>>>>
    decreases var.len() - j,
{
    if j < 0 || j >= var.len() {
        Ok((seq![], p))
    } else {
        match sp_node_k(ls, p, var[j] as int, node[j] as nat, nmax, 0) {
            Err(e) => Err(e),
            Ok((rows, q)) => prepend_one(
                fit(rows, vmax, zeros1(nmax)),
                sp_node_j(ls, q, var, node, vmax, nmax, j + 1),
            ),
        }
    }
}

/// The scale nodes of the bins `i..n`.
pub open spec fn sp_node_i(
    ls: Lines,
    p: int,
    n: int,
    var: Seq<usize>,
    node: Seq<usize>,
    vmax: nat,
    nmax: nat,
    i: int,
) -> SR<Seq<Seq<Seq<Seq<Text>>>>>
    decreases n - i,
{
    if i >= n {
        Ok((seq![], p))
    } else {
        match sp_node_j(ls, p, var, node, vmax, nmax, 0) {
            Err(e) => Err(e),
            Ok((rows, q)) => prepend_one(rows, sp_node_i(ls, q, n, var, node, vmax, nmax, i + 1)),
        }
    }
}

/// The x nodes `m..nxv` of one place of a fixed grid, each with the values
/// of the subprocesses.
pub open spec fn sp_fg_m(ls: Lines, p: int, nxv: int, ns: nat, m: int) -> SR<Seq<Seq<Text>>>
    decreases nxv - m,
{
    if m >= nxv {
        Ok((seq![], p))
    } else {
        match sp_takes::<Float>(ls, p, ns) {
            Err(e) => Err(e),
            Ok((row, q)) => prepend_one(row, sp_fg_m(ls, q, nxv, ns, m + 1)),
        }
    }
}

pub open spec fn sp_fg_l(ls: Lines, p: int, cl: int, nxv: int, nxmax: nat, ns: nat, l: int) -> SR<
    Seq<Seq<Seq<Text>>>,
>
    decreases cl - l,
{
    if l >= cl {
        Ok((seq![], p))
    } else {
        match sp_fg_m(ls, p, nxv, ns, 0) {
            Err(e) => Err(e),
            Ok((rows, q)) => prepend_one(
                fit(rows, nxmax, zeros1(ns)),
                sp_fg_l(ls, q, cl, nxv, nxmax, ns, l + 1),
            ),
        }
    }
}

pub open spec fn sp_fg_k(
    ls: Lines,
    p: int,
    ck: int,
    cl: int,
    nmax: nat,
    nxv: int,
    nxmax: nat,
    ns: nat,
    k: int,
) -> SR<Seq<Seq<Seq<Seq<Text>>>>>
    decreases ck - k,
{
    if k >= ck {
        Ok((seq![], p))
    } else {
        match sp_fg_l(ls, p, cl, nxv, nxmax, ns, 0) {
            Err(e) => Err(e),
            Ok((rows, q)) => prepend_one(
                fit(rows, nmax, zeros2(nxmax, ns)),
                sp_fg_k(ls, q, ck, cl, nmax, nxv, nxmax, ns, k + 1),
            ),
        }
    }
}

pub open spec fn sp_fg_j(
    ls: Lines,
    p: int,
    var: Seq<usize>,
    node: Seq<usize>,
    vmax: nat,
    nmax: nat,
    nxv: int,
    nxmax: nat,
    ns: nat,
    j: int,
) -> SR<Seq<Seq<Seq<Seq<Seq<Text>>>>>>
    decreases var.len() - j,
{
    if j < 0 || j >= var.len() {
        Ok((seq![], p))
    } else {
        match sp_fg_k(ls, p, var[j] as int, node[j] as int, nmax, nxv, nxmax, ns, 0) {
            Err(e) => Err(e),
            Ok((rows, q)) => prepend_one(
                fit(rows, vmax, zeros3(nmax, nxmax, ns)),
                sp_fg_j(ls, q, var, node, vmax, nmax, nxv, nxmax, ns, j + 1),
            ),
        }
    }
}

pub open spec fn sp_fg_i(
    ls: Lines,
    p: int,
    n: int,
    var: Seq<usize>,
    node: Seq<usize>,
    vmax: nat,
    nmax: nat,
    nxvs: Seq<usize>,
    nxmax: nat,
    ns: nat,
    i: int,
) -> SR<SpecGrid6>
    decreases n - i,
{
    if i >= n {
        Ok((seq![], p))
    } else {
        match sp_fg_j(ls, p, var, node, vmax, nmax, nxvs[i] as int, nxmax, ns, 0) {
            Err(e) => Err(e),
            Ok((rows, q)) => prepend_one(rows, sp_fg_i(ls, q, n, var, node, vmax, nmax, nxvs, nxmax, ns, i + 1)),
        }
    }
}

/// The numbers of x nodes of the bins.
pub open spec fn nx_list(n_pdf_dim: usize, x1: Seq<Seq<Text>>, x2: Seq<Seq<Text>>) -> Seq<usize> {
    Seq::new(nx_bins(n_pdf_dim, x1, x2) as nat, |i: int| nx_of(n_pdf_dim, x1, x2, i) as usize)
}

/// The grid of a fixed-scale table (scale format 0): counts of each scale
/// dimension, scale factors, scale nodes and values, each filled up to the
/// largest count with zeros; no scale dimension stops the reading.
#[verifier::opaque]
pub open spec fn sp_fixed(
    ls: Lines,
    p: int,
    n_bins: usize,
    n_sd: usize,
    ns: usize,
    n_pdf_dim: usize,
    x1: Seq<Seq<Text>>,
    x2: Seq<Seq<Text>>,
) -> SR<SpecGrid> {
    match sp_fixed_pairs(ls, p, n_sd as nat) {
        Err(e) => Err(e),
        Ok(((var, node), q1)) => if n_sd == 0 {
            Err(SpecFailure::Abort)
        } else {
            let vmax = seq_max(var);
            match sp_fac_rows(ls, q1, var, vmax, 0) {
                Err(e) => Err(e),
                Ok((fac, q2)) => {
                    let nmax = seq_max(node);
                    match sp_node_i(ls, q2, n_bins as int, var, node, vmax, nmax, 0) {
                        Err(e) => Err(e),
                        Ok((snode, q3)) => match sp_nxmax(n_pdf_dim, x1, x2) {
                            Err(e) => Err(e),
                            Ok(nxmax) => match sp_fg_i(
                                ls,
                                q3,
                                n_bins as int,
                                var,
                                node,
                                vmax,
                                nmax,
                                nx_list(n_pdf_dim, x1, x2),
                                nxmax as nat,
                                ns as nat,
                                0,
                            ) {
                                Err(e) => Err(e),
                                Ok((g, q4)) => Ok(
                                    (
                                        SpecGrid::Fixed {
                                            n_scale_var: var,
                                            n_scale_node: node,
                                            scale_fac: fac,
                                            scale_node: snode,
                                            grid: g,
                                        },
                                        q4,
                                    ),
                                ),
                            },
                        },
                    }
                },
            }
        },
    }
}

fn read_fixed_pairs(ls: &Vec<Vec<char>>, p: usize, n: usize) -> (r: Result<
    ((Vec<usize>, Vec<usize>), usize),
    ReadFailure,
>)
    requires
        p <= ls@.len(),
    ensures
        sr_view(r) == sp_fixed_pairs(ls.deep_view(), p as int, n as nat),
        ends_within(r, ls@.len() as int),
        r matches Ok(((a, b), _)) ==> a@.len() == n && b@.len() == n,
{
    let ghost l = ls.deep_view();
    let mut xs: Vec<usize> = Vec::new();
    let mut ys: Vec<usize> = Vec::new();
    let mut q = p;
    let mut i: usize = 0;
    while i < n
        invariant
            l == ls.deep_view(),
            q <= ls@.len(),
            i <= n,
            xs@.len() == i,
            ys@.len() == i,
            sp_fixed_pairs(l, p as int, n as nat) == match sp_fixed_pairs(l, q as int, (n - i) as nat) {
                Err(e) => Err(e),
                Ok(((a, b), q2)) => Ok(((xs.deep_view() + a, ys.deep_view() + b), q2)),
            },
        decreases n - i,
    {
        let (a, q1) = match take::<usize>(ls, q) {
            Ok(x) => x,
            Err(e) => {
                return Err(e);
            },
        };
        let (b, q2) = match take::<usize>(ls, q1) {
            Ok(x) => x,
            Err(e) => {
                return Err(e);
            },
        };
        let ghost ox = xs.deep_view();
        let ghost oy = ys.deep_view();
        xs.push(a);
        ys.push(b);
        proof {
            assert(xs.deep_view() =~= ox + seq![a]);
            assert(ys.deep_view() =~= oy + seq![b]);
            let rest = sp_fixed_pairs(l, q2 as int, (n - i - 1) as nat);
            if rest is Ok {
                let ((ra, rb), _) = rest->Ok_0;
                assert(ox + (seq![a] + ra) == ox + seq![a] + ra);
                assert(oy + (seq![b] + rb) == oy + seq![b] + rb);
            }
        }
        q = q2;
        i = i + 1;
    }
    proof {
        assert(xs.deep_view() + Seq::<usize>::empty() == xs.deep_view());
        assert(ys.deep_view() + Seq::<usize>::empty() == ys.deep_view());
    }
    Ok(((xs, ys), q))
}

fn read_fac_rows(ls: &Vec<Vec<char>>, p: usize, var: &Vec<usize>, vmax: usize) -> (r: Result<(Vec<Vec<Float>>, usize), ReadFailure>)
    requires
        p <= ls@.len(),
    ensures
        sr_view(r) == sp_fac_rows(ls.deep_view(), p as int, var@, vmax as nat, 0),
        ends_within(r, ls@.len() as int),
{
    let ghost lsv = ls.deep_view();
    let mut out: Vec<Vec<Float>> = Vec::new();
    let mut q = p;
    let mut i: usize = 0;
    while i < var.len()
        invariant
            lsv == ls.deep_view(),
            q <= ls@.len(),
            i <= var@.len(),

            sp_fac_rows(lsv, p as int, var@, vmax as nat, 0) == prepend_sr(
                out.deep_view(),
                sp_fac_rows(lsv, q as int, var@, vmax as nat, i as int),
            ),
        decreases var@.len() - i,
    {
        let (row, q1) = match takes::<Float>(ls, q, var[i]) {
            Ok(x) => x,
            Err(e) => {
                return Err(e);
            },
        };
        let item = fit_floats(row, vmax);
        let ghost old_out = out.deep_view();
        let ghost rv = item.deep_view();
        out.push(item);
        proof {
            assert(out.deep_view() =~= old_out + seq![rv]);
            let rest = sp_fac_rows(lsv, q1 as int, var@, vmax as nat, i + 1);
            if rest is Ok {
                assert(old_out + (seq![rv] + rest->Ok_0.0) == old_out + seq![rv] + rest->Ok_0.0);
            }
        }
        q = q1;
        i = i + 1;
    }
    proof {
        assert(out.deep_view() + Seq::<Seq<Text>>::empty() == out.deep_view());
    }
    Ok((out, q))
}

fn read_node_k(ls: &Vec<Vec<char>>, p: usize, ck: usize, cl: usize, nmax: usize) -> (r: Result<(Vec<Vec<Float>>, usize), ReadFailure>)
    requires
        p <= ls@.len(),
    ensures
        sr_view(r) == sp_node_k(ls.deep_view(), p as int, ck as int, cl as nat, nmax as nat, 0),
        ends_within(r, ls@.len() as int),
{
    let ghost lsv = ls.deep_view();
    let mut out: Vec<Vec<Float>> = Vec::new();
    let mut q = p;
    let mut i: usize = 0;
    while i < ck
        invariant
            lsv == ls.deep_view(),
            q <= ls@.len(),
            i <= ck,

            sp_node_k(lsv, p as int, ck as int, cl as nat, nmax as nat, 0) == prepend_sr(
                out.deep_view(),
                sp_node_k(lsv, q as int, ck as int, cl as nat, nmax as nat, i as int),
            ),
        decreases ck - i,
    {
        let (row, q1) = match takes::<Float>(ls, q, cl) {
            Ok(x) => x,
            Err(e) => {
                return Err(e);
            },
        };
        let item = fit_floats(row, nmax);
        let ghost old_out = out.deep_view();
        let ghost rv = item.deep_view();
        out.push(item);
        proof {
            assert(out.deep_view() =~= old_out + seq![rv]);
            let rest = sp_node_k(lsv, q1 as int, ck as int, cl as nat, nmax as nat, i + 1);
            if rest is Ok {
                assert(old_out + (seq![rv] + rest->Ok_0.0) == old_out + seq![rv] + rest->Ok_0.0);
            }
        }
        q = q1;
        i = i + 1;
    }
    proof {
        assert(out.deep_view() + Seq::<Seq<Text>>::empty() == out.deep_view());
    }
    Ok((out, q))
}

fn read_node_j(ls: &Vec<Vec<char>>, p: usize, var: &Vec<usize>, node: &Vec<usize>, vmax: usize, nmax: usize) -> (r: Result<(Vec<Vec<Vec<Float>>>, usize), ReadFailure>)
    requires
        p <= ls@.len(),
        var@.len() == node@.len(),
    ensures
        sr_view(r) == sp_node_j(ls.deep_view(), p as int, var@, node@, vmax as nat, nmax as nat, 0),
        ends_within(r, ls@.len() as int),
{
    let ghost lsv = ls.deep_view();
    let mut out: Vec<Vec<Vec<Float>>> = Vec::new();
    let mut q = p;
    let mut i: usize = 0;
    while i < var.len()
        invariant
            lsv == ls.deep_view(),
            q <= ls@.len(),
            i <= var@.len(),
            var@.len() == node@.len(),
            sp_node_j(lsv, p as int, var@, node@, vmax as nat, nmax as nat, 0) == prepend_sr(
                out.deep_view(),
                sp_node_j(lsv, q as int, var@, node@, vmax as nat, nmax as nat, i as int),
            ),
        decreases var@.len() - i,
    {
        let (rows, q1) = match read_node_k(ls, q, var[i], node[i], nmax) {
            Ok(x) => x,
            Err(e) => {
                return Err(e);
            },
        };
        let item = fit_rows1(rows, vmax, nmax);
        let ghost old_out = out.deep_view();
        let ghost rv = item.deep_view();
        out.push(item);
        proof {
            assert(out.deep_view() =~= old_out + seq![rv]);
            let rest = sp_node_j(lsv, q1 as int, var@, node@, vmax as nat, nmax as nat, i + 1);
            if rest is Ok {
                assert(old_out + (seq![rv] + rest->Ok_0.0) == old_out + seq![rv] + rest->Ok_0.0);
            }
        }
        q = q1;
        i = i + 1;
    }
    proof {
        assert(out.deep_view() + Seq::<Seq<Seq<Text>>>::empty() == out.deep_view());
    }
    Ok((out, q))
}

fn read_node_i(ls: &Vec<Vec<char>>, p: usize, n: usize, var: &Vec<usize>, node: &Vec<usize>, vmax: usize, nmax: usize) -> (r: Result<(Vec<Vec<Vec<Vec<Float>>>>, usize), ReadFailure>)
    requires
        p <= ls@.len(),
        var@.len() == node@.len(),
    ensures
        sr_view(r) == sp_node_i(ls.deep_view(), p as int, n as int, var@, node@, vmax as nat, nmax as nat, 0),
        ends_within(r, ls@.len() as int),
{
    let ghost lsv = ls.deep_view();
    let mut out: Vec<Vec<Vec<Vec<Float>>>> = Vec::new();
    let mut q = p;
    let mut i: usize = 0;
    while i < n
        invariant
            lsv == ls.deep_view(),
            q <= ls@.len(),
            i <= n,
            var@.len() == node@.len(),
            sp_node_i(lsv, p as int, n as int, var@, node@, vmax as nat, nmax as nat, 0) == prepend_sr(
                out.deep_view(),
                sp_node_i(lsv, q as int, n as int, var@, node@, vmax as nat, nmax as nat, i as int),
            ),
        decreases n - i,
    {
        let (item, q1) = match read_node_j(ls, q, var, node, vmax, nmax) {
            Ok(x) => x,
            Err(e) => {
                return Err(e);
            },
        };
        let ghost old_out = out.deep_view();
        let ghost rv = item.deep_view();
        out.push(item);
        proof {
            assert(out.deep_view() =~= old_out + seq![rv]);
            let rest = sp_node_i(lsv, q1 as int, n as int, var@, node@, vmax as nat, nmax as nat, i + 1);
            if rest is Ok {
                assert(old_out + (seq![rv] + rest->Ok_0.0) == old_out + seq![rv] + rest->Ok_0.0);
            }
        }
        q = q1;
        i = i + 1;
    }
    proof {
        assert(out.deep_view() + Seq::<Seq<Seq<Seq<Text>>>>::empty() == out.deep_view());
    }
    Ok((out, q))
}

fn read_fg_m(ls: &Vec<Vec<char>>, p: usize, nxv: usize, ns: usize) -> (r: Result<(Vec<Vec<Float>>, usize), ReadFailure>)
    requires
        p <= ls@.len(),
    ensures
        sr_view(r) == sp_fg_m(ls.deep_view(), p as int, nxv as int, ns as nat, 0),
        ends_within(r, ls@.len() as int),
{
    let ghost lsv = ls.deep_view();
    let mut out: Vec<Vec<Float>> = Vec::new();
    let mut q = p;
    let mut i: usize = 0;
    while i < nxv
        invariant
            lsv == ls.deep_view(),
            q <= ls@.len(),
            i <= nxv,

            sp_fg_m(lsv, p as int, nxv as int, ns as nat, 0) == prepend_sr(
                out.deep_view(),
                sp_fg_m(lsv, q as int, nxv as int, ns as nat, i as int),
            ),
        decreases nxv - i,
    {
        let (item, q1) = match takes::<Float>(ls, q, ns) {
            Ok(x) => x,
            Err(e) => {
                return Err(e);
            },
        };
        let ghost old_out = out.deep_view();
        let ghost rv = item.deep_view();
        out.push(item);
        proof {
            assert(out.deep_view() =~= old_out + seq![rv]);
            let rest = sp_fg_m(lsv, q1 as int, nxv as int, ns as nat, i + 1);
            if rest is Ok {
                assert(old_out + (seq![rv] + rest->Ok_0.0) == old_out + seq![rv] + rest->Ok_0.0);
            }
        }
        q = q1;
        i = i + 1;
    }
    proof {
        assert(out.deep_view() + Seq::<Seq<Text>>::empty() == out.deep_view());
    }
    Ok((out, q))
}

fn read_fg_l(ls: &Vec<Vec<char>>, p: usize, cl: usize, nxv: usize, nxmax: usize, ns: usize) -> (r: Result<(Vec<Vec<Vec<Float>>>, usize), ReadFailure>)
    requires
        p <= ls@.len(),
    ensures
        sr_view(r) == sp_fg_l(ls.deep_view(), p as int, cl as int, nxv as int, nxmax as nat, ns as nat, 0),
        ends_within(r, ls@.len() as int),
{
    let ghost lsv = ls.deep_view();
    let mut out: Vec<Vec<Vec<Float>>> = Vec::new();
    let mut q = p;
    let mut i: usize = 0;
    while i < cl
        invariant
            lsv == ls.deep_view(),
            q <= ls@.len(),
            i <= cl,

            sp_fg_l(lsv, p as int, cl as int, nxv as int, nxmax as nat, ns as nat, 0) == prepend_sr(
                out.deep_view(),
                sp_fg_l(lsv, q as int, cl as int, nxv as int, nxmax as nat, ns as nat, i as int),
            ),
        decreases cl - i,
    {
        let (rows, q1) = match read_fg_m(ls, q, nxv, ns) {
            Ok(x) => x,
            Err(e) => {
                return Err(e);
            },
        };
        let item = fit_rows1(rows, nxmax, ns);
        let ghost old_out = out.deep_view();
        let ghost rv = item.deep_view();
        out.push(item);
        proof {
            assert(out.deep_view() =~= old_out + seq![rv]);
            let rest = sp_fg_l(lsv, q1 as int, cl as int, nxv as int, nxmax as nat, ns as nat, i + 1);
            if rest is Ok {
                assert(old_out + (seq![rv] + rest->Ok_0.0) == old_out + seq![rv] + rest->Ok_0.0);
            }
        }
        q = q1;
        i = i + 1;
    }
    proof {
        assert(out.deep_view() + Seq::<Seq<Seq<Text>>>::empty() == out.deep_view());
    }
    Ok((out, q))
}

fn read_fg_k(ls: &Vec<Vec<char>>, p: usize, ck: usize, cl: usize, nmax: usize, nxv: usize, nxmax: usize, ns: usize) -> (r: Result<(Vec<Vec<Vec<Vec<Float>>>>, usize), ReadFailure>)
    requires
        p <= ls@.len(),
    ensures
        sr_view(r) == sp_fg_k(ls.deep_view(), p as int, ck as int, cl as int, nmax as nat, nxv as int, nxmax as nat, ns as nat, 0),
        ends_within(r, ls@.len() as int),
{
    let ghost lsv = ls.deep_view();
    let mut out: Vec<Vec<Vec<Vec<Float>>>> = Vec::new();
    let mut q = p;
    let mut i: usize = 0;
    while i < ck
        invariant
            lsv == ls.deep_view(),
            q <= ls@.len(),
            i <= ck,

            sp_fg_k(lsv, p as int, ck as int, cl as int, nmax as nat, nxv as int, nxmax as nat, ns as nat, 0) == prepend_sr(
                out.deep_view(),
                sp_fg_k(lsv, q as int, ck as int, cl as int, nmax as nat, nxv as int, nxmax as nat, ns as nat, i as int),
            ),
        decreases ck - i,
    {
        let (rows, q1) = match read_fg_l(ls, q, cl, nxv, nxmax, ns) {
            Ok(x) => x,
            Err(e) => {
                return Err(e);
            },
        };
        let item = fit_rows2(rows, nmax, nxmax, ns);
        let ghost old_out = out.deep_view();
        let ghost rv = item.deep_view();
        out.push(item);
        proof {
            assert(out.deep_view() =~= old_out + seq![rv]);
            let rest = sp_fg_k(lsv, q1 as int, ck as int, cl as int, nmax as nat, nxv as int, nxmax as nat, ns as nat, i + 1);
            if rest is Ok {
                assert(old_out + (seq![rv] + rest->Ok_0.0) == old_out + seq![rv] + rest->Ok_0.0);
            }
        }
        q = q1;
        i = i + 1;
    }
    proof {
        assert(out.deep_view() + Seq::<Seq<Seq<Seq<Text>>>>::empty() == out.deep_view());
    }
    Ok((out, q))
}

fn read_fg_j(ls: &Vec<Vec<char>>, p: usize, var: &Vec<usize>, node: &Vec<usize>, vmax: usize, nmax: usize, nxv: usize, nxmax: usize, ns: usize) -> (r: Result<(Vec<Vec<Vec<Vec<Vec<Float>>>>>, usize), ReadFailure>)
    requires
        p <= ls@.len(),
        var@.len() == node@.len(),
    ensures
        sr_view(r) == sp_fg_j(ls.deep_view(), p as int, var@, node@, vmax as nat, nmax as nat, nxv as int, nxmax as nat, ns as nat, 0),
        ends_within(r, ls@.len() as int),
{
    let ghost lsv = ls.deep_view();
    let mut out: Vec<Vec<Vec<Vec<Vec<Float>>>>> = Vec::new();
    let mut q = p;
    let mut i: usize = 0;
    while i < var.len()
        invariant
            lsv == ls.deep_view(),
            q <= ls@.len(),
            i <= var@.len(),
            var@.len() == node@.len(),
            sp_fg_j(lsv, p as int, var@, node@, vmax as nat, nmax as nat, nxv as int, nxmax as nat, ns as nat, 0) == prepend_sr(
                out.deep_view(),
                sp_fg_j(lsv, q as int, var@, node@, vmax as nat, nmax as nat, nxv as int, nxmax as nat, ns as nat, i as int),
            ),
        decreases var@.len() - i,
    {
        let (rows, q1) = match read_fg_k(ls, q, var[i], node[i], nmax, nxv, nxmax, ns) {
            Ok(x) => x,
            Err(e) => {
                return Err(e);
            },
        };
        let item = fit_rows3(rows, vmax, nmax, nxmax, ns);
        let ghost old_out = out.deep_view();
        let ghost rv = item.deep_view();
        out.push(item);
        proof {
            assert(out.deep_view() =~= old_out + seq![rv]);
            let rest = sp_fg_j(lsv, q1 as int, var@, node@, vmax as nat, nmax as nat, nxv as int, nxmax as nat, ns as nat, i + 1);
            if rest is Ok {
                assert(old_out + (seq![rv] + rest->Ok_0.0) == old_out + seq![rv] + rest->Ok_0.0);
            }
        }
        q = q1;
        i = i + 1;
    }
    proof {
        assert(out.deep_view() + Seq::<Seq<Seq<Seq<Seq<Text>>>>>::empty() == out.deep_view());
    }
    Ok((out, q))
}

fn read_fg_i(ls: &Vec<Vec<char>>, p: usize, n: usize, var: &Vec<usize>, node: &Vec<usize>, vmax: usize, nmax: usize, nxvs: &Vec<usize>, nxmax: usize, ns: usize) -> (r: Result<(Vec<Vec<Vec<Vec<Vec<Vec<Float>>>>>>, usize), ReadFailure>)
    requires
        p <= ls@.len(),
        var@.len() == node@.len(),
        nxvs@.len() >= n,
    ensures
        sr_view(r) == sp_fg_i(ls.deep_view(), p as int, n as int, var@, node@, vmax as nat, nmax as nat, nxvs@, nxmax as nat, ns as nat, 0),
        ends_within(r, ls@.len() as int),
{
    let ghost lsv = ls.deep_view();
    let mut out: Vec<Vec<Vec<Vec<Vec<Vec<Float>>>>>> = Vec::new();
    let mut q = p;
    let mut i: usize = 0;
    while i < n
        invariant
            lsv == ls.deep_view(),
            q <= ls@.len(),
            i <= n,
            var@.len() == node@.len(),
            nxvs@.len() >= n,
            sp_fg_i(lsv, p as int, n as int, var@, node@, vmax as nat, nmax as nat, nxvs@, nxmax as nat, ns as nat, 0) == prepend_sr(
                out.deep_view(),
                sp_fg_i(lsv, q as int, n as int, var@, node@, vmax as nat, nmax as nat, nxvs@, nxmax as nat, ns as nat, i as int),
            ),
        decreases n - i,
    {
        let (item, q1) = match read_fg_j(ls, q, var, node, vmax, nmax, nxvs[i], nxmax, ns) {
            Ok(x) => x,
            Err(e) => {
                return Err(e);
            },
        };
        let ghost old_out = out.deep_view();
        let ghost rv = item.deep_view();
        out.push(item);
        proof {
            assert(out.deep_view() =~= old_out + seq![rv]);
            let rest = sp_fg_i(lsv, q1 as int, n as int, var@, node@, vmax as nat, nmax as nat, nxvs@, nxmax as nat, ns as nat, i + 1);
            if rest is Ok {
                assert(old_out + (seq![rv] + rest->Ok_0.0) == old_out + seq![rv] + rest->Ok_0.0);
            }
        }
        q = q1;
        i = i + 1;
    }
    proof {
        assert(out.deep_view() + Seq::<Seq<Seq<Seq<Seq<Seq<Text>>>>>>::empty() == out.deep_view());
    }
    Ok((out, q))
}

fn read_fixed(
    ls: &Vec<Vec<char>>,
    p: usize,
    n_bins: usize,
    n_sd: usize,
    ns: usize,
    n_pdf_dim: usize,
    x1: &Vec<Vec<Float>>,
    x2: &Vec<Vec<Float>>,
) -> (r: Result<(Grid, usize), ReadFailure>)
    requires
        p <= ls@.len(),
        x1@.len() == n_bins,
        n_pdf_dim == 2 ==> x2@.len() == n_bins,
    ensures
        sr_view(r) == sp_fixed(
            ls.deep_view(),
            p as int,
            n_bins,
            n_sd,
            ns,
            n_pdf_dim,
            x1.deep_view(),
            x2.deep_view(),
        ),
        ends_within(r, ls@.len() as int),
{
    proof {
        reveal(sp_fixed);
    }
    let ((var, node), q1) = match read_fixed_pairs(ls, p, n_sd) {
        Ok(x) => x,
        Err(e) => {
            return Err(e);
        },
    };
    proof {
        assert(var.deep_view() =~= var@);
        assert(node.deep_view() =~= node@);
    }
    if n_sd == 0 {
        return Err(ReadFailure::Abort);
    }
    let vmax = max_of(&var);
    proof {
        lemma_seq_max(var@, vmax);
    }
    let (fac, q2) = match read_fac_rows(ls, q1, &var, vmax) {
        Ok(x) => x,
        Err(e) => {
            return Err(e);
        },
    };
    let nmax = max_of(&node);
    proof {
        lemma_seq_max(node@, nmax);
    }
    let (snode, q3) = match read_node_i(ls, q2, n_bins, &var, &node, vmax, nmax) {
        Ok(x) => x,
        Err(e) => {
            return Err(e);
        },
    };
    let nxm = match nxmax(n_pdf_dim, x1, x2) {
        Ok(x) => x,
        Err(e) => {
            return Err(e);
        },
    };
    let counts = match nx_counts(n_pdf_dim, x1, x2) {
        Some(c) => c,
        None => {
            return Err(ReadFailure::Abort);
        },
    };
    proof {
        assert(counts@ =~= nx_list(n_pdf_dim, x1.deep_view(), x2.deep_view()));
    }
    let (g, q4) = match read_fg_i(ls, q3, n_bins, &var, &node, vmax, nmax, &counts, nxm, ns) {
        Ok(x) => x,
        Err(e) => {
            return Err(e);
        },
    };
    Ok(
        (
            Grid::Fixed { n_scale_var: var, n_scale_node: node, scale_fac: fac, scale_node: snode, grid: g },
            q4,
        ),
    )
}


// ---------------------------------------------------------------------------
// Theory blocks
// ---------------------------------------------------------------------------

/// The head of a theory block: reference flag, scale dependence, number of
/// events, weight information (when the number is negative), power of the
/// coupling and partons.
pub open spec fn sp_theory_head(ls: Lines, p: int) -> SR<
    (bool, usize, isize, Option<SpecWeightInfo>, usize, SpecPDFInfo),
> {
    match sp_take::<usize>(ls, p) {
        Err(e) => Err(e),
        Ok((rf, q1)) => match sp_take::<usize>(ls, q1) {
            Err(e) => Err(e),
            Ok((isd, q2)) => match sp_take::<isize>(ls, q2) {
                Err(e) => Err(e),
                Ok((n_events, q3)) => {
                    let wi = if n_events < 0 {
                        match sp_weight_info(ls, q3, n_events) {
                            Err(e) => Err(e),
                            Ok((w, q)) => Ok((Some(w), q)),
                        }
                    } else {
                        Ok((None, q3))
                    };
                    match wi {
                        Err(e) => Err(e),
                        Ok((w, q4)) => match sp_take::<usize>(ls, q4) {
                            Err(e) => Err(e),
                            Ok((alphas_power, q5)) => match sp_pdf_info(ls, q5) {
                                Err(e) => Err(e),
                                Ok((pdf, q6)) => Ok(((rf == 1, isd, n_events, w, alphas_power, pdf), q6)),
                            },
                        },
                    }
                },
            },
        },
    }
}

fn read_theory_head(ls: &Vec<Vec<char>>, p: usize) -> (r: Result<
    ((bool, usize, isize, Option<WeightInfo>, usize, PDFInfo), usize),
    ReadFailure,
>)
    requires
        p <= ls@.len(),
    ensures
        sr_view(r) == sp_theory_head(ls.deep_view(), p as int),
        ends_within(r, ls@.len() as int),
{
    let (rf, q1) = match take::<usize>(ls, p) {
        Ok(x) => x,
        Err(e) => {
            return Err(e);
        },
    };
    let (isd, q2) = match take::<usize>(ls, q1) {
        Ok(x) => x,
        Err(e) => {
            return Err(e);
        },
    };
    let (n_events, q3) = match take::<isize>(ls, q2) {
        Ok(x) => x,
        Err(e) => {
            return Err(e);
        },
    };
    let (w, q4) = if n_events < 0 {
        match read_weight_info(ls, q3, n_events) {
            Ok((w, q)) => (Some(w), q),
            Err(e) => {
                return Err(e);
            },
        }
    } else {
        (None, q3)
    };
    let (alphas_power, q5) = match take::<usize>(ls, q4) {
        Ok(x) => x,
        Err(e) => {
            return Err(e);
        },
    };
    let (pdf, q6) = match read_pdf_info(ls, q5) {
        Ok(x) => x,
        Err(e) => {
            return Err(e);
        },
    };
    Ok(((rf == 1, isd, n_events, w, alphas_power, pdf), q6))
}

/// The nodes of a theory block: x₁ (and x₂, z when the partons ask for them),
/// then the scale dimensions and their descriptions; a table without a
/// definition of its parton densities stops the reading.
pub open spec fn sp_theory_nodes(ls: Lines, p: int, n_bins: usize, pdf: SpecPDFInfo) -> SR<
    (Seq<Seq<Text>>, Seq<Seq<Text>>, Seq<Seq<Text>>, Seq<usize>, Seq<Seq<Text>>, usize),
> {
    if pdf.pdf_flag_1 == 0 {
        Err(SpecFailure::Abort)
    } else {
        match sp_nested::<Float>(ls, p, n_bins as nat) {
            Err(e) => Err(e),
            Ok((x1, q1)) => {
                let x2r = if pdf.n_pdf_dim == 2 {
                    sp_nested::<Float>(ls, q1, n_bins as nat)
                } else {
                    Ok((seq![], q1))
                };
                match x2r {
                    Err(e) => Err(e),
                    Ok((x2, q2)) => {
                        let zr = if pdf.n_ff_dim > 0 {
                            sp_nested::<Float>(ls, q2, n_bins as nat)
                        } else {
                            Ok((seq![], q2))
                        };
                        match zr {
                            Err(e) => Err(e),
                            Ok((z, q3)) => match sp_take::<usize>(ls, q3) {
                                Err(e) => Err(e),
                                Ok((n_scales, q4)) => match sp_take::<usize>(ls, q4) {
                                    Err(e) => Err(e),
                                    Ok((n_sd, q5)) => match sp_take_multiple::<usize>(ls, q5, n_scales as nat) {
                                        Err(e) => Err(e),
                                        Ok((sdim, q6)) => match sp_nested::<String>(ls, q6, n_sd as nat) {
                                            Err(e) => Err(e),
                                            Ok((sdesc, q7)) => Ok(((x1, x2, z, sdim, sdesc, n_sd), q7)),
                                        },
                                    },
                                },
                            },
                        }
                    },
                }
            },
        }
    }
}

proof fn lemma_nested_len<T: crate::values::LineValue>(ls: Lines, p: int, n: nat)
    ensures
        sp_nested::<T>(ls, p, n) matches Ok((rows, _)) ==> rows.len() == n,
    decreases n,
{
    if n > 0 {
        match sp_take::<usize>(ls, p) {
            Err(_) => {},
            Ok((m, q)) => match sp_take_multiple::<T>(ls, q, m as nat) {
                Err(_) => {},
                Ok((_, q2)) => {
                    lemma_nested_len::<T>(ls, q2, (n - 1) as nat);
                },
            },
        }
    }
}

fn read_theory_nodes(ls: &Vec<Vec<char>>, p: usize, n_bins: usize, pdf: &PDFInfo) -> (r: Result<
    ((Vec<Vec<Float>>, Vec<Vec<Float>>, Vec<Vec<Float>>, Vec<usize>, Vec<Vec<String>>, usize), usize),
    ReadFailure,
>)
    requires
        p <= ls@.len(),
    ensures
        sr_view(r) == sp_theory_nodes(ls.deep_view(), p as int, n_bins, pdf.deep_view()),
        ends_within(r, ls@.len() as int),
        r matches Ok(((x1, x2, _, _, _, _), _)) ==> x1@.len() == n_bins && (pdf.n_pdf_dim == 2
            ==> x2@.len() == n_bins),
{
    if pdf.pdf_flag_1 == 0 {
        return Err(ReadFailure::Abort);
    }
    let (x1, q1) = match take_nested_vec::<Float>(ls, p, n_bins) {
        Ok(x) => x,
        Err(e) => {
            return Err(e);
        },
    };
    proof {
        lemma_nested_len::<Float>(ls.deep_view(), p as int, n_bins as nat);
    }
    let (x2, q2) = if pdf.n_pdf_dim == 2 {
        let r = match take_nested_vec::<Float>(ls, q1, n_bins) {
            Ok(x) => x,
            Err(e) => {
                return Err(e);
            },
        };
        proof {
            lemma_nested_len::<Float>(ls.deep_view(), q1 as int, n_bins as nat);
        }
        r
    } else {
        let v: Vec<Vec<Float>> = Vec::new();
        proof {
            assert(v.deep_view() =~= Seq::<Seq<Text>>::empty());
        }
        (v, q1)
    };
    let (z, q3) = if pdf.n_ff_dim > 0 {
        match take_nested_vec::<Float>(ls, q2, n_bins) {
            Ok(x) => x,
            Err(e) => {
                return Err(e);
            },
        }
    } else {
        let v: Vec<Vec<Float>> = Vec::new();
        proof {
            assert(v.deep_view() =~= Seq::<Seq<Text>>::empty());
        }
        (v, q2)
    };
    let (n_scales, q4) = match take::<usize>(ls, q3) {
        Ok(x) => x,
        Err(e) => {
            return Err(e);
        },
    };
    let (n_sd, q5) = match take::<usize>(ls, q4) {
        Ok(x) => x,
        Err(e) => {
            return Err(e);
        },
    };
    let (sdim, q6) = match take_multiple::<usize>(ls, q5, n_scales) {
        Ok(x) => x,
        Err(e) => {
            return Err(e);
        },
    };
    let (sdesc, q7) = match take_nested_vec::<String>(ls, q6, n_sd) {
        Ok(x) => x,
        Err(e) => {
            return Err(e);
        },
    };
    Ok(((x1, x2, z, sdim, sdesc, n_sd), q7))
}

/// The grid of a theory block, by its scale format: 0 for a fixed grid, 4
/// to 7 for a flexible one; other formats stop the reading.
pub open spec fn sp_grid(
    ls: Lines,
    p: int,
    sf: usize,
    n_bins: usize,
    n_sd: usize,
    ns: usize,
    n_pdf_dim: usize,
    x1: Seq<Seq<Text>>,
    x2: Seq<Seq<Text>>,
) -> SR<SpecGrid> {
    if sf == 0 {
        sp_fixed(ls, p, n_bins, n_sd, ns, n_pdf_dim, x1, x2)
    } else if 4 <= sf <= 7 {
        sp_flex(ls, p, sf, n_bins, ns, n_pdf_dim, x1, x2)
    } else {
        Err(SpecFailure::Abort)
    }
}

/// A theory block.
pub open spec fn sp_theory(ls: Lines, p: int, n_bins: usize, sf: usize) -> SR<SpecBlockData> {
    match sp_theory_head(ls, p) {
        Err(e) => Err(e),
        Ok(((rf, isd, n_events, wi, alphas_power, pdf), q1)) => match sp_theory_nodes(
            ls,
            q1,
            n_bins,
            pdf,
        ) {
            Err(e) => Err(e),
            Ok(((x1, x2, z, sdim, sdesc, n_sd), q2)) => match sp_grid(
                ls,
                q2,
                sf,
                n_bins,
                n_sd,
                pdf.n_subproc,
                pdf.n_pdf_dim,
                x1,
                x2,
            ) {
                Err(e) => Err(e),
                Ok((grid, q3)) => Ok(
                    (
                        SpecBlockData::TheoryBlock {
                            reference_table: rf,
                            i_scale_dependence: isd,
                            n_events,
                            weight_info: wi,
                            alphas_power,
                            pdf_info: pdf,
                            x1_nodes: x1,
                            x2_nodes: x2,
                            z_nodes: z,
                            scale_dimension: sdim,
                            scale_description: sdesc,
                            grid,
                        },
                        q3,
                    ),
                ),
            },
        },
    }
}

fn read_theory(ls: &Vec<Vec<char>>, p: usize, n_bins: usize, sf: usize) -> (r: Result<
    (BlockData, usize),
    ReadFailure,
>)
    requires
        p <= ls@.len(),
    ensures
        sr_view(r) == sp_theory(ls.deep_view(), p as int, n_bins, sf),
        ends_within(r, ls@.len() as int),
{
    let ((rf, isd, n_events, wi, alphas_power, pdf), q1) = match read_theory_head(ls, p) {
        Ok(x) => x,
        Err(e) => {
            return Err(e);
        },
    };
    let ((x1, x2, z, sdim, sdesc, n_sd), q2) = match read_theory_nodes(ls, q1, n_bins, &pdf) {
        Ok(x) => x,
        Err(e) => {
            return Err(e);
        },
    };
    let (grid, q3) = if sf == 0 {
        match read_fixed(ls, q2, n_bins, n_sd, pdf.n_subproc, pdf.n_pdf_dim, &x1, &x2) {
            Ok(x) => x,
            Err(e) => {
                return Err(e);
            },
        }
    } else if 4 <= sf && sf <= 7 {
        match read_flex(ls, q2, sf, n_bins, pdf.n_subproc, pdf.n_pdf_dim, &x1, &x2) {
            Ok(x) => x,
            Err(e) => {
                return Err(e);
            },
        }
    } else {
        return Err(ReadFailure::Abort);
    };
    Ok(
        (
            BlockData::TheoryBlock {
                reference_table: rf,
                i_scale_dependence: isd,
                n_events,
                weight_info: wi,
                alphas_power,
                pdf_info: pdf,
                x1_nodes: x1,
                x2_nodes: x2,
                z_nodes: z,
                scale_dimension: sdim,
                scale_description: sdesc,
                grid,
            },
            q3,
        ),
    )
}

// ---------------------------------------------------------------------------
// Blocks
// ---------------------------------------------------------------------------

/// The head of a contribution block.
pub open spec fn sp_block_head(ls: Lines, p: int) -> SR<
    (usize, bool, bool, usize, usize, usize, Seq<Text>, Seq<Text>),
> {
    match sp_sep(ls, p) {
        Err(e) => Err(e),
        Ok(p0) => match sp_take::<usize>(ls, p0) {
            Err(e) => Err(e),
            Ok((unit, p1)) => match sp_take::<usize>(ls, p1) {
                Err(e) => Err(e),
                Ok((db, p2)) => match sp_take::<usize>(ls, p2) {
                    Err(e) => Err(e),
                    Ok((mb, p3)) => match sp_take::<usize>(ls, p3) {
                        Err(e) => Err(e),
                        Ok((ct, p4)) => match sp_take::<usize>(ls, p4) {
                            Err(e) => Err(e),
                            Ok((co, p5)) => match sp_take::<usize>(ls, p5) {
                                Err(e) => Err(e),
                                Ok((sf, p6)) => match sp_take_counted::<String>(ls, p6) {
                                    Err(e) => Err(e),
                                    Ok((desc, p7)) => match sp_take_counted::<String>(ls, p7) {
                                        Err(e) => Err(e),
                                        Ok((code, p8)) => Ok(
                                            ((unit, db == 1, mb == 1, ct, co, sf, desc, code), p8),
                                        ),
                                    },
                                },
                            },
                        },
                    },
                },
            },
        },
    }
}

fn read_block_head(ls: &Vec<Vec<char>>, p: usize) -> (r: Result<
    ((usize, bool, bool, usize, usize, usize, Vec<String>, Vec<String>), usize),
    ReadFailure,
>)
    ensures
        sr_view(r) == sp_block_head(ls.deep_view(), p as int),
        ends_within(r, ls@.len() as int),
{
    let p0 = match expect_sep(ls, p) {
        Ok(x) => x,
        Err(e) => {
            return Err(e);
        },
    };
    let (unit, p1) = match take::<usize>(ls, p0) {
        Ok(x) => x,
        Err(e) => {
            return Err(e);
        },
    };
    let (db, p2) = match take::<usize>(ls, p1) {
        Ok(x) => x,
        Err(e) => {
            return Err(e);
        },
    };
    let (mb, p3) = match take::<usize>(ls, p2) {
        Ok(x) => x,
        Err(e) => {
            return Err(e);
        },
    };
    let (ct, p4) = match take::<usize>(ls, p3) {
        Ok(x) => x,
        Err(e) => {
            return Err(e);
        },
    };
    let (co, p5) = match take::<usize>(ls, p4) {
        Ok(x) => x,
        Err(e) => {
            return Err(e);
        },
    };
    let (sf, p6) = match take::<usize>(ls, p5) {
        Ok(x) => x,
        Err(e) => {
            return Err(e);
        },
    };
    let (desc, p7) = match take_counted::<String>(ls, p6) {
        Ok(x) => x,
        Err(e) => {
            return Err(e);
        },
    };
    let (code, p8) = match take_counted::<String>(ls, p7) {
        Ok(x) => x,
        Err(e) => {
            return Err(e);
        },
    };
    Ok(((unit, db == 1, mb == 1, ct, co, sf, desc, code), p8))
}

/// One coefficient information block: two flags, a description, a content.
pub open spec fn sp_coeff_items(ls: Lines, p: int, n: nat) -> SR<
    (Seq<usize>, Seq<usize>, Seq<Seq<Text>>, Seq<Seq<Text>>),
>
    decreases n,
{
    if n == 0 {
        Ok(((seq![], seq![], seq![], seq![]), p))
    } else {
        match sp_take::<usize>(ls, p) {
            Err(e) => Err(e),
            Ok((f1, q1)) => match sp_take::<usize>(ls, q1) {
                Err(e) => Err(e),
                Ok((f2, q2)) => match sp_take_counted::<String>(ls, q2) {
                    Err(e) => Err(e),
                    Ok((d, q3)) => match sp_take_counted::<Float>(ls, q3) {
                        Err(e) => Err(e),
                        Ok((c, q4)) => match sp_coeff_items(ls, q4, (n - 1) as nat) {
                            Err(e) => Err(e),
                            Ok(((a, b, ds, cs), q5)) => Ok(
                                ((seq![f1] + a, seq![f2] + b, seq![d] + ds, seq![c] + cs), q5),
                            ),
                        },
                    },
                },
            },
        }
    }
}

/// The coefficient information of a block, which tables from version 25000
/// on hold.
pub open spec fn sp_coeff(ls: Lines, p: int, version: usize) -> SR<
    (Seq<usize>, Seq<usize>, Seq<Seq<Text>>, Seq<Seq<Text>>),
> {
    if version >= 25000 {
        match sp_take::<usize>(ls, p) {
            Err(e) => Err(e),
            Ok((n, q)) => sp_coeff_items(ls, q, n as nat),
        }
    } else {
        Ok(((seq![], seq![], seq![], seq![]), p))
    }
}

fn read_coeff(ls: &Vec<Vec<char>>, p: usize, version: usize) -> (r: Result<
    ((Vec<usize>, Vec<usize>, Vec<Vec<String>>, Vec<Vec<Float>>), usize),
    ReadFailure,
>)
    requires
        p <= ls@.len(),
    ensures
        sr_view(r) == sp_coeff(ls.deep_view(), p as int, version),
        ends_within(r, ls@.len() as int),
{
    let ghost l = ls.deep_view();
    let mut a: Vec<usize> = Vec::new();
    let mut b: Vec<usize> = Vec::new();
    let mut ds: Vec<Vec<String>> = Vec::new();
    let mut cs: Vec<Vec<Float>> = Vec::new();
    if version < 25000 {
        proof {
            assert(a.deep_view() =~= Seq::<usize>::empty());
            assert(b.deep_view() =~= Seq::<usize>::empty());
            assert(ds.deep_view() =~= Seq::<Seq<Text>>::empty());
            assert(cs.deep_view() =~= Seq::<Seq<Text>>::empty());
        }
        return Ok(((a, b, ds, cs), p));
    }
    let (n, q0) = match take::<usize>(ls, p) {
        Ok(x) => x,
        Err(e) => {
            return Err(e);
        },
    };
    let mut q = q0;
    let mut i: usize = 0;
    while i < n
        invariant
            l == ls.deep_view(),
            version >= 25000,
            q <= ls@.len(),
            i <= n,
            sp_coeff(l, p as int, version) == sp_coeff_items(l, q0 as int, n as nat),
            sp_coeff_items(l, q0 as int, n as nat) == match sp_coeff_items(l, q as int, (n - i) as nat) {
                Err(e) => Err(e),
                Ok(((ra, rb, rd, rc), q2)) => Ok(
                    (
                        (
                            a.deep_view() + ra,
                            b.deep_view() + rb,
                            ds.deep_view() + rd,
                            cs.deep_view() + rc,
                        ),
                        q2,
                    ),
                ),
            },
        decreases n - i,
    {
        let (f1, q1) = match take::<usize>(ls, q) {
            Ok(x) => x,
            Err(e) => {
                return Err(e);
            },
        };
        let (f2, q2) = match take::<usize>(ls, q1) {
            Ok(x) => x,
            Err(e) => {
                return Err(e);
            },
        };
        let (d, q3) = match take_counted::<String>(ls, q2) {
            Ok(x) => x,
            Err(e) => {
                return Err(e);
            },
        };
        let (c, q4) = match take_counted::<Float>(ls, q3) {
            Ok(x) => x,
            Err(e) => {
                return Err(e);
            },
        };
        let ghost oa = a.deep_view();
        let ghost ob = b.deep_view();
        let ghost od = ds.deep_view();
        let ghost oc = cs.deep_view();
        let ghost dv = d.deep_view();
        let ghost cv = c.deep_view();
        a.push(f1);
        b.push(f2);
        ds.push(d);
        cs.push(c);
        proof {
            assert(a.deep_view() =~= oa + seq![f1]);
            assert(b.deep_view() =~= ob + seq![f2]);
            assert(ds.deep_view() =~= od + seq![dv]);
            assert(cs.deep_view() =~= oc + seq![cv]);
            let rest = sp_coeff_items(l, q4 as int, (n - i - 1) as nat);
            if rest is Ok {
                let ((ra, rb, rd, rc), _) = rest->Ok_0;
                assert(oa + (seq![f1] + ra) == oa + seq![f1] + ra);
                assert(ob + (seq![f2] + rb) == ob + seq![f2] + rb);
                assert(od + (seq![dv] + rd) == od + seq![dv] + rd);
                assert(oc + (seq![cv] + rc) == oc + seq![cv] + rc);
            }
        }
        q = q4;
        i = i + 1;
    }
    proof {
        assert(a.deep_view() + Seq::<usize>::empty() == a.deep_view());
        assert(b.deep_view() + Seq::<usize>::empty() == b.deep_view());
        assert(ds.deep_view() + Seq::<Seq<Text>>::empty() == ds.deep_view());
        assert(cs.deep_view() + Seq::<Seq<Text>>::empty() == cs.deep_view());
    }
    Ok(((a, b, ds, cs), q))
}

/// A contribution block: its head, its data (a data, multiplicative or
/// theory block, by its flags) and its coefficient information.
#[verifier::opaque]
pub open spec fn sp_block(ls: Lines, p: int, version: usize, n_bins: usize) -> SR<SpecBlock> {
    match sp_block_head(ls, p) {
        Err(e) => Err(e),
        Ok(((unit, db, mb, ct, co, sf, desc, code), q1)) => {
            let data = if db {
                sp_data_block(ls, q1, n_bins as nat, true)
            } else if mb {
                sp_data_block(ls, q1, n_bins as nat, false)
            } else {
                sp_theory(ls, q1, n_bins, sf)
            };
            match data {
                Err(e) => Err(e),
                Ok((d, q2)) => match sp_coeff(ls, q2, version) {
                    Err(e) => Err(e),
                    Ok(((f1, f2, cd, cc), q3)) => Ok(
                        (
                            SpecBlock {
                                unit,
                                data_block: db,
                                mult_block: mb,
                                contribution_type: ct,
                                contribution_order: co,
                                scale_format: sf,
                                description: desc,
                                code_description: code,
                                data: d,
                                coeff_info_flags_1: f1,
                                coeff_info_flags_2: f2,
                                coeff_block_description: cd,
                                coeff_block_content: cc,
                            },
                            q3,
                        ),
                    ),
                },
            }
        },
    }
}

fn read_block(ls: &Vec<Vec<char>>, p: usize, version: usize, n_bins: usize) -> (r: Result<
    (Block, usize),
    ReadFailure,
>)
    ensures
        sr_view(r) == sp_block(ls.deep_view(), p as int, version, n_bins),
        ends_within(r, ls@.len() as int),
{
    proof {
        reveal(sp_block);
    }
    let ((unit, db, mb, ct, co, sf, desc, code), q1) = match read_block_head(ls, p) {
        Ok(x) => x,
        Err(e) => {
            return Err(e);
        },
    };
    let (d, q2) = if db {
        match read_data_block(ls, q1, n_bins, true) {
            Ok(x) => x,
            Err(e) => {
                return Err(e);
            },
        }
    } else if mb {
        match read_data_block(ls, q1, n_bins, false) {
            Ok(x) => x,
            Err(e) => {
                return Err(e);
            },
        }
    } else {
        match read_theory(ls, q1, n_bins, sf) {
            Ok(x) => x,
            Err(e) => {
                return Err(e);
            },
        }
    };
    let ((f1, f2, cd, cc), q3) = match read_coeff(ls, q2, version) {
        Ok(x) => x,
        Err(e) => {
            return Err(e);
        },
    };
    Ok(
        (
            Block {
                unit,
                data_block: db,
                mult_block: mb,
                contribution_type: ct,
                contribution_order: co,
                scale_format: sf,
                description: desc,
                code_description: code,
                data: d,
                coeff_info_flags_1: f1,
                coeff_info_flags_2: f2,
                coeff_block_description: cd,
                coeff_block_content: cc,
            },
            q3,
        ),
    )
}

/// The blocks `i..n`.
pub open spec fn sp_blocks(ls: Lines, p: int, version: usize, n_bins: usize, n: int, i: int) -> SR<
    Seq<SpecBlock>,
>
    decreases n - i,
{
    if i >= n {
        Ok((seq![], p))
    } else {
        match sp_block(ls, p, version, n_bins) {
            Err(e) => Err(e),
            Ok((b, q)) => prepend_one(b, sp_blocks(ls, q, version, n_bins, n, i + 1)),
        }
    }
}

fn read_blocks(ls: &Vec<Vec<char>>, p: usize, version: usize, n_bins: usize, n: usize) -> (r: Result<(Vec<Block>, usize), ReadFailure>)
    requires
        p <= ls@.len(),
    ensures
        sr_view(r) == sp_blocks(ls.deep_view(), p as int, version, n_bins, n as int, 0),
        ends_within(r, ls@.len() as int),
{
    let ghost lsv = ls.deep_view();
    let mut out: Vec<Block> = Vec::new();
    let mut q = p;
    let mut i: usize = 0;
    while i < n
        invariant
            lsv == ls.deep_view(),
            q <= ls@.len(),
            i <= n,

            sp_blocks(lsv, p as int, version, n_bins, n as int, 0) == prepend_sr(
                out.deep_view(),
                sp_blocks(lsv, q as int, version, n_bins, n as int, i as int),
            ),
        decreases n - i,
    {
        let (item, q1) = match read_block(ls, q, version, n_bins) {
            Ok(x) => x,
            Err(e) => {
                return Err(e);
            },
        };
        let ghost old_out = out.deep_view();
        let ghost rv = item.deep_view();
        out.push(item);
        proof {
            assert(out.deep_view() =~= old_out + seq![rv]);
            let rest = sp_blocks(lsv, q1 as int, version, n_bins, n as int, i + 1);
            if rest is Ok {
                assert(old_out + (seq![rv] + rest->Ok_0.0) == old_out + seq![rv] + rest->Ok_0.0);
            }
        }
        q = q1;
        i = i + 1;
    }
    proof {
        assert(out.deep_view() + Seq::<SpecBlock>::empty() == out.deep_view());
    }
    Ok((out, q))
}

/// A whole table: the head, the physics metadata, the binning, the
/// normalisation, as many blocks as the head counts, and two separators.
pub open spec fn sp_read(ls: Lines) -> Result<SpecFile, SpecFailure> {
    match sp_head(ls, 0) {
        Err(e) => Err(e),
        Ok((h, p1)) => match sp_physics(ls, p1) {
            Err(e) => Err(e),
            Ok(((unit, desc, cms, ord), p2)) => match sp_bin_info(ls, p2) {
                Err(e) => Err(e),
                Ok((bi, p3)) => match sp_norm(ls, p3, bi.diff_bin.len()) {
                    Err(e) => Err(e),
                    Ok(p4) => if h.n_contrib + h.n_data > usize::MAX {
                        Err(SpecFailure::Abort)
                    } else {
                        match sp_blocks(
                            ls,
                            p4,
                            h.table_version,
                            bi.bins.len() as usize,
                            h.n_contrib + h.n_data,
                            0,
                        ) {
                            Err(e) => Err(e),
                            Ok((blocks, p5)) => match sp_sep(ls, p5) {
                                Err(e) => Err(e),
                                Ok(p6) => match sp_sep(ls, p6) {
                                    Err(e) => Err(e),
                                    Ok(_) => Ok(
                                        SpecFile {
                                            metadata: SpecMetadata {
                                                table_version: h.table_version,
                                                scenario_name: h.scenario_name,
                                                n_contrib: h.n_contrib,
                                                n_mult: h.n_mult,
                                                n_data: h.n_data,
                                                n_user: h.n_user,
                                                unit,
                                                description: desc,
                                                cms_energy: cms,
                                                alphas_ord: ord,
                                            },
                                            bin_info: bi,
                                            blocks,
                                        },
                                    ),
                                },
                            },
                        }
                    },
                },
            },
        },
    }
}

pub open spec fn file_view(r: Result<FastNLOFile, ReadFailure>) -> Result<SpecFile, SpecFailure> {
    match r {
        Ok(t) => Ok(t.deep_view()),
        Err(f) => Err(f@),
    }
}

/// Reads a table from its lines.
pub fn read_lines(ls: &Vec<Vec<char>>) -> (r: Result<FastNLOFile, ReadFailure>)
    ensures
        file_view(r) == sp_read(ls.deep_view()),
{
    let (h, p1) = match read_head(ls, 0) {
        Ok(x) => x,
        Err(e) => {
            return Err(e);
        },
    };
    let ((unit, desc, cms, ord), p2) = match read_physics(ls, p1) {
        Ok(x) => x,
        Err(e) => {
            return Err(e);
        },
    };
    let (bi, p3) = match read_bin_info(ls, p2) {
        Ok(x) => x,
        Err(e) => {
            return Err(e);
        },
    };
    let p4 = match read_norm(ls, p3, bi.diff_bin.len()) {
        Ok(x) => x,
        Err(e) => {
            return Err(e);
        },
    };
    let n_blocks = match h.n_contrib.checked_add(h.n_data) {
        Some(x) => x,
        None => {
            return Err(ReadFailure::Abort);
        },
    };
    let (blocks, p5) = match read_blocks(ls, p4, h.table_version, bi.bins.len(), n_blocks) {
        Ok(x) => x,
        Err(e) => {
            return Err(e);
        },
    };
    let p6 = match expect_sep(ls, p5) {
        Ok(x) => x,
        Err(e) => {
            return Err(e);
        },
    };
    match expect_sep(ls, p6) {
        Ok(_) => {},
        Err(e) => {
            return Err(e);
        },
    }
    Ok(
        FastNLOFile {
            metadata: Metadata {
                table_version: h.table_version,
                scenario_name: h.scenario_name,
                n_contrib: h.n_contrib,
                n_mult: h.n_mult,
                n_data: h.n_data,
                n_user: h.n_user,
                unit,
                description: desc,
                cms_energy: cms,
                alphas_ord: ord,
            },
            bin_info: bi,
            blocks,
        },
    )
}


/// What reading a text gives.
pub open spec fn spec_read_str(content: Seq<char>) -> Result<SpecFile, SpecFailure> {
    sp_read(split_lines(content))
}

/// The texts on which reading stops without an answer.
pub open spec fn read_aborts(content: Seq<char>) -> bool {
    spec_read_str(content) matches Err(SpecFailure::Abort)
}

impl FastNLOFile {
    /// Reads a table from its text; says whether the text is one the format
    /// does not provide for at all.
    pub fn try_read_str(content: &str) -> (r: Result<FastNLOFile, ReadFailure>)
        ensures
            file_view(r) == spec_read_str(content@),
    {
        let chars = str_chars(content);
        let lines = split_lines_exec(&chars);
        read_lines(&lines)
    }

    /// Reads a table from its text.
    pub fn read_str(content: &str) -> (r: Result<FastNLOFile, ReadError>)
        requires
            !read_aborts(content@),
        ensures
            match r {
                Ok(t) => spec_read_str(content@) == Ok::<SpecFile, SpecFailure>(t.deep_view()),
                Err(e) => spec_read_str(content@) == Err::<SpecFile, SpecFailure>(SpecFailure::Error(e@)),
            },
    {
        match Self::try_read_str(content) {
            Ok(t) => Ok(t),
            Err(ReadFailure::Error(e)) => Err(e),
            Err(ReadFailure::Abort) => {
                proof {
                    assert(false);
                }
                Err(ReadError::ParseBoolError)
            },
        }
    }
}

} // verus!
