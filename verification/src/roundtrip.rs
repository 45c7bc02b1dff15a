//! Reading what was written.
//!
//! Each lemma here states that reading a part of a table from lines that
//! hold, at the reading position, the lines that writing that part gives,
//! gives the part back and moves past those lines.

use vstd::prelude::*;

use crate::error::SpecFailure;
use crate::values::{
    sp_items, sp_matrix_strict, sp_nested, sp_nested_counted, sp_take, sp_take_counted,
    sp_take_multiple, sp_takes, LineValue, Lines, SR,
};
use crate::reader::{
    spec_read_str, sp_blocks, sp_read, sp_sep, sp_block, sp_block_head, sp_coeff_items, sp_theory, sp_theory_head, sp_theory_nodes, fit, sp_fill, sp_flex, sp_nxmax, sp_opt_grid, sp_scale_nodes, sp_scale_rows, sp_sigma, sp_leaf, sp_lv1, sp_lv2, sp_lv3, sp_lv4, zeros1, zeros2, zeros3, zeros4, Dims,
    sp_data_block, sp_data_head, sp_flavor_pairs, sp_flavors, sp_pdf_info, sp_weight_info, sp_pairs, sp_rows, SpecColumns, separator, skip_to_sep, sp_bin_info, sp_bin_positions, sp_bin_values, sp_head, sp_physics, zip_bins,
    SpecHead,
};
use crate::table::{
    Float, SpecBinInfo, SpecBinPosition, SpecBlock, SpecBlockData, SpecFile, SpecGrid, SpecGrid5, SpecMetadata, SpecPDFInfo,
    SpecWeightInfo, Text,
};
use crate::text::{is_line_safe, join_lines};
use crate::writer::{
    concat, count_line, ser_bin, ser_bins, ser_flat, ser_iter, ser_metadata, ser_nested, ser_position,
    ser_rows, ser_slice, ser_pairs, ser_data_row, ser_data, ser_data_rows, ser_weight_info,
    ser_flavor_pair, ser_flavors, ser_pdf_info, ser_g2, ser_g3, ser_g4, ser_grid5, ser_grid,
    ser_opt_grid, ser_theory, flag_line, ser_block, ser_coeff_item, counted, ser_file, block_writable,
    file_writable, has_pairs,
};

verus! {

/// The lines `l` stand in `ls` from position `p` on.
pub open spec fn at(ls: Lines, p: int, l: Lines) -> bool {
    &&& 0 <= p
    &&& p + l.len() <= ls.len()
    &&& ls.subrange(p, p + l.len()) == l
}

pub proof fn lemma_at_split(ls: Lines, p: int, a: Lines, b: Lines)
    requires
        at(ls, p, a + b),
    ensures
        at(ls, p, a),
        at(ls, p + a.len(), b),
{
    let s = ls.subrange(p, p + (a + b).len());
    assert(ls.subrange(p, p + a.len()) =~= a) by {
        assert forall|i: int| 0 <= i < a.len() implies ls.subrange(p, p + a.len())[i] == a[i] by {
            assert(s[i] == (a + b)[i]);
        }
    }
    assert(ls.subrange(p + a.len(), p + a.len() + b.len()) =~= b) by {
        assert forall|i: int| 0 <= i < b.len() implies ls.subrange(p + a.len(), p + a.len() + b.len())[i]
            == b[i] by {
            assert(s[a.len() + i] == (a + b)[a.len() + i]);
        }
    }
}

pub proof fn lemma_at_line(ls: Lines, p: int, l: Seq<char>)
    requires
        at(ls, p, seq![l]),
    ensures
        0 <= p < ls.len(),
        ls[p] == l,
{
    assert(ls.subrange(p, p + 1)[0] == ls[p]);
}

/// The parts of a list of parts, the first one first.
pub proof fn lemma_concat_front(parts: Seq<Lines>)
    requires
        parts.len() > 0,
    ensures
        concat(parts) == parts[0] + concat(parts.drop_first()),
    decreases parts.len(),
{
    if parts.len() == 1 {
        assert(parts.drop_last() =~= Seq::<Lines>::empty());
        assert(parts.drop_first() =~= Seq::<Lines>::empty());
        assert(concat(parts.drop_last()) == Seq::<Seq<char>>::empty());
        assert(concat(parts) =~= parts[0]);
    } else {
        lemma_concat_front(parts.drop_last());
        assert(parts.drop_last().drop_first() =~= parts.drop_first().drop_last());
        assert(parts.drop_first().last() == parts.last());
        assert(parts.drop_last()[0] == parts[0]);
        assert(concat(parts) =~= parts[0] + concat(parts.drop_first()));
    }
}

pub proof fn lemma_take_rt<T: LineValue>(ls: Lines, p: int, v: T::V)
    requires
        T::writable(v),
        at(ls, p, seq![T::spec_to_line(v)]),
    ensures
        sp_take::<T>(ls, p) == Ok::<(T::V, int), SpecFailure>((v, p + 1)),
{
    lemma_at_line(ls, p, T::spec_to_line(v));
    T::lemma_line_roundtrip(v);
}

/// Every value of the list is written as a line that reads back as itself.
pub open spec fn all_writable<T: LineValue>(vs: Seq<T::V>) -> bool {
    forall|i: int| 0 <= i < vs.len() ==> #[trigger] T::writable(vs[i])
}

pub proof fn lemma_ser_iter_front<T: LineValue>(vs: Seq<T::V>)
    requires
        vs.len() > 0,
    ensures
        ser_iter::<T>(vs) == seq![T::spec_to_line(vs[0])] + ser_iter::<T>(vs.drop_first()),
{
    assert(ser_iter::<T>(vs) =~= seq![T::spec_to_line(vs[0])] + ser_iter::<T>(vs.drop_first()));
}

proof fn lemma_items_rt<T: LineValue>(ls: Lines, p: int, vs: Seq<T::V>)
    requires
        all_writable::<T>(vs),
        at(ls, p, ser_iter::<T>(vs)),
    ensures
        sp_items::<T>(ls, p, vs.len()) == Ok::<Seq<T::V>, crate::error::SpecReadError>(vs),
    decreases vs.len(),
{
    if vs.len() > 0 {
        let rest = vs.drop_first();
        lemma_ser_iter_front::<T>(vs);
        lemma_at_split(ls, p, seq![T::spec_to_line(vs[0])], ser_iter::<T>(rest));
        lemma_at_line(ls, p, T::spec_to_line(vs[0]));
        assert(T::writable(vs[0]));
        T::lemma_line_roundtrip(vs[0]);
        assert(all_writable::<T>(rest)) by {
            assert forall|i: int| 0 <= i < rest.len() implies #[trigger] T::writable(rest[i]) by {
                assert(T::writable(vs[i + 1]));
            }
        }
        lemma_items_rt::<T>(ls, p + 1, rest);
        assert(seq![vs[0]] + rest =~= vs);
    } else {
        assert(vs =~= Seq::<T::V>::empty());
    }
}

pub proof fn lemma_take_multiple_rt<T: LineValue>(ls: Lines, p: int, vs: Seq<T::V>)
    requires
        all_writable::<T>(vs),
        at(ls, p, ser_iter::<T>(vs)),
    ensures
        sp_take_multiple::<T>(ls, p, vs.len()) == Ok::<(Seq<T::V>, int), SpecFailure>((vs, p + vs.len())),
{
    lemma_items_rt::<T>(ls, p, vs);
}

pub proof fn lemma_takes_rt<T: LineValue>(ls: Lines, p: int, vs: Seq<T::V>)
    requires
        all_writable::<T>(vs),
        at(ls, p, ser_iter::<T>(vs)),
    ensures
        sp_takes::<T>(ls, p, vs.len()) == Ok::<(Seq<T::V>, int), SpecFailure>((vs, p + vs.len())),
    decreases vs.len(),
{
    if vs.len() > 0 {
        let rest = vs.drop_first();
        lemma_ser_iter_front::<T>(vs);
        lemma_at_split(ls, p, seq![T::spec_to_line(vs[0])], ser_iter::<T>(rest));
        assert(T::writable(vs[0]));
        lemma_take_rt::<T>(ls, p, vs[0]);
        assert(all_writable::<T>(rest)) by {
            assert forall|i: int| 0 <= i < rest.len() implies #[trigger] T::writable(rest[i]) by {
                assert(T::writable(vs[i + 1]));
            }
        }
        lemma_takes_rt::<T>(ls, p + 1, rest);
        assert(seq![vs[0]] + rest =~= vs);
    } else {
        assert(vs =~= Seq::<T::V>::empty());
    }
}

/// A count as `usize` reads back.
pub proof fn lemma_count_rt(ls: Lines, p: int, n: nat)
    requires
        n <= usize::MAX,
        at(ls, p, seq![crate::text::decimal(n)]),
    ensures
        sp_take::<usize>(ls, p) == Ok::<(usize, int), SpecFailure>((n as usize, p + 1)),
{
    lemma_take_rt::<usize>(ls, p, n as usize);
}

pub proof fn lemma_take_counted_rt<T: LineValue>(ls: Lines, p: int, vs: Seq<T::V>)
    requires
        all_writable::<T>(vs),
        vs.len() <= usize::MAX,
        at(ls, p, ser_slice::<T>(vs)),
    ensures
        sp_take_counted::<T>(ls, p) == Ok::<(Seq<T::V>, int), SpecFailure>((vs, p + 1 + vs.len())),
{
    lemma_at_split(ls, p, seq![crate::text::decimal(vs.len())], ser_iter::<T>(vs));
    lemma_count_rt(ls, p, vs.len());
    lemma_take_multiple_rt::<T>(ls, p + 1, vs);
}

/// Each list can be written and read back: its values, and its length as a
/// count.
pub open spec fn rows_writable<T: LineValue>(xss: Seq<Seq<T::V>>) -> bool {
    forall|i: int| 0 <= i < xss.len() ==> #[trigger] all_writable::<T>(xss[i]) && xss[i].len() <= usize::MAX
}

pub proof fn lemma_ser_rows_front<T: LineValue>(xss: Seq<Seq<T::V>>)
    requires
        xss.len() > 0,
    ensures
        ser_rows::<T>(xss) == ser_slice::<T>(xss[0]) + ser_rows::<T>(xss.drop_first()),
{
    let parts = Seq::new(xss.len(), |i: int| ser_slice::<T>(xss[i]));
    lemma_concat_front(parts);
    assert(parts.drop_first() =~= Seq::new(xss.drop_first().len(), |i: int| ser_slice::<T>(xss.drop_first()[i])));
}

pub proof fn lemma_nested_rt<T: LineValue>(ls: Lines, p: int, xss: Seq<Seq<T::V>>)
    requires
        rows_writable::<T>(xss),
        at(ls, p, ser_rows::<T>(xss)),
    ensures
        sp_nested::<T>(ls, p, xss.len()) == Ok::<(Seq<Seq<T::V>>, int), SpecFailure>(
            (xss, p + ser_rows::<T>(xss).len()),
        ),
    decreases xss.len(),
{
    if xss.len() == 0 {
        assert(ser_rows::<T>(xss) =~= Seq::<Seq<char>>::empty());
        assert(xss =~= Seq::<Seq<T::V>>::empty());
    } else {
        let rest = xss.drop_first();
        lemma_ser_rows_front::<T>(xss);
        lemma_at_split(ls, p, ser_slice::<T>(xss[0]), ser_rows::<T>(rest));
        assert(all_writable::<T>(xss[0]) && xss[0].len() <= usize::MAX);
        lemma_at_split(ls, p, seq![crate::text::decimal(xss[0].len())], ser_iter::<T>(xss[0]));
        lemma_count_rt(ls, p, xss[0].len());
        lemma_take_multiple_rt::<T>(ls, p + 1, xss[0]);
        assert(rows_writable::<T>(rest)) by {
            assert forall|i: int| 0 <= i < rest.len() implies #[trigger] all_writable::<T>(rest[i])
                && rest[i].len() <= usize::MAX by {
                assert(all_writable::<T>(xss[i + 1]));
            }
        }
        lemma_nested_rt::<T>(ls, p + ser_slice::<T>(xss[0]).len(), rest);
        assert(seq![xss[0]] + rest =~= xss);
    }
}

pub proof fn lemma_nested_counted_rt<T: LineValue>(ls: Lines, p: int, xss: Seq<Seq<T::V>>)
    requires
        rows_writable::<T>(xss),
        xss.len() <= usize::MAX,
        at(ls, p, ser_nested::<T>(xss)),
    ensures
        sp_nested_counted::<T>(ls, p) == Ok::<(Seq<Seq<T::V>>, int), SpecFailure>(
            (xss, p + ser_nested::<T>(xss).len()),
        ),
{
    lemma_at_split(ls, p, seq![crate::text::decimal(xss.len())], ser_rows::<T>(xss));
    lemma_count_rt(ls, p, xss.len());
    lemma_nested_rt::<T>(ls, p + 1, xss);
}

pub proof fn lemma_ser_flat_front<T: LineValue>(xss: Seq<Seq<T::V>>)
    requires
        xss.len() > 0,
    ensures
        ser_flat::<T>(xss) == ser_iter::<T>(xss[0]) + ser_flat::<T>(xss.drop_first()),
{
    let parts = Seq::new(xss.len(), |i: int| ser_iter::<T>(xss[i]));
    lemma_concat_front(parts);
    assert(parts.drop_first() =~= Seq::new(xss.drop_first().len(), |i: int| ser_iter::<T>(xss.drop_first()[i])));
}

/// Rows all of `cols` values, read as a matrix.
pub proof fn lemma_matrix_rt<T: LineValue>(ls: Lines, p: int, xss: Seq<Seq<T::V>>, cols: nat)
    requires
        forall|i: int| 0 <= i < xss.len() ==> #[trigger] all_writable::<T>(xss[i]) && xss[i].len() == cols,
        at(ls, p, ser_flat::<T>(xss)),
    ensures
        sp_matrix_strict::<T>(ls, p, xss.len(), cols) == Ok::<(Seq<Seq<T::V>>, int), SpecFailure>(
            (xss, p + ser_flat::<T>(xss).len()),
        ),
    decreases xss.len(),
{
    if xss.len() == 0 {
        assert(ser_flat::<T>(xss) =~= Seq::<Seq<char>>::empty());
        assert(xss =~= Seq::<Seq<T::V>>::empty());
    } else {
        let rest = xss.drop_first();
        lemma_ser_flat_front::<T>(xss);
        lemma_at_split(ls, p, ser_iter::<T>(xss[0]), ser_flat::<T>(rest));
        assert(all_writable::<T>(xss[0]) && xss[0].len() == cols);
        lemma_takes_rt::<T>(ls, p, xss[0]);
        assert forall|i: int| 0 <= i < rest.len() implies #[trigger] all_writable::<T>(rest[i]) && rest[i].len()
            == cols by {
            assert(all_writable::<T>(xss[i + 1]));
        }
        lemma_matrix_rt::<T>(ls, p + xss[0].len(), rest, cols);
        assert(seq![xss[0]] + rest =~= xss);
    }
}


pub proof fn lemma_at_index(ls: Lines, p: int, l: Lines, i: int)
    requires
        at(ls, p, l),
        0 <= i < l.len(),
    ensures
        at(ls, p + i, seq![l[i]]),
        ls[p + i] == l[i],
{
    assert(ls.subrange(p, p + l.len())[i] == ls[p + i]);
    assert(ls.subrange(p + i, p + i + 1) =~= seq![l[i]]);
}

/// The metadata can be written and read back.
pub open spec fn metadata_ok(m: SpecMetadata) -> bool {
    &&& is_line_safe(m.scenario_name)
    &&& all_writable::<String>(m.description)
    &&& m.description.len() <= usize::MAX
    &&& Float::writable(m.cms_energy)
}

pub open spec fn head_of(m: SpecMetadata) -> SpecHead {
    SpecHead {
        table_version: m.table_version,
        scenario_name: m.scenario_name,
        n_contrib: m.n_contrib,
        n_mult: m.n_mult,
        n_data: m.n_data,
        n_user: 0,
    }
}

proof fn lemma_zero_not_separator()
    ensures
        crate::writer::count_line(0) != separator(),
        crate::writer::count_line(0) == seq!['0'],
{
    assert(crate::text::decimal(0) == seq![crate::text::digit_char(0)]);
    assert(crate::text::digit_char(0) == '0');
    assert(seq!['0'].len() != separator().len());
}

/// The metadata, after the separator that opens the table, reads back with
/// no user blocks.
pub proof fn lemma_metadata_rt(ls: Lines, m: SpecMetadata)
    requires
        metadata_ok(m),
        at(ls, 0, seq![separator()] + ser_metadata(m)),
    ensures
        sp_head(ls, 0) == Ok::<(SpecHead, int), SpecFailure>((head_of(m), 7)),
        sp_physics(ls, 7) == Ok::<((usize, Seq<Text>, Text, usize), int), SpecFailure>(
            ((m.unit, m.description, m.cms_energy, m.alphas_ord), 1 + ser_metadata(m).len() as int),
        ),
{
    reveal(ser_metadata);
    let a: Lines = seq![
        separator(),
        count_line(m.table_version as int),
        m.scenario_name,
        count_line(m.n_contrib as int),
        count_line(m.n_mult as int),
        count_line(m.n_data as int),
        count_line(0),
        count_line(0),
        count_line(0),
        count_line(0),
        separator(),
        count_line(m.unit as int),
    ];
    let d = ser_slice::<String>(m.description);
    let b: Lines = seq![m.cms_energy, count_line(m.alphas_ord as int)];
    assert(seq![separator()] + ser_metadata(m) =~= a + d + b);
    lemma_at_split(ls, 0, a + d, b);
    lemma_at_split(ls, 0, a, d);
    lemma_at_index(ls, 0, a, 0);
    lemma_at_index(ls, 0, a, 1);
    lemma_at_index(ls, 0, a, 2);
    lemma_at_index(ls, 0, a, 3);
    lemma_at_index(ls, 0, a, 4);
    lemma_at_index(ls, 0, a, 5);
    lemma_at_index(ls, 0, a, 6);
    lemma_at_index(ls, 0, a, 7);
    lemma_at_index(ls, 0, a, 8);
    lemma_at_index(ls, 0, a, 9);
    lemma_at_index(ls, 0, a, 10);
    lemma_at_index(ls, 0, a, 11);
    lemma_count_rt(ls, 1, m.table_version as nat);
    lemma_take_rt::<String>(ls, 2, m.scenario_name);
    lemma_count_rt(ls, 3, m.n_contrib as nat);
    lemma_count_rt(ls, 4, m.n_mult as nat);
    lemma_count_rt(ls, 5, m.n_data as nat);
    lemma_count_rt(ls, 6, 0);
    lemma_zero_not_separator();
    assert(skip_to_sep(ls, 10) == 10);
    assert(skip_to_sep(ls, 9) == 10);
    assert(skip_to_sep(ls, 8) == 10);
    assert(skip_to_sep(ls, 7) == 10);
    lemma_count_rt(ls, 11, m.unit as nat);
    lemma_take_counted_rt::<String>(ls, 12, m.description);
    let q: int = 12 + d.len() as int;
    lemma_at_index(ls, q, b, 0);
    lemma_at_index(ls, q, b, 1);
    lemma_take_rt::<Float>(ls, q, m.cms_energy);
    lemma_count_rt(ls, q + 1, m.alphas_ord as nat);
}


// ---------------------------------------------------------------------------
// Binning
// ---------------------------------------------------------------------------

/// The place of a bin in one dimension matches the kind of the dimension.
pub open spec fn position_ok(v: SpecBinPosition, kind: usize) -> bool {
    match v {
        SpecBinPosition::Central(c) => kind == 1 && Float::writable(c),
        SpecBinPosition::Boundaries { low, high } => kind == 2 && Float::writable(low) && Float::writable(
            high,
        ),
    }
}

/// The binning can be written and read back: there is a bin, every bin has
/// a place in each dimension, of the kind the dimension has.
pub open spec fn bins_ok(bi: SpecBinInfo) -> bool {
    &&& 0 < bi.bins.len() <= usize::MAX
    &&& bi.dim_labels.len() == bi.bins[0].values.len()
    &&& bi.diff_bin.len() == bi.bins[0].values.len()
    &&& bi.diff_bin.len() <= usize::MAX
    &&& all_writable::<String>(bi.dim_labels)
    &&& forall|i: int|
        0 <= i < bi.bins.len() ==> {
            &&& (#[trigger] bi.bins[i]).values.len() == bi.diff_bin.len()
            &&& Float::writable(bi.bins[i].size)
            &&& forall|j: int|
                0 <= j < bi.diff_bin.len() ==> position_ok(#[trigger] bi.bins[i].values[j], bi.diff_bin[j])
        }
}

pub open spec fn ser_positions_from(vals: Seq<SpecBinPosition>, j: int) -> Lines
    decreases vals.len() - j,
{
    if j < 0 || j >= vals.len() {
        seq![]
    } else {
        ser_position(vals[j]) + ser_positions_from(vals, j + 1)
    }
}

proof fn lemma_positions_from_concat(vals: Seq<SpecBinPosition>, j: int)
    requires
        0 <= j <= vals.len(),
    ensures
        ser_positions_from(vals, j) == concat(
            Seq::new((vals.len() - j) as nat, |k: int| ser_position(vals[j + k])),
        ),
    decreases vals.len() - j,
{
    let parts = Seq::new((vals.len() - j) as nat, |k: int| ser_position(vals[j + k]));
    if j == vals.len() {
        assert(parts =~= Seq::<Lines>::empty());
    } else {
        lemma_positions_from_concat(vals, j + 1);
        lemma_concat_front(parts);
        assert(parts.drop_first() =~= Seq::new(
            (vals.len() - (j + 1)) as nat,
            |k: int| ser_position(vals[j + 1 + k]),
        ));
    }
}

proof fn lemma_bin_values_rt(ls: Lines, p: int, diff_bin: Seq<usize>, vals: Seq<SpecBinPosition>, j: int)
    requires
        vals.len() == diff_bin.len(),
        0 <= j <= vals.len(),
        forall|k: int| 0 <= k < diff_bin.len() ==> position_ok(#[trigger] vals[k], diff_bin[k]),
        at(ls, p, ser_positions_from(vals, j)),
    ensures
        sp_bin_values(ls, p, diff_bin, j) == Ok::<(Seq<SpecBinPosition>, int), SpecFailure>(
            (vals.subrange(j, vals.len() as int), p + ser_positions_from(vals, j).len()),
        ),
    decreases vals.len() - j,
{
    if j == vals.len() {
        assert(vals.subrange(j, vals.len() as int) =~= Seq::<SpecBinPosition>::empty());
    } else {
        let here = ser_position(vals[j]);
        let rest = ser_positions_from(vals, j + 1);
        lemma_at_split(ls, p, here, rest);
        assert(position_ok(vals[j], diff_bin[j]));
        match vals[j] {
            SpecBinPosition::Central(c) => {
                lemma_take_rt::<Float>(ls, p, c);
            },
            SpecBinPosition::Boundaries { low, high } => {
                assert(here =~= seq![low] + seq![high]);
                lemma_at_split(ls, p, seq![low], seq![high]);
                lemma_take_rt::<Float>(ls, p, low);
                lemma_take_rt::<Float>(ls, p + 1, high);
            },
        }
        lemma_bin_values_rt(ls, p + here.len(), diff_bin, vals, j + 1);
        assert(seq![vals[j]] + vals.subrange(j + 1, vals.len() as int) =~= vals.subrange(j, vals.len() as int));
    }
}

proof fn lemma_bin_positions_rt(ls: Lines, p: int, bi: SpecBinInfo, i: int)
    requires
        bins_ok(bi),
        0 <= i <= bi.bins.len(),
        at(ls, p, concat(Seq::new((bi.bins.len() - i) as nat, |k: int| ser_bin(bi.bins[i + k])))),
    ensures
        sp_bin_positions(ls, p, bi.diff_bin, (bi.bins.len() - i) as nat) == Ok::<
            (Seq<Seq<SpecBinPosition>>, int),
            SpecFailure,
        >(
            (
                Seq::new((bi.bins.len() - i) as nat, |k: int| bi.bins[i + k].values),
                p + concat(Seq::new((bi.bins.len() - i) as nat, |k: int| ser_bin(bi.bins[i + k]))).len(),
            ),
        ),
    decreases bi.bins.len() - i,
{
    let parts = Seq::new((bi.bins.len() - i) as nat, |k: int| ser_bin(bi.bins[i + k]));
    if i == bi.bins.len() {
        assert(parts =~= Seq::<Lines>::empty());
        assert(Seq::new((bi.bins.len() - i) as nat, |k: int| bi.bins[i + k].values) =~= Seq::<
            Seq<SpecBinPosition>,
        >::empty());
    } else {
        lemma_concat_front(parts);
        let b = bi.bins[i];
        assert(parts[0] == ser_bin(b));
        lemma_at_split(ls, p, ser_bin(b), concat(parts.drop_first()));
        lemma_positions_from_concat(b.values, 0);
        assert(Seq::new((b.values.len() - 0) as nat, |k: int| ser_position(b.values[0 + k])) =~= Seq::new(
            b.values.len(),
            |j: int| ser_position(b.values[j]),
        ));
        assert(b.values.len() == bi.diff_bin.len());
        assert forall|k: int| 0 <= k < bi.diff_bin.len() implies position_ok(#[trigger] b.values[k], bi.diff_bin[k]) by {
            assert(bi.bins[i] == b);
        }
        lemma_bin_values_rt(ls, p, bi.diff_bin, b.values, 0);
        assert(b.values.subrange(0, b.values.len() as int) =~= b.values);
        assert(parts.drop_first() =~= Seq::new(
            (bi.bins.len() - (i + 1)) as nat,
            |k: int| ser_bin(bi.bins[i + 1 + k]),
        ));
        lemma_bin_positions_rt(ls, p + ser_bin(b).len(), bi, i + 1);
        assert(seq![b.values] + Seq::new((bi.bins.len() - (i + 1)) as nat, |k: int| bi.bins[i + 1 + k].values)
            =~= Seq::new((bi.bins.len() - i) as nat, |k: int| bi.bins[i + k].values));
    }
}

/// The binning reads back.
pub proof fn lemma_bins_rt(ls: Lines, p: int, bi: SpecBinInfo)
    requires
        bins_ok(bi),
        at(ls, p, ser_bins(bi)),
    ensures
        sp_bin_info(ls, p) == Ok::<(SpecBinInfo, int), SpecFailure>((bi, p + ser_bins(bi).len())),
{
    reveal(ser_bins);
    reveal(sp_bin_info);
    let n = bi.bins.len();
    let nd = bi.bins[0].values.len();
    let a: Lines = seq![count_line(n as int), count_line(nd as int)];
    let la = ser_iter::<String>(bi.dim_labels);
    let ld = ser_iter::<usize>(bi.diff_bin);
    let pos = concat(Seq::new(n, |i: int| ser_bin(bi.bins[i])));
    let sz = Seq::new(n, |i: int| bi.bins[i].size);
    assert(ser_bins(bi) =~= a + la + ld + pos + sz);
    lemma_at_split(ls, p, a + la + ld + pos, sz);
    lemma_at_split(ls, p, a + la + ld, pos);
    lemma_at_split(ls, p, a + la, ld);
    lemma_at_split(ls, p, a, la);
    lemma_at_index(ls, p, a, 0);
    lemma_at_index(ls, p, a, 1);
    lemma_count_rt(ls, p, n);
    lemma_count_rt(ls, p + 1, nd);
    lemma_take_multiple_rt::<String>(ls, p + 2, bi.dim_labels);
    assert(all_writable::<usize>(bi.diff_bin));
    lemma_take_multiple_rt::<usize>(ls, p + 2 + nd, bi.diff_bin);
    let p4 = p + 2 + nd + nd;
    assert(Seq::new((n - 0) as nat, |k: int| ser_bin(bi.bins[0 + k])) =~= Seq::new(n, |i: int| ser_bin(bi.bins[i])));
    lemma_bin_positions_rt(ls, p4, bi, 0);
    let positions = Seq::new((n - 0) as nat, |k: int| bi.bins[0 + k].values);
    let p5 = p4 + pos.len();
    let sizes = Seq::new(n, |i: int| bi.bins[i].size);
    assert(ser_iter::<Float>(sizes) =~= sz);
    assert(all_writable::<Float>(sizes)) by {
        assert forall|i: int| 0 <= i < sizes.len() implies #[trigger] Float::writable(sizes[i]) by {
            assert(Float::writable(bi.bins[i].size));
        }
    }
    lemma_take_multiple_rt::<Float>(ls, p5, sizes);
    assert(zip_bins(positions, sizes) =~= bi.bins);
}


/// The parts from `j` on of a list of `n` parts, the first one first.
pub proof fn lemma_concat_shift(f: spec_fn(int) -> Lines, j: int, n: int)
    requires
        0 <= j < n,
    ensures
        concat(Seq::new((n - j) as nat, |k: int| f(j + k))) == f(j) + concat(
            Seq::new((n - j - 1) as nat, |k: int| f(j + 1 + k)),
        ),
{
    let parts = Seq::new((n - j) as nat, |k: int| f(j + k));
    lemma_concat_front(parts);
    assert(parts.drop_first() =~= Seq::new((n - j - 1) as nat, |k: int| f(j + 1 + k)));
}

pub proof fn lemma_concat_shift_end(f: spec_fn(int) -> Lines, n: int)
    requires
        0 <= n,
    ensures
        concat(Seq::new((n - n) as nat, |k: int| f(n + k))) == Seq::<Seq<char>>::empty(),
{
    assert(Seq::new((n - n) as nat, |k: int| f(n + k)) =~= Seq::<Lines>::empty());
}

// ---------------------------------------------------------------------------
// Blocks of data
// ---------------------------------------------------------------------------

proof fn lemma_pairs_rt(ls: Lines, p: int, lr: Seq<Text>, hr: Seq<Text>, j: int)
    requires
        lr.len() == hr.len(),
        0 <= j <= lr.len(),
        all_writable::<Float>(lr),
        all_writable::<Float>(hr),
        at(
            ls,
            p,
            concat(Seq::new((lr.len() - j) as nat, |k: int| seq![lr[j + k], hr[j + k]])),
        ),
    ensures
        sp_pairs(ls, p, (lr.len() - j) as nat) == Ok::<((Seq<Text>, Seq<Text>), int), SpecFailure>(
            (
                (lr.subrange(j, lr.len() as int), hr.subrange(j, lr.len() as int)),
                p + concat(Seq::new((lr.len() - j) as nat, |k: int| seq![lr[j + k], hr[j + k]])).len(),
            ),
        ),
    decreases lr.len() - j,
{
    let n = lr.len() as int;
    let f = |k: int| seq![lr[k], hr[k]];
    assert(Seq::new((n - j) as nat, |k: int| seq![lr[j + k], hr[j + k]]) =~= Seq::new(
        (n - j) as nat,
        |k: int| f(j + k),
    ));
    if j == n {
        assert(lr.subrange(j, n) =~= Seq::<Text>::empty());
        assert(hr.subrange(j, n) =~= Seq::<Text>::empty());
    } else {
        lemma_concat_shift(f, j, n);
        lemma_at_split(ls, p, f(j), concat(Seq::new((n - j - 1) as nat, |k: int| f(j + 1 + k))));
        assert(f(j) =~= seq![lr[j]] + seq![hr[j]]);
        lemma_at_split(ls, p, seq![lr[j]], seq![hr[j]]);
        assert(Float::writable(lr[j]));
        assert(Float::writable(hr[j]));
        lemma_take_rt::<Float>(ls, p, lr[j]);
        lemma_take_rt::<Float>(ls, p + 1, hr[j]);
        assert(Seq::new((n - (j + 1)) as nat, |k: int| seq![lr[j + 1 + k], hr[j + 1 + k]]) =~= Seq::new(
            (n - j - 1) as nat,
            |k: int| f(j + 1 + k),
        ));
        lemma_pairs_rt(ls, p + 2, lr, hr, j + 1);
        assert(seq![lr[j]] + lr.subrange(j + 1, n) =~= lr.subrange(j, n));
        assert(seq![hr[j]] + hr.subrange(j + 1, n) =~= hr.subrange(j, n));
    }
}

/// The rows of a block of data have one value and the given numbers of
/// uncertainties for each bin.
pub open spec fn columns_ok(
    centers: Seq<Text>,
    values: Seq<Text>,
    uncorr_low: Seq<Seq<Text>>,
    uncorr_high: Seq<Seq<Text>>,
    corr_low: Seq<Seq<Text>>,
    corr_high: Seq<Seq<Text>>,
    nu: nat,
    nc: nat,
    n_bins: nat,
) -> bool {
    &&& centers.len() == n_bins
    &&& values.len() == n_bins
    &&& uncorr_low.len() == n_bins
    &&& uncorr_high.len() == n_bins
    &&& corr_low.len() == n_bins
    &&& corr_high.len() == n_bins
    &&& all_writable::<Float>(centers)
    &&& all_writable::<Float>(values)
    &&& forall|i: int|
        0 <= i < n_bins ==> {
            &&& (#[trigger] uncorr_low[i]).len() == nu
            &&& uncorr_high[i].len() == nu
            &&& corr_low[i].len() == nc
            &&& corr_high[i].len() == nc
            &&& all_writable::<Float>(uncorr_low[i])
            &&& all_writable::<Float>(uncorr_high[i])
            &&& all_writable::<Float>(corr_low[i])
            &&& all_writable::<Float>(corr_high[i])
        }
}

proof fn lemma_rows_rt(
    ls: Lines,
    p: int,
    centers: Seq<Text>,
    values: Seq<Text>,
    uncorr_low: Seq<Seq<Text>>,
    uncorr_high: Seq<Seq<Text>>,
    corr_low: Seq<Seq<Text>>,
    corr_high: Seq<Seq<Text>>,
    nu: nat,
    nc: nat,
    i: int,
)
    requires
        columns_ok(centers, values, uncorr_low, uncorr_high, corr_low, corr_high, nu, nc, centers.len()),
        0 <= i <= centers.len(),
        at(
            ls,
            p,
            concat(
                Seq::new(
                    (centers.len() - i) as nat,
                    |k: int|
                        ser_data_row(
                            centers,
                            values,
                            uncorr_low,
                            uncorr_high,
                            corr_low,
                            corr_high,
                            nu,
                            nc,
                            i + k,
                        ),
                ),
            ),
        ),
    ensures
        sp_rows(ls, p, (centers.len() - i) as nat, nu, nc) == Ok::<(SpecColumns, int), SpecFailure>(
            (
                SpecColumns {
                    centers: centers.subrange(i, centers.len() as int),
                    values: values.subrange(i, centers.len() as int),
                    uncorr_low: uncorr_low.subrange(i, centers.len() as int),
                    uncorr_high: uncorr_high.subrange(i, centers.len() as int),
                    corr_low: corr_low.subrange(i, centers.len() as int),
                    corr_high: corr_high.subrange(i, centers.len() as int),
                },
                p + concat(
                    Seq::new(
                        (centers.len() - i) as nat,
                        |k: int|
                            ser_data_row(
                                centers,
                                values,
                                uncorr_low,
                                uncorr_high,
                                corr_low,
                                corr_high,
                                nu,
                                nc,
                                i + k,
                            ),
                    ),
                ).len(),
            ),
        ),
    decreases centers.len() - i,
{
    let n = centers.len() as int;
    let f = |k: int| ser_data_row(centers, values, uncorr_low, uncorr_high, corr_low, corr_high, nu, nc, k);
    assert(Seq::new(
        (n - i) as nat,
        |k: int| ser_data_row(centers, values, uncorr_low, uncorr_high, corr_low, corr_high, nu, nc, i + k),
    ) =~= Seq::new((n - i) as nat, |k: int| f(i + k)));
    if i == n {
        lemma_concat_shift_end(f, n);
        assert(centers.subrange(i, n) =~= Seq::<Text>::empty());
        assert(values.subrange(i, n) =~= Seq::<Text>::empty());
        assert(uncorr_low.subrange(i, n) =~= Seq::<Seq<Text>>::empty());
        assert(uncorr_high.subrange(i, n) =~= Seq::<Seq<Text>>::empty());
        assert(corr_low.subrange(i, n) =~= Seq::<Seq<Text>>::empty());
        assert(corr_high.subrange(i, n) =~= Seq::<Seq<Text>>::empty());
    } else {
        lemma_concat_shift(f, i, n);
        let rest = concat(Seq::new((n - i - 1) as nat, |k: int| f(i + 1 + k)));
        lemma_at_split(ls, p, f(i), rest);
        assert(uncorr_low[i].len() == nu);
        let pu = ser_pairs(uncorr_low, uncorr_high, i, nu);
        let pc = ser_pairs(corr_low, corr_high, i, nc);
        assert(f(i) =~= seq![centers[i]] + seq![values[i]] + pu + pc);
        lemma_at_split(ls, p, seq![centers[i]] + seq![values[i]] + pu, pc);
        lemma_at_split(ls, p, seq![centers[i]] + seq![values[i]], pu);
        lemma_at_split(ls, p, seq![centers[i]], seq![values[i]]);
        assert(Float::writable(centers[i]));
        assert(Float::writable(values[i]));
        lemma_take_rt::<Float>(ls, p, centers[i]);
        lemma_take_rt::<Float>(ls, p + 1, values[i]);
        let lu = uncorr_low[i];
        let hu = uncorr_high[i];
        assert(pu =~= concat(Seq::new((lu.len() - 0) as nat, |k: int| seq![lu[0 + k], hu[0 + k]]))) by {
            assert(Seq::new(nu, |j: int| seq![uncorr_low[i][j], uncorr_high[i][j]]) =~= Seq::new(
                (lu.len() - 0) as nat,
                |k: int| seq![lu[0 + k], hu[0 + k]],
            ));
        }
        lemma_pairs_rt(ls, p + 2, lu, hu, 0);
        let lc = corr_low[i];
        let hc = corr_high[i];
        assert(pc =~= concat(Seq::new((lc.len() - 0) as nat, |k: int| seq![lc[0 + k], hc[0 + k]]))) by {
            assert(Seq::new(nc, |j: int| seq![corr_low[i][j], corr_high[i][j]]) =~= Seq::new(
                (lc.len() - 0) as nat,
                |k: int| seq![lc[0 + k], hc[0 + k]],
            ));
        }
        lemma_pairs_rt(ls, p + 2 + pu.len(), lc, hc, 0);
        assert(lu.subrange(0, nu as int) =~= lu);
        assert(hu.subrange(0, nu as int) =~= hu);
        assert(lc.subrange(0, nc as int) =~= lc);
        assert(hc.subrange(0, nc as int) =~= hc);
        assert(Seq::new(
            (n - (i + 1)) as nat,
            |k: int| ser_data_row(centers, values, uncorr_low, uncorr_high, corr_low, corr_high, nu, nc, i + 1 + k),
        ) =~= Seq::new((n - i - 1) as nat, |k: int| f(i + 1 + k)));
        lemma_rows_rt(
            ls,
            p + f(i).len(),
            centers,
            values,
            uncorr_low,
            uncorr_high,
            corr_low,
            corr_high,
            nu,
            nc,
            i + 1,
        );
        assert(seq![centers[i]] + centers.subrange(i + 1, n) =~= centers.subrange(i, n));
        assert(seq![values[i]] + values.subrange(i + 1, n) =~= values.subrange(i, n));
        assert(seq![lu] + uncorr_low.subrange(i + 1, n) =~= uncorr_low.subrange(i, n));
        assert(seq![hu] + uncorr_high.subrange(i + 1, n) =~= uncorr_high.subrange(i, n));
        assert(seq![lc] + corr_low.subrange(i + 1, n) =~= corr_low.subrange(i, n));
        assert(seq![hc] + corr_high.subrange(i + 1, n) =~= corr_high.subrange(i, n));
    }
}


/// A block of data or of factors can be written and read back: it has a
/// row for each bin; a correlation matrix has a row of `n_bins * n_bins`
/// values.
pub open spec fn data_ok(d: SpecBlockData, n_bins: nat) -> bool {
    match d {
        SpecBlockData::DataBlock {
            uncorr_sources,
            corr_sources,
            centers,
            values,
            uncorr_low,
            uncorr_high,
            corr_low,
            corr_high,
            corr_matrix,
        } => {
            &&& all_writable::<String>(uncorr_sources)
            &&& uncorr_sources.len() <= usize::MAX
            &&& all_writable::<String>(corr_sources)
            &&& corr_sources.len() <= usize::MAX
            &&& columns_ok(
                centers,
                values,
                uncorr_low,
                uncorr_high,
                corr_low,
                corr_high,
                uncorr_sources.len(),
                corr_sources.len(),
                n_bins,
            )
            &&& n_bins * n_bins <= usize::MAX
            &&& corr_matrix.len() <= usize::MAX
            &&& forall|i: int|
                0 <= i < corr_matrix.len() ==> #[trigger] all_writable::<Float>(corr_matrix[i]) && corr_matrix[i].len()
                    == n_bins * n_bins
        },
        SpecBlockData::MultBlock {
            uncorr_sources,
            corr_sources,
            centers,
            values,
            uncorr_low,
            uncorr_high,
            corr_low,
            corr_high,
        } => {
            &&& all_writable::<String>(uncorr_sources)
            &&& uncorr_sources.len() <= usize::MAX
            &&& all_writable::<String>(corr_sources)
            &&& corr_sources.len() <= usize::MAX
            &&& columns_ok(
                centers,
                values,
                uncorr_low,
                uncorr_high,
                corr_low,
                corr_high,
                uncorr_sources.len(),
                corr_sources.len(),
                n_bins,
            )
        },
        SpecBlockData::TheoryBlock { .. } => false,
    }
}

proof fn lemma_data_head_rt(
    ls: Lines,
    p: int,
    us: Seq<Text>,
    cs: Seq<Text>,
    centers: Seq<Text>,
    values: Seq<Text>,
    uncorr_low: Seq<Seq<Text>>,
    uncorr_high: Seq<Seq<Text>>,
    corr_low: Seq<Seq<Text>>,
    corr_high: Seq<Seq<Text>>,
    n_bins: nat,
)
    requires
        all_writable::<String>(us),
        us.len() <= usize::MAX,
        all_writable::<String>(cs),
        cs.len() <= usize::MAX,
        columns_ok(centers, values, uncorr_low, uncorr_high, corr_low, corr_high, us.len(), cs.len(), n_bins),
        at(
            ls,
            p,
            ser_slice::<String>(us) + ser_slice::<String>(cs) + ser_data_rows(
                centers,
                values,
                uncorr_low,
                uncorr_high,
                corr_low,
                corr_high,
                us.len(),
                cs.len(),
            ),
        ),
    ensures
        sp_data_head(ls, p, n_bins) == Ok::<((Seq<Text>, Seq<Text>, SpecColumns), int), SpecFailure>(
            (
                (
                    us,
                    cs,
                    SpecColumns { centers, values, uncorr_low, uncorr_high, corr_low, corr_high },
                ),
                p + (ser_slice::<String>(us) + ser_slice::<String>(cs) + ser_data_rows(
                    centers,
                    values,
                    uncorr_low,
                    uncorr_high,
                    corr_low,
                    corr_high,
                    us.len(),
                    cs.len(),
                )).len(),
            ),
        ),
{
    let su = ser_slice::<String>(us);
    let sc = ser_slice::<String>(cs);
    let rows = ser_data_rows(centers, values, uncorr_low, uncorr_high, corr_low, corr_high, us.len(), cs.len());
    lemma_at_split(ls, p, su + sc, rows);
    lemma_at_split(ls, p, su, sc);
    lemma_at_split(ls, p, seq![crate::text::decimal(us.len())], ser_iter::<String>(us));
    lemma_count_rt(ls, p, us.len());
    lemma_take_multiple_rt::<String>(ls, p + 1, us);
    let q = p + su.len();
    lemma_at_split(ls, q, seq![crate::text::decimal(cs.len())], ser_iter::<String>(cs));
    lemma_count_rt(ls, q, cs.len());
    lemma_take_multiple_rt::<String>(ls, q + 1, cs);
    let f = |k: int| ser_data_row(centers, values, uncorr_low, uncorr_high, corr_low, corr_high, us.len(), cs.len(), k);
    assert(Seq::new(
        (centers.len() - 0) as nat,
        |k: int| ser_data_row(centers, values, uncorr_low, uncorr_high, corr_low, corr_high, us.len(), cs.len(), 0 + k),
    ) =~= Seq::new(
        centers.len(),
        |i: int| ser_data_row(centers, values, uncorr_low, uncorr_high, corr_low, corr_high, us.len(), cs.len(), i),
    ));
    lemma_rows_rt(ls, q + sc.len(), centers, values, uncorr_low, uncorr_high, corr_low, corr_high, us.len(), cs.len(), 0);
    assert(centers.subrange(0, centers.len() as int) =~= centers);
    assert(values.subrange(0, centers.len() as int) =~= values);
    assert(uncorr_low.subrange(0, centers.len() as int) =~= uncorr_low);
    assert(uncorr_high.subrange(0, centers.len() as int) =~= uncorr_high);
    assert(corr_low.subrange(0, centers.len() as int) =~= corr_low);
    assert(corr_high.subrange(0, centers.len() as int) =~= corr_high);
}

/// A block of data, or of factors, reads back.
pub proof fn lemma_data_block_rt(ls: Lines, p: int, d: SpecBlockData, n_bins: nat)
    requires
        data_ok(d, n_bins),
        at(ls, p, ser_data(d)),
    ensures
        sp_data_block(ls, p, n_bins, d is DataBlock) == Ok::<(SpecBlockData, int), SpecFailure>(
            (d, p + ser_data(d).len()),
        ),
{
    reveal(ser_data);
    match d {
        SpecBlockData::DataBlock {
            uncorr_sources,
            corr_sources,
            centers,
            values,
            uncorr_low,
            uncorr_high,
            corr_low,
            corr_high,
            corr_matrix,
        } => {
            let head = ser_slice::<String>(uncorr_sources) + ser_slice::<String>(corr_sources) + ser_data_rows(
                centers,
                values,
                uncorr_low,
                uncorr_high,
                corr_low,
                corr_high,
                uncorr_sources.len(),
                corr_sources.len(),
            );
            let tail = seq![count_line(corr_matrix.len() as int)] + ser_flat::<Float>(corr_matrix);
            assert(ser_data(d) =~= head + tail);
            lemma_at_split(ls, p, head, tail);
            lemma_data_head_rt(
                ls,
                p,
                uncorr_sources,
                corr_sources,
                centers,
                values,
                uncorr_low,
                uncorr_high,
                corr_low,
                corr_high,
                n_bins,
            );
            let q = p + head.len();
            lemma_at_split(ls, q, seq![count_line(corr_matrix.len() as int)], ser_flat::<Float>(corr_matrix));
            lemma_count_rt(ls, q, corr_matrix.len());
            lemma_matrix_rt::<Float>(ls, q + 1, corr_matrix, n_bins * n_bins);
        },
        SpecBlockData::MultBlock {
            uncorr_sources,
            corr_sources,
            centers,
            values,
            uncorr_low,
            uncorr_high,
            corr_low,
            corr_high,
        } => {
            lemma_data_head_rt(
                ls,
                p,
                uncorr_sources,
                corr_sources,
                centers,
                values,
                uncorr_low,
                uncorr_high,
                corr_low,
                corr_high,
                n_bins,
            );
        },
        SpecBlockData::TheoryBlock { .. } => {},
    }
}


// ---------------------------------------------------------------------------
// Theory blocks: weights and parton densities
// ---------------------------------------------------------------------------

/// The weight information of a block can be written and read back; a block
/// of a single table (`n_events == -1`) counts one table.
pub open spec fn weights_ok(w: SpecWeightInfo, n_events: isize) -> bool {
    &&& Float::writable(w.n_events)
    &&& Float::writable(w.norm)
    &&& Float::writable(w.sum_weights_sq)
    &&& Float::writable(w.sum_sig_sq)
    &&& Float::writable(w.sum_sig)
    &&& (n_events > -2 ==> w.n_tables == 1)
    &&& rows_writable::<Float>(w.weight_sq_obs)
    &&& w.weight_sq_obs.len() <= usize::MAX
    &&& rows_writable::<Float>(w.sig_sq_obs)
    &&& w.sig_sq_obs.len() <= usize::MAX
    &&& rows_writable::<Float>(w.sig_obs)
    &&& w.sig_obs.len() <= usize::MAX
    &&& rows_writable::<usize>(w.n_events_obs)
    &&& w.n_events_obs.len() <= usize::MAX
}

#[verifier::spinoff_prover]
#[verifier::rlimit(40)]
pub proof fn lemma_weight_info_rt(ls: Lines, p: int, w: SpecWeightInfo, n_events: isize)
    requires
        weights_ok(w, n_events),
        at(ls, p, ser_weight_info(w, n_events)),
    ensures
        sp_weight_info(ls, p, n_events) == Ok::<(SpecWeightInfo, int), SpecFailure>(
            (w, p + ser_weight_info(w, n_events).len()),
        ),
{
    reveal(ser_weight_info);
    let t: Lines = if n_events <= -2 {
        seq![count_line(w.n_tables as int)]
    } else {
        Seq::<Text>::empty()
    };
    let a: Lines = seq![w.n_events, w.norm];
    let b: Lines = seq![count_line(w.n_entries as int), w.sum_weights_sq, w.sum_sig_sq, w.sum_sig];
    let m1 = ser_nested::<Float>(w.weight_sq_obs);
    let m2 = ser_nested::<Float>(w.sig_sq_obs);
    let m3 = ser_nested::<Float>(w.sig_obs);
    let m4 = ser_nested::<usize>(w.n_events_obs);
    assert(ser_weight_info(w, n_events) =~= a + t + b + m1 + m2 + m3 + m4);
    lemma_at_split(ls, p, a + t + b + m1 + m2 + m3, m4);
    lemma_at_split(ls, p, a + t + b + m1 + m2, m3);
    lemma_at_split(ls, p, a + t + b + m1, m2);
    lemma_at_split(ls, p, a + t + b, m1);
    lemma_at_split(ls, p, a + t, b);
    lemma_at_split(ls, p, a, t);
    lemma_at_index(ls, p, a, 0);
    lemma_at_index(ls, p, a, 1);
    lemma_take_rt::<Float>(ls, p, w.n_events);
    lemma_take_rt::<Float>(ls, p + 1, w.norm);
    if n_events <= -2 {
        lemma_count_rt(ls, p + 2, w.n_tables as nat);
    }
    let q = p + 2 + t.len();
    lemma_at_index(ls, q, b, 0);
    lemma_at_index(ls, q, b, 1);
    lemma_at_index(ls, q, b, 2);
    lemma_at_index(ls, q, b, 3);
    lemma_count_rt(ls, q, w.n_entries as nat);
    lemma_take_rt::<Float>(ls, q + 1, w.sum_weights_sq);
    lemma_take_rt::<Float>(ls, q + 2, w.sum_sig_sq);
    lemma_take_rt::<Float>(ls, q + 3, w.sum_sig);
    let q1 = q + 4;
    lemma_nested_counted_rt::<Float>(ls, q1, w.weight_sq_obs);
    lemma_nested_counted_rt::<Float>(ls, q1 + m1.len(), w.sig_sq_obs);
    lemma_nested_counted_rt::<Float>(ls, q1 + m1.len() + m2.len(), w.sig_obs);
    lemma_nested_counted_rt::<usize>(ls, q1 + m1.len() + m2.len() + m3.len(), w.n_events_obs);
}

proof fn lemma_flavor_pairs_rt(ls: Lines, p: int, sp: Seq<(isize, isize)>, j: int)
    requires
        0 <= j <= sp.len(),
        at(ls, p, concat(Seq::new((sp.len() - j) as nat, |k: int| ser_flavor_pair(sp[j + k])))),
    ensures
        sp_flavor_pairs(ls, p, (sp.len() - j) as nat) == Ok::<(Seq<(isize, isize)>, int), SpecFailure>(
            (
                sp.subrange(j, sp.len() as int),
                p + concat(Seq::new((sp.len() - j) as nat, |k: int| ser_flavor_pair(sp[j + k]))).len(),
            ),
        ),
    decreases sp.len() - j,
{
    let n = sp.len() as int;
    let f = |k: int| ser_flavor_pair(sp[k]);
    assert(Seq::new((n - j) as nat, |k: int| ser_flavor_pair(sp[j + k])) =~= Seq::new(
        (n - j) as nat,
        |k: int| f(j + k),
    ));
    if j == n {
        lemma_concat_shift_end(f, n);
        assert(sp.subrange(j, n) =~= Seq::<(isize, isize)>::empty());
    } else {
        lemma_concat_shift(f, j, n);
        lemma_at_split(ls, p, f(j), concat(Seq::new((n - j - 1) as nat, |k: int| f(j + 1 + k))));
        assert(f(j) =~= seq![crate::text::signed_decimal(sp[j].0 as int)] + seq![
            crate::text::signed_decimal(sp[j].1 as int),
        ]);
        lemma_at_split(
            ls,
            p,
            seq![crate::text::signed_decimal(sp[j].0 as int)],
            seq![crate::text::signed_decimal(sp[j].1 as int)],
        );
        lemma_take_rt::<isize>(ls, p, sp[j].0);
        lemma_take_rt::<isize>(ls, p + 1, sp[j].1);
        assert(Seq::new((n - (j + 1)) as nat, |k: int| ser_flavor_pair(sp[j + 1 + k])) =~= Seq::new(
            (n - j - 1) as nat,
            |k: int| f(j + 1 + k),
        ));
        lemma_flavor_pairs_rt(ls, p + 2, sp, j + 1);
        assert(seq![sp[j]] + sp.subrange(j + 1, n) =~= sp.subrange(j, n));
    }
}

proof fn lemma_flavors_rt(ls: Lines, p: int, fl: Seq<Seq<(isize, isize)>>, i: int)
    requires
        0 <= i <= fl.len(),
        forall|k: int| 0 <= k < fl.len() ==> (#[trigger] fl[k]).len() <= usize::MAX,
        at(ls, p, concat(Seq::new((fl.len() - i) as nat, |k: int| ser_flavors(fl[i + k])))),
    ensures
        sp_flavors(ls, p, (fl.len() - i) as nat) == Ok::<(Seq<Seq<(isize, isize)>>, int), SpecFailure>(
            (
                fl.subrange(i, fl.len() as int),
                p + concat(Seq::new((fl.len() - i) as nat, |k: int| ser_flavors(fl[i + k]))).len(),
            ),
        ),
    decreases fl.len() - i,
{
    let n = fl.len() as int;
    let f = |k: int| ser_flavors(fl[k]);
    assert(Seq::new((n - i) as nat, |k: int| ser_flavors(fl[i + k])) =~= Seq::new(
        (n - i) as nat,
        |k: int| f(i + k),
    ));
    if i == n {
        lemma_concat_shift_end(f, n);
        assert(fl.subrange(i, n) =~= Seq::<Seq<(isize, isize)>>::empty());
    } else {
        lemma_concat_shift(f, i, n);
        lemma_at_split(ls, p, f(i), concat(Seq::new((n - i - 1) as nat, |k: int| f(i + 1 + k))));
        let sp = fl[i];
        let pairs = concat(Seq::new(sp.len(), |k: int| ser_flavor_pair(sp[k])));
        lemma_at_split(ls, p, seq![count_line(sp.len() as int)], pairs);
        assert(sp.len() <= usize::MAX);
        lemma_count_rt(ls, p, sp.len());
        assert(Seq::new((sp.len() - 0) as nat, |k: int| ser_flavor_pair(sp[0 + k])) =~= Seq::new(
            sp.len(),
            |k: int| ser_flavor_pair(sp[k]),
        ));
        lemma_flavor_pairs_rt(ls, p + 1, sp, 0);
        assert(sp.subrange(0, sp.len() as int) =~= sp);
        assert(Seq::new((n - (i + 1)) as nat, |k: int| ser_flavors(fl[i + 1 + k])) =~= Seq::new(
            (n - i - 1) as nat,
            |k: int| f(i + 1 + k),
        ));
        lemma_flavors_rt(ls, p + f(i).len(), fl, i + 1);
        assert(seq![sp] + fl.subrange(i + 1, n) =~= fl.subrange(i, n));
    }
}

/// The description of the parton densities can be written and read back:
/// a table that lists the flavours lists them for each subprocess, and one
/// that does not has none; the first flag is set.
pub open spec fn pdf_ok(pdf: SpecPDFInfo) -> bool {
    &&& pdf.pdfs.len() <= usize::MAX
    &&& pdf.fragmentation_functions.len() <= usize::MAX
    &&& pdf.pdf_flag_1 != 0
    &&& (pdf.pdf_flag_2 == 0 ==> pdf.parton_flavors.len() == pdf.n_subproc)
    &&& (pdf.pdf_flag_2 != 0 ==> pdf.parton_flavors.len() == 0)
    &&& forall|k: int| 0 <= k < pdf.parton_flavors.len() ==> (#[trigger] pdf.parton_flavors[k]).len() <= usize::MAX
}

pub proof fn lemma_pdf_info_rt(ls: Lines, p: int, pdf: SpecPDFInfo)
    requires
        pdf_ok(pdf),
        at(ls, p, ser_pdf_info(pdf)),
    ensures
        sp_pdf_info(ls, p) == Ok::<(SpecPDFInfo, int), SpecFailure>((pdf, p + ser_pdf_info(pdf).len())),
{
    reveal(ser_pdf_info);
    let a = ser_slice::<usize>(pdf.pdfs);
    let b: Lines = seq![count_line(pdf.n_pdf_dim as int)];
    let c = ser_slice::<usize>(pdf.fragmentation_functions);
    let d: Lines = seq![
        count_line(pdf.n_ff_dim as int),
        count_line(pdf.n_subproc as int),
        count_line(pdf.pdf_flag_1 as int),
        count_line(pdf.pdf_flag_2 as int),
        count_line(pdf.pdf_flag_3 as int),
    ];
    let fl = concat(Seq::new(pdf.parton_flavors.len(), |i: int| ser_flavors(pdf.parton_flavors[i])));
    let e: Lines = if pdf.pdf_flag_2 == 0 {
        seq![count_line(0)] + fl
    } else {
        Seq::<Text>::empty()
    };
    assert(ser_pdf_info(pdf) =~= a + b + c + d + e);
    lemma_at_split(ls, p, a + b + c + d, e);
    lemma_at_split(ls, p, a + b + c, d);
    lemma_at_split(ls, p, a + b, c);
    lemma_at_split(ls, p, a, b);
    assert(all_writable::<usize>(pdf.pdfs));
    lemma_take_counted_rt::<usize>(ls, p, pdf.pdfs);
    let q1 = p + a.len();
    lemma_at_index(ls, q1, b, 0);
    lemma_count_rt(ls, q1, pdf.n_pdf_dim as nat);
    assert(all_writable::<usize>(pdf.fragmentation_functions));
    lemma_take_counted_rt::<usize>(ls, q1 + 1, pdf.fragmentation_functions);
    let q3 = q1 + 1 + c.len();
    lemma_at_index(ls, q3, d, 0);
    lemma_at_index(ls, q3, d, 1);
    lemma_at_index(ls, q3, d, 2);
    lemma_at_index(ls, q3, d, 3);
    lemma_at_index(ls, q3, d, 4);
    lemma_count_rt(ls, q3, pdf.n_ff_dim as nat);
    lemma_count_rt(ls, q3 + 1, pdf.n_subproc as nat);
    lemma_count_rt(ls, q3 + 2, pdf.pdf_flag_1 as nat);
    lemma_count_rt(ls, q3 + 3, pdf.pdf_flag_2 as nat);
    lemma_count_rt(ls, q3 + 4, pdf.pdf_flag_3 as nat);
    let q8 = q3 + 5;
    if pdf.pdf_flag_2 == 0 {
        lemma_at_split(ls, q8, seq![count_line(0)], fl);
        lemma_count_rt(ls, q8, 0);
        assert(Seq::new((pdf.parton_flavors.len() - 0) as nat, |k: int| ser_flavors(pdf.parton_flavors[0 + k]))
            =~= Seq::new(pdf.parton_flavors.len(), |i: int| ser_flavors(pdf.parton_flavors[i])));
        lemma_flavors_rt(ls, q8 + 1, pdf.parton_flavors, 0);
        assert(pdf.parton_flavors.subrange(0, pdf.parton_flavors.len() as int) =~= pdf.parton_flavors);
    } else {
        assert(pdf.parton_flavors =~= Seq::<Seq<(isize, isize)>>::empty());
    }
}


// ---------------------------------------------------------------------------
// Grids of flexible scales
// ---------------------------------------------------------------------------

pub open spec fn dense1(row: Seq<Text>, n: nat) -> bool {
    row.len() == n && all_writable::<Float>(row)
}

pub open spec fn dense2(x: Seq<Seq<Text>>, a: nat, n: nat) -> bool {
    x.len() == a && forall|l: int| 0 <= l < a ==> #[trigger] dense1(x[l], n)
}

pub open spec fn dense3(x: Seq<Seq<Seq<Text>>>, a: nat, b: nat, n: nat) -> bool {
    x.len() == a && forall|k: int| 0 <= k < a ==> #[trigger] dense2(x[k], b, n)
}

pub open spec fn dense4(x: Seq<Seq<Seq<Seq<Text>>>>, a: nat, b: nat, c: nat, n: nat) -> bool {
    x.len() == a && forall|j: int| 0 <= j < a ==> #[trigger] dense3(x[j], b, c, n)
}

/// A grid holds a value at every place of the shape `d`.
pub open spec fn dense5(g: SpecGrid5, d: Dims) -> bool {
    g.len() == d.0 && forall|i: int| 0 <= i < d.0 ==> #[trigger] dense4(g[i], d.1 as nat, d.2 as nat, d.3 as nat, d.4 as nat)
}

proof fn lemma_fit_same<T>(s: Seq<T>, n: nat, filler: T)
    requires
        s.len() == n,
    ensures
        fit(s, n, filler) == s,
{
    assert(fit(s, n, filler) =~= s);
}

proof fn lemma_leaf_rt(ls: Lines, p: int, row: Seq<Text>, n: nat)
    requires
        dense1(row, n),
        at(ls, p, ser_iter::<Float>(row)),
    ensures
        sp_leaf(ls, p, n, true) == Ok::<(Seq<Text>, int), SpecFailure>((row, p + n)),
{
    if n == 0 {
        assert(row =~= Seq::<Text>::empty());
    } else {
        lemma_ser_iter_front::<Float>(row);
        lemma_at_split(ls, p, seq![row[0]], ser_iter::<Float>(row.drop_first()));
        assert(Float::writable(row[0]));
        lemma_take_rt::<Float>(ls, p, row[0]);
        assert(all_writable::<Float>(row.drop_first())) by {
            assert forall|i: int| 0 <= i < row.drop_first().len() implies #[trigger] Float::writable(
                row.drop_first()[i],
            ) by {
                assert(Float::writable(row[i + 1]));
            }
        }
        lemma_takes_rt::<Float>(ls, p + 1, row.drop_first());
        assert(seq![row[0]] + row.drop_first() =~= row);
    }
}

proof fn lemma_lv4_rt(ls: Lines, p: int, d: Dims, i: int, j: int, k: int, x: Seq<Seq<Text>>, l: int)
    requires
        0 <= i < d.0,
        0 <= j < d.1,
        0 <= k < d.2,
        dense2(x, d.3 as nat, d.4 as nat),
        0 <= l <= d.3,
        at(ls, p, concat(Seq::new((d.3 - l) as nat, |m: int| ser_iter::<Float>(x[l + m])))),
    ensures
        sp_lv4(ls, p, d, i, j, k, d.3 as int, l) == Ok::<(Seq<Seq<Text>>, int), SpecFailure>(
            (
                x.subrange(l, d.3 as int),
                p + concat(Seq::new((d.3 - l) as nat, |m: int| ser_iter::<Float>(x[l + m]))).len(),
            ),
        ),
    decreases d.3 - l,
{
    let n = d.3 as int;
    let f = |m: int| ser_iter::<Float>(x[m]);
    assert(Seq::new((n - l) as nat, |m: int| ser_iter::<Float>(x[l + m])) =~= Seq::new(
        (n - l) as nat,
        |m: int| f(l + m),
    ));
    if l == n {
        lemma_concat_shift_end(f, n);
        assert(x.subrange(l, n) =~= Seq::<Seq<Text>>::empty());
    } else {
        lemma_concat_shift(f, l, n);
        lemma_at_split(ls, p, f(l), concat(Seq::new((n - l - 1) as nat, |m: int| f(l + 1 + m))));
        assert(dense1(x[l], d.4 as nat));
        lemma_leaf_rt(ls, p, x[l], d.4 as nat);
        assert(Seq::new((n - (l + 1)) as nat, |m: int| ser_iter::<Float>(x[l + 1 + m])) =~= Seq::new(
            (n - l - 1) as nat,
            |m: int| f(l + 1 + m),
        ));
        assert(f(l).len() == d.4) by {
            assert(ser_iter::<Float>(x[l]).len() == x[l].len());
        }
        lemma_lv4_rt(ls, p + f(l).len(), d, i, j, k, x, l + 1);
        assert(seq![x[l]] + x.subrange(l + 1, n) =~= x.subrange(l, n));
    }
}

proof fn lemma_lv3_rt(ls: Lines, p: int, d: Dims, i: int, j: int, x: Seq<Seq<Seq<Text>>>, k: int)
    requires
        0 <= i < d.0,
        0 <= j < d.1,
        dense3(x, d.2 as nat, d.3 as nat, d.4 as nat),
        0 <= k <= d.2,
        at(ls, p, concat(Seq::new((d.2 - k) as nat, |m: int| ser_g4(x[k + m])))),
    ensures
        sp_lv3(ls, p, d, i, j, d.2 as int, k) == Ok::<(Seq<Seq<Seq<Text>>>, int), SpecFailure>(
            (x.subrange(k, d.2 as int), p + concat(Seq::new((d.2 - k) as nat, |m: int| ser_g4(x[k + m]))).len()),
        ),
    decreases d.2 - k,
{
    let n = d.2 as int;
    let f = |m: int| ser_g4(x[m]);
    assert(Seq::new((n - k) as nat, |m: int| ser_g4(x[k + m])) =~= Seq::new((n - k) as nat, |m: int| f(k + m)));
    if k == n {
        lemma_concat_shift_end(f, n);
        assert(x.subrange(k, n) =~= Seq::<Seq<Seq<Text>>>::empty());
    } else {
        lemma_concat_shift(f, k, n);
        lemma_at_split(ls, p, f(k), concat(Seq::new((n - k - 1) as nat, |m: int| f(k + 1 + m))));
        let y = x[k];
        assert(dense2(y, d.3 as nat, d.4 as nat));
        lemma_at_split(ls, p, seq![count_line(y.len() as int)], ser_flat::<Float>(y));
        lemma_count_rt(ls, p, y.len());
        let g = |m: int| ser_iter::<Float>(y[m]);
        assert(Seq::new((d.3 - 0) as nat, |m: int| ser_iter::<Float>(y[0 + m])) =~= Seq::new(
            y.len(),
            |i: int| ser_iter::<Float>(y[i]),
        ));
        lemma_lv4_rt(ls, p + 1, d, i, j, k, y, 0);
        assert(y.subrange(0, d.3 as int) =~= y);
        lemma_fit_same(y, d.3 as nat, zeros1(d.4 as nat));
        assert(Seq::new((n - (k + 1)) as nat, |m: int| ser_g4(x[k + 1 + m])) =~= Seq::new(
            (n - k - 1) as nat,
            |m: int| f(k + 1 + m),
        ));
        lemma_lv3_rt(ls, p + f(k).len(), d, i, j, x, k + 1);
        assert(seq![y] + x.subrange(k + 1, n) =~= x.subrange(k, n));
    }
}

proof fn lemma_lv2_rt(ls: Lines, p: int, d: Dims, i: int, x: Seq<Seq<Seq<Seq<Text>>>>, j: int)
    requires
        0 <= i < d.0,
        dense4(x, d.1 as nat, d.2 as nat, d.3 as nat, d.4 as nat),
        0 <= j <= d.1,
        at(ls, p, concat(Seq::new((d.1 - j) as nat, |m: int| ser_g3(x[j + m])))),
    ensures
        sp_lv2(ls, p, d, i, d.1 as int, j) == Ok::<(Seq<Seq<Seq<Seq<Text>>>>, int), SpecFailure>(
            (x.subrange(j, d.1 as int), p + concat(Seq::new((d.1 - j) as nat, |m: int| ser_g3(x[j + m]))).len()),
        ),
    decreases d.1 - j,
{
    let n = d.1 as int;
    let f = |m: int| ser_g3(x[m]);
    assert(Seq::new((n - j) as nat, |m: int| ser_g3(x[j + m])) =~= Seq::new((n - j) as nat, |m: int| f(j + m)));
    if j == n {
        lemma_concat_shift_end(f, n);
        assert(x.subrange(j, n) =~= Seq::<Seq<Seq<Seq<Text>>>>::empty());
    } else {
        lemma_concat_shift(f, j, n);
        lemma_at_split(ls, p, f(j), concat(Seq::new((n - j - 1) as nat, |m: int| f(j + 1 + m))));
        let y = x[j];
        assert(dense3(y, d.2 as nat, d.3 as nat, d.4 as nat));
        let inner = concat(Seq::new(y.len(), |m: int| ser_g4(y[m])));
        lemma_at_split(ls, p, seq![count_line(y.len() as int)], inner);
        lemma_count_rt(ls, p, y.len());
        assert(Seq::new((d.2 - 0) as nat, |m: int| ser_g4(y[0 + m])) =~= Seq::new(y.len(), |m: int| ser_g4(y[m])));
        lemma_lv3_rt(ls, p + 1, d, i, j, y, 0);
        assert(y.subrange(0, d.2 as int) =~= y);
        lemma_fit_same(y, d.2 as nat, zeros2(d.3 as nat, d.4 as nat));
        assert(Seq::new((n - (j + 1)) as nat, |m: int| ser_g3(x[j + 1 + m])) =~= Seq::new(
            (n - j - 1) as nat,
            |m: int| f(j + 1 + m),
        ));
        lemma_lv2_rt(ls, p + f(j).len(), d, i, x, j + 1);
        assert(seq![y] + x.subrange(j + 1, n) =~= x.subrange(j, n));
    }
}

proof fn lemma_lv1_rt(ls: Lines, p: int, d: Dims, g: SpecGrid5, i: int)
    requires
        dense5(g, d),
        0 <= i <= d.0,
        at(ls, p, concat(Seq::new((d.0 - i) as nat, |m: int| ser_g2(g[i + m])))),
    ensures
        sp_lv1(ls, p, d, d.0 as int, i) == Ok::<(SpecGrid5, int), SpecFailure>(
            (g.subrange(i, d.0 as int), p + concat(Seq::new((d.0 - i) as nat, |m: int| ser_g2(g[i + m]))).len()),
        ),
    decreases d.0 - i,
{
    let n = d.0 as int;
    let f = |m: int| ser_g2(g[m]);
    assert(Seq::new((n - i) as nat, |m: int| ser_g2(g[i + m])) =~= Seq::new((n - i) as nat, |m: int| f(i + m)));
    if i == n {
        lemma_concat_shift_end(f, n);
        assert(g.subrange(i, n) =~= Seq::<Seq<Seq<Seq<Seq<Text>>>>>::empty());
    } else {
        lemma_concat_shift(f, i, n);
        lemma_at_split(ls, p, f(i), concat(Seq::new((n - i - 1) as nat, |m: int| f(i + 1 + m))));
        let y = g[i];
        assert(dense4(y, d.1 as nat, d.2 as nat, d.3 as nat, d.4 as nat));
        let inner = concat(Seq::new(y.len(), |m: int| ser_g3(y[m])));
        lemma_at_split(ls, p, seq![count_line(y.len() as int)], inner);
        lemma_count_rt(ls, p, y.len());
        assert(Seq::new((d.1 - 0) as nat, |m: int| ser_g3(y[0 + m])) =~= Seq::new(y.len(), |m: int| ser_g3(y[m])));
        lemma_lv2_rt(ls, p + 1, d, i, y, 0);
        assert(y.subrange(0, d.1 as int) =~= y);
        lemma_fit_same(y, d.1 as nat, zeros3(d.2 as nat, d.3 as nat, d.4 as nat));
        assert(Seq::new((n - (i + 1)) as nat, |m: int| ser_g2(g[i + 1 + m])) =~= Seq::new(
            (n - i - 1) as nat,
            |m: int| f(i + 1 + m),
        ));
        lemma_lv1_rt(ls, p + f(i).len(), d, g, i + 1);
        assert(seq![y] + g.subrange(i + 1, n) =~= g.subrange(i, n));
    }
}

/// A grid that holds a value at every place of its shape reads back.
pub proof fn lemma_fill_rt(ls: Lines, p: int, d: Dims, g: SpecGrid5)
    requires
        dense5(g, d),
        at(ls, p, ser_grid5(g)),
    ensures
        sp_fill(ls, p, d) == Ok::<(SpecGrid5, int), SpecFailure>((g, p + ser_grid5(g).len())),
{
    let inner = concat(Seq::new(g.len(), |m: int| ser_g2(g[m])));
    lemma_at_split(ls, p, seq![count_line(g.len() as int)], inner);
    lemma_count_rt(ls, p, g.len());
    assert(Seq::new((d.0 - 0) as nat, |m: int| ser_g2(g[0 + m])) =~= Seq::new(g.len(), |m: int| ser_g2(g[m])));
    lemma_lv1_rt(ls, p + 1, d, g, 0);
    assert(g.subrange(0, d.0 as int) =~= g);
    lemma_fit_same(g, d.0 as nat, zeros4(d.1 as nat, d.2 as nat, d.3 as nat, d.4 as nat));
}


/// The nodes of a scale: one row for each bin, all as long as the first.
pub open spec fn scales_ok(sn: Seq<Seq<Text>>, n_bins: nat) -> bool {
    &&& 0 < n_bins
    &&& n_bins <= usize::MAX
    &&& sn.len() == n_bins
    &&& sn[0].len() <= usize::MAX
    &&& forall|i: int| 0 <= i < n_bins ==> #[trigger] dense1(sn[i], sn[0].len())
}

proof fn lemma_scale_rows_rt(ls: Lines, p: int, sn: Seq<Seq<Text>>, i: int)
    requires
        scales_ok(sn, sn.len()),
        1 <= i <= sn.len(),
        at(ls, p, concat(Seq::new((sn.len() - i) as nat, |m: int| ser_slice::<Float>(sn[i + m])))),
    ensures
        sp_scale_rows(ls, p, sn[0].len(), sn.len() as int, i) == Ok::<(Seq<Seq<Text>>, int), SpecFailure>(
            (
                sn.subrange(i, sn.len() as int),
                p + concat(Seq::new((sn.len() - i) as nat, |m: int| ser_slice::<Float>(sn[i + m]))).len(),
            ),
        ),
    decreases sn.len() - i,
{
    let n = sn.len() as int;
    let f = |m: int| ser_slice::<Float>(sn[m]);
    assert(Seq::new((n - i) as nat, |m: int| ser_slice::<Float>(sn[i + m])) =~= Seq::new(
        (n - i) as nat,
        |m: int| f(i + m),
    ));
    if i == n {
        lemma_concat_shift_end(f, n);
        assert(sn.subrange(i, n) =~= Seq::<Seq<Text>>::empty());
    } else {
        lemma_concat_shift(f, i, n);
        lemma_at_split(ls, p, f(i), concat(Seq::new((n - i - 1) as nat, |m: int| f(i + 1 + m))));
        let row = sn[i];
        assert(dense1(row, sn[0].len()));
        lemma_at_split(ls, p, seq![crate::text::decimal(row.len())], ser_iter::<Float>(row));
        lemma_count_rt(ls, p, row.len());
        lemma_takes_rt::<Float>(ls, p + 1, row);
        assert(Seq::new((n - (i + 1)) as nat, |m: int| ser_slice::<Float>(sn[i + 1 + m])) =~= Seq::new(
            (n - i - 1) as nat,
            |m: int| f(i + 1 + m),
        ));
        lemma_scale_rows_rt(ls, p + f(i).len(), sn, i + 1);
        assert(seq![row] + sn.subrange(i + 1, n) =~= sn.subrange(i, n));
    }
}

/// The nodes of a scale read back, with their number per bin.
pub proof fn lemma_scale_nodes_rt(ls: Lines, p: int, sn: Seq<Seq<Text>>, n_bins: nat)
    requires
        scales_ok(sn, n_bins),
        at(ls, p, ser_nested::<Float>(sn)),
    ensures
        sp_scale_nodes(ls, p, n_bins) == Ok::<((usize, Seq<Seq<Text>>), int), SpecFailure>(
            ((sn[0].len() as usize, sn), p + ser_nested::<Float>(sn).len()),
        ),
{
    let parts = Seq::new(sn.len(), |i: int| ser_slice::<Float>(sn[i]));
    lemma_at_split(ls, p, seq![crate::text::decimal(sn.len())], ser_rows::<Float>(sn));
    lemma_count_rt(ls, p, sn.len());
    lemma_concat_front(parts);
    let rest = concat(parts.drop_first());
    lemma_at_split(ls, p + 1, ser_slice::<Float>(sn[0]), rest);
    assert(dense1(sn[0], sn[0].len()));
    lemma_at_split(ls, p + 1, seq![crate::text::decimal(sn[0].len())], ser_iter::<Float>(sn[0]));
    lemma_count_rt(ls, p + 1, sn[0].len());
    lemma_takes_rt::<Float>(ls, p + 2, sn[0]);
    assert(parts.drop_first() =~= Seq::new((sn.len() - 1) as nat, |m: int| ser_slice::<Float>(sn[1 + m])));
    lemma_scale_rows_rt(ls, p + 2 + sn[0].len(), sn, 1);
    assert(seq![sn[0]] + sn.subrange(1, sn.len() as int) =~= sn);
}

/// Sums of reference: a count, then a row of `ns` values for each bin.
pub open spec fn sigma_ok(m: Seq<Seq<Text>>, n_bins: nat, ns: nat) -> bool {
    m.len() == n_bins && n_bins <= usize::MAX && forall|i: int| 0 <= i < n_bins ==> #[trigger] dense1(m[i], ns)
}

pub proof fn lemma_sigma_rt(ls: Lines, p: int, m: Seq<Seq<Text>>, n_bins: nat, ns: nat)
    requires
        sigma_ok(m, n_bins, ns),
        at(ls, p, ser_g4(m)),
    ensures
        sp_sigma(ls, p, n_bins, ns) == Ok::<(Seq<Seq<Text>>, int), SpecFailure>((m, p + ser_g4(m).len())),
{
    lemma_at_split(ls, p, seq![count_line(m.len() as int)], ser_flat::<Float>(m));
    lemma_count_rt(ls, p, m.len());
    assert forall|i: int| 0 <= i < m.len() implies #[trigger] all_writable::<Float>(m[i]) && m[i].len() == ns by {
        assert(dense1(m[i], ns));
    }
    lemma_matrix_rt::<Float>(ls, p + 1, m, ns);
}

pub open spec fn opt_dense(g: Option<SpecGrid5>, d: Dims, present: bool) -> bool {
    match g {
        Some(x) => present && dense5(x, d),
        None => !present,
    }
}

proof fn lemma_opt_grid_rt(ls: Lines, p: int, d: Dims, g: Option<SpecGrid5>, present: bool)
    requires
        opt_dense(g, d, present),
        at(ls, p, ser_opt_grid(g)),
    ensures
        sp_opt_grid(ls, p, d, present) == Ok::<(Option<SpecGrid5>, int), SpecFailure>(
            (g, p + ser_opt_grid(g).len()),
        ),
{
    match g {
        Some(x) => {
            lemma_fill_rt(ls, p, d, x);
        },
        None => {},
    }
}

/// The shape of the grids of a block: bins, x nodes, scale nodes,
/// subprocesses.
pub open spec fn flex_dims(n_bins: usize, nxm: usize, sn1: Seq<Seq<Text>>, sn2: Seq<Seq<Text>>, ns: usize) -> Dims {
    (n_bins, nxm, sn1[0].len() as usize, sn2[0].len() as usize, ns)
}

/// A grid of flexible scales can be written and read back: it holds the
/// grids its scale format provides, each with a value at every place.
pub open spec fn flex_ok(
    g: SpecGrid,
    sf: usize,
    n_bins: usize,
    ns: usize,
    n_pdf_dim: usize,
    x1: Seq<Seq<Text>>,
    x2: Seq<Seq<Text>>,
) -> bool {
    match g {
        SpecGrid::Flex {
            scale_node_1,
            scale_node_2,
            grid,
            grid_f,
            grid_r,
            grid_rr,
            grid_ff,
            grid_rf,
            sigma_ref_mixed,
            sigma_ref_s1,
            sigma_ref_s2,
        } => {
            &&& 4 <= sf <= 7
            &&& scales_ok(scale_node_1, n_bins as nat)
            &&& scales_ok(scale_node_2, n_bins as nat)
            &&& sp_nxmax(n_pdf_dim, x1, x2) is Ok
            &&& {
                let d = flex_dims(n_bins, sp_nxmax(n_pdf_dim, x1, x2)->Ok_0, scale_node_1, scale_node_2, ns);
                &&& dense5(grid, d)
                &&& opt_dense(grid_f, d, sf >= 5)
                &&& opt_dense(grid_r, d, sf >= 5)
                &&& opt_dense(grid_rr, d, sf >= 6)
                &&& opt_dense(grid_ff, d, sf >= 7)
                &&& opt_dense(grid_rf, d, sf >= 7)
            }
            &&& sigma_ok(sigma_ref_mixed, n_bins as nat, ns as nat)
            &&& sigma_ok(sigma_ref_s1, n_bins as nat, ns as nat)
            &&& sigma_ok(sigma_ref_s2, n_bins as nat, ns as nat)
        },
        SpecGrid::Fixed { .. } => false,
    }
}

/// A grid of flexible scales reads back.
#[verifier::spinoff_prover]
#[verifier::rlimit(40)]
pub proof fn lemma_flex_rt(
    ls: Lines,
    p: int,
    g: SpecGrid,
    sf: usize,
    n_bins: usize,
    ns: usize,
    n_pdf_dim: usize,
    x1: Seq<Seq<Text>>,
    x2: Seq<Seq<Text>>,
)
    requires
        flex_ok(g, sf, n_bins, ns, n_pdf_dim, x1, x2),
        at(ls, p, ser_grid(g)),
    ensures
        sp_flex(ls, p, sf, n_bins, ns, n_pdf_dim, x1, x2) == Ok::<(SpecGrid, int), SpecFailure>(
            (g, p + ser_grid(g).len()),
        ),
{
    reveal(ser_grid);
    reveal(sp_flex);
    match g {
        SpecGrid::Flex {
            scale_node_1,
            scale_node_2,
            grid,
            grid_f,
            grid_r,
            grid_rr,
            grid_ff,
            grid_rf,
            sigma_ref_mixed,
            sigma_ref_s1,
            sigma_ref_s2,
        } => {
            let a = ser_nested::<Float>(scale_node_1);
            let b = ser_nested::<Float>(scale_node_2);
            let c = ser_grid5(grid);
            let o1 = ser_opt_grid(grid_f);
            let o2 = ser_opt_grid(grid_r);
            let o3 = ser_opt_grid(grid_rr);
            let o4 = ser_opt_grid(grid_ff);
            let o5 = ser_opt_grid(grid_rf);
            let s1 = ser_g4(sigma_ref_mixed);
            let s2 = ser_g4(sigma_ref_s1);
            let s3 = ser_g4(sigma_ref_s2);
            assert(ser_grid(g) =~= a + b + c + o1 + o2 + o3 + o4 + o5 + s1 + s2 + s3);
            lemma_at_split(ls, p, a + b + c + o1 + o2 + o3 + o4 + o5 + s1 + s2, s3);
            lemma_at_split(ls, p, a + b + c + o1 + o2 + o3 + o4 + o5 + s1, s2);
            lemma_at_split(ls, p, a + b + c + o1 + o2 + o3 + o4 + o5, s1);
            lemma_at_split(ls, p, a + b + c + o1 + o2 + o3 + o4, o5);
            lemma_at_split(ls, p, a + b + c + o1 + o2 + o3, o4);
            lemma_at_split(ls, p, a + b + c + o1 + o2, o3);
            lemma_at_split(ls, p, a + b + c + o1, o2);
            lemma_at_split(ls, p, a + b + c, o1);
            lemma_at_split(ls, p, a + b, c);
            lemma_at_split(ls, p, a, b);
            lemma_scale_nodes_rt(ls, p, scale_node_1, n_bins as nat);
            lemma_scale_nodes_rt(ls, p + a.len(), scale_node_2, n_bins as nat);
            let nxm = sp_nxmax(n_pdf_dim, x1, x2)->Ok_0;
            let d = flex_dims(n_bins, nxm, scale_node_1, scale_node_2, ns);
            let q1 = p + a.len() + b.len();
            lemma_fill_rt(ls, q1, d, grid);
            lemma_opt_grid_rt(ls, q1 + c.len(), d, grid_f, sf >= 5);
            lemma_opt_grid_rt(ls, q1 + c.len() + o1.len(), d, grid_r, sf >= 5);
            lemma_opt_grid_rt(ls, q1 + c.len() + o1.len() + o2.len(), d, grid_rr, sf >= 6);
            lemma_opt_grid_rt(ls, q1 + c.len() + o1.len() + o2.len() + o3.len(), d, grid_ff, sf >= 7);
            lemma_opt_grid_rt(ls, q1 + c.len() + o1.len() + o2.len() + o3.len() + o4.len(), d, grid_rf, sf >= 7);
            let q2 = q1 + c.len() + o1.len() + o2.len() + o3.len() + o4.len() + o5.len();
            lemma_sigma_rt(ls, q2, sigma_ref_mixed, n_bins as nat, ns as nat);
            lemma_sigma_rt(ls, q2 + s1.len(), sigma_ref_s1, n_bins as nat, ns as nat);
            lemma_sigma_rt(ls, q2 + s1.len() + s2.len(), sigma_ref_s2, n_bins as nat, ns as nat);
        },
        SpecGrid::Fixed { .. } => {},
    }
}


// ---------------------------------------------------------------------------
// Theory blocks
// ---------------------------------------------------------------------------

/// A list of rows of nodes, one row for each bin when `present`, none
/// otherwise.
pub open spec fn node_rows_ok(x: Seq<Seq<Text>>, n_bins: nat, present: bool) -> bool {
    &&& rows_writable::<Float>(x)
    &&& (present ==> x.len() == n_bins)
    &&& (!present ==> x.len() == 0)
}

/// A theory block can be written and read back: it has weight information
/// exactly when its number of events is negative, and its nodes and grid
/// match the binning and its scale format.
pub open spec fn theory_ok(d: SpecBlockData, n_bins: usize, sf: usize) -> bool {
    match d {
        SpecBlockData::TheoryBlock {
            reference_table,
            i_scale_dependence,
            n_events,
            weight_info,
            alphas_power,
            pdf_info,
            x1_nodes,
            x2_nodes,
            z_nodes,
            scale_dimension,
            scale_description,
            grid,
        } => {
            &&& (weight_info is Some) == (n_events < 0)
            &&& (weight_info matches Some(w) ==> weights_ok(w, n_events))
            &&& pdf_ok(pdf_info)
            &&& node_rows_ok(x1_nodes, n_bins as nat, true)
            &&& node_rows_ok(x2_nodes, n_bins as nat, pdf_info.n_pdf_dim == 2)
            &&& node_rows_ok(z_nodes, n_bins as nat, pdf_info.n_ff_dim > 0)
            &&& scale_dimension.len() <= usize::MAX
            &&& rows_writable::<String>(scale_description)
            &&& scale_description.len() <= usize::MAX
            &&& flex_ok(grid, sf, n_bins, pdf_info.n_subproc, pdf_info.n_pdf_dim, x1_nodes, x2_nodes)
        },
        _ => false,
    }
}

proof fn lemma_node_rows_rt(ls: Lines, p: int, x: Seq<Seq<Text>>, n_bins: nat, present: bool)
    requires
        node_rows_ok(x, n_bins, present),
        at(ls, p, ser_rows::<Float>(x)),
    ensures
        (if present {
            sp_nested::<Float>(ls, p, n_bins)
        } else {
            Ok((seq![], p))
        }) == Ok::<(Seq<Seq<Text>>, int), SpecFailure>((x, p + ser_rows::<Float>(x).len())),
{
    if present {
        lemma_nested_rt::<Float>(ls, p, x);
    } else {
        assert(x =~= Seq::<Seq<Text>>::empty());
        assert(ser_rows::<Float>(x) =~= Seq::<Seq<char>>::empty());
    }
}

pub open spec fn theory_head_lines(
    rf: bool,
    isd: usize,
    n_events: isize,
    wi: Option<SpecWeightInfo>,
    ap: usize,
    pdf: SpecPDFInfo,
) -> Lines {
    seq![flag_line(rf), count_line(isd as int), crate::text::signed_decimal(n_events as int)] + (match wi {
        Some(w) => ser_weight_info(w, n_events),
        None => Seq::<Text>::empty(),
    }) + seq![count_line(ap as int)] + ser_pdf_info(pdf)
}

pub open spec fn theory_node_lines(
    x1: Seq<Seq<Text>>,
    x2: Seq<Seq<Text>>,
    z: Seq<Seq<Text>>,
    sdim: Seq<usize>,
    sdesc: Seq<Seq<Text>>,
) -> Lines {
    ser_rows::<Float>(x1) + ser_rows::<Float>(x2) + ser_rows::<Float>(z) + seq![
        count_line(sdim.len() as int),
        count_line(sdesc.len() as int),
    ] + ser_iter::<usize>(sdim) + ser_rows::<String>(sdesc)
}

#[verifier::spinoff_prover]
#[verifier::rlimit(100)]
proof fn lemma_theory_head_rt(
    ls: Lines,
    p: int,
    rf: bool,
    isd: usize,
    n_events: isize,
    wi: Option<SpecWeightInfo>,
    ap: usize,
    pdf: SpecPDFInfo,
)
    requires
        (wi is Some) == (n_events < 0),
        wi matches Some(w) ==> weights_ok(w, n_events),
        pdf_ok(pdf),
        at(ls, p, theory_head_lines(rf, isd, n_events, wi, ap, pdf)),
    ensures
        sp_theory_head(ls, p) == Ok::<
            ((bool, usize, isize, Option<SpecWeightInfo>, usize, SpecPDFInfo), int),
            SpecFailure,
        >(((rf, isd, n_events, wi, ap, pdf), p + theory_head_lines(rf, isd, n_events, wi, ap, pdf).len())),
{
    let h: Lines = seq![flag_line(rf), count_line(isd as int), crate::text::signed_decimal(n_events as int)];
    let wl: Lines = match wi {
        Some(w) => ser_weight_info(w, n_events),
        None => Seq::<Text>::empty(),
    };
    let apl: Lines = seq![count_line(ap as int)];
    let pl = ser_pdf_info(pdf);
    lemma_at_split(ls, p, h + wl + apl, pl);
    lemma_at_split(ls, p, h + wl, apl);
    lemma_at_split(ls, p, h, wl);
    lemma_at_index(ls, p, h, 0);
    lemma_at_index(ls, p, h, 1);
    lemma_at_index(ls, p, h, 2);
    if rf {
        lemma_count_rt(ls, p, 1);
    } else {
        lemma_count_rt(ls, p, 0);
    }
    lemma_count_rt(ls, p + 1, isd as nat);
    lemma_take_rt::<isize>(ls, p + 2, n_events);
    let q3 = p + 3;
    match wi {
        Some(w) => {
            lemma_weight_info_rt(ls, q3, w, n_events);
        },
        None => {},
    }
    let q4 = q3 + wl.len();
    lemma_at_index(ls, q4, apl, 0);
    lemma_count_rt(ls, q4, ap as nat);
    lemma_pdf_info_rt(ls, q4 + 1, pdf);
}

proof fn lemma_theory_nodes_rt(
    ls: Lines,
    p: int,
    n_bins: usize,
    pdf: SpecPDFInfo,
    x1: Seq<Seq<Text>>,
    x2: Seq<Seq<Text>>,
    z: Seq<Seq<Text>>,
    sdim: Seq<usize>,
    sdesc: Seq<Seq<Text>>,
)
    requires
        pdf.pdf_flag_1 != 0,
        node_rows_ok(x1, n_bins as nat, true),
        node_rows_ok(x2, n_bins as nat, pdf.n_pdf_dim == 2),
        node_rows_ok(z, n_bins as nat, pdf.n_ff_dim > 0),
        sdim.len() <= usize::MAX,
        rows_writable::<String>(sdesc),
        sdesc.len() <= usize::MAX,
        at(ls, p, theory_node_lines(x1, x2, z, sdim, sdesc)),
    ensures
        sp_theory_nodes(ls, p, n_bins, pdf) == Ok::<
            ((Seq<Seq<Text>>, Seq<Seq<Text>>, Seq<Seq<Text>>, Seq<usize>, Seq<Seq<Text>>, usize), int),
            SpecFailure,
        >(((x1, x2, z, sdim, sdesc, sdesc.len() as usize), p + theory_node_lines(x1, x2, z, sdim, sdesc).len())),
{
    let r1 = ser_rows::<Float>(x1);
    let r2 = ser_rows::<Float>(x2);
    let r3 = ser_rows::<Float>(z);
    let cn: Lines = seq![count_line(sdim.len() as int), count_line(sdesc.len() as int)];
    let sd = ser_iter::<usize>(sdim);
    let sl = ser_rows::<String>(sdesc);
    lemma_at_split(ls, p, r1 + r2 + r3 + cn + sd, sl);
    lemma_at_split(ls, p, r1 + r2 + r3 + cn, sd);
    lemma_at_split(ls, p, r1 + r2 + r3, cn);
    lemma_at_split(ls, p, r1 + r2, r3);
    lemma_at_split(ls, p, r1, r2);
    lemma_node_rows_rt(ls, p, x1, n_bins as nat, true);
    lemma_node_rows_rt(ls, p + r1.len(), x2, n_bins as nat, pdf.n_pdf_dim == 2);
    lemma_node_rows_rt(ls, p + r1.len() + r2.len(), z, n_bins as nat, pdf.n_ff_dim > 0);
    let q = p + r1.len() + r2.len() + r3.len();
    lemma_at_index(ls, q, cn, 0);
    lemma_at_index(ls, q, cn, 1);
    lemma_count_rt(ls, q, sdim.len());
    lemma_count_rt(ls, q + 1, sdesc.len());
    assert(all_writable::<usize>(sdim));
    lemma_take_multiple_rt::<usize>(ls, q + 2, sdim);
    lemma_nested_rt::<String>(ls, q + 2 + sd.len(), sdesc);
}

/// A theory block reads back.
#[verifier::spinoff_prover]
#[verifier::rlimit(100)]
pub proof fn lemma_theory_rt(ls: Lines, p: int, d: SpecBlockData, n_bins: usize, sf: usize)
    requires
        theory_ok(d, n_bins, sf),
        at(ls, p, ser_theory(d)),
    ensures
        sp_theory(ls, p, n_bins, sf) == Ok::<(SpecBlockData, int), SpecFailure>((d, p + ser_theory(d).len())),
{
    reveal(ser_theory);
    match d {
        SpecBlockData::TheoryBlock {
            reference_table,
            i_scale_dependence,
            n_events,
            weight_info,
            alphas_power,
            pdf_info,
            x1_nodes,
            x2_nodes,
            z_nodes,
            scale_dimension,
            scale_description,
            grid,
        } => {
            let hl = theory_head_lines(reference_table, i_scale_dependence, n_events, weight_info, alphas_power, pdf_info);
            let nl = theory_node_lines(x1_nodes, x2_nodes, z_nodes, scale_dimension, scale_description);
            let gl = ser_grid(grid);
            assert(ser_theory(d) =~= hl + nl + gl);
            lemma_at_split(ls, p, hl + nl, gl);
            lemma_at_split(ls, p, hl, nl);
            lemma_theory_head_rt(ls, p, reference_table, i_scale_dependence, n_events, weight_info, alphas_power, pdf_info);
            lemma_theory_nodes_rt(
                ls,
                p + hl.len(),
                n_bins,
                pdf_info,
                x1_nodes,
                x2_nodes,
                z_nodes,
                scale_dimension,
                scale_description,
            );
            lemma_flex_rt(
                ls,
                p + hl.len() + nl.len(),
                grid,
                sf,
                n_bins,
                pdf_info.n_subproc,
                pdf_info.n_pdf_dim,
                x1_nodes,
                x2_nodes,
            );
        },
        _ => {},
    }
}


// ---------------------------------------------------------------------------
// Blocks and the table
// ---------------------------------------------------------------------------

/// The coefficient information of a block: each item has its two flags, its
/// description and its content.
pub open spec fn coeff_ok(b: SpecBlock) -> bool {
    &&& b.coeff_info_flags_1.len() <= usize::MAX
    &&& b.coeff_info_flags_2.len() == b.coeff_info_flags_1.len()
    &&& b.coeff_block_description.len() == b.coeff_info_flags_1.len()
    &&& b.coeff_block_content.len() == b.coeff_info_flags_1.len()
    &&& forall|i: int|
        0 <= i < b.coeff_info_flags_1.len() ==> {
            &&& all_writable::<String>(#[trigger] b.coeff_block_description[i])
            &&& b.coeff_block_description[i].len() <= usize::MAX
            &&& all_writable::<Float>(b.coeff_block_content[i])
            &&& b.coeff_block_content[i].len() <= usize::MAX
        }
}

/// A block can be written and read back: its flags name the kind of its
/// data, which can be written and read back with the binning.
#[verifier::opaque]
pub open spec fn block_ok(b: SpecBlock, n_bins: usize) -> bool {
    &&& all_writable::<String>(b.description)
    &&& b.description.len() <= usize::MAX
    &&& all_writable::<String>(b.code_description)
    &&& b.code_description.len() <= usize::MAX
    &&& if b.data_block {
        b.data is DataBlock && data_ok(b.data, n_bins as nat)
    } else if b.mult_block {
        b.data is MultBlock && data_ok(b.data, n_bins as nat)
    } else {
        theory_ok(b.data, n_bins, b.scale_format)
    }
    &&& coeff_ok(b)
}

proof fn lemma_coeff_items_rt(ls: Lines, p: int, b: SpecBlock, i: int)
    requires
        coeff_ok(b),
        0 <= i <= b.coeff_info_flags_1.len(),
        at(
            ls,
            p,
            concat(Seq::new((b.coeff_info_flags_1.len() - i) as nat, |k: int| ser_coeff_item(b, i + k))),
        ),
    ensures
        sp_coeff_items(ls, p, (b.coeff_info_flags_1.len() - i) as nat) == Ok::<
            ((Seq<usize>, Seq<usize>, Seq<Seq<Text>>, Seq<Seq<Text>>), int),
            SpecFailure,
        >(
            (
                (
                    b.coeff_info_flags_1.subrange(i, b.coeff_info_flags_1.len() as int),
                    b.coeff_info_flags_2.subrange(i, b.coeff_info_flags_1.len() as int),
                    b.coeff_block_description.subrange(i, b.coeff_info_flags_1.len() as int),
                    b.coeff_block_content.subrange(i, b.coeff_info_flags_1.len() as int),
                ),
                p + concat(
                    Seq::new((b.coeff_info_flags_1.len() - i) as nat, |k: int| ser_coeff_item(b, i + k)),
                ).len(),
            ),
        ),
    decreases b.coeff_info_flags_1.len() - i,
{
    let n = b.coeff_info_flags_1.len() as int;
    let f = |k: int| ser_coeff_item(b, k);
    assert(Seq::new((n - i) as nat, |k: int| ser_coeff_item(b, i + k)) =~= Seq::new(
        (n - i) as nat,
        |k: int| f(i + k),
    ));
    if i == n {
        lemma_concat_shift_end(f, n);
        assert(b.coeff_info_flags_1.subrange(i, n) =~= Seq::<usize>::empty());
        assert(b.coeff_info_flags_2.subrange(i, n) =~= Seq::<usize>::empty());
        assert(b.coeff_block_description.subrange(i, n) =~= Seq::<Seq<Text>>::empty());
        assert(b.coeff_block_content.subrange(i, n) =~= Seq::<Seq<Text>>::empty());
    } else {
        lemma_concat_shift(f, i, n);
        lemma_at_split(ls, p, f(i), concat(Seq::new((n - i - 1) as nat, |k: int| f(i + 1 + k))));
        let h: Lines = seq![
            count_line(b.coeff_info_flags_1[i] as int),
            count_line(b.coeff_info_flags_2[i] as int),
        ];
        let ds = ser_slice::<String>(b.coeff_block_description[i]);
        let cs = ser_slice::<Float>(b.coeff_block_content[i]);
        assert(f(i) =~= h + ds + cs);
        lemma_at_split(ls, p, h + ds, cs);
        lemma_at_split(ls, p, h, ds);
        lemma_at_index(ls, p, h, 0);
        lemma_at_index(ls, p, h, 1);
        lemma_count_rt(ls, p, b.coeff_info_flags_1[i] as nat);
        lemma_count_rt(ls, p + 1, b.coeff_info_flags_2[i] as nat);
        assert(all_writable::<String>(b.coeff_block_description[i]));
        lemma_take_counted_rt::<String>(ls, p + 2, b.coeff_block_description[i]);
        lemma_take_counted_rt::<Float>(ls, p + 2 + ds.len(), b.coeff_block_content[i]);
        assert(Seq::new((n - (i + 1)) as nat, |k: int| ser_coeff_item(b, i + 1 + k)) =~= Seq::new(
            (n - i - 1) as nat,
            |k: int| f(i + 1 + k),
        ));
        lemma_coeff_items_rt(ls, p + f(i).len(), b, i + 1);
        assert(seq![b.coeff_info_flags_1[i]] + b.coeff_info_flags_1.subrange(i + 1, n)
            =~= b.coeff_info_flags_1.subrange(i, n));
        assert(seq![b.coeff_info_flags_2[i]] + b.coeff_info_flags_2.subrange(i + 1, n)
            =~= b.coeff_info_flags_2.subrange(i, n));
        assert(seq![b.coeff_block_description[i]] + b.coeff_block_description.subrange(i + 1, n)
            =~= b.coeff_block_description.subrange(i, n));
        assert(seq![b.coeff_block_content[i]] + b.coeff_block_content.subrange(i + 1, n)
            =~= b.coeff_block_content.subrange(i, n));
    }
}

pub open spec fn block_head_lines(b: SpecBlock) -> Lines {
    seq![
        separator(),
        count_line(b.unit as int),
        flag_line(b.data_block),
        flag_line(b.mult_block),
        count_line(b.contribution_type as int),
        count_line(b.contribution_order as int),
        count_line(b.scale_format as int),
    ] + ser_slice::<String>(b.description) + ser_slice::<String>(b.code_description)
}

proof fn lemma_flag_rt(ls: Lines, p: int, f: bool)
    requires
        at(ls, p, seq![flag_line(f)]),
    ensures
        sp_take::<usize>(ls, p) matches Ok((v, q)) && q == p + 1 && (v == 1) == f,
{
    if f {
        lemma_count_rt(ls, p, 1);
    } else {
        lemma_count_rt(ls, p, 0);
    }
}

proof fn lemma_block_head_rt(ls: Lines, p: int, b: SpecBlock)
    requires
        all_writable::<String>(b.description),
        b.description.len() <= usize::MAX,
        all_writable::<String>(b.code_description),
        b.code_description.len() <= usize::MAX,
        at(ls, p, block_head_lines(b)),
    ensures
        sp_block_head(ls, p) == Ok::<((usize, bool, bool, usize, usize, usize, Seq<Text>, Seq<Text>), int), SpecFailure>(
            (
                (
                    b.unit,
                    b.data_block,
                    b.mult_block,
                    b.contribution_type,
                    b.contribution_order,
                    b.scale_format,
                    b.description,
                    b.code_description,
                ),
                p + block_head_lines(b).len(),
            ),
        ),
{
    let h: Lines = seq![
        separator(),
        count_line(b.unit as int),
        flag_line(b.data_block),
        flag_line(b.mult_block),
        count_line(b.contribution_type as int),
        count_line(b.contribution_order as int),
        count_line(b.scale_format as int),
    ];
    let d1 = ser_slice::<String>(b.description);
    let d2 = ser_slice::<String>(b.code_description);
    lemma_at_split(ls, p, h + d1, d2);
    lemma_at_split(ls, p, h, d1);
    lemma_at_index(ls, p, h, 0);
    lemma_at_index(ls, p, h, 1);
    lemma_at_index(ls, p, h, 2);
    lemma_at_index(ls, p, h, 3);
    lemma_at_index(ls, p, h, 4);
    lemma_at_index(ls, p, h, 5);
    lemma_at_index(ls, p, h, 6);
    lemma_count_rt(ls, p + 1, b.unit as nat);
    lemma_flag_rt(ls, p + 2, b.data_block);
    lemma_flag_rt(ls, p + 3, b.mult_block);
    lemma_count_rt(ls, p + 4, b.contribution_type as nat);
    lemma_count_rt(ls, p + 5, b.contribution_order as nat);
    lemma_count_rt(ls, p + 6, b.scale_format as nat);
    lemma_take_counted_rt::<String>(ls, p + 7, b.description);
    lemma_take_counted_rt::<String>(ls, p + 7 + d1.len(), b.code_description);
}

/// A block reads back.
#[verifier::spinoff_prover]
#[verifier::rlimit(60)]
pub proof fn lemma_block_rt(ls: Lines, p: int, b: SpecBlock, version: usize, n_bins: usize)
    requires
        block_ok(b, n_bins),
        version >= 25000,
        at(ls, p, ser_block(b)),
    ensures
        sp_block(ls, p, version, n_bins) == Ok::<(SpecBlock, int), SpecFailure>((b, p + ser_block(b).len())),
{
    reveal(ser_block);
    reveal(sp_block);
    reveal(block_ok);
    let hl = block_head_lines(b);
    let dl = ser_data(b.data);
    let items = Seq::new(b.coeff_info_flags_1.len(), |i: int| ser_coeff_item(b, i));
    let cl = counted(items);
    assert(ser_block(b) =~= hl + dl + cl);
    lemma_at_split(ls, p, hl + dl, cl);
    lemma_at_split(ls, p, hl, dl);
    lemma_block_head_rt(ls, p, b);
    let q1 = p + hl.len();
    if b.data_block {
        lemma_data_block_rt(ls, q1, b.data, n_bins as nat);
    } else if b.mult_block {
        lemma_data_block_rt(ls, q1, b.data, n_bins as nat);
    } else {
        reveal(ser_data);
        lemma_theory_rt(ls, q1, b.data, n_bins, b.scale_format);
    }
    let q2 = q1 + dl.len();
    lemma_at_split(ls, q2, seq![count_line(items.len() as int)], concat(items));
    lemma_count_rt(ls, q2, items.len());
    assert(Seq::new((b.coeff_info_flags_1.len() - 0) as nat, |k: int| ser_coeff_item(b, 0 + k)) =~= items);
    lemma_coeff_items_rt(ls, q2 + 1, b, 0);
    assert(b.coeff_info_flags_1.subrange(0, items.len() as int) =~= b.coeff_info_flags_1);
    assert(b.coeff_info_flags_2.subrange(0, items.len() as int) =~= b.coeff_info_flags_2);
    assert(b.coeff_block_description.subrange(0, items.len() as int) =~= b.coeff_block_description);
    assert(b.coeff_block_content.subrange(0, items.len() as int) =~= b.coeff_block_content);
}


proof fn lemma_blocks_rt(ls: Lines, p: int, blocks: Seq<SpecBlock>, version: usize, n_bins: usize, i: int)
    requires
        version >= 25000,
        0 <= i <= blocks.len(),
        forall|k: int| 0 <= k < blocks.len() ==> #[trigger] block_ok(blocks[k], n_bins),
        at(ls, p, concat(Seq::new((blocks.len() - i) as nat, |k: int| ser_block(blocks[i + k])))),
    ensures
        sp_blocks(ls, p, version, n_bins, blocks.len() as int, i) == Ok::<(Seq<SpecBlock>, int), SpecFailure>(
            (
                blocks.subrange(i, blocks.len() as int),
                p + concat(Seq::new((blocks.len() - i) as nat, |k: int| ser_block(blocks[i + k]))).len(),
            ),
        ),
    decreases blocks.len() - i,
{
    let n = blocks.len() as int;
    let f = |k: int| ser_block(blocks[k]);
    assert(Seq::new((n - i) as nat, |k: int| ser_block(blocks[i + k])) =~= Seq::new(
        (n - i) as nat,
        |k: int| f(i + k),
    ));
    if i == n {
        lemma_concat_shift_end(f, n);
        assert(blocks.subrange(i, n) =~= Seq::<SpecBlock>::empty());
    } else {
        lemma_concat_shift(f, i, n);
        lemma_at_split(ls, p, f(i), concat(Seq::new((n - i - 1) as nat, |k: int| f(i + 1 + k))));
        assert(block_ok(blocks[i], n_bins));
        lemma_block_rt(ls, p, blocks[i], version, n_bins);
        assert(Seq::new((n - (i + 1)) as nat, |k: int| ser_block(blocks[i + 1 + k])) =~= Seq::new(
            (n - i - 1) as nat,
            |k: int| f(i + 1 + k),
        ));
        lemma_blocks_rt(ls, p + f(i).len(), blocks, version, n_bins, i + 1);
        assert(seq![blocks[i]] + blocks.subrange(i + 1, n) =~= blocks.subrange(i, n));
    }
}

/// A table can be written and read back: a version that holds the
/// coefficient information, one block for each contribution and table of
/// data, and metadata, binning and blocks that can be written and read back.
pub open spec fn file_ok(t: SpecFile) -> bool {
    &&& metadata_ok(t.metadata)
    &&& bins_ok(t.bin_info)
    &&& t.metadata.table_version >= 25000
    &&& t.blocks.len() == t.metadata.n_contrib + t.metadata.n_data
    &&& t.blocks.len() <= usize::MAX
    &&& forall|i: int| 0 <= i < t.blocks.len() ==> #[trigger] block_ok(t.blocks[i], t.bin_info.bins.len() as usize)
}

/// What reading a written table gives: the table, with no user blocks.
pub open spec fn as_read(t: SpecFile) -> SpecFile {
    SpecFile { metadata: SpecMetadata { n_user: 0, ..t.metadata }, ..t }
}

/// Reading the lines of a written table gives the table back, without user
/// blocks.
#[verifier::spinoff_prover]
#[verifier::rlimit(80)]
pub proof fn lemma_read_written_lines(t: SpecFile)
    requires
        file_ok(t),
    ensures
        sp_read(ser_file(t)) == Ok::<SpecFile, SpecFailure>(as_read(t)),
{
    reveal(ser_file);
    let ls = ser_file(t);
    let m = ser_metadata(t.metadata);
    let b = ser_bins(t.bin_info);
    let bl = concat(Seq::new(t.blocks.len(), |i: int| ser_block(t.blocks[i])));
    let z: Lines = seq![count_line(0)];
    let e: Lines = seq![separator(), separator()];
    assert(ls =~= seq![separator()] + m + b + z + bl + e);
    assert(at(ls, 0, ls)) by {
        assert(ls.subrange(0, ls.len() as int) =~= ls);
    }
    lemma_at_split(ls, 0, seq![separator()] + m + b + z + bl, e);
    lemma_at_split(ls, 0, seq![separator()] + m + b + z, bl);
    lemma_at_split(ls, 0, seq![separator()] + m + b, z);
    lemma_at_split(ls, 0, seq![separator()] + m, b);
    lemma_metadata_rt(ls, t.metadata);
    let p2: int = 1 + m.len() as int;
    lemma_bins_rt(ls, p2, t.bin_info);
    let p3: int = p2 + b.len() as int;
    lemma_at_index(ls, p3, z, 0);
    lemma_take_rt::<isize>(ls, p3, 0);
    assert(crate::reader::sp_norm(ls, p3, t.bin_info.diff_bin.len()) == Ok::<int, SpecFailure>(p3 + 1));
    let p4 = p3 + 1;
    assert(Seq::new((t.blocks.len() - 0) as nat, |k: int| ser_block(t.blocks[0 + k])) =~= Seq::new(
        t.blocks.len(),
        |i: int| ser_block(t.blocks[i]),
    ));
    lemma_blocks_rt(ls, p4, t.blocks, t.metadata.table_version, t.bin_info.bins.len() as usize, 0);
    assert(t.blocks.subrange(0, t.blocks.len() as int) =~= t.blocks);
    let p5: int = p4 + bl.len() as int;
    lemma_at_index(ls, p5, e, 0);
    lemma_at_index(ls, p5, e, 1);
    assert(sp_sep(ls, p5) == Ok::<int, SpecFailure>(p5 + 1));
    assert(sp_sep(ls, p5 + 1) == Ok::<int, SpecFailure>(p5 + 2));
}


// ---------------------------------------------------------------------------
// The lines of a written table can be told apart in its text
// ---------------------------------------------------------------------------

pub open spec fn lines_safe(l: Lines) -> bool {
    forall|i: int| 0 <= i < l.len() ==> is_line_safe(#[trigger] l[i])
}

proof fn lemma_safe_add(a: Lines, b: Lines)
    requires
        lines_safe(a),
        lines_safe(b),
    ensures
        lines_safe(a + b),
{
    assert forall|i: int| 0 <= i < (a + b).len() implies is_line_safe(#[trigger] (a + b)[i]) by {
        if i < a.len() {
            assert((a + b)[i] == a[i]);
        } else {
            assert((a + b)[i] == b[i - a.len()]);
        }
    }
}

proof fn lemma_safe_concat(parts: Seq<Lines>)
    requires
        forall|i: int| 0 <= i < parts.len() ==> lines_safe(#[trigger] parts[i]),
    ensures
        lines_safe(concat(parts)),
    decreases parts.len(),
{
    if parts.len() > 0 {
        lemma_safe_concat(parts.drop_last());
        lemma_safe_add(concat(parts.drop_last()), parts.last());
    }
}

proof fn lemma_safe_count(n: int)
    requires
        n >= 0,
    ensures
        is_line_safe(count_line(n)),
        lines_safe(seq![count_line(n)]),
{
    crate::text::lemma_decimal_digits(n as nat);
    let d = crate::text::decimal(n as nat);
    assert(crate::text::is_digit(d[d.len() - 1]));
    assert forall|i: int| 0 <= i < d.len() implies #[trigger] d[i] != '\n' by {
        assert(crate::text::is_digit(d[i]));
    }
}

proof fn lemma_safe_one<T: LineValue>(v: T::V)
    requires
        T::writable(v),
    ensures
        lines_safe(seq![T::spec_to_line(v)]),
{
    T::lemma_line_roundtrip(v);
}

proof fn lemma_safe_iter<T: LineValue>(vs: Seq<T::V>)
    requires
        all_writable::<T>(vs),
    ensures
        lines_safe(ser_iter::<T>(vs)),
{
    assert forall|i: int| 0 <= i < vs.len() implies is_line_safe(#[trigger] ser_iter::<T>(vs)[i]) by {
        assert(T::writable(vs[i]));
        T::lemma_line_roundtrip(vs[i]);
    }
}

proof fn lemma_safe_slice<T: LineValue>(vs: Seq<T::V>)
    requires
        all_writable::<T>(vs),
    ensures
        lines_safe(ser_slice::<T>(vs)),
{
    lemma_safe_count(vs.len() as int);
    lemma_safe_iter::<T>(vs);
    lemma_safe_add(seq![crate::text::decimal(vs.len())], ser_iter::<T>(vs));
}

proof fn lemma_safe_rows<T: LineValue>(xss: Seq<Seq<T::V>>)
    requires
        forall|i: int| 0 <= i < xss.len() ==> #[trigger] all_writable::<T>(xss[i]),
    ensures
        lines_safe(ser_rows::<T>(xss)),
{
    let parts = Seq::new(xss.len(), |i: int| ser_slice::<T>(xss[i]));
    assert forall|i: int| 0 <= i < parts.len() implies lines_safe(#[trigger] parts[i]) by {
        assert(all_writable::<T>(xss[i]));
        lemma_safe_slice::<T>(xss[i]);
    }
    lemma_safe_concat(parts);
}

proof fn lemma_safe_nested<T: LineValue>(xss: Seq<Seq<T::V>>)
    requires
        forall|i: int| 0 <= i < xss.len() ==> #[trigger] all_writable::<T>(xss[i]),
    ensures
        lines_safe(ser_nested::<T>(xss)),
{
    lemma_safe_count(xss.len() as int);
    lemma_safe_rows::<T>(xss);
    lemma_safe_add(seq![crate::text::decimal(xss.len())], ser_rows::<T>(xss));
}

proof fn lemma_safe_flat<T: LineValue>(xss: Seq<Seq<T::V>>)
    requires
        forall|i: int| 0 <= i < xss.len() ==> #[trigger] all_writable::<T>(xss[i]),
    ensures
        lines_safe(ser_flat::<T>(xss)),
{
    let parts = Seq::new(xss.len(), |i: int| ser_iter::<T>(xss[i]));
    assert forall|i: int| 0 <= i < parts.len() implies lines_safe(#[trigger] parts[i]) by {
        assert(all_writable::<T>(xss[i]));
        lemma_safe_iter::<T>(xss[i]);
    }
    lemma_safe_concat(parts);
}

proof fn lemma_safe_separator()
    ensures
        is_line_safe(separator()),
        lines_safe(seq![separator()]),
{
    assert(separator().last() == '0');
}

proof fn lemma_safe_metadata(m: SpecMetadata)
    requires
        metadata_ok(m),
    ensures
        lines_safe(ser_metadata(m)),
{
    reveal(ser_metadata);
    lemma_safe_count(m.table_version as int);
    lemma_safe_count(m.n_contrib as int);
    lemma_safe_count(m.n_mult as int);
    lemma_safe_count(m.n_data as int);
    lemma_safe_count(0);
    lemma_safe_separator();
    lemma_safe_count(m.unit as int);
    lemma_safe_count(m.alphas_ord as int);
    lemma_safe_one::<Float>(m.cms_energy);
    let a: Lines = seq![
        count_line(m.table_version as int),
        m.scenario_name,
        count_line(m.n_contrib as int),
        count_line(m.n_mult as int),
        count_line(m.n_data as int),
        count_line(0),
        count_line(0),
        count_line(0),
        count_line(0),
        separator(),
        count_line(m.unit as int),
    ];
    assert(lines_safe(a));
    lemma_safe_slice::<String>(m.description);
    let b: Lines = seq![m.cms_energy, count_line(m.alphas_ord as int)];
    assert(lines_safe(b));
    lemma_safe_add(a, ser_slice::<String>(m.description));
    lemma_safe_add(a + ser_slice::<String>(m.description), b);
}

proof fn lemma_safe_bins(bi: SpecBinInfo)
    requires
        bins_ok(bi),
    ensures
        lines_safe(ser_bins(bi)),
{
    reveal(ser_bins);
    let n = bi.bins.len();
    lemma_safe_count(n as int);
    lemma_safe_count(bi.bins[0].values.len() as int);
    let a: Lines = seq![count_line(n as int), count_line(bi.bins[0].values.len() as int)];
    assert(lines_safe(a));
    lemma_safe_iter::<String>(bi.dim_labels);
    assert(all_writable::<usize>(bi.diff_bin));
    lemma_safe_iter::<usize>(bi.diff_bin);
    let parts = Seq::new(n, |i: int| ser_bin(bi.bins[i]));
    assert forall|i: int| 0 <= i < parts.len() implies lines_safe(#[trigger] parts[i]) by {
        let b = bi.bins[i];
        let ps = Seq::new(b.values.len(), |j: int| ser_position(b.values[j]));
        assert forall|j: int| 0 <= j < ps.len() implies lines_safe(#[trigger] ps[j]) by {
            assert(position_ok(bi.bins[i].values[j], bi.diff_bin[j]));
            match b.values[j] {
                SpecBinPosition::Central(c) => {
                    lemma_safe_one::<Float>(c);
                },
                SpecBinPosition::Boundaries { low, high } => {
                    lemma_safe_one::<Float>(low);
                    lemma_safe_one::<Float>(high);
                    lemma_safe_add(seq![low], seq![high]);
                    assert(seq![low] + seq![high] =~= seq![low, high]);
                },
            }
        }
        lemma_safe_concat(ps);
    }
    lemma_safe_concat(parts);
    let sizes = Seq::new(n, |i: int| bi.bins[i].size);
    assert forall|i: int| 0 <= i < sizes.len() implies is_line_safe(#[trigger] sizes[i]) by {
        assert(Float::writable(bi.bins[i].size));
    }
    lemma_safe_add(a, ser_iter::<String>(bi.dim_labels));
    lemma_safe_add(a + ser_iter::<String>(bi.dim_labels), ser_iter::<usize>(bi.diff_bin));
    lemma_safe_add(a + ser_iter::<String>(bi.dim_labels) + ser_iter::<usize>(bi.diff_bin), concat(parts));
    lemma_safe_add(
        a + ser_iter::<String>(bi.dim_labels) + ser_iter::<usize>(bi.diff_bin) + concat(parts),
        sizes,
    );
}


proof fn lemma_safe_data_rows(
    centers: Seq<Text>,
    values: Seq<Text>,
    uncorr_low: Seq<Seq<Text>>,
    uncorr_high: Seq<Seq<Text>>,
    corr_low: Seq<Seq<Text>>,
    corr_high: Seq<Seq<Text>>,
    nu: nat,
    nc: nat,
)
    requires
        columns_ok(centers, values, uncorr_low, uncorr_high, corr_low, corr_high, nu, nc, centers.len()),
    ensures
        lines_safe(ser_data_rows(centers, values, uncorr_low, uncorr_high, corr_low, corr_high, nu, nc)),
{
    let parts = Seq::new(
        centers.len(),
        |i: int| ser_data_row(centers, values, uncorr_low, uncorr_high, corr_low, corr_high, nu, nc, i),
    );
    assert forall|i: int| 0 <= i < parts.len() implies lines_safe(#[trigger] parts[i]) by {
        assert(uncorr_low[i].len() == nu);
        assert(Float::writable(centers[i]));
        assert(Float::writable(values[i]));
        let pu = Seq::new(nu, |j: int| seq![uncorr_low[i][j], uncorr_high[i][j]]);
        let pc = Seq::new(nc, |j: int| seq![corr_low[i][j], corr_high[i][j]]);
        assert forall|j: int| 0 <= j < pu.len() implies lines_safe(#[trigger] pu[j]) by {
            assert(Float::writable(uncorr_low[i][j]));
            assert(Float::writable(uncorr_high[i][j]));
        }
        assert forall|j: int| 0 <= j < pc.len() implies lines_safe(#[trigger] pc[j]) by {
            assert(Float::writable(corr_low[i][j]));
            assert(Float::writable(corr_high[i][j]));
        }
        lemma_safe_concat(pu);
        lemma_safe_concat(pc);
        assert(lines_safe(seq![centers[i], values[i]]));
        lemma_safe_add(seq![centers[i], values[i]], concat(pu));
        lemma_safe_add(seq![centers[i], values[i]] + concat(pu), concat(pc));
    }
    lemma_safe_concat(parts);
}

proof fn lemma_safe_data(d: SpecBlockData, n_bins: nat)
    requires
        data_ok(d, n_bins),
    ensures
        lines_safe(ser_data(d)),
{
    reveal(ser_data);
    match d {
        SpecBlockData::DataBlock {
            uncorr_sources,
            corr_sources,
            centers,
            values,
            uncorr_low,
            uncorr_high,
            corr_low,
            corr_high,
            corr_matrix,
        } => {
            lemma_safe_slice::<String>(uncorr_sources);
            lemma_safe_slice::<String>(corr_sources);
            lemma_safe_data_rows(
                centers,
                values,
                uncorr_low,
                uncorr_high,
                corr_low,
                corr_high,
                uncorr_sources.len(),
                corr_sources.len(),
            );
            lemma_safe_count(corr_matrix.len() as int);
            assert forall|i: int| 0 <= i < corr_matrix.len() implies #[trigger] all_writable::<Float>(
                corr_matrix[i],
            ) by {}
            lemma_safe_flat::<Float>(corr_matrix);
            let r = ser_data_rows(
                centers,
                values,
                uncorr_low,
                uncorr_high,
                corr_low,
                corr_high,
                uncorr_sources.len(),
                corr_sources.len(),
            );
            lemma_safe_add(ser_slice::<String>(uncorr_sources), ser_slice::<String>(corr_sources));
            lemma_safe_add(ser_slice::<String>(uncorr_sources) + ser_slice::<String>(corr_sources), r);
            lemma_safe_add(
                ser_slice::<String>(uncorr_sources) + ser_slice::<String>(corr_sources) + r,
                seq![count_line(corr_matrix.len() as int)],
            );
            lemma_safe_add(
                ser_slice::<String>(uncorr_sources) + ser_slice::<String>(corr_sources) + r + seq![
                    count_line(corr_matrix.len() as int),
                ],
                ser_flat::<Float>(corr_matrix),
            );
        },
        SpecBlockData::MultBlock {
            uncorr_sources,
            corr_sources,
            centers,
            values,
            uncorr_low,
            uncorr_high,
            corr_low,
            corr_high,
        } => {
            lemma_safe_slice::<String>(uncorr_sources);
            lemma_safe_slice::<String>(corr_sources);
            lemma_safe_data_rows(
                centers,
                values,
                uncorr_low,
                uncorr_high,
                corr_low,
                corr_high,
                uncorr_sources.len(),
                corr_sources.len(),
            );
            let r = ser_data_rows(
                centers,
                values,
                uncorr_low,
                uncorr_high,
                corr_low,
                corr_high,
                uncorr_sources.len(),
                corr_sources.len(),
            );
            lemma_safe_add(ser_slice::<String>(uncorr_sources), ser_slice::<String>(corr_sources));
            lemma_safe_add(ser_slice::<String>(uncorr_sources) + ser_slice::<String>(corr_sources), r);
        },
        SpecBlockData::TheoryBlock { .. } => {},
    }
}

proof fn lemma_safe_weights(w: SpecWeightInfo, n_events: isize)
    requires
        weights_ok(w, n_events),
    ensures
        lines_safe(ser_weight_info(w, n_events)),
{
    reveal(ser_weight_info);
    let t: Lines = if n_events <= -2 {
        seq![count_line(w.n_tables as int)]
    } else {
        Seq::<Text>::empty()
    };
    lemma_safe_count(w.n_tables as int);
    lemma_safe_count(w.n_entries as int);
    let a: Lines = seq![w.n_events, w.norm];
    let b: Lines = seq![count_line(w.n_entries as int), w.sum_weights_sq, w.sum_sig_sq, w.sum_sig];
    assert(lines_safe(a));
    assert(lines_safe(b));
    assert(lines_safe(t));
    lemma_safe_nested::<Float>(w.weight_sq_obs);
    lemma_safe_nested::<Float>(w.sig_sq_obs);
    lemma_safe_nested::<Float>(w.sig_obs);
    lemma_safe_nested::<usize>(w.n_events_obs);
    let m1 = ser_nested::<Float>(w.weight_sq_obs);
    let m2 = ser_nested::<Float>(w.sig_sq_obs);
    let m3 = ser_nested::<Float>(w.sig_obs);
    let m4 = ser_nested::<usize>(w.n_events_obs);
    lemma_safe_add(a, t);
    lemma_safe_add(a + t, b);
    lemma_safe_add(a + t + b, m1);
    lemma_safe_add(a + t + b + m1, m2);
    lemma_safe_add(a + t + b + m1 + m2, m3);
    lemma_safe_add(a + t + b + m1 + m2 + m3, m4);
    assert(ser_weight_info(w, n_events) =~= a + t + b + m1 + m2 + m3 + m4);
}

proof fn lemma_safe_signed(n: isize)
    ensures
        lines_safe(seq![crate::text::signed_decimal(n as int)]),
{
    lemma_safe_one::<isize>(n);
}

proof fn lemma_safe_pdf(pdf: SpecPDFInfo)
    requires
        pdf_ok(pdf),
    ensures
        lines_safe(ser_pdf_info(pdf)),
{
    reveal(ser_pdf_info);
    assert(all_writable::<usize>(pdf.pdfs));
    assert(all_writable::<usize>(pdf.fragmentation_functions));
    lemma_safe_slice::<usize>(pdf.pdfs);
    lemma_safe_slice::<usize>(pdf.fragmentation_functions);
    lemma_safe_count(pdf.n_pdf_dim as int);
    lemma_safe_count(pdf.n_ff_dim as int);
    lemma_safe_count(pdf.n_subproc as int);
    lemma_safe_count(pdf.pdf_flag_1 as int);
    lemma_safe_count(pdf.pdf_flag_2 as int);
    lemma_safe_count(pdf.pdf_flag_3 as int);
    lemma_safe_count(0);
    let b: Lines = seq![count_line(pdf.n_pdf_dim as int)];
    let d: Lines = seq![
        count_line(pdf.n_ff_dim as int),
        count_line(pdf.n_subproc as int),
        count_line(pdf.pdf_flag_1 as int),
        count_line(pdf.pdf_flag_2 as int),
        count_line(pdf.pdf_flag_3 as int),
    ];
    assert(lines_safe(b));
    assert(lines_safe(d));
    let fls = Seq::new(pdf.parton_flavors.len(), |i: int| ser_flavors(pdf.parton_flavors[i]));
    assert forall|i: int| 0 <= i < fls.len() implies lines_safe(#[trigger] fls[i]) by {
        let sp = pdf.parton_flavors[i];
        let ps = Seq::new(sp.len(), |k: int| ser_flavor_pair(sp[k]));
        assert forall|k: int| 0 <= k < ps.len() implies lines_safe(#[trigger] ps[k]) by {
            lemma_safe_signed(sp[k].0);
            lemma_safe_signed(sp[k].1);
            lemma_safe_add(seq![crate::text::signed_decimal(sp[k].0 as int)], seq![crate::text::signed_decimal(sp[k].1 as int)]);
            assert(ps[k] =~= seq![crate::text::signed_decimal(sp[k].0 as int)] + seq![
                crate::text::signed_decimal(sp[k].1 as int),
            ]);
        }
        lemma_safe_concat(ps);
        lemma_safe_count(sp.len() as int);
        lemma_safe_add(seq![count_line(sp.len() as int)], concat(ps));
    }
    lemma_safe_concat(fls);
    let e: Lines = if pdf.pdf_flag_2 == 0 {
        seq![count_line(0)] + concat(fls)
    } else {
        Seq::<Text>::empty()
    };
    lemma_safe_add(seq![count_line(0)], concat(fls));
    let a = ser_slice::<usize>(pdf.pdfs);
    let c = ser_slice::<usize>(pdf.fragmentation_functions);
    lemma_safe_add(a, b);
    lemma_safe_add(a + b, c);
    lemma_safe_add(a + b + c, d);
    lemma_safe_add(a + b + c + d, e);
    assert(ser_pdf_info(pdf) =~= a + b + c + d + e);
}

proof fn lemma_safe_g4(x: Seq<Seq<Text>>, n: nat)
    requires
        forall|l: int| 0 <= l < x.len() ==> #[trigger] dense1(x[l], n),
    ensures
        lines_safe(ser_g4(x)),
{
    lemma_safe_count(x.len() as int);
    assert forall|l: int| 0 <= l < x.len() implies #[trigger] all_writable::<Float>(x[l]) by {
        assert(dense1(x[l], n));
    }
    lemma_safe_flat::<Float>(x);
    lemma_safe_add(seq![count_line(x.len() as int)], ser_flat::<Float>(x));
}

proof fn lemma_safe_grid5(g: SpecGrid5, d: Dims)
    requires
        dense5(g, d),
    ensures
        lines_safe(ser_grid5(g)),
{
    let p1 = Seq::new(g.len(), |i: int| ser_g2(g[i]));
    assert forall|i: int| 0 <= i < p1.len() implies lines_safe(#[trigger] p1[i]) by {
        let y = g[i];
        assert(dense4(y, d.1 as nat, d.2 as nat, d.3 as nat, d.4 as nat));
        let p2 = Seq::new(y.len(), |j: int| ser_g3(y[j]));
        assert forall|j: int| 0 <= j < p2.len() implies lines_safe(#[trigger] p2[j]) by {
            let z = y[j];
            assert(dense3(z, d.2 as nat, d.3 as nat, d.4 as nat));
            let p3 = Seq::new(z.len(), |k: int| ser_g4(z[k]));
            assert forall|k: int| 0 <= k < p3.len() implies lines_safe(#[trigger] p3[k]) by {
                assert(dense2(z[k], d.3 as nat, d.4 as nat));
                lemma_safe_g4(z[k], d.4 as nat);
            }
            lemma_safe_concat(p3);
            lemma_safe_count(z.len() as int);
            lemma_safe_add(seq![count_line(z.len() as int)], concat(p3));
        }
        lemma_safe_concat(p2);
        lemma_safe_count(y.len() as int);
        lemma_safe_add(seq![count_line(y.len() as int)], concat(p2));
    }
    lemma_safe_concat(p1);
    lemma_safe_count(g.len() as int);
    lemma_safe_add(seq![count_line(g.len() as int)], concat(p1));
}

proof fn lemma_safe_opt_grid(g: Option<SpecGrid5>, d: Dims, present: bool)
    requires
        opt_dense(g, d, present),
    ensures
        lines_safe(ser_opt_grid(g)),
{
    match g {
        Some(x) => {
            lemma_safe_grid5(x, d);
        },
        None => {},
    }
}

proof fn lemma_safe_scales(sn: Seq<Seq<Text>>, n_bins: nat)
    requires
        scales_ok(sn, n_bins),
    ensures
        lines_safe(ser_nested::<Float>(sn)),
{
    assert forall|i: int| 0 <= i < sn.len() implies #[trigger] all_writable::<Float>(sn[i]) by {
        assert(dense1(sn[i], sn[0].len()));
    }
    lemma_safe_nested::<Float>(sn);
}

#[verifier::spinoff_prover]
#[verifier::rlimit(40)]
proof fn lemma_safe_grid(
    g: SpecGrid,
    sf: usize,
    n_bins: usize,
    ns: usize,
    n_pdf_dim: usize,
    x1: Seq<Seq<Text>>,
    x2: Seq<Seq<Text>>,
)
    requires
        flex_ok(g, sf, n_bins, ns, n_pdf_dim, x1, x2),
    ensures
        lines_safe(ser_grid(g)),
{
    reveal(ser_grid);
    match g {
        SpecGrid::Flex {
            scale_node_1,
            scale_node_2,
            grid,
            grid_f,
            grid_r,
            grid_rr,
            grid_ff,
            grid_rf,
            sigma_ref_mixed,
            sigma_ref_s1,
            sigma_ref_s2,
        } => {
            let d = flex_dims(n_bins, sp_nxmax(n_pdf_dim, x1, x2)->Ok_0, scale_node_1, scale_node_2, ns);
            lemma_safe_scales(scale_node_1, n_bins as nat);
            lemma_safe_scales(scale_node_2, n_bins as nat);
            lemma_safe_grid5(grid, d);
            lemma_safe_opt_grid(grid_f, d, sf >= 5);
            lemma_safe_opt_grid(grid_r, d, sf >= 5);
            lemma_safe_opt_grid(grid_rr, d, sf >= 6);
            lemma_safe_opt_grid(grid_ff, d, sf >= 7);
            lemma_safe_opt_grid(grid_rf, d, sf >= 7);
            lemma_safe_g4(sigma_ref_mixed, ns as nat);
            lemma_safe_g4(sigma_ref_s1, ns as nat);
            lemma_safe_g4(sigma_ref_s2, ns as nat);
            let a = ser_nested::<Float>(scale_node_1);
            let b = ser_nested::<Float>(scale_node_2);
            let c = ser_grid5(grid);
            let o1 = ser_opt_grid(grid_f);
            let o2 = ser_opt_grid(grid_r);
            let o3 = ser_opt_grid(grid_rr);
            let o4 = ser_opt_grid(grid_ff);
            let o5 = ser_opt_grid(grid_rf);
            let s1 = ser_g4(sigma_ref_mixed);
            let s2 = ser_g4(sigma_ref_s1);
            let s3 = ser_g4(sigma_ref_s2);
            lemma_safe_add(a, b);
            lemma_safe_add(a + b, c);
            lemma_safe_add(a + b + c, o1);
            lemma_safe_add(a + b + c + o1, o2);
            lemma_safe_add(a + b + c + o1 + o2, o3);
            lemma_safe_add(a + b + c + o1 + o2 + o3, o4);
            lemma_safe_add(a + b + c + o1 + o2 + o3 + o4, o5);
            lemma_safe_add(a + b + c + o1 + o2 + o3 + o4 + o5, s1);
            lemma_safe_add(a + b + c + o1 + o2 + o3 + o4 + o5 + s1, s2);
            lemma_safe_add(a + b + c + o1 + o2 + o3 + o4 + o5 + s1 + s2, s3);
            assert(ser_grid(g) =~= a + b + c + o1 + o2 + o3 + o4 + o5 + s1 + s2 + s3);
        },
        SpecGrid::Fixed { .. } => {},
    }
}


#[verifier::spinoff_prover]
#[verifier::rlimit(60)]
proof fn lemma_safe_theory(d: SpecBlockData, n_bins: usize, sf: usize)
    requires
        theory_ok(d, n_bins, sf),
    ensures
        lines_safe(ser_theory(d)),
{
    reveal(ser_theory);
    match d {
        SpecBlockData::TheoryBlock {
            reference_table,
            i_scale_dependence,
            n_events,
            weight_info,
            alphas_power,
            pdf_info,
            x1_nodes,
            x2_nodes,
            z_nodes,
            scale_dimension,
            scale_description,
            grid,
        } => {
            let hl = theory_head_lines(reference_table, i_scale_dependence, n_events, weight_info, alphas_power, pdf_info);
            let nl = theory_node_lines(x1_nodes, x2_nodes, z_nodes, scale_dimension, scale_description);
            let gl = ser_grid(grid);
            assert(ser_theory(d) =~= hl + nl + gl);
            // head
            let h: Lines = seq![
                flag_line(reference_table),
                count_line(i_scale_dependence as int),
                crate::text::signed_decimal(n_events as int),
            ];
            if reference_table {
                lemma_safe_count(1);
            } else {
                lemma_safe_count(0);
            }
            lemma_safe_count(i_scale_dependence as int);
            lemma_safe_signed(n_events);
            assert(is_line_safe(flag_line(reference_table)));
            assert(seq![crate::text::signed_decimal(n_events as int)][0] == crate::text::signed_decimal(
                n_events as int,
            ));
            assert(is_line_safe(crate::text::signed_decimal(n_events as int)));
            assert(lines_safe(h));
            let wl: Lines = match weight_info {
                Some(w) => ser_weight_info(w, n_events),
                None => Seq::<Text>::empty(),
            };
            match weight_info {
                Some(w) => {
                    lemma_safe_weights(w, n_events);
                },
                None => {},
            }
            lemma_safe_count(alphas_power as int);
            lemma_safe_pdf(pdf_info);
            lemma_safe_add(h, wl);
            lemma_safe_add(h + wl, seq![count_line(alphas_power as int)]);
            lemma_safe_add(h + wl + seq![count_line(alphas_power as int)], ser_pdf_info(pdf_info));
            assert(hl =~= h + wl + seq![count_line(alphas_power as int)] + ser_pdf_info(pdf_info));
            // nodes
            lemma_safe_rows::<Float>(x1_nodes);
            lemma_safe_rows::<Float>(x2_nodes);
            lemma_safe_rows::<Float>(z_nodes);
            lemma_safe_count(scale_dimension.len() as int);
            lemma_safe_count(scale_description.len() as int);
            let cn: Lines = seq![count_line(scale_dimension.len() as int), count_line(scale_description.len() as int)];
            assert(lines_safe(cn));
            assert(all_writable::<usize>(scale_dimension));
            lemma_safe_iter::<usize>(scale_dimension);
            lemma_safe_rows::<String>(scale_description);
            let r1 = ser_rows::<Float>(x1_nodes);
            let r2 = ser_rows::<Float>(x2_nodes);
            let r3 = ser_rows::<Float>(z_nodes);
            let sd = ser_iter::<usize>(scale_dimension);
            let sl = ser_rows::<String>(scale_description);
            lemma_safe_add(r1, r2);
            lemma_safe_add(r1 + r2, r3);
            lemma_safe_add(r1 + r2 + r3, cn);
            lemma_safe_add(r1 + r2 + r3 + cn, sd);
            lemma_safe_add(r1 + r2 + r3 + cn + sd, sl);
            // grid
            lemma_safe_grid(grid, sf, n_bins, pdf_info.n_subproc, pdf_info.n_pdf_dim, x1_nodes, x2_nodes);
            lemma_safe_add(hl, nl);
            lemma_safe_add(hl + nl, gl);
        },
        _ => {},
    }
}

#[verifier::spinoff_prover]
#[verifier::rlimit(40)]
proof fn lemma_safe_block(b: SpecBlock, n_bins: usize)
    requires
        block_ok(b, n_bins),
    ensures
        lines_safe(ser_block(b)),
{
    reveal(ser_block);
    reveal(block_ok);
    lemma_safe_separator();
    lemma_safe_count(b.unit as int);
    lemma_safe_count(if b.data_block { 1 } else { 0 });
    lemma_safe_count(if b.mult_block { 1 } else { 0 });
    lemma_safe_count(b.contribution_type as int);
    lemma_safe_count(b.contribution_order as int);
    lemma_safe_count(b.scale_format as int);
    let h: Lines = seq![
        separator(),
        count_line(b.unit as int),
        flag_line(b.data_block),
        flag_line(b.mult_block),
        count_line(b.contribution_type as int),
        count_line(b.contribution_order as int),
        count_line(b.scale_format as int),
    ];
    assert(lines_safe(h));
    lemma_safe_slice::<String>(b.description);
    lemma_safe_slice::<String>(b.code_description);
    if b.data_block || b.mult_block {
        lemma_safe_data(b.data, n_bins as nat);
    } else {
        reveal(ser_data);
        lemma_safe_theory(b.data, n_bins, b.scale_format);
    }
    let items = Seq::new(b.coeff_info_flags_1.len(), |i: int| ser_coeff_item(b, i));
    assert forall|i: int| 0 <= i < items.len() implies lines_safe(#[trigger] items[i]) by {
        lemma_safe_count(b.coeff_info_flags_1[i] as int);
        lemma_safe_count(b.coeff_info_flags_2[i] as int);
        let hh: Lines = seq![
            count_line(b.coeff_info_flags_1[i] as int),
            count_line(b.coeff_info_flags_2[i] as int),
        ];
        assert(lines_safe(hh));
        assert(all_writable::<String>(b.coeff_block_description[i]));
        lemma_safe_slice::<String>(b.coeff_block_description[i]);
        lemma_safe_slice::<Float>(b.coeff_block_content[i]);
        lemma_safe_add(hh, ser_slice::<String>(b.coeff_block_description[i]));
        lemma_safe_add(hh + ser_slice::<String>(b.coeff_block_description[i]), ser_slice::<Float>(b.coeff_block_content[i]));
        assert(items[i] =~= hh + ser_slice::<String>(b.coeff_block_description[i]) + ser_slice::<Float>(
            b.coeff_block_content[i],
        ));
    }
    lemma_safe_concat(items);
    lemma_safe_count(items.len() as int);
    lemma_safe_add(seq![count_line(items.len() as int)], concat(items));
    let d1 = ser_slice::<String>(b.description);
    let d2 = ser_slice::<String>(b.code_description);
    let dl = ser_data(b.data);
    let cl = counted(items);
    lemma_safe_add(h, d1);
    lemma_safe_add(h + d1, d2);
    lemma_safe_add(h + d1 + d2, dl);
    lemma_safe_add(h + d1 + d2 + dl, cl);
    assert(ser_block(b) =~= h + d1 + d2 + dl + cl);
}

proof fn lemma_safe_file(t: SpecFile)
    requires
        file_ok(t),
    ensures
        lines_safe(ser_file(t)),
{
    reveal(ser_file);
    lemma_safe_separator();
    lemma_safe_metadata(t.metadata);
    lemma_safe_bins(t.bin_info);
    lemma_safe_count(0);
    let parts = Seq::new(t.blocks.len(), |i: int| ser_block(t.blocks[i]));
    assert forall|i: int| 0 <= i < parts.len() implies lines_safe(#[trigger] parts[i]) by {
        assert(block_ok(t.blocks[i], t.bin_info.bins.len() as usize));
        lemma_safe_block(t.blocks[i], t.bin_info.bins.len() as usize);
    }
    lemma_safe_concat(parts);
    let e: Lines = seq![separator(), separator()];
    assert(lines_safe(e));
    let a = seq![separator()];
    let m = ser_metadata(t.metadata);
    let b = ser_bins(t.bin_info);
    let z: Lines = seq![count_line(0)];
    lemma_safe_add(a, m);
    lemma_safe_add(a + m, b);
    lemma_safe_add(a + m + b, z);
    lemma_safe_add(a + m + b + z, concat(parts));
    lemma_safe_add(a + m + b + z + concat(parts), e);
    assert(ser_file(t) =~= a + m + b + z + concat(parts) + e);
}

/// Reading the text of a written table gives the table back, without user
/// blocks, for every table that can be written and read back.
pub proof fn lemma_read_written(t: SpecFile)
    requires
        file_ok(t),
    ensures
        spec_read_str(join_lines(ser_file(t))) == Ok::<SpecFile, SpecFailure>(as_read(t)),
{
    lemma_safe_file(t);
    crate::text::lemma_split_join(ser_file(t));
    lemma_read_written_lines(t);
}


proof fn lemma_block_ok_writable(b: SpecBlock, n_bins: usize)
    requires
        block_ok(b, n_bins),
    ensures
        block_writable(b),
{
    reveal(block_ok);
    match b.data {
        SpecBlockData::DataBlock {
            uncorr_sources,
            corr_sources,
            centers,
            values,
            uncorr_low,
            uncorr_high,
            corr_low,
            corr_high,
            ..
        } => {
            assert forall|i: int| 0 <= i < centers.len() implies #[trigger] has_pairs(
                uncorr_low,
                uncorr_high,
                i,
                uncorr_sources.len(),
            ) && has_pairs(corr_low, corr_high, i, corr_sources.len()) by {
                assert(uncorr_low[i].len() == uncorr_sources.len());
            }
        },
        SpecBlockData::MultBlock {
            uncorr_sources,
            corr_sources,
            centers,
            values,
            uncorr_low,
            uncorr_high,
            corr_low,
            corr_high,
        } => {
            assert forall|i: int| 0 <= i < centers.len() implies #[trigger] has_pairs(
                uncorr_low,
                uncorr_high,
                i,
                uncorr_sources.len(),
            ) && has_pairs(corr_low, corr_high, i, corr_sources.len()) by {
                assert(uncorr_low[i].len() == uncorr_sources.len());
            }
        },
        SpecBlockData::TheoryBlock { .. } => {},
    }
}

/// A table that can be written and read back can be written.
pub proof fn lemma_file_ok_writable(t: SpecFile)
    requires
        file_ok(t),
    ensures
        file_writable(t),
{
    assert forall|i: int| 0 <= i < t.blocks.len() implies #[trigger] block_writable(t.blocks[i]) by {
        assert(block_ok(t.blocks[i], t.bin_info.bins.len() as usize));
        lemma_block_ok_writable(t.blocks[i], t.bin_info.bins.len() as usize);
    }
}

// ---------------------------------------------------------------------------
// The layout of a grid of flexible scales
// ---------------------------------------------------------------------------

/// The lines of a grid of flexible scales, field by field: the two lists of
/// scale nodes, the central grid, then the optional grids in the order F,
/// R, RR, FF, RF (each only where present), and the three reference tables.
pub open spec fn flex_text(
    sn1: Seq<Seq<Text>>,
    sn2: Seq<Seq<Text>>,
    c: SpecGrid5,
    f: Option<SpecGrid5>,
    r: Option<SpecGrid5>,
    rr: Option<SpecGrid5>,
    ff: Option<SpecGrid5>,
    rf: Option<SpecGrid5>,
    m: Seq<Seq<Text>>,
    s1: Seq<Seq<Text>>,
    s2: Seq<Seq<Text>>,
) -> Lines {
    crate::writer::ser_nested::<Float>(sn1) + crate::writer::ser_nested::<Float>(sn2)
        + crate::writer::ser_grid5(c) + crate::writer::ser_opt_grid(f) + crate::writer::ser_opt_grid(r)
        + crate::writer::ser_opt_grid(rr) + crate::writer::ser_opt_grid(ff) + crate::writer::ser_opt_grid(rf)
        + crate::writer::ser_g4(m) + crate::writer::ser_g4(s1) + crate::writer::ser_g4(s2)
}

/// A grid of flexible scales is written with the F grid right after the
/// central grid, then the R grid, then RR, FF and RF.
pub proof fn lemma_flex_grid_text(
    sn1: Seq<Seq<Text>>,
    sn2: Seq<Seq<Text>>,
    c: SpecGrid5,
    f: Option<SpecGrid5>,
    r: Option<SpecGrid5>,
    rr: Option<SpecGrid5>,
    ff: Option<SpecGrid5>,
    rf: Option<SpecGrid5>,
    m: Seq<Seq<Text>>,
    s1: Seq<Seq<Text>>,
    s2: Seq<Seq<Text>>,
)
    ensures
        ser_grid(
            SpecGrid::Flex {
                scale_node_1: sn1,
                scale_node_2: sn2,
                grid: c,
                grid_f: f,
                grid_r: r,
                grid_rr: rr,
                grid_ff: ff,
                grid_rf: rf,
                sigma_ref_mixed: m,
                sigma_ref_s1: s1,
                sigma_ref_s2: s2,
            },
        ) == flex_text(sn1, sn2, c, f, r, rr, ff, rf, m, s1, s2),
{
    reveal(ser_grid);
}

/// Reading text laid out as the scale nodes, the central grid and then the
/// optional grids gives the first optional grid as the F grid, the second
/// as the R grid, and then RR, FF and RF, as the scale format provides
/// them.
pub proof fn lemma_read_flex_in_order(
    ls: Lines,
    p: int,
    sn1: Seq<Seq<Text>>,
    sn2: Seq<Seq<Text>>,
    c: SpecGrid5,
    f: Option<SpecGrid5>,
    r: Option<SpecGrid5>,
    rr: Option<SpecGrid5>,
    ff: Option<SpecGrid5>,
    rf: Option<SpecGrid5>,
    m: Seq<Seq<Text>>,
    s1: Seq<Seq<Text>>,
    s2: Seq<Seq<Text>>,
    sf: usize,
    n_bins: usize,
    ns: usize,
    n_pdf_dim: usize,
    x1: Seq<Seq<Text>>,
    x2: Seq<Seq<Text>>,
)
    requires
        flex_ok(
            SpecGrid::Flex {
                scale_node_1: sn1,
                scale_node_2: sn2,
                grid: c,
                grid_f: f,
                grid_r: r,
                grid_rr: rr,
                grid_ff: ff,
                grid_rf: rf,
                sigma_ref_mixed: m,
                sigma_ref_s1: s1,
                sigma_ref_s2: s2,
            },
            sf,
            n_bins,
            ns,
            n_pdf_dim,
            x1,
            x2,
        ),
        at(ls, p, flex_text(sn1, sn2, c, f, r, rr, ff, rf, m, s1, s2)),
    ensures
        sp_flex(ls, p, sf, n_bins, ns, n_pdf_dim, x1, x2) matches Ok((g, q)) && q == p + flex_text(
            sn1,
            sn2,
            c,
            f,
            r,
            rr,
            ff,
            rf,
            m,
            s1,
            s2,
        ).len() && g == (SpecGrid::Flex {
            scale_node_1: sn1,
            scale_node_2: sn2,
            grid: c,
            grid_f: f,
            grid_r: r,
            grid_rr: rr,
            grid_ff: ff,
            grid_rf: rf,
            sigma_ref_mixed: m,
            sigma_ref_s1: s1,
            sigma_ref_s2: s2,
        }),
{
    let g = SpecGrid::Flex {
        scale_node_1: sn1,
        scale_node_2: sn2,
        grid: c,
        grid_f: f,
        grid_r: r,
        grid_rr: rr,
        grid_ff: ff,
        grid_rf: rf,
        sigma_ref_mixed: m,
        sigma_ref_s1: s1,
        sigma_ref_s2: s2,
    };
    lemma_flex_grid_text(sn1, sn2, c, f, r, rr, ff, rf, m, s1, s2);
    lemma_flex_rt(ls, p, g, sf, n_bins, ns, n_pdf_dim, x1, x2);
}

} // verus!
