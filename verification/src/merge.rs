//! Merging two tables of the same observable.
//!
//! Each block of the first table is paired with the first theory block of the
//! second table that has the same power of the strong coupling; blocks of the
//! second table that no block is paired with are added to the first table.
//! The counts of the weight information of paired blocks are added here; the
//! grids and sums of weights of the pairs are real numbers, which the caller
//! combines for each pair that is returned.

use vstd::prelude::*;

use crate::copy::DeepCopy;
use crate::error::MergeError;
use crate::table::{
    Block, BlockData, FastNLOFile, Float, SpecBlock, SpecBlockData, SpecFile, SpecGrid, SpecWeightInfo, Text,
    WeightInfo,
};
use crate::text::{decimal, format_usize, string_from_chars};

verus! {

/// The `Debug` form of a list of strings.
pub uninterp spec fn debug_strings(v: Seq<Seq<char>>) -> Seq<char>;

/// `format!("{:?}", v)`: the `Debug` form of a list of strings, a function of
/// the strings alone; the contract names it and says no more.
#[verifier::external_body]
fn debug_strings_exec(v: &Vec<String>) -> (r: String)
    ensures
        r@ == debug_strings(v.deep_view()),
{
    format!("{:?}", v)
}

// ---------------------------------------------------------------------------
// Pairing of blocks
// ---------------------------------------------------------------------------

/// The power of the strong coupling of a theory block.
pub open spec fn theory_power(b: SpecBlock) -> Option<usize> {
    match b.data {
        SpecBlockData::TheoryBlock { alphas_power, .. } => Some(alphas_power),
        _ => None,
    }
}

/// Two theory blocks of the same power of the strong coupling.
pub open spec fn pairs_with(b: SpecBlock, o: SpecBlock) -> bool {
    theory_power(b) is Some && theory_power(b) == theory_power(o)
}

/// The first block of `others` from `j` on that `b` pairs with.
pub open spec fn find_from(b: SpecBlock, others: Seq<SpecBlock>, j: int) -> Option<int>
    decreases others.len() - j,
{
    if j < 0 || j >= others.len() {
        None
    } else if pairs_with(b, others[j]) {
        Some(j)
    } else {
        find_from(b, others, j + 1)
    }
}

/// The block of `others` that `b` is paired with.
pub open spec fn match_of(b: SpecBlock, others: Seq<SpecBlock>) -> Option<int> {
    find_from(b, others, 0)
}

/// One of the first `k` blocks of `selfs` is paired with block `j` of `others`.
pub open spec fn matched_before(selfs: Seq<SpecBlock>, others: Seq<SpecBlock>, j: int, k: int) -> bool
    decreases k,
{
    if k <= 0 {
        false
    } else {
        matched_before(selfs, others, j, k - 1) || match_of(selfs[k - 1], others) == Some(j)
    }
}

pub open spec fn matched(selfs: Seq<SpecBlock>, others: Seq<SpecBlock>, j: int) -> bool {
    matched_before(selfs, others, j, selfs.len() as int)
}

/// The blocks of `others` before `j` that no block of `selfs` is paired with,
/// in order.
pub open spec fn unseen_upto(selfs: Seq<SpecBlock>, others: Seq<SpecBlock>, j: int) -> Seq<int>
    decreases j,
{
    if j <= 0 {
        seq![]
    } else if matched(selfs, others, j - 1) {
        unseen_upto(selfs, others, j - 1)
    } else {
        unseen_upto(selfs, others, j - 1).push(j - 1)
    }
}

pub open spec fn unseen(selfs: Seq<SpecBlock>, others: Seq<SpecBlock>) -> Seq<int> {
    unseen_upto(selfs, others, others.len() as int)
}

// ---------------------------------------------------------------------------
// Counts of events
// ---------------------------------------------------------------------------

/// The row of `b` that row `i` of `a` is added with: `b` may have one row for
/// all.
pub open spec fn bcast(n: int, i: int) -> int {
    if n == 1 {
        0
    } else {
        i
    }
}

/// `b` can be added to `a` entry by entry, a row or column of `b` of length
/// one standing for all, and no sum overflows.
pub open spec fn counts_addable(a: Seq<Seq<usize>>, b: Seq<Seq<usize>>) -> bool {
    &&& (b.len() == a.len() || b.len() == 1)
    &&& forall|i: int|
        0 <= i < a.len() ==> {
            let r = #[trigger] b[bcast(b.len() as int, i)];
            &&& (r.len() == a[i].len() || r.len() == 1)
            &&& forall|j: int| 0 <= j < a[i].len() ==> a[i][j] + r[bcast(r.len() as int, j)] <= usize::MAX
        }
}

pub open spec fn add_counts(a: Seq<Seq<usize>>, b: Seq<Seq<usize>>) -> Seq<Seq<usize>> {
    Seq::new(
        a.len(),
        |i: int|
            {
                let r = b[bcast(b.len() as int, i)];
                Seq::new(a[i].len(), |j: int| (a[i][j] + r[bcast(r.len() as int, j)]) as usize)
            },
    )
}

/// The counts of two merged weight informations; their real numbers are the
/// caller's.
pub open spec fn merged_counts(w: SpecWeightInfo, wo: SpecWeightInfo) -> SpecWeightInfo {
    SpecWeightInfo {
        n_entries: (w.n_entries + wo.n_entries) as usize,
        n_tables: (w.n_tables + wo.n_tables) as usize,
        n_events_obs: add_counts(w.n_events_obs, wo.n_events_obs),
        ..w
    }
}

pub open spec fn counts_fit(w: SpecWeightInfo, wo: SpecWeightInfo) -> bool {
    &&& w.n_entries + wo.n_entries <= usize::MAX
    &&& w.n_tables + wo.n_tables <= usize::MAX
    &&& counts_addable(w.n_events_obs, wo.n_events_obs)
}

/// Block `b` after it has been merged with `o`.
pub open spec fn merged_block(b: SpecBlock, o: SpecBlock) -> SpecBlock {
    match (b.data, o.data) {
        (
            SpecBlockData::TheoryBlock {
                reference_table,
                i_scale_dependence,
                n_events,
                weight_info: Some(w),
                alphas_power,
                pdf_info,
                x1_nodes,
                x2_nodes,
                z_nodes,
                scale_dimension,
                scale_description,
                grid,
            },
            SpecBlockData::TheoryBlock { weight_info: Some(wo), .. },
        ) => SpecBlock {
            data: SpecBlockData::TheoryBlock {
                reference_table,
                i_scale_dependence,
                n_events,
                weight_info: Some(merged_counts(w, wo)),
                alphas_power,
                pdf_info,
                x1_nodes,
                x2_nodes,
                z_nodes,
                scale_dimension,
                scale_description,
                grid,
            },
            ..b
        },
        _ => b,
    }
}

/// A pair of blocks that can be merged: both have grids of flexible scales,
/// and their counts can be added.
pub open spec fn pair_mergeable(b: SpecBlock, o: SpecBlock) -> bool {
    match (b.data, o.data) {
        (
            SpecBlockData::TheoryBlock { grid, weight_info, .. },
            SpecBlockData::TheoryBlock { grid: grid_o, weight_info: weight_info_o, .. },
        ) => {
            &&& grid is Flex
            &&& grid_o is Flex
            &&& match (weight_info, weight_info_o) {
                (Some(w), Some(wo)) => counts_fit(w, wo),
                _ => true,
            }
        },
        _ => true,
    }
}

// ---------------------------------------------------------------------------
// The merge
// ---------------------------------------------------------------------------

/// The field in which the metadata of two tables differ, with its two values.
pub open spec fn merge_conflict(a: SpecFile, b: SpecFile) -> Option<(Text, Text, Text)> {
    if a.metadata.alphas_ord != b.metadata.alphas_ord {
        Some(
            (
                "alphas_ord"@,
                decimal(a.metadata.alphas_ord as nat),
                decimal(b.metadata.alphas_ord as nat),
            ),
        )
    } else if a.metadata.description != b.metadata.description {
        Some(("description"@, debug_strings(a.metadata.description), debug_strings(b.metadata.description)))
    } else {
        None
    }
}

/// Merging `b` into `a` runs to its end: every pair can be merged and the
/// number of contributions does not overflow.
pub open spec fn mergeable(a: SpecFile, b: SpecFile) -> bool {
    merge_conflict(a, b) is None ==> {
        &&& forall|i: int|
            0 <= i < a.blocks.len() ==> (#[trigger] match_of(a.blocks[i], b.blocks) matches Some(j)
                ==> pair_mergeable(a.blocks[i], b.blocks[j]))
        &&& a.metadata.n_contrib + unseen(a.blocks, b.blocks).len() <= usize::MAX
    }
}

/// The pairing that merging gives, block by block of the first table.
pub open spec fn pairing(a: SpecFile, b: SpecFile) -> Seq<Option<int>> {
    Seq::new(a.blocks.len(), |i: int| match_of(a.blocks[i], b.blocks))
}

/// The first table after `b` has been merged into it.
pub open spec fn merged_file(a: SpecFile, b: SpecFile) -> SpecFile {
    let u = unseen(a.blocks, b.blocks);
    SpecFile {
        metadata: crate::table::SpecMetadata {
            n_contrib: (a.metadata.n_contrib + u.len()) as usize,
            ..a.metadata
        },
        blocks: Seq::new(
            a.blocks.len(),
            |i: int|
                match match_of(a.blocks[i], b.blocks) {
                    Some(j) => merged_block(a.blocks[i], b.blocks[j]),
                    None => a.blocks[i],
                },
        ) + Seq::new(u.len(), |k: int| b.blocks[u[k]]),
        ..a
    }
}

pub open spec fn pairing_view(m: Seq<Option<usize>>) -> Seq<Option<int>> {
    Seq::new(
        m.len(),
        |i: int|
            match m[i] {
                Some(j) => Some(j as int),
                None => None,
            },
    )
}

proof fn lemma_find_from_none(b: SpecBlock, others: Seq<SpecBlock>, j: int)
    requires
        theory_power(b) is None,
    ensures
        find_from(b, others, j) is None,
    decreases others.len() - j,
{
    if 0 <= j < others.len() {
        lemma_find_from_none(b, others, j + 1);
    }
}

proof fn lemma_find_from_bounds(b: SpecBlock, others: Seq<SpecBlock>, j: int)
    ensures
        find_from(b, others, j) matches Some(k) ==> j <= k < others.len() && pairs_with(b, others[k]),
    decreases others.len() - j,
{
    if 0 <= j < others.len() && !pairs_with(b, others[j]) {
        lemma_find_from_bounds(b, others, j + 1);
    }
}

/// The first block of `others` that `b` pairs with.
fn find_match(b: &Block, others: &Vec<Block>) -> (r: Option<usize>)
    ensures
        match r {
            Some(j) => match_of(b.deep_view(), others.deep_view()) == Some(j as int),
            None => match_of(b.deep_view(), others.deep_view()) is None,
        },
{
    let power = match &b.data {
        BlockData::TheoryBlock { alphas_power, .. } => *alphas_power,
        _ => {
            proof {
                lemma_find_from_none(b.deep_view(), others.deep_view(), 0);
            }
            return None;
        },
    };
    let ghost bv = b.deep_view();
    let ghost ov = others.deep_view();
    let mut j: usize = 0;
    while j < others.len()
        invariant
            j <= others@.len(),
            bv == b.deep_view(),
            ov == others.deep_view(),
            theory_power(bv) == Some(power),
            match_of(bv, ov) == find_from(bv, ov, j as int),
        decreases others@.len() - j,
    {
        let found = match &others[j].data {
            BlockData::TheoryBlock { alphas_power, .. } => *alphas_power == power,
            _ => false,
        };
        proof {
            assert(ov[j as int] == others@[j as int].deep_view());
        }
        if found {
            return Some(j);
        }
        j = j + 1;
    }
    None
}

fn strings_equal(a: &Vec<String>, b: &Vec<String>) -> (r: bool)
    ensures
        r == (a.deep_view() == b.deep_view()),
{
    if a.len() != b.len() {
        proof {
            assert(a.deep_view().len() != b.deep_view().len());
        }
        return false;
    }
    let mut i: usize = 0;
    while i < a.len()
        invariant
            i <= a@.len(),
            a@.len() == b@.len(),
            forall|k: int| 0 <= k < i ==> a@[k]@ == b@[k]@,
        decreases a@.len() - i,
    {
        if a[i] != b[i] {
            proof {
                assert(a.deep_view()[i as int] != b.deep_view()[i as int]);
            }
            return false;
        }
        i = i + 1;
    }
    proof {
        assert(a.deep_view() =~= b.deep_view());
    }
    true
}

/// Adds the counts of `b` to those of `a`, entry by entry.
fn add_count_rows(a: &Vec<Vec<usize>>, b: &Vec<Vec<usize>>) -> (r: Vec<Vec<usize>>)
    requires
        counts_addable(a.deep_view(), b.deep_view()),
    ensures
        r.deep_view() == add_counts(a.deep_view(), b.deep_view()),
{
    let ghost av = a.deep_view();
    let ghost bv = b.deep_view();
    let mut out: Vec<Vec<usize>> = Vec::new();
    let mut i: usize = 0;
    while i < a.len()
        invariant
            i <= a@.len(),
            av == a.deep_view(),
            bv == b.deep_view(),
            counts_addable(av, bv),
            out@.len() == i,
            forall|k: int| 0 <= k < i ==> #[trigger] out.deep_view()[k] == add_counts(av, bv)[k],
        decreases a@.len() - i,
    {
        let bi = if b.len() == 1 {
            0
        } else {
            i
        };
        let ghost rv = bv[bcast(bv.len() as int, i as int)];
        proof {
            assert(rv == bv[bcast(bv.len() as int, i as int)]);
        }
        let row_b = &b[bi];
        let row_a = &a[i];
        let mut row: Vec<usize> = Vec::new();
        let mut j: usize = 0;
        while j < row_a.len()
            invariant
                j <= row_a@.len(),
                row_a@ == av[i as int],
                row_b@ == rv,
                rv.len() == row_a@.len() || rv.len() == 1,
                forall|m: int| 0 <= m < row_a@.len() ==> av[i as int][m] + rv[bcast(rv.len() as int, m)] <= usize::MAX,
                row@.len() == j,
                forall|m: int| 0 <= m < j ==> #[trigger] row@[m] == (av[i as int][m] + rv[bcast(rv.len() as int, m)]) as usize,
            decreases row_a@.len() - j,
        {
            let bj = if row_b.len() == 1 {
                0
            } else {
                j
            };
            row.push(row_a[j] + row_b[bj]);
            j = j + 1;
        }
        let ghost old_out = out.deep_view();
        out.push(row);
        proof {
            assert(row.deep_view() =~= add_counts(av, bv)[i as int]);
            assert forall|k: int| 0 <= k < i + 1 implies #[trigger] out.deep_view()[k] == add_counts(av, bv)[k] by {
                if k < i {
                    assert(out.deep_view()[k] == old_out[k]);
                }
            }
        }
        i = i + 1;
    }
    proof {
        assert(out.deep_view() =~= add_counts(av, bv));
    }
    out
}

/// Adds the counts of the weight information of `o` to those of `b`.
fn merge_counts(b: &mut Block, o: &Block)
    requires
        pair_mergeable(old(b).deep_view(), o.deep_view()),
    ensures
        final(b).deep_view() == merged_block(old(b).deep_view(), o.deep_view()),
{
    let wo = match &o.data {
        BlockData::TheoryBlock { weight_info: Some(wo), .. } => wo,
        _ => {
            return;
        },
    };
    match &mut b.data {
        BlockData::TheoryBlock { weight_info: Some(w), .. } => {
            w.n_entries = w.n_entries + wo.n_entries;
            w.n_tables = w.n_tables + wo.n_tables;
            w.n_events_obs = add_count_rows(&w.n_events_obs, &wo.n_events_obs);
        },
        _ => {},
    }
}

impl FastNLOFile {
    /// Merges the structure of `other` into this table: pairs the blocks,
    /// adds the counts of the weight information of each pair, adds the
    /// unpaired blocks of `other` and counts them as contributions. Gives,
    /// for each block of this table, the block of `other` it is paired with,
    /// whose grids and real sums the caller combines with it.
    pub fn merge(&mut self, other: &FastNLOFile) -> (r: Result<Vec<Option<usize>>, MergeError>)
        requires
            mergeable(old(self).deep_view(), other.deep_view()),
        ensures
            match r {
                Ok(m) => {
                    &&& merge_conflict(old(self).deep_view(), other.deep_view()) is None
                    &&& pairing_view(m@) == pairing(old(self).deep_view(), other.deep_view())
                    &&& final(self).deep_view() == merged_file(old(self).deep_view(), other.deep_view())
                },
                Err(MergeError::IncompatibleTables(field, a, b)) => {
                    &&& merge_conflict(old(self).deep_view(), other.deep_view()) == Some(
                        (field@, a@, b@),
                    )
                    &&& final(self).deep_view() == old(self).deep_view()
                },
            },
    {
        if self.metadata.alphas_ord != other.metadata.alphas_ord {
            let a = format_usize(self.metadata.alphas_ord);
            let b = format_usize(other.metadata.alphas_ord);
            let field = String::from_str("alphas_ord");
            proof {
                reveal_strlit("alphas_ord");
            }
            return Err(
                MergeError::IncompatibleTables(
                    field,
                    string_from_chars(a.as_slice()),
                    string_from_chars(b.as_slice()),
                ),
            );
        }
        if !strings_equal(&self.metadata.description, &other.metadata.description) {
            let field = String::from_str("description");
            proof {
                reveal_strlit("description");
            }
            return Err(
                MergeError::IncompatibleTables(
                    field,
                    debug_strings_exec(&self.metadata.description),
                    debug_strings_exec(&other.metadata.description),
                ),
            );
        }
        let ghost a0 = self.deep_view();
        let ghost bv = other.deep_view();
        let n = self.blocks.len();
        let n_other = other.blocks.len();
        let mut seen: Vec<bool> = Vec::new();
        let mut j: usize = 0;
        while j < n_other
            invariant
                j <= n_other,
                seen@.len() == j,
                forall|k: int| 0 <= k < j ==> !seen@[k],
            decreases n_other - j,
        {
            seen.push(false);
            j = j + 1;
        }
        let mut pairs: Vec<Option<usize>> = Vec::new();
        let mut i: usize = 0;
        while i < n
            invariant
                i <= n,
                n == a0.blocks.len(),
                n_other == bv.blocks.len(),
                bv == other.deep_view(),
                mergeable(a0, bv),
                merge_conflict(a0, bv) is None,
                self.blocks@.len() == n,
                self.metadata.deep_view() == a0.metadata,
                self.bin_info.deep_view() == a0.bin_info,
                seen@.len() == n_other,
                pairs@.len() == i,
                forall|k: int| 0 <= k < n_other ==> seen@[k] == matched_before(a0.blocks, bv.blocks, k, i as int),
                forall|k: int| 0 <= k < i ==> pairing_view(pairs@)[k] == #[trigger] match_of(a0.blocks[k], bv.blocks),
                forall|k: int| 0 <= k < i ==> #[trigger] self.blocks.deep_view()[k] == match match_of(a0.blocks[k], bv.blocks) {
                    Some(m) => merged_block(a0.blocks[k], bv.blocks[m]),
                    None => a0.blocks[k],
                },
                forall|k: int| i <= k < n ==> #[trigger] self.blocks.deep_view()[k] == a0.blocks[k],
            decreases n - i,
        {
            proof {
                assert(self.blocks.deep_view()[i as int] == a0.blocks[i as int]);
            }
            let found = find_match(&self.blocks[i], &other.blocks);
            let ghost prev = self.blocks@;
            let ghost prev_dv = self.blocks.deep_view();
            match found {
                Some(m) => {
                    proof {
                        lemma_find_from_bounds(a0.blocks[i as int], bv.blocks, 0);
                        assert(match_of(a0.blocks[i as int], bv.blocks) == Some(m as int));
                        assert(pair_mergeable(a0.blocks[i as int], bv.blocks[m as int]));
                        assert(bv.blocks[m as int] == other.blocks@[m as int].deep_view());
                    }
                    seen.set(m, true);
                    merge_counts(&mut self.blocks[i], &other.blocks[m]);
                },
                None => {},
            }
            let ghost old_pairs = pairs@;
            pairs.push(found);
            proof {
                assert forall|k: int| 0 <= k < n && k != i implies #[trigger] self.blocks.deep_view()[k]
                    == prev_dv[k] by {
                    assert(self.blocks@[k] == prev[k]);
                }
                if found is None {
                    assert(self.blocks@ == prev);
                    assert(self.blocks.deep_view()[i as int] == a0.blocks[i as int]);
                } else {
                    lemma_find_from_bounds(a0.blocks[i as int], bv.blocks, 0);
                }
                assert forall|k: int| 0 <= k < i + 1 implies pairing_view(pairs@)[k] == #[trigger] match_of(
                    a0.blocks[k],
                    bv.blocks,
                ) by {
                    if k < i {
                        assert(pairs@[k] == old_pairs[k]);
                    }
                }
            }
            i = i + 1;
        }
        proof {
            assert(pairing_view(pairs@) =~= pairing(a0, bv));
        }
        let mut count: usize = 0;
        let mut j: usize = 0;
        while j < n_other
            invariant
                j <= n_other,
                n_other == bv.blocks.len(),
                n == a0.blocks.len(),
                seen@.len() == n_other,
                forall|k: int| 0 <= k < n_other ==> seen@[k] == matched(a0.blocks, bv.blocks, k),
                count == unseen_upto(a0.blocks, bv.blocks, j as int).len(),
                unseen_upto(a0.blocks, bv.blocks, j as int).len() <= j,
                mergeable(a0, bv),
                merge_conflict(a0, bv) is None,
                a0.metadata.n_contrib + unseen(a0.blocks, bv.blocks).len() <= usize::MAX,
                self.metadata.deep_view() == a0.metadata,
                self.bin_info.deep_view() == a0.bin_info,
            decreases n_other - j,
        {
            proof {
                lemma_unseen_mono(a0.blocks, bv.blocks, j as int + 1, n_other as int);
            }
            if !seen[j] {
                count = count + 1;
            }
            j = j + 1;
        }
        self.metadata.n_contrib = self.metadata.n_contrib + count;
        let ghost mid = self.blocks.deep_view();
        let ghost meta = self.metadata.deep_view();
        proof {
            assert(meta == merged_file(a0, bv).metadata);
        }
        let mut j: usize = 0;
        while j < n_other
            invariant
                j <= n_other,
                n_other == bv.blocks.len(),
                n == a0.blocks.len(),
                bv == other.deep_view(),
                seen@.len() == n_other,
                forall|k: int| 0 <= k < n_other ==> seen@[k] == matched(a0.blocks, bv.blocks, k),
                mid.len() == n,
                self.metadata.deep_view() == meta,
                self.bin_info.deep_view() == a0.bin_info,
                self.blocks.deep_view() == mid + Seq::new(
                    unseen_upto(a0.blocks, bv.blocks, j as int).len(),
                    |k: int| bv.blocks[unseen_upto(a0.blocks, bv.blocks, j as int)[k]],
                ),
            decreases n_other - j,
        {
            let ghost before = self.blocks.deep_view();
            if !seen[j] {
                let b = other.blocks[j].deep_copy();
                self.blocks.push(b);
                proof {
                    assert(self.blocks.deep_view() =~= before.push(b.deep_view()));
                    assert(bv.blocks[j as int] == other.blocks@[j as int].deep_view());
                    let u = unseen_upto(a0.blocks, bv.blocks, j as int + 1);
                    assert(self.blocks.deep_view() =~= mid + Seq::new(u.len(), |k: int| bv.blocks[u[k]]));
                }
            }
            j = j + 1;
        }
        proof {
            let m = merged_file(a0, bv);
            assert(self.blocks.deep_view() =~= m.blocks);
        }
        Ok(pairs)
    }
}

proof fn lemma_unseen_mono(selfs: Seq<SpecBlock>, others: Seq<SpecBlock>, j: int, k: int)
    requires
        0 <= j <= k,
    ensures
        unseen_upto(selfs, others, j).len() <= unseen_upto(selfs, others, k).len(),
        unseen_upto(selfs, others, j).len() <= j,
    decreases k,
{
    if j < k {
        lemma_unseen_mono(selfs, others, j, k - 1);
    } else if j > 0 {
        lemma_unseen_mono(selfs, others, j - 1, j - 1);
    }
}


// ---------------------------------------------------------------------------
// Weights of a merge
// ---------------------------------------------------------------------------

/// The weights of each bin, once for each subprocess.
pub open spec fn weight_rows(n_subproc: usize, weights: Seq<Text>) -> Seq<Seq<Text>> {
    Seq::new(n_subproc as nat, |k: int| weights)
}

/// The data of a block whose sums of weights per bin are replaced by the
/// given weights; blocks without weight information are kept.
pub open spec fn weighted_data(d: SpecBlockData, weights: Seq<Text>) -> SpecBlockData {
    match d {
        SpecBlockData::TheoryBlock {
            reference_table,
            i_scale_dependence,
            n_events,
            weight_info: Some(w),
            alphas_power,
            pdf_info,
            x1_nodes,
            x2_nodes,
            z_nodes,
            scale_dimension,
            scale_description,
            grid,
        } => SpecBlockData::TheoryBlock {
            reference_table,
            i_scale_dependence,
            n_events,
            weight_info: Some(SpecWeightInfo { sig_obs: weight_rows(pdf_info.n_subproc, weights), ..w }),
            alphas_power,
            pdf_info,
            x1_nodes,
            x2_nodes,
            z_nodes,
            scale_dimension,
            scale_description,
            grid,
        },
        _ => d,
    }
}

pub open spec fn weighted_block(b: SpecBlock, weights: Seq<Text>) -> SpecBlock {
    SpecBlock { data: weighted_data(b.data, weights), ..b }
}

pub open spec fn weighted_file(f: SpecFile, weights: Seq<Text>) -> SpecFile {
    SpecFile { blocks: Seq::new(f.blocks.len(), |i: int| weighted_block(f.blocks[i], weights)), ..f }
}

/// Setting merge weights keeps the metadata, the bins and every block, and
/// changes nothing but the per-bin sums of theory blocks with weight
/// information: there, one row per subprocess of the block, each row the
/// given weights in bin order, while the other weight figures, the
/// subprocesses and the grids stay as they were.
pub proof fn lemma_merge_weights_rows(f: SpecFile, weights: Seq<Text>, i: int)
    requires
        0 <= i < f.blocks.len(),
    ensures
        weighted_file(f, weights).metadata == f.metadata,
        weighted_file(f, weights).bin_info == f.bin_info,
        weighted_file(f, weights).blocks.len() == f.blocks.len(),
        ({
            let a = f.blocks[i];
            let b = weighted_file(f, weights).blocks[i];
            &&& b.scale_format == a.scale_format
            &&& (!(a.data matches SpecBlockData::TheoryBlock { weight_info: Some(_), .. }) ==> b == a)
            &&& (a.data matches SpecBlockData::TheoryBlock { weight_info: Some(wa), pdf_info, .. } ==> {
                let wb = b.data->TheoryBlock_weight_info->0;
                &&& b.data is TheoryBlock
                &&& b.data->TheoryBlock_weight_info is Some
                &&& wb.sig_obs.len() == pdf_info.n_subproc
                &&& (forall|k: int| 0 <= k < pdf_info.n_subproc ==> #[trigger] wb.sig_obs[k] == weights)
                &&& wb.norm == wa.norm
                &&& wb.n_events == wa.n_events
                &&& wb.sig_sq_obs == wa.sig_sq_obs
                &&& wb.weight_sq_obs == wa.weight_sq_obs
                &&& wb.n_events_obs == wa.n_events_obs
                &&& wb.sum_sig == wa.sum_sig
                &&& b.data->TheoryBlock_pdf_info == pdf_info
                &&& b.data->TheoryBlock_grid == a.data->TheoryBlock_grid
                &&& b.data->TheoryBlock_alphas_power == a.data->TheoryBlock_alphas_power
            })
        }),
{
}

fn make_weight_rows(n_subproc: usize, weights: &Vec<Float>) -> (r: Vec<Vec<Float>>)
    ensures
        r.deep_view() == weight_rows(n_subproc, weights.deep_view()),
{
    let mut r: Vec<Vec<Float>> = Vec::new();
    let mut k: usize = 0;
    while k < n_subproc
        invariant
            k <= n_subproc,
            r@.len() == k,
            forall|m: int| 0 <= m < k ==> #[trigger] r.deep_view()[m] == weights.deep_view(),
        decreases n_subproc - k,
    {
        let ghost before = r.deep_view();
        r.push(weights.deep_copy());
        proof {
            assert forall|m: int| 0 <= m < k + 1 implies #[trigger] r.deep_view()[m] == weights.deep_view() by {
                if m < k {
                    assert(r.deep_view()[m] == before[m]);
                }
            }
        }
        k = k + 1;
    }
    proof {
        assert(r.deep_view() =~= weight_rows(n_subproc, weights.deep_view()));
    }
    r
}

impl Block {
    /// Replaces the sums of weights per subprocess and bin by the given
    /// weight of each bin, for a theory block with weight information.
    pub fn set_merge_weights(&mut self, weights: &Vec<Float>)
        ensures
            final(self).deep_view() == weighted_block(old(self).deep_view(), weights.deep_view()),
    {
        match &mut self.data {
            BlockData::TheoryBlock { weight_info: Some(wi), pdf_info, .. } => {
                wi.sig_obs = make_weight_rows(pdf_info.n_subproc, weights);
            },
            _ => {},
        }
    }
}

impl FastNLOFile {
    /// Sets the weights of each bin in every theory block with weight
    /// information; there is one weight per bin.
    pub fn set_merge_weights(&mut self, weights: &Vec<Float>)
        requires
            weights@.len() == old(self).bin_info.bins@.len(),
        ensures
            final(self).deep_view() == weighted_file(old(self).deep_view(), weights.deep_view()),
    {
        let ghost before = self.blocks.deep_view();
        let n = self.blocks.len();
        let mut i: usize = 0;
        while i < n
            invariant
                n == self.blocks@.len(),
                before.len() == n,
                i <= n,
                self.metadata == old(self).metadata,
                self.bin_info == old(self).bin_info,
                before == old(self).blocks.deep_view(),
                forall|k: int|
                    0 <= k < i ==> self.blocks.deep_view()[k] == weighted_block(
                        #[trigger] before[k],
                        weights.deep_view(),
                    ),
                forall|k: int| i <= k < n ==> self.blocks.deep_view()[k] == #[trigger] before[k],
            decreases n - i,
        {
            self.blocks[i].set_merge_weights(weights);
            i = i + 1;
        }
        proof {
            assert(self.blocks.deep_view() =~= Seq::new(
                before.len(),
                |k: int| weighted_block(before[k], weights.deep_view()),
            ));
        }
    }
}


// ---------------------------------------------------------------------------
// Laws of merging
// ---------------------------------------------------------------------------

/// Merging keeps one block for each contribution and table of data.
pub proof fn lemma_merge_block_count(a: SpecFile, b: SpecFile)
    requires
        a.blocks.len() == a.metadata.n_contrib + a.metadata.n_data,
        merge_conflict(a, b) is None,
        mergeable(a, b),
    ensures
        merged_file(a, b).blocks.len() == merged_file(a, b).metadata.n_contrib + merged_file(
            a,
            b,
        ).metadata.n_data,
{
}

proof fn lemma_unseen_members(selfs: Seq<SpecBlock>, others: Seq<SpecBlock>, k: int)
    requires
        0 <= k <= others.len(),
    ensures
        forall|j: int| 0 <= j < k ==> (#[trigger] unseen_upto(selfs, others, k).contains(j) <==> !matched(selfs, others, j)),
        forall|m: int| 0 <= m < unseen_upto(selfs, others, k).len() ==> 0 <= #[trigger] unseen_upto(selfs, others, k)[m] < k,
    decreases k,
{
    if k > 0 {
        lemma_unseen_members(selfs, others, k - 1);
        let prev = unseen_upto(selfs, others, k - 1);
        let cur = unseen_upto(selfs, others, k);
        if matched(selfs, others, k - 1) {
            assert(cur == prev);
            assert(!cur.contains(k - 1));
        } else {
            assert(cur == prev.push(k - 1));
            assert(cur[prev.len() as int] == k - 1);
            assert forall|j: int| 0 <= j < k implies (#[trigger] cur.contains(j) <==> !matched(selfs, others, j)) by {
                if j < k - 1 {
                    if prev.contains(j) {
                        let m = choose|m: int| 0 <= m < prev.len() && prev[m] == j;
                        assert(cur[m] == j);
                    }
                    if cur.contains(j) {
                        let m = choose|m: int| 0 <= m < cur.len() && cur[m] == j;
                        if m < prev.len() {
                            assert(prev[m] == j);
                        }
                    }
                }
            }
        }
    }
}

/// No block of the second table is lost: each one is either paired with a
/// block of the first table, or added to it.
pub proof fn lemma_merge_keeps_blocks(a: SpecFile, b: SpecFile, j: int)
    requires
        0 <= j < b.blocks.len(),
    ensures
        matched(a.blocks, b.blocks, j) || exists|m: int|
            0 <= m < unseen(a.blocks, b.blocks).len() && #[trigger] unseen(a.blocks, b.blocks)[m] == j
                && merged_file(a, b).blocks[a.blocks.len() + m] == b.blocks[j],
{
    lemma_unseen_members(a.blocks, b.blocks, b.blocks.len() as int);
    let u = unseen(a.blocks, b.blocks);
    if !matched(a.blocks, b.blocks, j) {
        assert(u.contains(j));
        let m = choose|m: int| 0 <= m < u.len() && u[m] == j;
        assert(merged_file(a, b).blocks[a.blocks.len() + m] == b.blocks[u[m]]);
    }
}


// ---------------------------------------------------------------------------
// Whether a merge runs through
// ---------------------------------------------------------------------------

fn counts_can_add(a: &Vec<Vec<usize>>, b: &Vec<Vec<usize>>) -> (r: bool)
    ensures
        r == counts_addable(a.deep_view(), b.deep_view()),
{
    let ghost av = a.deep_view();
    let ghost bv = b.deep_view();
    if !(b.len() == a.len() || b.len() == 1) {
        return false;
    }
    let mut i: usize = 0;
    while i < a.len()
        invariant
            i <= a@.len(),
            av == a.deep_view(),
            bv == b.deep_view(),
            bv.len() == av.len() || bv.len() == 1,
            forall|k: int|
                0 <= k < i ==> {
                    let r = #[trigger] bv[bcast(bv.len() as int, k)];
                    &&& (r.len() == av[k].len() || r.len() == 1)
                    &&& forall|j: int| 0 <= j < av[k].len() ==> av[k][j] + r[bcast(r.len() as int, j)] <= usize::MAX
                },
        decreases a@.len() - i,
    {
        let bi = if b.len() == 1 {
            0
        } else {
            i
        };
        let row_b = &b[bi];
        let row_a = &a[i];
        let ghost rv = bv[bcast(bv.len() as int, i as int)];
        proof {
            assert(row_b@ == rv);
            assert(row_a@ == av[i as int]);
        }
        if !(row_b.len() == row_a.len() || row_b.len() == 1) {
            proof {
                if counts_addable(av, bv) {
                    let r = bv[bcast(bv.len() as int, i as int)];
                    assert(r == rv);
                }
            }
            return false;
        }
        let mut j: usize = 0;
        while j < row_a.len()
            invariant
                j <= row_a@.len(),
                i < av.len(),
                av == a.deep_view(),
                bv == b.deep_view(),
                rv == bv[bcast(bv.len() as int, i as int)],
                row_a@ == av[i as int],
                row_b@ == rv,
                rv.len() == row_a@.len() || rv.len() == 1,
                forall|m: int| 0 <= m < j ==> av[i as int][m] + rv[bcast(rv.len() as int, m)] <= usize::MAX,
            decreases row_a@.len() - j,
        {
            let bj = if row_b.len() == 1 {
                0
            } else {
                j
            };
            if row_a[j].checked_add(row_b[bj]).is_none() {
                proof {
                    assert(av[i as int][j as int] + rv[bcast(rv.len() as int, j as int)] > usize::MAX);
                    if counts_addable(av, bv) {
                        let r = bv[bcast(bv.len() as int, i as int)];
                        assert(r == rv);
                        assert(av[i as int][j as int] + r[bcast(r.len() as int, j as int)] <= usize::MAX);
                    }
                }
                return false;
            }
            j = j + 1;
        }
        i = i + 1;
    }
    true
}

fn pair_can_merge(b: &Block, o: &Block) -> (r: bool)
    ensures
        r == pair_mergeable(b.deep_view(), o.deep_view()),
{
    match (&b.data, &o.data) {
        (
            BlockData::TheoryBlock { grid, weight_info, .. },
            BlockData::TheoryBlock { grid: grid_o, weight_info: weight_info_o, .. },
        ) => {
            let flex = match (grid, grid_o) {
                (crate::table::Grid::Flex { .. }, crate::table::Grid::Flex { .. }) => true,
                _ => false,
            };
            if !flex {
                return false;
            }
            match (weight_info, weight_info_o) {
                (Some(w), Some(wo)) => {
                    w.n_entries.checked_add(wo.n_entries).is_some() && w.n_tables.checked_add(
                        wo.n_tables,
                    ).is_some() && counts_can_add(&w.n_events_obs, &wo.n_events_obs)
                },
                _ => true,
            }
        },
        _ => true,
    }
}

impl FastNLOFile {
    /// Merging `other` into this table runs to its end.
    pub fn can_merge(&self, other: &FastNLOFile) -> (r: bool)
        ensures
            r == mergeable(self.deep_view(), other.deep_view()),
    {
        let ghost a0 = self.deep_view();
        let ghost bv = other.deep_view();
        if self.metadata.alphas_ord != other.metadata.alphas_ord {
            return true;
        }
        if !strings_equal(&self.metadata.description, &other.metadata.description) {
            return true;
        }
        proof {
            assert(merge_conflict(a0, bv) is None);
        }
        let n = self.blocks.len();
        let n_other = other.blocks.len();
        let mut seen: Vec<bool> = Vec::new();
        let mut j: usize = 0;
        while j < n_other
            invariant
                j <= n_other,
                seen@.len() == j,
                forall|k: int| 0 <= k < j ==> !seen@[k],
            decreases n_other - j,
        {
            seen.push(false);
            j = j + 1;
        }
        let mut i: usize = 0;
        while i < n
            invariant
                i <= n,
                merge_conflict(a0, bv) is None,
                n == a0.blocks.len(),
                n_other == bv.blocks.len(),
                a0 == self.deep_view(),
                bv == other.deep_view(),
                seen@.len() == n_other,
                forall|k: int| 0 <= k < n_other ==> seen@[k] == matched_before(a0.blocks, bv.blocks, k, i as int),
                forall|k: int|
                    0 <= k < i ==> (#[trigger] match_of(a0.blocks[k], bv.blocks) matches Some(m) ==> pair_mergeable(
                        a0.blocks[k],
                        bv.blocks[m],
                    )),
            decreases n - i,
        {
            proof {
                assert(a0.blocks[i as int] == self.blocks@[i as int].deep_view());
            }
            let found = find_match(&self.blocks[i], &other.blocks);
            match found {
                Some(m) => {
                    proof {
                        lemma_find_from_bounds(a0.blocks[i as int], bv.blocks, 0);
                        assert(bv.blocks[m as int] == other.blocks@[m as int].deep_view());
                    }
                    if !pair_can_merge(&self.blocks[i], &other.blocks[m]) {
                        proof {
                            assert(merge_conflict(a0, bv) is None);
                            assert(match_of(a0.blocks[i as int], bv.blocks) == Some(m as int));
                            assert(!pair_mergeable(a0.blocks[i as int], bv.blocks[m as int]));
                        }
                        return false;
                    }
                    seen.set(m, true);
                },
                None => {},
            }
            i = i + 1;
        }
        let mut count: usize = 0;
        let mut j: usize = 0;
        while j < n_other
            invariant
                j <= n_other,
                n_other == bv.blocks.len(),
                seen@.len() == n_other,
                forall|k: int| 0 <= k < n_other ==> seen@[k] == matched(a0.blocks, bv.blocks, k),
                count == unseen_upto(a0.blocks, bv.blocks, j as int).len(),
                count <= j,
                merge_conflict(a0, bv) is None,
                a0 == self.deep_view(),
                forall|k: int|
                    0 <= k < a0.blocks.len() ==> (#[trigger] match_of(a0.blocks[k], bv.blocks) matches Some(m)
                        ==> pair_mergeable(a0.blocks[k], bv.blocks[m])),
            decreases n_other - j,
        {
            proof {
                lemma_unseen_mono(a0.blocks, bv.blocks, j as int + 1, n_other as int);
            }
            if !seen[j] {
                count = count + 1;
            }
            j = j + 1;
        }
        self.metadata.n_contrib.checked_add(count).is_some()
    }
}

} // verus!
