use smallnlo::error::{MergeError, ReadError, ReadFailure};
use smallnlo::grids::{grid_entries, GridSlot};
use smallnlo::storage::{compressed_text, stored_bytes, table_payload, text_bytes, text_payload, LoadFailure, Payload};
use smallnlo::text::IntErrorKind;
use smallnlo::table::{
    Bin, BinInfo, BinPosition, Block, BlockData, FastNLOFile, Float, Grid, Metadata, PDFInfo,
    WeightInfo,
};

fn f(s: &str) -> Float {
    Float { text: s.to_string() }
}

fn fs(v: &[&str]) -> Vec<Float> {
    v.iter().map(|s| f(s)).collect()
}

fn strings(v: &[&str]) -> Vec<String> {
    v.iter().map(|s| s.to_string()).collect()
}

/// A grid of the shape (bins, x nodes, first scale nodes, second scale
/// nodes, subprocesses) whose entries count up from `start`.
fn grid5(d: (usize, usize, usize, usize, usize), start: usize) -> Vec<Vec<Vec<Vec<Vec<Float>>>>> {
    let mut n = start;
    let mut g = Vec::new();
    for _ in 0..d.0 {
        let mut a = Vec::new();
        for _ in 0..d.1 {
            let mut b = Vec::new();
            for _ in 0..d.2 {
                let mut c = Vec::new();
                for _ in 0..d.3 {
                    let mut e = Vec::new();
                    for _ in 0..d.4 {
                        e.push(f(&format!("{}.5", n)));
                        n += 1;
                    }
                    c.push(e);
                }
                b.push(c);
            }
            a.push(b);
        }
        g.push(a);
    }
    g
}

fn weight_info() -> WeightInfo {
    WeightInfo {
        n_events: f("1000"),
        norm: f("1000"),
        n_tables: 1,
        n_entries: 900,
        sum_weights_sq: f("1.5"),
        sum_sig_sq: f("2.5"),
        sum_sig: f("3.5"),
        weight_sq_obs: vec![fs(&["0.1", "0.2"])],
        sig_sq_obs: vec![fs(&["0.3", "0.4"])],
        sig_obs: vec![fs(&["0.5", "0.6"])],
        n_events_obs: vec![vec![10, 20]],
    }
}

fn theory_block(alphas_power: usize, scale_format: usize, with_weights: bool) -> Block {
    let optional = |present: bool, start: usize| if present { Some(grid5((2, 3, 2, 1, 1), start)) } else { None };
    Block {
        unit: 12,
        data_block: false,
        mult_block: false,
        contribution_type: 1,
        contribution_order: alphas_power - 2,
        scale_format,
        description: strings(&["contribution"]),
        code_description: strings(&["generator", "version 1"]),
        data: BlockData::TheoryBlock {
            reference_table: false,
            i_scale_dependence: 0,
            n_events: if with_weights { -1 } else { 1000 },
            weight_info: if with_weights { Some(weight_info()) } else { None },
            alphas_power,
            pdf_info: PDFInfo {
                pdfs: vec![2212, 2212],
                n_pdf_dim: 1,
                fragmentation_functions: vec![],
                n_ff_dim: 0,
                n_subproc: 1,
                pdf_flag_1: 3,
                pdf_flag_2: 0,
                pdf_flag_3: 0,
                parton_flavors: vec![vec![(0, 0), (1, -1)]],
            },
            x1_nodes: vec![fs(&["0.1", "0.5"]), fs(&["0.2", "0.6"])],
            x2_nodes: vec![],
            z_nodes: vec![],
            scale_dimension: vec![1],
            scale_description: vec![strings(&["pT"])],
            grid: Grid::Flex {
                scale_node_1: vec![fs(&["10", "20"]), fs(&["30", "40"])],
                scale_node_2: vec![fs(&["5"]), fs(&["6"])],
                grid: grid5((2, 3, 2, 1, 1), 0),
                grid_f: optional(scale_format >= 5, 100),
                grid_r: optional(scale_format >= 5, 200),
                grid_rr: optional(scale_format >= 6, 300),
                grid_ff: optional(scale_format >= 7, 400),
                grid_rf: optional(scale_format >= 7, 500),
                sigma_ref_mixed: vec![fs(&["1"]), fs(&["2"])],
                sigma_ref_s1: vec![fs(&["3"]), fs(&["4"])],
                sigma_ref_s2: vec![fs(&["5"]), fs(&["6"])],
            },
        },
        coeff_info_flags_1: vec![],
        coeff_info_flags_2: vec![],
        coeff_block_description: vec![],
        coeff_block_content: vec![],
    }
}

fn sample_table(scale_format: usize) -> FastNLOFile {
    FastNLOFile {
        metadata: Metadata {
            table_version: 25000,
            scenario_name: "test-scenario".to_string(),
            n_contrib: 1,
            n_mult: 0,
            n_data: 0,
            n_user: 0,
            unit: 12,
            description: strings(&["first line", "second line"]),
            cms_energy: f("13000"),
            alphas_ord: 2,
        },
        bin_info: BinInfo {
            bins: vec![
                Bin { values: vec![BinPosition::Boundaries { low: f("100"), high: f("200") }], size: f("100") },
                Bin { values: vec![BinPosition::Boundaries { low: f("200"), high: f("300") }], size: f("100") },
            ],
            dim_labels: strings(&["pT"]),
            diff_bin: vec![2],
        },
        blocks: vec![theory_block(2, scale_format, true)],
    }
}

fn written(t: &FastNLOFile) -> String {
    let mut s = String::new();
    t.write(&mut s).unwrap();
    s
}

#[test]
fn written_table_reads_back() {
    for sf in 4..=7 {
        let t = sample_table(sf);
        let text = written(&t);
        let back = FastNLOFile::read_str(&text).unwrap();
        assert_eq!(format!("{:?}", back), format!("{:?}", t));
        assert_eq!(written(&back), text);
    }
}

#[test]
fn written_table_starts_and_ends_with_separators() {
    let text = written(&sample_table(4));
    let lines: Vec<&str> = text.lines().collect();
    assert_eq!(lines[0], "1234567890");
    assert_eq!(lines[1], "25000");
    assert_eq!(lines[2], "test-scenario");
    assert_eq!(&lines[6..11], &["0", "0", "0", "0", "1234567890"]);
    assert_eq!(lines[lines.len() - 1], "1234567890");
    assert_eq!(lines[lines.len() - 2], "1234567890");
    assert!(text.ends_with("1234567890\n1234567890\n"));
}

#[test]
fn reading_gives_the_values_of_the_text() {
    let text = written(&sample_table(5));
    let t = FastNLOFile::read_str(&text).unwrap();
    assert_eq!(t.metadata.scenario_name, "test-scenario");
    assert_eq!(t.metadata.description, strings(&["first line", "second line"]));
    assert_eq!(t.metadata.cms_energy.text, "13000");
    assert_eq!(t.bin_info.bins.len(), 2);
    match &t.bin_info.bins[1].values[0] {
        BinPosition::Boundaries { low, high } => {
            assert_eq!(low.text, "200");
            assert_eq!(high.text, "300");
        }
        _ => panic!("boundaries expected"),
    }
    match &t.blocks[0].data {
        BlockData::TheoryBlock { weight_info: Some(w), grid: Grid::Flex { grid, grid_f, grid_rr, .. }, .. } => {
            assert_eq!(w.n_entries, 900);
            assert_eq!(w.n_tables, 1);
            assert_eq!(grid[1][2][1][0][0].text, "11.5");
            assert!(grid_f.is_some());
            assert!(grid_rr.is_none());
        }
        _ => panic!("flexible theory block expected"),
    }
}

#[test]
fn empty_text_is_no_table() {
    assert!(matches!(FastNLOFile::try_read_str(""), Err(ReadFailure::Abort)));
}

#[test]
fn text_that_ends_early_names_what_is_missing() {
    match FastNLOFile::read_str("1234567890\n25000\n") {
        Err(e @ ReadError::UnexpectedEOFError(_)) => {
            assert_eq!(e.message(), "Unexpected end of file, expected `alloc::string::String`");
        }
        other => panic!("unexpected {:?}", other),
    }
}

#[test]
fn list_cut_short_counts_what_it_found() {
    let text = "1234567890\n25000\nname\n1\n0\n0\n0\n1234567890\n12\n3\nline\n";
    match FastNLOFile::read_str(text) {
        Err(ReadError::UnexpectedEOFError(m)) => {
            assert_eq!(m, "`3` times `alloc::string::String`, found `1`");
        }
        other => panic!("unexpected {:?}", other),
    }
}

#[test]
fn version_that_is_no_number_is_an_int_error() {
    match FastNLOFile::read_str("1234567890\nabc\n") {
        Err(ReadError::ParseIntError(k)) => assert!(matches!(k, IntErrorKind::InvalidDigit)),
        other => panic!("unexpected {:?}", other),
    }
    match FastNLOFile::read_str("1234567890\n99999999999999999999999\n") {
        Err(ReadError::ParseIntError(k)) => assert!(matches!(k, IntErrorKind::PosOverflow)),
        other => panic!("unexpected {:?}", other),
    }
}

#[test]
fn energy_that_is_no_number_is_a_float_error() {
    let text = "1234567890\n25000\nname\n1\n0\n0\n0\n1234567890\n12\n0\nxyz\n";
    match FastNLOFile::read_str(text) {
        Err(e @ ReadError::ParseFloatError) => assert_eq!(e.message(), "Error while parsing float"),
        other => panic!("unexpected {:?}", other),
    }
}

#[test]
fn unknown_kind_of_bin_dimension_is_no_table() {
    let text = "1234567890\n25000\nname\n1\n0\n0\n0\n1234567890\n12\n0\n13000\n2\n1\n1\npT\n3\n";
    assert!(matches!(FastNLOFile::try_read_str(text), Err(ReadFailure::Abort)));
}

#[test]
fn strip_drops_scale_grids_only() {
    let mut t = sample_table(7);
    let before = t.clone();
    t.strip();
    match &t.blocks[0].data {
        BlockData::TheoryBlock { grid: Grid::Flex { grid, grid_f, grid_r, grid_rr, grid_ff, grid_rf, .. }, .. } => {
            assert!(grid_f.is_none() && grid_r.is_none() && grid_rr.is_none());
            assert!(grid_ff.is_none() && grid_rf.is_none());
            assert_eq!(grid.len(), 2);
        }
        _ => panic!("flexible theory block expected"),
    }
    assert_eq!(format!("{:?}", t.metadata), format!("{:?}", before.metadata));
    let once = format!("{:?}", t);
    t.strip();
    assert_eq!(format!("{:?}", t), once);
}

#[test]
fn merge_refuses_other_order() {
    let mut a = sample_table(4);
    let mut b = sample_table(4);
    b.metadata.alphas_ord = 3;
    match a.merge(&b) {
        Err(e @ MergeError::IncompatibleTables(..)) => {
            let MergeError::IncompatibleTables(field, x, y) = &e;
            assert_eq!((field.as_str(), x.as_str(), y.as_str()), ("alphas_ord", "2", "3"));
            assert_eq!(e.message(), "Metadata field alphas_ord is incompatible: 2 vs 3");
        }
        other => panic!("unexpected {:?}", other),
    }
    assert_eq!(a.blocks.len(), 1);
}

#[test]
fn merge_refuses_other_description() {
    let mut a = sample_table(4);
    let mut b = sample_table(4);
    b.metadata.description = strings(&["other"]);
    match a.merge(&b) {
        Err(MergeError::IncompatibleTables(field, x, y)) => {
            assert_eq!(field, "description");
            assert_eq!(x, "[\"first line\", \"second line\"]");
            assert_eq!(y, "[\"other\"]");
        }
        other => panic!("unexpected {:?}", other),
    }
}

#[test]
fn merge_pairs_blocks_and_adds_the_rest() {
    let mut a = sample_table(4);
    let mut b = sample_table(4);
    b.blocks.push(theory_block(3, 5, true));
    b.metadata.n_contrib = 2;
    let pairs = a.merge(&b).unwrap();
    assert_eq!(pairs, vec![Some(0)]);
    assert_eq!(a.metadata.n_contrib, 2);
    assert_eq!(a.blocks.len(), 2);
    match &a.blocks[0].data {
        BlockData::TheoryBlock { weight_info: Some(w), .. } => {
            assert_eq!(w.n_entries, 1800);
            assert_eq!(w.n_tables, 2);
            assert_eq!(w.n_events_obs, vec![vec![20, 40]]);
            assert_eq!(w.norm.text, "1000");
        }
        _ => panic!("theory block expected"),
    }
    assert_eq!(format!("{:?}", a.blocks[1]), format!("{:?}", b.blocks[1]));
}

#[test]
fn merge_adds_a_single_count_row_to_every_row() {
    let mut a = sample_table(4);
    let mut b = sample_table(4);
    if let BlockData::TheoryBlock { weight_info: Some(w), .. } = &mut a.blocks[0].data {
        w.n_events_obs = vec![vec![1, 2], vec![3, 4]];
    }
    if let BlockData::TheoryBlock { weight_info: Some(w), .. } = &mut b.blocks[0].data {
        w.n_events_obs = vec![vec![10]];
    }
    a.merge(&b).unwrap();
    match &a.blocks[0].data {
        BlockData::TheoryBlock { weight_info: Some(w), .. } => {
            assert_eq!(w.n_events_obs, vec![vec![11, 12], vec![13, 14]]);
        }
        _ => panic!("theory block expected"),
    }
}

#[test]
fn merge_weights_fill_every_subprocess() {
    let mut t = sample_table(4);
    t.set_merge_weights(&fs(&["0.25", "0.75"]));
    match &t.blocks[0].data {
        BlockData::TheoryBlock { weight_info: Some(w), .. } => {
            assert_eq!(w.sig_obs.len(), 1);
            assert_eq!(w.sig_obs[0][0].text, "0.25");
            assert_eq!(w.sig_obs[0][1].text, "0.75");
            assert_eq!(w.sig_sq_obs[0][0].text, "0.3");
        }
        _ => panic!("theory block expected"),
    }
    let mut u = sample_table(4);
    u.blocks = vec![theory_block(2, 4, false)];
    let before = format!("{:?}", u);
    u.set_merge_weights(&fs(&["1", "2"]));
    assert_eq!(format!("{:?}", u), before);
}

use smallnlo::format::FileFormat;
use smallnlo::plan::{LowerOrder, Piece, ScalePlan};

#[test]
fn rebuild_plan_names_the_missing_grids() {
    let mut t = sample_table(7);
    t.blocks.push(theory_block(3, 7, true));
    t.blocks.push(theory_block(4, 4, true));
    t.metadata.n_contrib = 3;
    t.strip();
    let plan = t.rebuild_plan();
    assert_eq!(
        plan[1],
        ScalePlan { order: 1, r: Piece::Rebuilt, f: Piece::Rebuilt, rr: Piece::Rebuilt, ff: Piece::Rebuilt, rf: Piece::Rebuilt }
    );
    assert_eq!(
        plan[2],
        ScalePlan { order: 2, r: Piece::Unused, f: Piece::Unused, rr: Piece::Unused, ff: Piece::Unused, rf: Piece::Unused }
    );
    let full = sample_table(6);
    assert_eq!(
        full.rebuild_plan()[0],
        ScalePlan { order: 0, r: Piece::Table, f: Piece::Table, rr: Piece::Table, ff: Piece::Unused, rf: Piece::Unused }
    );
}

#[test]
fn xsec_plan_leaves_out_higher_orders() {
    let mut t = sample_table(5);
    t.blocks.push(theory_block(3, 5, true));
    t.metadata.n_contrib = 2;
    let plan = t.xsec_plan(Some(0));
    assert_eq!(
        plan[0],
        Some(ScalePlan { order: 0, r: Piece::Table, f: Piece::Table, rr: Piece::Unused, ff: Piece::Unused, rf: Piece::Unused })
    );
    assert_eq!(plan[1], None);
    assert_eq!(t.xsec_plan(None)[1].map(|p| p.order), Some(1));
}

#[test]
fn lower_order_block_maps_subprocesses() {
    let mut t = sample_table(4);
    t.blocks.push(theory_block(3, 5, true));
    let flavors = vec![vec![(2, 2)], vec![(0, 0), (1, -1)]];
    match t.lower_order_block(&flavors, 3, 1) {
        LowerOrder::Found { block, subprocess_map } => {
            assert_eq!(block, 0);
            assert_eq!(subprocess_map, vec![1]);
        }
        other => panic!("unexpected {:?}", other),
    }
    assert!(matches!(t.lower_order_block(&flavors, 5, 1), LowerOrder::NotFound));
    assert!(matches!(
        t.lower_order_block(&vec![vec![(2, 2)]], 3, 1),
        LowerOrder::MissingSubprocess { block: 0, subprocess: 0 }
    ));
}

#[test]
fn file_kinds_by_magic_bytes() {
    assert_eq!(FileFormat::from_magic([0x1f, 0x8b, 0, 0]), Some(FileFormat::CompressedFastNLO));
    assert_eq!(FileFormat::from_magic(*b"1234"), Some(FileFormat::FastNLO));
    assert_eq!(FileFormat::from_magic([0x28, 0xb5, 0x2f, 0xfd]), Some(FileFormat::CompressedSmallNLO));
    assert_eq!(FileFormat::from_magic(FileFormat::smallnlo_magic()), Some(FileFormat::SmallNLO));
    assert_eq!(FileFormat::from_magic(*b"abcd"), None);
    assert_eq!(FileFormat::FastNLO.counterpart(), FileFormat::SmallNLO);
    assert_eq!(FileFormat::CompressedSmallNLO.counterpart(), FileFormat::CompressedFastNLO);
    assert_eq!(FileFormat::for_output(true, false), FileFormat::FastNLO);
    assert_eq!(FileFormat::for_output(false, true), FileFormat::CompressedSmallNLO);
}

fn table_of(r: Result<Payload, LoadFailure>) -> FastNLOFile {
    match r {
        Ok(Payload::Table(t)) => t,
        other => panic!("expected a table, got {:?}", other),
    }
}

fn serialized_of(r: Result<Payload, LoadFailure>) -> Vec<u8> {
    match r {
        Ok(Payload::Serialized(v)) => v,
        other => panic!("expected serialized bytes, got {:?}", other),
    }
}

#[test]
fn text_file_bytes_read_as_a_table() {
    let t = sample_table(5);
    let text = written(&t);
    let back = table_of(table_payload(text.as_bytes()));
    assert_eq!(format!("{:?}", back), format!("{:?}", t));
    let again = table_of(text_payload(text.as_bytes()));
    assert_eq!(format!("{:?}", again), format!("{:?}", t));
}

#[test]
fn gzip_compressed_text_reads_back() {
    let t = sample_table(7);
    let text = written(&t);
    let bytes = compressed_text(&t).unwrap();
    assert_eq!(&bytes[0..2], &[0x1f, 0x8b]);
    assert_ne!(bytes, text.as_bytes());
    let mut plain = String::new();
    std::io::Read::read_to_string(&mut flate2::bufread::GzDecoder::new(bytes.as_slice()), &mut plain).unwrap();
    assert_eq!(plain, text);
    let back = table_of(table_payload(&bytes));
    assert_eq!(format!("{:?}", back), format!("{:?}", t));
}

#[test]
fn gzip_file_made_elsewhere_reads_as_a_table() {
    let t = sample_table(4);
    let text = written(&t);
    let mut enc = flate2::write::GzEncoder::new(Vec::new(), flate2::Compression::best());
    std::io::Write::write_all(&mut enc, text.as_bytes()).unwrap();
    let bytes = enc.finish().unwrap();
    let back = table_of(table_payload(&bytes));
    assert_eq!(format!("{:?}", back), format!("{:?}", t));
}

#[test]
fn uncompressed_binary_file_is_magic_then_payload() {
    let stored = stored_bytes(&[1, 2, 3], false, 0).unwrap();
    assert_eq!(stored, vec![0x7c, 0x6e, 0x6c, 0x6f, 1, 2, 3]);
    assert_eq!(serialized_of(table_payload(&stored)), vec![1, 2, 3]);
}

#[test]
fn zstd_binary_file_reads_back() {
    let data: Vec<u8> = (0..200u32).map(|i| (i % 7) as u8).collect();
    let stored = stored_bytes(&data, true, 3).unwrap();
    assert_eq!(&stored[0..4], &[0x28, 0xb5, 0x2f, 0xfd]);
    assert_ne!(stored, data);
    assert_eq!(zstd::decode_all(stored.as_slice()).unwrap(), data);
    assert_eq!(serialized_of(table_payload(&stored)), data);
    let elsewhere = zstd::encode_all(data.as_slice(), 19).unwrap();
    assert_eq!(serialized_of(table_payload(&elsewhere)), data);
}

#[test]
fn file_bytes_that_hold_no_table() {
    assert!(matches!(table_payload(&[0x31, 0x32]), Err(LoadFailure::UnknownFormat)));
    assert!(matches!(table_payload(&[0, 0, 0, 0, 0]), Err(LoadFailure::UnknownFormat)));
    assert!(matches!(table_payload(&[0x1f, 0x8b, 0, 0, 1, 2, 3]), Err(LoadFailure::Decompression)));
    assert!(matches!(table_payload(&[0x28, 0xb5, 0x2f, 0xfd, 1, 2, 3]), Err(LoadFailure::Decompression)));
    assert!(matches!(table_payload(&[0x31, 0x32, 0x33, 0x34, 0xff, 0x0a]), Err(LoadFailure::NotText)));
    assert!(matches!(table_payload(b"1234567890\n"), Err(LoadFailure::Read(_))));
}

fn grid_of(b: &Block) -> &Grid {
    match &b.data {
        BlockData::TheoryBlock { grid, .. } => grid,
        _ => panic!("expected a theory block"),
    }
}

#[test]
fn grids_lists_the_present_grids_in_order() {
    let expected = [
        (4, vec![GridSlot::Central]),
        (5, vec![GridSlot::Central, GridSlot::F, GridSlot::R]),
        (6, vec![GridSlot::Central, GridSlot::F, GridSlot::R, GridSlot::RR]),
        (7, vec![GridSlot::Central, GridSlot::F, GridSlot::R, GridSlot::RR, GridSlot::FF, GridSlot::RF]),
    ];
    for (sf, slots) in expected {
        let b = theory_block(3, sf, false);
        assert_eq!(grid_of(&b).grids(), slots);
    }
    let fixed = Grid::Fixed {
        n_scale_var: vec![1],
        n_scale_node: vec![1],
        scale_fac: vec![fs(&["1"])],
        scale_node: vec![vec![vec![fs(&["91"])]]],
        grid: vec![vec![vec![vec![vec![fs(&["2"])]]]]],
    };
    assert_eq!(fixed.grids(), vec![GridSlot::Fixed]);
    assert!(fixed.flex_grid(GridSlot::Central).is_none());
    assert_eq!(fixed.fixed_grid().unwrap()[0][0][0][0][0][0].text, "2");
}

#[test]
fn flex_grid_gives_and_replaces_a_slot() {
    let b = theory_block(3, 5, false);
    let mut g = grid_of(&b).clone();
    assert_eq!(g.flex_grid(GridSlot::R).unwrap()[0][0][0][0][0].text, "200.5");
    assert!(g.flex_grid(GridSlot::RR).is_none());
    assert!(g.fixed_grid().is_none());
    g.set_flex_grid(GridSlot::R, grid5((2, 3, 2, 1, 1), 900));
    assert_eq!(g.flex_grid(GridSlot::R).unwrap()[0][0][0][0][0].text, "900.5");
    assert_eq!(g.flex_grid(GridSlot::F).unwrap()[0][0][0][0][0].text, "100.5");
    g.set_flex_grid(GridSlot::RR, grid5((2, 3, 2, 1, 1), 900));
    assert!(g.flex_grid(GridSlot::RR).is_none());
}

#[test]
fn grid_entries_counts_every_value() {
    assert_eq!(grid_entries(&grid5((2, 3, 2, 1, 1), 0)), Some(12));
    assert_eq!(grid_entries(&grid5((1, 2, 3, 4, 5), 0)), Some(120));
    let ragged = vec![vec![vec![vec![fs(&["1", "2"]), fs(&["3"])]]], vec![], vec![vec![vec![fs(&[])]]]];
    assert_eq!(grid_entries(&ragged), Some(3));
    assert_eq!(grid_entries(&vec![]), Some(0));
}

#[test]
fn text_file_bytes_are_the_written_text() {
    let t = sample_table(6);
    let bytes = text_bytes(&t);
    assert_eq!(bytes, written(&t).into_bytes());
    assert_eq!(&bytes[0..4], b"1234");
    let back = table_of(table_payload(&bytes));
    assert_eq!(format!("{:?}", back), format!("{:?}", t));
}
