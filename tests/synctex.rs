use std::io::Write;
use typesafe::synctex::{
    count_lines, estimate_line, estimate_page, forward_search, inverse_search, Fraction,
    PageGeometry, SyncError, SyncIndex, DEFAULT_TOLERANCE_SP,
};

fn gz(text: &[u8]) -> Vec<u8> {
    let mut e = flate2::write::GzEncoder::new(Vec::new(), flate2::Compression::default());
    e.write_all(text).unwrap();
    e.finish().unwrap()
}

fn pages(n: usize, height_pt: u64) -> PageGeometry {
    PageGeometry { heights: vec![height_pt * 65536; n] }
}

#[test]
fn forward_inverse_round_trip() {
    let text = "SyncTeX Version:1\nInput:1:/home/user/doc.tex\nOutput:pdf\n{2\nx1,10:0,655360\n}2\n";
    let idx = SyncIndex::load(Some(gz(text.as_bytes()))).unwrap();
    let geometry = pages(2, 800);
    let pos = forward_search(Some(&idx), 10, "doc.tex", &geometry, 2, 100);
    // Page number 2 of the file is page index 1.
    assert_eq!(pos.page, 1);
    let f = pos.fraction.num as f64 / pos.fraction.den as f64;
    assert!((f - 0.0125).abs() < 1e-12);
    let line = inverse_search(
        Some(&idx),
        1,
        Fraction { num: 125, den: 10000 },
        &geometry,
        2,
        100,
        DEFAULT_TOLERANCE_SP,
    );
    assert_eq!(line, 10);
}

#[test]
fn parse_registers_inputs_and_records() {
    let text = "Input:1:a.tex\nInput:2:sub/b.tex\nh1,5:0,100:1,2,3\n{3\nv2,7:-5,-20\n}3\n";
    let idx = SyncIndex::parse(text);
    assert_eq!(idx.inputs.len(), 2);
    assert_eq!(idx.inputs[1].id, 2);
    assert_eq!(idx.inputs[1].path.iter().collect::<String>(), "sub/b.tex");
    assert_eq!(idx.records.len(), 2);
    let r0 = idx.records[0];
    assert_eq!((r0.kind, r0.file_id, r0.line, r0.page, r0.v), ('h', 1, 5, 0, 100));
    let r1 = idx.records[1];
    assert_eq!((r1.kind, r1.file_id, r1.line, r1.page, r1.v), ('v', 2, 7, 3, -20));
}

#[test]
fn malformed_lines_are_ignored() {
    let text = "h1,x:0,1\nk1,2:0\n{abc\ng1,2:0,99999999999999999999\nInput:x:a.tex\n";
    let idx = SyncIndex::parse(text);
    assert!(idx.inputs.is_empty());
    assert!(idx.records.is_empty());
}

#[test]
fn load_without_file_is_not_found() {
    assert!(matches!(SyncIndex::load(None), Err(SyncError::NotFound)));
}

#[test]
fn load_of_garbage_is_corrupt() {
    assert!(matches!(SyncIndex::load(Some(vec![1, 2, 3, 4])), Err(SyncError::Corrupt)));
    assert!(matches!(SyncIndex::load(Some(gz(&[0xff, 0xfe, 0x00]))), Err(SyncError::Corrupt)));
}

#[test]
fn forward_takes_first_record_and_first_matching_input() {
    let text = "Input:1:/x/other.tex\nInput:2:/x/doc.tex\n{1\nh1,4:0,10\nh2,4:0,20\n{2\nh2,4:0,30\n";
    let idx = SyncIndex::parse(text);
    let rec = idx.find_forward(4, "doc.tex").unwrap();
    assert_eq!((rec.file_id, rec.page, rec.v), (2, 1, 20));
    assert!(idx.find_forward(5, "doc.tex").is_none());
    assert!(idx.find_forward(4, "missing.tex").is_none());
}

#[test]
fn forward_clamps_and_halves() {
    let idx = SyncIndex::parse("Input:1:doc.tex\n{1\nh1,1:0,999999999\nh1,2:0,-5\n{3\nh1,3:0,7\n");
    let geometry = pages(2, 10);
    let below = forward_search(Some(&idx), 1, "doc.tex", &geometry, 2, 10);
    assert_eq!(below.page, 0);
    assert_eq!(below.fraction.num, below.fraction.den);
    let above = forward_search(Some(&idx), 2, "doc.tex", &geometry, 2, 10);
    assert_eq!(above.fraction.num, 0);
    // Page number 3 has no known height: the estimate decides.
    let unknown = forward_search(Some(&idx), 3, "doc.tex", &geometry, 2, 10);
    assert_eq!(unknown.page, 1);
    assert_eq!((unknown.fraction.num, unknown.fraction.den), (1, 2));
}

#[test]
fn forward_without_geometry_estimates() {
    let idx = SyncIndex::parse("Input:1:doc.tex\n{3\nh1,10:0,655360\n");
    let pos = forward_search(Some(&idx), 10, "doc.tex", &PageGeometry { heights: Vec::new() }, 5, 100);
    assert_eq!(pos.page, 1);
    assert_eq!((pos.fraction.num, pos.fraction.den), (1, 2));
}

#[test]
fn forward_without_index_estimates() {
    let pos = forward_search(None, 50, "doc.tex", &pages(10, 800), 10, 100);
    assert_eq!(pos.page, 5);
    assert_eq!((pos.fraction.num, pos.fraction.den), (1, 2));
}

#[test]
fn inverse_picks_nearest_record_of_a_position_kind() {
    let text = "{1\n[1,20:0,190000:1,1,1\nh1,5:0,100000:1,1,1\nx1,6:0,200000\n{2\nx1,9:0,190000\n";
    let idx = SyncIndex::parse(text);
    assert_eq!(idx.find_inverse(1, 190000, DEFAULT_TOLERANCE_SP), Some(6));
    assert_eq!(idx.find_inverse(2, 190000, DEFAULT_TOLERANCE_SP), Some(9));
    assert_eq!(idx.find_inverse(1, 190000, 5000), None);
}

#[test]
fn inverse_earliest_of_equally_near_wins() {
    let idx = SyncIndex::parse("{1\nx1,3:0,100\nx1,4:0,300\n");
    assert_eq!(idx.find_inverse(1, 200, DEFAULT_TOLERANCE_SP), Some(3));
}

#[test]
fn inverse_line_zero_is_no_answer() {
    let idx = SyncIndex::parse("{1\nx1,0:0,100\n");
    assert_eq!(idx.find_inverse(1, 100, DEFAULT_TOLERANCE_SP), None);
}

#[test]
fn inverse_falls_back_to_estimate() {
    let idx = SyncIndex::parse("{1\nx1,3:0,100\n");
    let half = Fraction { num: 1, den: 2 };
    let line = inverse_search(Some(&idx), 1, half, &pages(4, 800), 4, 100, DEFAULT_TOLERANCE_SP);
    assert_eq!(line, estimate_line(1, half, 4, 100));
    assert_eq!(line, 39);
}

#[test]
fn estimates_round_and_clamp() {
    assert_eq!(estimate_page(100, 10, 100), 9);
    assert_eq!(estimate_page(5, 10, 100), 1);
    assert_eq!(estimate_page(3, 0, 0), 0);
    assert_eq!(estimate_line(3, Fraction { num: 1, den: 1 }, 4, 100), 100);
    assert_eq!(estimate_line(0, Fraction { num: 0, den: 1 }, 4, 100), 1);
    assert_eq!(estimate_line(7, Fraction { num: 1, den: 2 }, 0, 100), 1);
    assert_eq!(estimate_line(9, Fraction { num: 1, den: 2 }, 4, 100), 100);
}

#[test]
fn lines_are_counted_like_str_lines() {
    assert_eq!(count_lines(""), 0);
    assert_eq!(count_lines("a\n"), 1);
    assert_eq!(count_lines("a\nb\r\nc"), 3);
    assert_eq!(count_lines("\n\n"), 2);
}
