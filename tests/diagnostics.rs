use typesafe::diagnostics::parse_diagnostics;

#[test]
fn diagnostic_extraction_scenario() {
    let d = parse_diagnostics("error: doc.tex:42: Undefined control sequence", "doc.tex");
    assert_eq!(d.len(), 1);
    assert_eq!(d[0].line, 42);
    assert_eq!(d[0].message, "Undefined control sequence");
    assert_eq!(d[0].file, "doc.tex");
}

#[test]
fn line_without_pattern_yields_nothing() {
    let d = parse_diagnostics("note: all good here\nwarning: doc.tex:3: Overfull hbox", "doc.tex");
    assert!(d.is_empty());
}

#[test]
fn empty_output_yields_nothing() {
    assert!(parse_diagnostics("", "doc.tex").is_empty());
}

#[test]
fn path_with_colon_keeps_whole_path() {
    let d = parse_diagnostics("error: C:/work/doc.tex:7: Missing $ inserted", "doc.tex");
    assert_eq!(d.len(), 1);
    assert_eq!(d[0].line, 7);
    assert_eq!(d[0].message, "Missing $ inserted");
}

#[test]
fn last_line_number_field_wins() {
    let d = parse_diagnostics("error: a.tex:3: see b.tex:9: here", "a.tex");
    assert_eq!(d.len(), 1);
    assert_eq!(d[0].line, 9);
    assert_eq!(d[0].message, "here");
}

#[test]
fn empty_path_does_not_match() {
    assert!(parse_diagnostics("error: :5: nothing", "a.tex").is_empty());
}

#[test]
fn overflowing_line_number_drops_line() {
    let d = parse_diagnostics("error: a.tex:99999999999999999999999999: too far", "a.tex");
    assert!(d.is_empty());
}

#[test]
fn carriage_return_before_line_feed_is_dropped() {
    let d = parse_diagnostics("error: a.tex:3: Oops\r\nerror: a.tex:4: Again\r\n", "a.tex");
    assert_eq!(d.len(), 2);
    assert_eq!(d[0].message, "Oops");
    assert_eq!(d[1].line, 4);
    assert_eq!(d[1].message, "Again");
}

#[test]
fn marker_may_follow_other_text() {
    let d = parse_diagnostics("! LaTeX error: doc.tex:12: Environment undefined", "main.tex");
    assert_eq!(d.len(), 1);
    assert_eq!(d[0].line, 12);
    assert_eq!(d[0].file, "main.tex");
}

#[test]
fn lines_keep_their_order() {
    let text = "error: a.tex:1: first\nplain line\nerror: a.tex:2: second\n";
    let d = parse_diagnostics(text, "a.tex");
    assert_eq!(d.len(), 2);
    assert_eq!(d[0].line, 1);
    assert_eq!(d[1].line, 2);
    assert_eq!(d[1].message, "second");
}

#[test]
fn unicode_digits_close_the_path_and_drop_the_line() {
    assert!(parse_diagnostics("error: a:1: :\u{661}: ", "a.tex").is_empty());
    assert!(parse_diagnostics("error: doc.tex:4\u{662}: mixed digits", "doc.tex").is_empty());
}

#[test]
fn ascii_digits_after_unicode_ones_still_count() {
    let d = parse_diagnostics("error: a\u{661}.tex:5: ok", "a.tex");
    assert_eq!(d.len(), 1);
    assert_eq!(d[0].line, 5);
}
