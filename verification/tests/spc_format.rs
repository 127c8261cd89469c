use iff_editor::spc::{
    char_is_white_space, chars_of, parse, parse_line_range, to_spc, trim_range, EventKind,
    SpcLine, SpcOutLine,
};

fn args_of(line: &SpcLine) -> Vec<&str> {
    line.args.iter().map(|a| a.as_str()).collect()
}

fn out(text: &str, deferred: bool) -> SpcOutLine {
    SpcOutLine { text: text.to_string(), deferred }
}

#[test]
fn parse_reads_each_event_kind() {
    let text = "chart(120.00,4.00)\ntap(1000,1,2)\nhold(0,1,2,500)\nflick(0,0.5,0.5,1,4)\n\
skyarea(0,0,0,1,0,1,0,1,0,0)\nbpm(0,150)\ntrack(0,1)\nlane(0,1,1)\nbeam(1,2)\n";
    let lines = parse(text);
    let kinds: Vec<EventKind> = lines.iter().map(|l| l.kind).collect();
    assert_eq!(
        kinds,
        vec![
            EventKind::Chart,
            EventKind::Tap,
            EventKind::Hold,
            EventKind::Flick,
            EventKind::SkyArea,
            EventKind::Bpm,
            EventKind::Track,
            EventKind::Lane,
            EventKind::Beam,
        ]
    );
    assert_eq!(args_of(&lines[0]), vec!["120.00", "4.00"]);
    assert_eq!(args_of(&lines[4]).len(), 10);
    assert_eq!(lines[8].raw, "beam(1,2)");
}

#[test]
fn parse_trims_lines_and_skips_blank_ones() {
    let lines = parse("\n   \n  tap(1000, 1 ,2)  \r\n\t\n");
    assert_eq!(lines.len(), 1);
    assert_eq!(lines[0].kind, EventKind::Tap);
    assert_eq!(lines[0].raw, "tap(1000, 1 ,2)");
    assert_eq!(args_of(&lines[0]), vec!["1000", " 1 ", "2"]);
}

#[test]
fn parse_of_empty_text_is_empty() {
    assert!(parse("").is_empty());
    assert!(parse("\n\n").is_empty());
}

#[test]
fn line_without_brackets_is_unknown() {
    let lines = parse("hello world\nfoo(1,2\nbar)x\n");
    assert_eq!(lines.len(), 3);
    for l in &lines {
        assert_eq!(l.kind, EventKind::Unknown);
        assert!(l.args.is_empty());
    }
    assert_eq!(lines[0].raw, "hello world");
    assert_eq!(lines[1].raw, "foo(1,2");
}

#[test]
fn unknown_name_with_brackets_keeps_its_pieces() {
    let lines = parse("speed(1,,3)");
    assert_eq!(lines[0].kind, EventKind::Unknown);
    assert_eq!(args_of(&lines[0]), vec!["1", "", "3"]);
}

#[test]
fn arguments_run_to_the_last_bracket() {
    let lines = parse("tap(1,(2),3)");
    assert_eq!(lines[0].kind, EventKind::Tap);
    assert_eq!(args_of(&lines[0]), vec!["1", "(2)", "3"]);
    let empty = parse("chart()");
    assert_eq!(args_of(&empty[0]), vec![""]);
}

#[test]
fn name_must_match_exactly() {
    let lines = parse("Tap(1,2,3)\n tapx(1,2,3)\nchart (1,2)");
    assert_eq!(lines[0].kind, EventKind::Unknown);
    assert_eq!(lines[1].kind, EventKind::Unknown);
    assert_eq!(lines[2].kind, EventKind::Unknown);
}

#[test]
fn required_argument_counts() {
    let lines = parse("tap(1,2)\ntap(1,2,3)\nskyarea(1,2,3)\nbeam()\nchart(1,2)\n");
    assert!(!lines[0].has_required_args());
    assert!(lines[1].has_required_args());
    assert!(!lines[2].has_required_args());
    assert!(lines[3].has_required_args());
    assert!(lines[4].has_required_args());
}

#[test]
fn white_space_classes() {
    for c in [' ', '\t', '\n', '\r', '\u{0B}', '\u{0C}', '\u{85}', '\u{A0}', '\u{3000}', '\u{2009}'] {
        assert!(char_is_white_space(c), "{:?}", c);
        assert_eq!(char_is_white_space(c), c.is_whitespace());
    }
    for c in ['a', '(', ',', '0', '\u{200B}', '\u{FEFF}'] {
        assert!(!char_is_white_space(c), "{:?}", c);
        assert_eq!(char_is_white_space(c), c.is_whitespace());
    }
}

#[test]
fn trim_range_bounds() {
    let cs = chars_of("  ab c \t");
    assert_eq!(trim_range(&cs, 0, cs.len()), (2, 6));
    assert_eq!(trim_range(&cs, 0, 2), (2, 2));
    let all: String = cs[2..6].iter().collect();
    assert_eq!(all, "  ab c \t".trim());
}

#[test]
fn chars_of_keeps_every_char() {
    let cs = chars_of("a谱b");
    assert_eq!(cs, vec!['a', '谱', 'b']);
}

#[test]
fn parse_line_range_on_a_slice() {
    let cs = chars_of("xx flick(1,2,3,4,16) yy");
    let line = parse_line_range(&cs, 3, 20);
    assert_eq!(line.kind, EventKind::Flick);
    assert_eq!(line.raw, "flick(1,2,3,4,16)");
    assert_eq!(args_of(&line), vec!["1", "2", "3", "4", "16"]);
}

#[test]
fn to_spc_writes_deferred_lines_last() {
    let lines = vec![
        out("chart(120.00,4.00)", false),
        out("beam(1)", true),
        out("tap(0,1,2)", false),
        out("mystery", true),
    ];
    assert_eq!(to_spc(&lines), "chart(120.00,4.00)\ntap(0,1,2)\nbeam(1)\nmystery\n");
}

#[test]
fn to_spc_of_nothing_is_a_line_break() {
    assert_eq!(to_spc(&vec![]), "\n");
}

#[test]
fn written_lines_read_back() {
    let lines = vec![out("beam(9)", true), out("chart(1,2)", false), out("tap(0,1,2)", false)];
    let text = to_spc(&lines);
    let read = parse(&text);
    let raws: Vec<&str> = read.iter().map(|l| l.raw.as_str()).collect();
    assert_eq!(raws, vec!["chart(1,2)", "tap(0,1,2)", "beam(9)"]);
}

#[test]
fn closing_bracket_before_opening_is_unknown() {
    let lines = parse("a)b(\n  tap)1,2,3(  \nchart(1,2)\n");
    assert_eq!(lines.len(), 3);
    assert_eq!(lines[0].kind, EventKind::Unknown);
    assert_eq!(lines[0].raw, "a)b(");
    assert!(lines[0].args.is_empty());
    assert_eq!(lines[1].kind, EventKind::Unknown);
    assert_eq!(lines[1].raw, "tap)1,2,3(");
    assert!(lines[1].args.is_empty());
    assert_eq!(lines[2].kind, EventKind::Chart);
}
