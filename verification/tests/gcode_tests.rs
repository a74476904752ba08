use jukctl::gcode::{
    line_filter, parse_line, to_command, to_sequence, ArcDir, Code, Instruction, Param, Step,
    PEN_DOWN, PEN_PARK, PEN_UP,
};
use jukctl::Error;

fn params(ins: &Instruction) -> Vec<(char, String)> {
    ins.params.iter().map(|p| (p.key, p.value.clone())).collect()
}

fn text(s: &str) -> Option<String> {
    Some(s.to_string())
}

#[test]
fn filter_accepts_motion_lines() {
    assert!(line_filter("G0 X1"));
    assert!(line_filter("G2 R1"));
    assert!(line_filter("G3 X1 Y2"));
    assert!(!line_filter("G1 "));
    assert!(!line_filter("G1 Z5"));
    assert!(!line_filter("G1 X"));
}

#[test]
fn filter_rejects_other_lines() {
    assert!(!line_filter("G4 X1"));
    assert!(!line_filter("G1"));
    assert!(!line_filter("G1X1"));
    assert!(!line_filter("g1 X1"));
    assert!(!line_filter("M3 S1000"));
    assert!(!line_filter(";comment"));
    assert!(!line_filter(""));
    assert!(!line_filter(" G1 X1"));
}

#[test]
fn parse_codes() {
    assert_eq!(parse_line("G0 X1").unwrap().code, Code::MoveRapid);
    assert_eq!(parse_line("G1 X1").unwrap().code, Code::Move);
    assert_eq!(parse_line("G2 X1").unwrap().code, Code::ArcNeg);
    assert_eq!(parse_line("G3 X1").unwrap().code, Code::ArcPos);
}

#[test]
fn parse_params_in_order() {
    let ins = parse_line("G2 X-10.25 Y3 R0.5 F100").unwrap();
    assert_eq!(
        params(&ins),
        vec![
            ('X', "-10.25".to_string()),
            ('Y', "3".to_string()),
            ('R', "0.5".to_string()),
            ('F', "100".to_string()),
        ]
    );
}

#[test]
fn parse_six_params_but_not_seven() {
    assert!(parse_line("G1 X1 Y2 X3 Y4 X5 Y6").is_ok());
    assert!(matches!(
        parse_line("G1 X1 Y2 X3 Y4 X5 Y6 X7"),
        Err(Error::UnexpectedGcode)
    ));
}

#[test]
fn parse_rejects_malformed_numbers() {
    for line in [
        "G1 X", "G1 X-", "G1 X--1", "G1 X1.", "G1 X.5", "G1 X1.2.3", "G1 X+1", "G1 X1e3",
        "G1 Z1", "G1 x1", "G1 X1 ", "G1  X1", "G1 X1  Y2", "G1 X1;c", "G1 ", "G1", "G4 X1",
        "G1 X1\r",
    ] {
        assert!(
            matches!(parse_line(line), Err(Error::UnexpectedGcode)),
            "accepted {:?}",
            line
        );
    }
}

#[test]
fn parse_accepts_well_formed_numbers() {
    for line in ["G1 X0", "G1 X-0", "G1 X007", "G1 X-12.0625", "G1 F1500 X1.5"] {
        assert!(parse_line(line).is_ok(), "refused {:?}", line);
    }
}

#[test]
fn command_takes_last_value_of_each_key() {
    let ins = parse_line("G1 X1 Y2 X3 F10").unwrap();
    match to_command(&ins) {
        Step::Line { x, y, rapid } => {
            assert_eq!(x, text("3"));
            assert_eq!(y, text("2"));
            assert!(!rapid);
        }
        other => panic!("unexpected step {:?}", other),
    }
}

#[test]
fn command_for_rapid_move_without_y() {
    let ins = parse_line("G0 X5").unwrap();
    match to_command(&ins) {
        Step::Line { x, y, rapid } => {
            assert_eq!(x, text("5"));
            assert_eq!(y, None);
            assert!(rapid);
        }
        other => panic!("unexpected step {:?}", other),
    }
}

#[test]
fn command_for_arcs() {
    let ins = parse_line("G2 X1 Y2 R3 R4").unwrap();
    match to_command(&ins) {
        Step::Arc { x, y, r, dir } => {
            assert_eq!(x, text("1"));
            assert_eq!(y, text("2"));
            assert_eq!(r, text("4"));
            assert_eq!(dir, ArcDir::Neg);
        }
        other => panic!("unexpected step {:?}", other),
    }
    let ins = parse_line("G3 Y2").unwrap();
    match to_command(&ins) {
        Step::Arc { x, y, r, dir } => {
            assert_eq!(x, None);
            assert_eq!(y, text("2"));
            assert_eq!(r, None);
            assert_eq!(dir, ArcDir::Pos);
        }
        other => panic!("unexpected step {:?}", other),
    }
}

#[test]
fn command_ignores_radius_on_lines() {
    let ins = parse_line("G1 R7 X1").unwrap();
    assert!(matches!(to_command(&ins), Step::Line { .. }));
}

fn pen(s: &Step) -> Option<i32> {
    match s {
        Step::Pen { dz } => Some(*dz),
        _ => None,
    }
}

#[test]
fn sequence_frames_rapid_moves_and_parks() {
    let steps = to_sequence("G21\nG0 X1 Y1\nG1 X2 Y2\r\nM2\n");
    assert_eq!(steps.len(), 5);
    assert_eq!(pen(&steps[0]), Some(PEN_UP));
    assert!(matches!(steps[1], Step::Line { rapid: true, .. }));
    assert_eq!(pen(&steps[2]), Some(PEN_DOWN));
    assert!(matches!(steps[3], Step::Line { rapid: false, .. }));
    assert_eq!(pen(&steps[4]), Some(PEN_PARK));
    assert_eq!(PEN_UP, 3000);
    assert_eq!(PEN_DOWN, -3000);
    assert_eq!(PEN_PARK, 5000);
}

#[test]
fn sequence_of_empty_document_only_parks() {
    let steps = to_sequence("");
    assert_eq!(steps.len(), 1);
    assert_eq!(pen(&steps[0]), Some(PEN_PARK));
}

#[test]
fn sequence_skips_lines_the_filter_drops() {
    let steps = to_sequence("G1 X1\n;G1 bad\nG1 X1 Y\nG1 Z5\nG1 X2\n");
    assert_eq!(steps.len(), 3);
    match &steps[1] {
        Step::Line { x, .. } => assert_eq!(x, &text("2")),
        other => panic!("unexpected step {:?}", other),
    }
}

#[test]
fn sequence_pen_travel_is_balanced() {
    let steps = to_sequence("G0 X1\nG0 X2\nG1 X3\nG0 X4 Y5");
    let travel: i32 = steps.iter().filter_map(pen).sum();
    assert_eq!(travel, PEN_PARK);
    assert_eq!(steps.len(), 3 * 3 + 1 + 1);
}

#[test]
fn sequence_skips_line_with_lone_carriage_return() {
    let steps = to_sequence("G1 X1\r");
    assert_eq!(steps.len(), 1);
}

#[test]
fn sequence_ignores_dropped_lines() {
    let doc = "G90\nG0 X1 Y2\n(comment)\nG1 X3 Y4\r\nG1 Z9\nG2 X1 Y1 R2\n";
    let kept: Vec<&str> = doc.lines().filter(|l| line_filter(l)).collect();
    let a = format!("{:?}", to_sequence(doc));
    let b = format!("{:?}", to_sequence(&kept.join("\n")));
    assert_eq!(a, b);
}

#[test]
fn parse_then_render_roundtrip() {
    let line = "G3 X-1.5 Y2 R0.25 F900";
    let ins = parse_line(line).unwrap();
    let digit = match ins.code {
        Code::MoveRapid => '0',
        Code::Move => '1',
        Code::ArcNeg => '2',
        Code::ArcPos => '3',
    };
    let words: Vec<String> = ins
        .params
        .iter()
        .map(|p: &Param| format!("{}{}", p.key, p.value))
        .collect();
    assert_eq!(format!("G{} {}", digit, words.join(" ")), line);
}

#[test]
fn filter_agrees_with_parser() {
    for line in [
        "G0 X1", "G1 Y-2.5 F100", "G2 X1 Y1 R3", "G3 R0.5", "G1 X", "G1 Z5", "G1 ", "G4 X1",
        "G1 X1 ", "M3",
    ] {
        assert_eq!(line_filter(line), parse_line(line).is_ok(), "{:?}", line);
    }
}
