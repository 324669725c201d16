use gcode_parser::{
    comment, doc_comment, filament_used, parentheses_comment, parse_args, parse_command, parse_gcode,
    parse_kv_arg, seimcolon_comment, with_parentheses_comments, Arg, ArgOrComment, Comment, Decimal, DocComment, ErrorKind,
    GCode, GCodeLine, GCodeParseError, Mnemonic,
};

fn command(line: &[u8]) -> GCode<'_> {
    match parse_gcode(line) {
        Ok((rest, Some(GCodeLine::GCode(g)))) => {
            assert!(rest.is_empty(), "unparsed: {:?}", rest);
            g
        }
        other => panic!("expected a command, got {:?}", other),
    }
}

fn as_f32(d: &Decimal) -> f32 {
    std::str::from_utf8(d.0).unwrap().parse().unwrap()
}

#[test]
fn blank_lines_are_no_line() {
    assert_eq!(parse_gcode(b"").unwrap(), (&b""[..], None));
    assert_eq!(parse_gcode(b"\n").unwrap(), (&b""[..], None));
    assert_eq!(parse_gcode(b"  \t").unwrap(), (&b""[..], None));
    assert_eq!(parse_gcode(b" \n").unwrap(), (&b""[..], None));
}

#[test]
fn percent_line_is_demarcator() {
    assert_eq!(parse_gcode(b"%").unwrap(), (&b""[..], Some(GCodeLine::FileDemarcator)));
    assert_eq!(parse_gcode(b"  % start").unwrap(), (&b""[..], Some(GCodeLine::FileDemarcator)));
    assert_eq!(parse_gcode(b"%\n").unwrap(), (&b"\n"[..], Some(GCodeLine::FileDemarcator)));
}

#[test]
fn g1_with_three_arguments() {
    let g = command(b"G1 X132.273 Y137.397 E3.64358");
    assert_eq!(g.line_number, None);
    assert_eq!(g.mnemonic, Mnemonic::General);
    assert_eq!(g.major, 1);
    assert_eq!(g.minor, 0);
    let args = g.arguments();
    assert_eq!(
        args,
        vec![
            ('X', Some(Decimal(b"132.273"))),
            ('Y', Some(Decimal(b"137.397"))),
            ('E', Some(Decimal(b"3.64358"))),
        ]
    );
    assert_eq!(as_f32(args[0].1.as_ref().unwrap()), 132.273);
    assert_eq!(g.text(), None);
}

#[test]
fn letters_are_case_insensitive() {
    let lower = command(b"g1 x1");
    let upper = command(b"G1 X1");
    assert_eq!(lower, upper);
    assert_eq!(lower.arguments(), vec![('X', Some(Decimal(b"1")))]);
}

#[test]
fn m117_takes_text() {
    let g = command(b"M117 Hello World");
    assert_eq!(g.mnemonic, Mnemonic::Miscellaneous);
    assert_eq!(g.major, 117);
    assert_eq!(g.text(), Some(&b"Hello World"[..]));
    assert_eq!(g.arguments(), vec![]);
    assert_eq!(
        g.args_or_comments,
        Some(vec![ArgOrComment::Arg(Arg::Text(b"Hello World"))])
    );
}

#[test]
fn m28_text_with_comments_and_escapes() {
    let g = command(b"M28 (save) my\\;file.gcode ;upload");
    assert_eq!(
        g.args_or_comments,
        Some(vec![
            ArgOrComment::Comment(Comment(b"save")),
            ArgOrComment::Arg(Arg::Text(b"my\\;file.gcode ")),
            ArgOrComment::Comment(Comment(b"upload")),
        ])
    );
}

#[test]
fn bad_escape_is_invalid_arguments() {
    let line = b"M117 a\\qb";
    assert_eq!(parse_gcode(line), Err(GCodeParseError::InvalidArguments(line.to_vec())));
}

#[test]
fn filament_used_doc_comment() {
    match parse_gcode(b";Filament used: 0.943758m") {
        Ok((rest, Some(GCodeLine::DocComment(DocComment::FilamentUsed { meters })))) => {
            assert!(rest.is_empty());
            assert_eq!(meters, Decimal(b"0.943758"));
            assert_eq!(as_f32(&meters), 0.943758);
        }
        other => panic!("expected filament used, got {:?}", other),
    }
}

#[test]
fn time_doc_comment() {
    assert_eq!(
        parse_gcode(b";TIME:3600").unwrap(),
        (&b""[..], Some(GCodeLine::DocComment(DocComment::PrintTime(3600))))
    );
}

#[test]
fn flavor_and_layer_height_doc_comments() {
    assert_eq!(
        parse_gcode(b";FLAVOR:Marlin").unwrap().1,
        Some(GCodeLine::DocComment(DocComment::GCodeFlavor(b"Marlin")))
    );
    assert_eq!(
        parse_gcode(b";Layer height: 0.2").unwrap().1,
        Some(GCodeLine::DocComment(DocComment::LayerHeight { millis: Decimal(b"0.2") }))
    );
}

#[test]
fn unknown_key_is_plain_comment() {
    assert_eq!(
        parse_gcode(b";Author: Jane").unwrap(),
        (&b""[..], Some(GCodeLine::Comment(Comment(b"Author: Jane"))))
    );
    assert_eq!(
        parse_gcode(b";TIME: soon").unwrap().1,
        Some(GCodeLine::Comment(Comment(b"TIME: soon")))
    );
}

#[test]
fn unterminated_paren_is_invalid_comment() {
    let line = b"G1 (oops";
    assert_eq!(parse_gcode(line), Err(GCodeParseError::InvalidComment(line.to_vec())));
    let line = b"(oops";
    assert_eq!(parse_gcode(line), Err(GCodeParseError::InvalidComment(line.to_vec())));
}

#[test]
fn unknown_mnemonic_is_invalid_gcode() {
    let line = b"X10 Y2";
    assert_eq!(parse_gcode(line), Err(GCodeParseError::InvalidGCode(line.to_vec())));
    let line = b"G X1";
    assert_eq!(parse_gcode(line), Err(GCodeParseError::InvalidGCode(line.to_vec())));
}

#[test]
fn line_number_minor_and_comments() {
    let g = command(b"N20 G92.1 X0 (home) E ;done");
    assert_eq!(g.line_number, Some(20));
    assert_eq!(g.major, 92);
    assert_eq!(g.minor, 1);
    assert_eq!(
        g.args_or_comments,
        Some(vec![
            ArgOrComment::Arg(Arg::KeyValue(('X', Some(Decimal(b"0"))))),
            ArgOrComment::Comment(Comment(b"home")),
            ArgOrComment::Arg(Arg::KeyValue(('E', None))),
            ArgOrComment::Comment(Comment(b"done")),
        ])
    );
}

#[test]
fn command_without_arguments_has_none() {
    let g = command(b"T2");
    assert_eq!(g.mnemonic, Mnemonic::ToolChange);
    assert_eq!(g.args_or_comments, None);
    assert_eq!(command(b"O100").mnemonic, Mnemonic::Subroutine);
    assert_eq!(command(b"P12").mnemonic, Mnemonic::ProgramNumber);
}

#[test]
fn non_number_value_is_left_over() {
    assert_eq!(
        parse_gcode(b"G1 X1a").unwrap(),
        (
            &b"1a"[..],
            Some(GCodeLine::GCode(GCode {
                line_number: None,
                mnemonic: Mnemonic::General,
                major: 1,
                minor: 0,
                args_or_comments: Some(vec![ArgOrComment::Arg(Arg::KeyValue(('X', None)))]),
            }))
        )
    );
}

#[test]
fn remainder_parses_again_without_looping() {
    let (rest, _) = parse_gcode(b"G1 X1a").unwrap();
    assert_eq!(rest, b"1a");
    assert!(parse_gcode(rest).is_err());
    let (rest, line) = parse_gcode(b"%abc\nG1").unwrap();
    assert_eq!(line, Some(GCodeLine::FileDemarcator));
    let (rest, _) = parse_gcode(rest).unwrap();
    assert_eq!(rest, b"G1");
    let (rest, line) = parse_gcode(rest).unwrap();
    assert!(rest.is_empty());
    assert_eq!(line.map(|l| matches!(l, GCodeLine::GCode(_))), Some(true));
}

#[test]
fn to_text_writes_command_back() {
    let g = command(b"g1 x-1.5 y2 (c) e");
    assert_eq!(g.to_text(), b"G1.0 X-1.5 Y2 E".to_vec());
    let written = g.to_text();
    let again = command(&written);
    assert_eq!(again.arguments(), g.arguments());
    assert_eq!(command(b"M117 Hi there").to_text(), b"M117.0 Hi there".to_vec());
    assert_eq!(command(b"G4294967295.12").to_text(), b"G4294967295.12".to_vec());
}

#[test]
fn header_overflow_is_invalid() {
    let line = b"G4294967296";
    assert_eq!(parse_gcode(line), Err(GCodeParseError::InvalidGCode(line.to_vec())));
}

#[test]
fn sub_parsers() {
    assert_eq!(parentheses_comment(b"(abc) X"), Some((&b" X"[..], &b"abc"[..])));
    assert_eq!(parentheses_comment(b"()"), None);
    assert_eq!(parentheses_comment(b"(a\n)"), None);
    assert_eq!(seimcolon_comment(b";abc\r\nx"), Some((&b"\r\nx"[..], &b"abc"[..])));
    assert_eq!(comment(b"(x)"), Some((&b""[..], Comment(b"x"))));
    assert_eq!(comment(b"x"), None);
    assert_eq!(filament_used(b"1.5m rest"), Some((&b" rest"[..], DocComment::FilamentUsed { meters: Decimal(b"1.5") })));
    assert_eq!(filament_used(b"1.5"), None);
    assert_eq!(doc_comment(b";TIME:+12"), Some((&b""[..], DocComment::PrintTime(12))));
    assert_eq!(doc_comment(b";TIME:18446744073709551616"), None);
    assert_eq!(doc_comment(b";Author: x"), None);
}

#[test]
fn command_and_argument_parsers() {
    let (rest, g) = parse_command(b"N5 M104.2 S200").unwrap();
    assert_eq!(rest, b" S200");
    assert_eq!((g.line_number, g.mnemonic, g.major, g.minor), (Some(5), Mnemonic::Miscellaneous, 104, 2));
    assert_eq!(g.args_or_comments, None);
    assert!(parse_command(b"Q1").is_none());
    assert_eq!(
        parse_args(false, b" S200 T").unwrap(),
        (
            &b""[..],
            Some(vec![
                ArgOrComment::Arg(Arg::KeyValue(('S', Some(Decimal(b"200"))))),
                ArgOrComment::Arg(Arg::KeyValue(('T', None))),
            ])
        )
    );
    assert_eq!(parse_args(false, b"").unwrap(), (&b""[..], None));
    assert_eq!(parse_args(true, b" (x").unwrap_err(), ErrorKind::Comment);
    assert_eq!(
        parse_kv_arg(b" s.5 Y").unwrap(),
        Some((&b" Y"[..], ArgOrComment::Arg(Arg::KeyValue(('S', Some(Decimal(b".5")))))))
    );
    assert_eq!(parse_kv_arg(b"X1").unwrap(), None);
}

#[test]
fn mnemonic_letters() {
    assert_eq!(Mnemonic::from_letter(b'm'), Some(Mnemonic::Miscellaneous));
    assert_eq!(Mnemonic::from_letter(b'N'), None);
    assert_eq!(Mnemonic::Subroutine.letter(), b'O');
}

#[test]
fn comments_around_a_value() {
    let major = |i: &'static [u8]| parse_command(i).map(|(rest, g)| (rest, g.major));
    let (rest, wc) = with_parentheses_comments(major, b"(a)(b)G1(c) X").unwrap();
    assert_eq!(rest, b" X");
    assert_eq!(wc.value, 1);
    assert_eq!(wc.comments, Some(vec![&b"a"[..], &b"b"[..], &b"c"[..]]));
    let (rest, wc) = with_parentheses_comments(major, b"G2").unwrap();
    assert!(rest.is_empty());
    assert_eq!((wc.value, wc.comments), (2, None));
    assert!(with_parentheses_comments(major, b"(a) G1").is_none());
}
