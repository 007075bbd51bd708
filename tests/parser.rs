use assembler::error::{ErrorKind, ParseError};
use assembler::label::Label;
use assembler::line::Line;
use assembler::mneumonic::Mneumonic;
use assembler::operand::Operand;
use assembler::operation::Operation;

fn jump_to_zero<'a>() -> Operation<'a> {
    Operation::new(Mneumonic::Jump, Operand::Numeric(0))
}

#[test]
fn should_parse_label() {
    assert_eq!(Label::parse("VAL_A"), Ok(("_A", Label::new("VAL"))));
    assert_eq!(Label::parse("V1"), Ok(("", Label::new("V1"))));
    assert!(Label::parse("1V").is_err());
}

#[test]
fn should_parse() {
    assert_eq!(Line::parse("JP /0"), Ok(("", Line::new(None, jump_to_zero()))));
    assert_eq!(Line::parse("     JP /0"), Ok(("", Line::new(None, jump_to_zero()))));
    assert_eq!(
        Line::parse("LOOP JP /0"),
        Ok(("", Line::new(Some(Label::new("LOOP")), jump_to_zero())))
    );
    assert_eq!(
        Line::parse("  LOOP JP /0"),
        Ok(("", Line::new(Some(Label::new("LOOP")), jump_to_zero())))
    );
    assert_eq!(
        Line::parse("  LOOP JP /0   "),
        Ok(("", Line::new(Some(Label::new("LOOP")), jump_to_zero())))
    );
    assert_eq!(
        Line::parse("  LOOP JP /0# comment"),
        Ok(("", Line::new(Some(Label::new("LOOP")), jump_to_zero())))
    );
}

#[test]
fn should_parse_numeric() {
    assert_eq!(Operand::parse("/000F"), Ok(("", Operand::new_numeric(15))));
    assert_eq!(Operand::parse("/F"), Ok(("", Operand::new_numeric(15))));
}

#[test]
fn should_parse_simbolic() {
    assert_eq!(
        Operand::parse("label"),
        Ok(("", Operand::new_simbolic(Label::new("label"))))
    );
    assert!(Operand::parse("1label").is_err());
}

#[test]
fn identifier_is_read_whole() {
    let (rest, label) = Label::parse("Ab12cD9").unwrap();
    assert_eq!(rest, "");
    assert_eq!(label.as_str(), "Ab12cD9");
}

#[test]
fn identifier_stops_at_other_characters() {
    assert_eq!(Label::parse("AB+1"), Ok(("+1", Label::new("AB"))));
    assert_eq!(Label::parse("x y"), Ok((" y", Label::new("x"))));
    assert_eq!(Label::parse("A_"), Ok(("_", Label::new("A"))));
    assert_eq!(
        Operand::parse("A_"),
        Ok(("_", Operand::new_simbolic(Label::new("A"))))
    );
}

#[test]
fn digit_led_label_fails_at_start() {
    let e = ParseError { kind: ErrorKind::MalformedIdentifier, position: 0 };
    assert_eq!(Label::parse("1V"), Err(e));
    assert_eq!(Label::parse("9"), Err(e));
    assert_eq!(Label::parse(""), Err(e));
    assert_eq!(Label::parse("_A"), Err(e));
}

#[test]
fn digit_led_operand_fails() {
    assert_eq!(
        Operand::parse("1label"),
        Err(ParseError { kind: ErrorKind::MalformedIdentifier, position: 0 })
    );
}

#[test]
fn hexadecimal_values() {
    assert_eq!(Operand::parse("/ff"), Ok(("", Operand::Numeric(255))));
    assert_eq!(Operand::parse("/FFFF"), Ok(("", Operand::Numeric(0xFFFF))));
    assert_eq!(Operand::parse("/1a2B"), Ok(("", Operand::Numeric(0x1A2B))));
    assert_eq!(Operand::parse("/0000"), Ok(("", Operand::Numeric(0))));
    assert_eq!(Operand::parse("/7g"), Ok(("g", Operand::Numeric(7))));
}

#[test]
fn long_hexadecimal_fails() {
    let e = ParseError { kind: ErrorKind::MalformedNumeric, position: 0 };
    assert_eq!(Operand::parse("/10000"), Err(e));
    assert_eq!(Operand::parse("/00000"), Err(e));
    assert!(Line::parse("JP /10000").is_err());
}

#[test]
fn slash_without_digits_fails() {
    let e = ParseError { kind: ErrorKind::MalformedNumeric, position: 0 };
    assert_eq!(Operand::parse("/"), Err(e));
    assert_eq!(Operand::parse("/G"), Err(e));
    assert_eq!(Operand::parse("/ 1"), Err(e));
}

#[test]
fn reparsing_remainder_keeps_consumed_text() {
    let (rest, label) = Label::parse("ABC+1").unwrap();
    assert_eq!(label, Label::new("ABC"));
    assert!(Label::parse(rest).is_err());
    assert_eq!(Label::parse("ABC"), Ok(("", label)));

    let (rest, operand) = Operand::parse("/12zz").unwrap();
    assert_eq!(operand, Operand::Numeric(0x12));
    assert_eq!(rest, "zz");
    assert_eq!(Operand::parse("/12"), Ok(("", operand)));

    let (rest, line) = Line::parse("JP /0 JP /1").unwrap();
    assert_eq!(rest, "JP /1");
    assert_eq!(Line::parse("JP /0 "), Ok(("", line)));
}

#[test]
fn whitespace_does_not_change_the_line() {
    let expected = Line::new(None, jump_to_zero());
    assert_eq!(Line::parse("JP /0"), Ok(("", expected)));
    assert_eq!(Line::parse("   JP /0"), Ok(("", expected)));
    assert_eq!(Line::parse("  JP /0   "), Ok(("", expected)));
    assert_eq!(Line::parse("\tJP\t/0\t"), Ok(("", expected)));
}

#[test]
fn labelled_line_and_comment() {
    let expected = Line::new(Some(Label::new("LOOP")), jump_to_zero());
    assert_eq!(Line::parse("LOOP JP /0"), Ok(("", expected)));
    assert_eq!(Line::parse("  LOOP JP /0# comment"), Ok(("", expected)));
    let (_, line) = Line::parse("LOOP JP /0").unwrap();
    assert_eq!(line.label().unwrap().as_str(), "LOOP");
    assert_eq!(line.operation().mnemonic(), Mneumonic::Jump);
    assert_eq!(line.operation().operand(), Operand::Numeric(0));
}

#[test]
fn symbolic_operand_in_line() {
    let expected = Line::new(
        Some(Label::new("START")),
        Operation::new(Mneumonic::Jump, Operand::new_simbolic(Label::new("END"))),
    );
    assert_eq!(Line::parse("START JP END"), Ok(("", expected)));
}

#[test]
fn comment_stops_before_line_terminator() {
    let expected = Line::new(None, jump_to_zero());
    assert_eq!(Line::parse("JP /0 # jump\nJP /1"), Ok(("\nJP /1", expected)));
    assert_eq!(Line::parse("JP /0\r\n"), Ok(("\r\n", expected)));
    assert_eq!(Line::parse("JP /0 #\u{e9}t\u{e9}"), Ok(("", expected)));
}

#[test]
fn label_alone_is_no_line() {
    let e = ParseError { kind: ErrorKind::NoValidLine, position: 0 };
    assert_eq!(Line::parse("LOOP"), Err(e));
    assert_eq!(Line::parse("JP"), Err(e));
    assert_eq!(Line::parse(""), Err(e));
    assert_eq!(
        Line::parse("  LOOP  "),
        Err(ParseError { kind: ErrorKind::NoValidLine, position: 2 })
    );
    assert_eq!(
        Line::parse("JP # c"),
        Err(ParseError { kind: ErrorKind::NoValidLine, position: 0 })
    );
    assert_eq!(
        Line::parse("LOOP# c"),
        Err(ParseError { kind: ErrorKind::NoValidLine, position: 0 })
    );
    assert_eq!(
        Line::parse(" LOOP # c"),
        Err(ParseError { kind: ErrorKind::NoValidLine, position: 1 })
    );
}

#[test]
fn mnemonic_is_read() {
    assert_eq!(Mneumonic::parse("JP /0"), Ok((" /0", Mneumonic::Jump)));
    assert_eq!(
        Mneumonic::parse("jp"),
        Err(ParseError { kind: ErrorKind::UnrecognizedMnemonic, position: 0 })
    );
}

#[test]
fn operation_errors() {
    assert_eq!(
        Operation::parse("XX /0"),
        Err(ParseError { kind: ErrorKind::UnrecognizedMnemonic, position: 0 })
    );
    let missing = ParseError { kind: ErrorKind::MissingOperand, position: 2 };
    assert_eq!(Operation::parse("JP"), Err(missing));
    assert_eq!(Operation::parse("JP/0"), Err(missing));
    assert_eq!(Operation::parse("JP  1x"), Err(missing));
    assert_eq!(Operation::parse("JP  /3 x"), Ok((" x", Operation::new(Mneumonic::Jump, Operand::Numeric(3)))));
}

#[test]
fn bare_instruction_when_labelled_form_fails() {
    let expected = Line::new(
        None,
        Operation::new(Mneumonic::Jump, Operand::new_simbolic(Label::new("JP"))),
    );
    assert_eq!(Line::parse("JP JP /01234"), Ok(("/01234", expected)));
    let labelled = Line::new(Some(Label::new("JP")), jump_to_zero());
    assert_eq!(Line::parse("JP JP /0"), Ok(("", labelled)));
}
