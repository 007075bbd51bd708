use vstd::prelude::*;

use crate::error::{ErrorKind, ParseError};
use crate::lexical::{run_len, scan, CharClass};
use crate::mneumonic::{mnemonic_at, mnemonic_spec, Mneumonic};
use crate::operand::{operand_at, operand_spec, Operand, OperandModel};

verus! {

/// The meaning of an instruction: its keyword and its operand.
pub struct OperationModel {
    pub mnemonic: Mneumonic,
    pub operand: OperandModel,
}

/// The instruction that starts `t`, with the number of characters it spans: a keyword,
/// one or more blanks, and an operand.
pub open spec fn operation_spec(t: Seq<char>) -> Option<(OperationModel, nat)> {
    match mnemonic_spec(t) {
        Some((m, a)) => {
            let b = run_len(CharClass::Blank, t.skip(a as int));
            if b == 0 {
                None
            } else {
                match operand_spec(t.skip((a + b) as int)) {
                    Some((o, c)) => Some((OperationModel { mnemonic: m, operand: o }, a + b + c)),
                    None => None,
                }
            }
        },
        None => None,
    }
}

/// An instruction: a keyword and its one operand.
#[derive(Clone, Copy, Debug, PartialEq, Eq)]
pub struct Operation<'a>(Mneumonic, Operand<'a>);

impl<'a> View for Operation<'a> {
    type V = OperationModel;

    closed spec fn view(&self) -> OperationModel {
        OperationModel { mnemonic: self.0, operand: self.1@ }
    }
}

impl<'a> Operation<'a> {
    pub fn new(mnemonic: Mneumonic, operand: Operand<'a>) -> (r: Self)
        ensures
            r@ == (OperationModel { mnemonic, operand: operand@ }),
    {
        Operation(mnemonic, operand)
    }

    pub fn mnemonic(&self) -> (r: Mneumonic)
        ensures
            r == self@.mnemonic,
    {
        self.0
    }

    pub fn operand(&self) -> (r: Operand<'a>)
        ensures
            r@ == self@.operand,
    {
        self.1
    }

    /// Reads the instruction that starts `input`; on success returns the text after it.
    pub fn parse(input: &'a str) -> (r: Result<(&'a str, Operation<'a>), ParseError>)
        ensures
            match operation_spec(input@) {
                Some((op, n)) => r matches Ok((rest, o)) && o@ == op && rest@ == input@.skip(
                    n as int,
                ),
                None => r matches Err(e) && match mnemonic_spec(input@) {
                    Some((m, a)) => e.kind == ErrorKind::MissingOperand && e.position == a,
                    None => e.kind == ErrorKind::UnrecognizedMnemonic && e.position == 0,
                },
            },
    {
        let len = input.unicode_len();
        assert(input@.skip(0) =~= input@);
        match operation_at(input, len, 0) {
            Some((op, j)) => Ok((input.substring_char(j, len), op)),
            None => match mnemonic_at(input, len, 0) {
                Some((_, a)) => Err(ParseError { kind: ErrorKind::MissingOperand, position: a }),
                None => Err(ParseError { kind: ErrorKind::UnrecognizedMnemonic, position: 0 }),
            },
        }
    }
}

/// Reads the instruction that starts at position `from` of `s`, and the position after it.
pub(crate) fn operation_at<'a>(s: &'a str, len: usize, from: usize) -> (r: Option<
    (Operation<'a>, usize),
>)
    requires
        len == s@.len(),
        from <= len,
    ensures
        match operation_spec(s@.skip(from as int)) {
            Some((op, n)) => r matches Some((o, j)) && o@ == op && j == from + n,
            None => r is None,
        },
        r matches Some((o, j)) ==> j <= len,
{
    let ghost t = s@.skip(from as int);
    match mnemonic_at(s, len, from) {
        Some((m, a)) => {
            let b = scan(CharClass::Blank, s, len, a);
            assert(s@.skip(a as int) =~= t.skip(a - from));
            if b == a {
                None
            } else {
                assert(s@.skip(b as int) =~= t.skip(b - from));
                match operand_at(s, len, b) {
                    Some((o, c)) => Some((Operation(m, o), c)),
                    None => None,
                }
            }
        },
        None => None,
    }
}

} // verus!
