use vstd::prelude::*;

use crate::error::{ErrorKind, ParseError};
use crate::label::{label_at, label_spec, Label};
use crate::lexical::{hex_digits_value, hex_value, in_class, run_len, scan, CharClass};

verus! {

/// The meaning of an operand: a 16-bit value, or the text of the label it names.
pub enum OperandModel {
    Numeric(u16),
    Symbolic(Seq<char>),
}

/// The hexadecimal literal that starts `t`, with the number of digits it spans: one to
/// four digits, not followed by a fifth.
pub open spec fn hex_spec(t: Seq<char>) -> Option<(u16, nat)> {
    let n = run_len(CharClass::HexDigit, t);
    if 1 <= n <= 4 {
        Some((hex_value(t.take(n as int)) as u16, n))
    } else {
        None
    }
}

/// The operand that starts `t`, with the number of characters it spans: `/` and a
/// hexadecimal literal, or else a label.
pub open spec fn operand_spec(t: Seq<char>) -> Option<(OperandModel, nat)> {
    if t.len() > 0 && t[0] == '/' {
        match hex_spec(t.skip(1)) {
            Some((v, n)) => Some((OperandModel::Numeric(v), n + 1)),
            None => None,
        }
    } else {
        match label_spec(t) {
            Some((l, n)) => Some((OperandModel::Symbolic(l), n)),
            None => None,
        }
    }
}

/// The value an instruction acts on.
#[derive(Clone, Copy, Debug, PartialEq, Eq)]
pub enum Operand<'a> {
    Simbolic(Label<'a>),
    Numeric(u16),
}

impl<'a> View for Operand<'a> {
    type V = OperandModel;

    open spec fn view(&self) -> OperandModel {
        match self {
            Operand::Simbolic(l) => OperandModel::Symbolic(l@),
            Operand::Numeric(v) => OperandModel::Numeric(*v),
        }
    }
}

impl<'a> Operand<'a> {
    /// Reads the operand that starts `input`; on success returns the text after it.
    pub fn parse(input: &'a str) -> (r: Result<(&'a str, Operand<'a>), ParseError>)
        ensures
            match operand_spec(input@) {
                Some((o, n)) => r matches Ok((rest, op)) && op@ == o && rest@ == input@.skip(
                    n as int,
                ),
                None => r matches Err(e) && e.position == 0 && e.kind == (if input@.len() > 0
                    && input@[0] == '/' {
                    ErrorKind::MalformedNumeric
                } else {
                    ErrorKind::MalformedIdentifier
                }),
            },
    {
        let len = input.unicode_len();
        assert(input@.skip(0) =~= input@);
        match operand_at(input, len, 0) {
            Some((op, j)) => Ok((input.substring_char(j, len), op)),
            None => {
                let kind = if len > 0 && input.get_char(0) == '/' {
                    ErrorKind::MalformedNumeric
                } else {
                    ErrorKind::MalformedIdentifier
                };
                Err(ParseError { kind, position: 0 })
            },
        }
    }

    pub fn new_numeric(value: u16) -> (r: Self)
        ensures
            r@ == OperandModel::Numeric(value),
    {
        Operand::Numeric(value)
    }

    pub fn new_simbolic(label: Label<'a>) -> (r: Self)
        ensures
            r@ == OperandModel::Symbolic(label@),
    {
        Operand::Simbolic(label)
    }
}

/// Reads the operand that starts at position `from` of `s`, and the position after it.
pub(crate) fn operand_at<'a>(s: &'a str, len: usize, from: usize) -> (r: Option<
    (Operand<'a>, usize),
>)
    requires
        len == s@.len(),
        from <= len,
    ensures
        match operand_spec(s@.skip(from as int)) {
            Some((o, n)) => r matches Some((op, j)) && op@ == o && j == from + n,
            None => r is None,
        },
        r matches Some((op, j)) ==> j <= len,
{
    let ghost t = s@.skip(from as int);
    if from < len && s.get_char(from) == '/' {
        let start = from + 1;
        let end = scan(CharClass::HexDigit, s, len, start);
        let ghost h = t.skip(1);
        assert(s@.skip(start as int) =~= h);
        if start < end && end - start <= 4 {
            proof {
                crate::lexical::lemma_run_len_bounds(CharClass::HexDigit, h);
                assert forall|i: int| start <= i < end implies #[trigger] in_class(
                    CharClass::HexDigit,
                    s@[i],
                ) by {
                    assert(s@[i] == h[i - start]);
                }
                assert(h.take(end - start) =~= s@.subrange(start as int, end as int));
            }
            let v = hex_digits_value(s, len, start, end);
            Some((Operand::Numeric(v), end))
        } else {
            None
        }
    } else {
        match label_at(s, len, from) {
            Some((l, j)) => Some((Operand::Simbolic(l), j)),
            None => None,
        }
    }
}

} // verus!
