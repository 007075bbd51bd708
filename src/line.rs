use vstd::prelude::*;

use crate::error::{ErrorKind, ParseError};
use crate::label::{label_at, label_spec, Label};
use crate::lexical::{run_len, scan, CharClass};
use crate::operation::{operation_at, operation_spec, Operation, OperationModel};

verus! {

/// The meaning of a line: the label it defines, if any, and its instruction.
pub struct LineModel {
    pub label: Option<Seq<char>>,
    pub operation: OperationModel,
}

/// A label, one or more blanks and an instruction at the start of `t`.
pub open spec fn labeled_spec(t: Seq<char>) -> Option<(LineModel, nat)> {
    match label_spec(t) {
        Some((l, n)) => {
            let b = run_len(CharClass::Blank, t.skip(n as int));
            if b == 0 {
                None
            } else {
                match operation_spec(t.skip((n + b) as int)) {
                    Some((op, c)) => Some((LineModel { label: Some(l), operation: op }, n + b + c)),
                    None => None,
                }
            }
        },
        None => None,
    }
}

/// The labelled form where it matches at the start of `t`, else a bare instruction.
pub open spec fn body_spec(t: Seq<char>) -> Option<(LineModel, nat)> {
    match labeled_spec(t) {
        Some(r) => Some(r),
        None => match operation_spec(t) {
            Some((op, c)) => Some((LineModel { label: None, operation: op }, c)),
            None => None,
        },
    }
}

/// The number of characters of the blanks, and of the comment after them if one
/// follows, at the start of `t`. A comment runs from `#` up to the end of the line.
pub open spec fn trailer_len(t: Seq<char>) -> nat {
    let a = run_len(CharClass::Blank, t);
    if a < t.len() && t[a as int] == '#' {
        a + 1 + run_len(CharClass::LineBody, t.skip((a + 1) as int))
    } else {
        a
    }
}

/// The line that starts `t`, with the number of characters it spans: leading blanks,
/// the body, and the trailing blanks and comment.
pub open spec fn line_spec(t: Seq<char>) -> Option<(LineModel, nat)> {
    let a = run_len(CharClass::Blank, t);
    match body_spec(t.skip(a as int)) {
        Some((m, n)) => Some((m, a + n + trailer_len(t.skip((a + n) as int)))),
        None => None,
    }
}

/// One parsed source line: an optional label and one instruction.
#[derive(Clone, Copy, Debug, PartialEq, Eq)]
pub struct Line<'a>(Option<Label<'a>>, Operation<'a>);

impl<'a> View for Line<'a> {
    type V = LineModel;

    closed spec fn view(&self) -> LineModel {
        LineModel {
            label: match self.0 {
                Some(l) => Some(l@),
                None => None,
            },
            operation: self.1@,
        }
    }
}

impl<'a> Line<'a> {
    pub fn new(label: Option<Label<'a>>, operation: Operation<'a>) -> (r: Self)
        ensures
            r@ == (LineModel {
                label: match label {
                    Some(l) => Some(l@),
                    None => None,
                },
                operation: operation@,
            }),
    {
        Line(label, operation)
    }

    pub fn label(&self) -> (r: Option<Label<'a>>)
        ensures
            match r {
                Some(l) => self@.label == Some(l@),
                None => self@.label is None,
            },
    {
        self.0
    }

    pub fn operation(&self) -> (r: Operation<'a>)
        ensures
            r@ == self@.operation,
    {
        self.1
    }

    /// Reads one source line from the start of `input`; on success returns the text
    /// after it, which starts at the line terminator where there is one.
    pub fn parse(input: &'a str) -> (r: Result<(&'a str, Line<'a>), ParseError>)
        ensures
            match line_spec(input@) {
                Some((m, n)) => r matches Ok((rest, l)) && l@ == m && rest@ == input@.skip(
                    n as int,
                ),
                None => r matches Err(e) && e.kind == ErrorKind::NoValidLine && e.position
                    == run_len(CharClass::Blank, input@),
            },
    {
        let len = input.unicode_len();
        assert(input@.skip(0) =~= input@);
        let a = scan(CharClass::Blank, input, len, 0);
        let ghost t = input@.skip(a as int);
        let body = match label_at(input, len, a) {
            Some((l, n)) => {
                let b = scan(CharClass::Blank, input, len, n);
                assert(input@.skip(n as int) =~= t.skip(n - a));
                assert(input@.skip(b as int) =~= t.skip(b - a));
                if b == n {
                    None
                } else {
                    match operation_at(input, len, b) {
                        Some((op, c)) => Some((Line(Some(l), op), c)),
                        None => None,
                    }
                }
            },
            None => None,
        };
        let body = match body {
            Some(x) => Some(x),
            None => match operation_at(input, len, a) {
                Some((op, c)) => Some((Line(None, op), c)),
                None => None,
            },
        };
        match body {
            Some((line, e)) => {
                let end = comment_or_space(input, len, e);
                Ok((input.substring_char(end, len), line))
            },
            None => Err(ParseError { kind: ErrorKind::NoValidLine, position: a }),
        }
    }
}

/// The position after the blanks, and the comment after them if one follows, that
/// start at position `from` of `s`.
fn comment_or_space(s: &str, len: usize, from: usize) -> (j: usize)
    requires
        len == s@.len(),
        from <= len,
    ensures
        j == from + trailer_len(s@.skip(from as int)),
        j <= len,
{
    let ghost t = s@.skip(from as int);
    let a = scan(CharClass::Blank, s, len, from);
    if a < len && s.get_char(a) == '#' {
        assert(s@[a as int] == t[a - from]);
        assert(s@.skip(a + 1) =~= t.skip(a - from + 1));
        scan(CharClass::LineBody, s, len, a + 1)
    } else {
        a
    }
}

} // verus!
