use vstd::prelude::*;

use crate::error::{ErrorKind, ParseError};

verus! {

/// The instruction keywords.
#[derive(Clone, Copy, Debug, PartialEq, Eq, Structural)]
pub enum Mneumonic {
    /// `JP`: an unconditional jump.
    Jump,
}

/// The keyword that starts `t`, with the number of characters it spans.
pub open spec fn mnemonic_spec(t: Seq<char>) -> Option<(Mneumonic, nat)> {
    if t.len() >= 2 && t[0] == 'J' && t[1] == 'P' {
        Some((Mneumonic::Jump, 2))
    } else {
        None
    }
}

impl Mneumonic {
    /// Reads the keyword that starts `input`; on success returns the text after it.
    pub fn parse<'a>(input: &'a str) -> (r: Result<(&'a str, Mneumonic), ParseError>)
        ensures
            match mnemonic_spec(input@) {
                Some((m, n)) => r matches Ok((rest, k)) && k == m && rest@ == input@.skip(
                    n as int,
                ),
                None => r matches Err(e) && e.kind == ErrorKind::UnrecognizedMnemonic
                    && e.position == 0,
            },
    {
        let len = input.unicode_len();
        assert(input@.skip(0) =~= input@);
        match mnemonic_at(input, len, 0) {
            Some((m, j)) => Ok((input.substring_char(j, len), m)),
            None => Err(ParseError { kind: ErrorKind::UnrecognizedMnemonic, position: 0 }),
        }
    }
}

/// Reads the keyword that starts at position `from` of `s`, and the position after it.
pub(crate) fn mnemonic_at(s: &str, len: usize, from: usize) -> (r: Option<(Mneumonic, usize)>)
    requires
        len == s@.len(),
        from <= len,
    ensures
        match mnemonic_spec(s@.skip(from as int)) {
            Some((m, n)) => r matches Some((k, j)) && k == m && j == from + n,
            None => r is None,
        },
        r matches Some((k, j)) ==> j <= len,
{
    if len - from >= 2 && s.get_char(from) == 'J' && s.get_char(from + 1) == 'P' {
        Some((Mneumonic::Jump, from + 2))
    } else {
        None
    }
}

} // verus!
