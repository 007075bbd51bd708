use vstd::prelude::*;

use crate::error::{ErrorKind, ParseError};
use crate::lexical::{class_contains, in_class, is_letter, run_len, scan, CharClass};

verus! {

/// The number of characters of the identifier that starts `t`: an ASCII letter followed
/// by letters and digits. Zero where `t` does not start with a letter.
pub open spec fn ident_len(t: Seq<char>) -> nat {
    if t.len() > 0 && is_letter(t[0]) {
        1 + run_len(CharClass::IdentTail, t.skip(1))
    } else {
        0
    }
}

/// The label that starts `t`, with the number of characters it spans.
pub open spec fn label_spec(t: Seq<char>) -> Option<(Seq<char>, nat)> {
    let n = ident_len(t);
    if n > 0 {
        Some((t.take(n as int), n))
    } else {
        None
    }
}

/// Whether `t` is an identifier through and through: a letter, then letters and
/// digits only.
pub open spec fn is_identifier(t: Seq<char>) -> bool {
    t.len() > 0 && ident_len(t) == t.len()
}

/// A name in the source text: borrowed from the line it was read in.
#[derive(Clone, Copy, Debug, PartialEq, Eq)]
pub struct Label<'a>(&'a str);

impl<'a> View for Label<'a> {
    type V = Seq<char>;

    closed spec fn view(&self) -> Seq<char> {
        self.0@
    }
}

impl<'a> Label<'a> {
    pub fn new(label: &'a str) -> (r: Self)
        requires
            is_identifier(label@),
        ensures
            r@ == label@,
    {
        Label(label)
    }

    /// The label's text.
    pub fn as_str(&self) -> (r: &'a str)
        ensures
            r@ == self@,
    {
        self.0
    }

    /// Reads the identifier that starts `input`; on success returns the text after it.
    pub fn parse(input: &'a str) -> (r: Result<(&'a str, Label<'a>), ParseError>)
        ensures
            match label_spec(input@) {
                Some((t, n)) => r matches Ok((rest, l)) && l@ == t && is_identifier(l@) && rest@
                    == input@.skip(n as int),
                None => r matches Err(e) && e.kind == ErrorKind::MalformedIdentifier
                    && e.position == 0,
            },
    {
        let len = input.unicode_len();
        assert(input@.skip(0) =~= input@);
        match label_at(input, len, 0) {
            Some((l, j)) => Ok((input.substring_char(j, len), l)),
            None => Err(ParseError { kind: ErrorKind::MalformedIdentifier, position: 0 }),
        }
    }
}

/// Reads the label that starts at position `from` of `s`, and the position after it.
pub(crate) fn label_at<'a>(s: &'a str, len: usize, from: usize) -> (r: Option<(Label<'a>, usize)>)
    requires
        len == s@.len(),
        from <= len,
    ensures
        match label_spec(s@.skip(from as int)) {
            Some((t, n)) => r matches Some((l, j)) && l@ == t && j == from + n,
            None => r is None,
        },
        r matches Some((l, j)) ==> j <= len && is_identifier(l@),
{
    let ghost t = s@.skip(from as int);
    if from < len && class_contains(CharClass::Letter, s.get_char(from)) {
        let j = scan(CharClass::IdentTail, s, len, from + 1);
        assert(s@.skip(from + 1) =~= t.skip(1));
        assert(t.take(j - from) =~= s@.subrange(from as int, j as int));
        proof {
            crate::laws::lemma_label_stable(t, (j - from) as int);
        }
        Some((Label(s.substring_char(from, j)), j))
    } else {
        None
    }
}

} // verus!
