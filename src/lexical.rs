use vstd::prelude::*;

verus! {

/// The character classes that the grammar is built from.
#[derive(Clone, Copy, Debug, PartialEq, Eq, Structural)]
pub enum CharClass {
    /// An ASCII letter: the first character of an identifier.
    Letter,
    /// An ASCII letter or an ASCII digit: the later characters of an identifier.
    IdentTail,
    /// A hexadecimal digit, of either case.
    HexDigit,
    /// Horizontal whitespace: a space or a tab.
    Blank,
    /// Anything but a line terminator (`\n` or `\r`).
    LineBody,
}

pub open spec fn is_letter(c: char) -> bool {
    ('a' <= c && c <= 'z') || ('A' <= c && c <= 'Z')
}

pub open spec fn is_digit(c: char) -> bool {
    '0' <= c && c <= '9'
}

pub open spec fn in_class(k: CharClass, c: char) -> bool {
    match k {
        CharClass::Letter => is_letter(c),
        CharClass::IdentTail => is_letter(c) || is_digit(c),
        CharClass::HexDigit => is_digit(c) || ('a' <= c && c <= 'f') || ('A' <= c && c <= 'F'),
        CharClass::Blank => c == ' ' || c == '\t',
        CharClass::LineBody => c != '\n' && c != '\r',
    }
}

/// The length of the longest prefix of `t` whose characters all lie in class `k`.
pub open spec fn run_len(k: CharClass, t: Seq<char>) -> nat
    decreases t.len(),
{
    if t.len() > 0 && in_class(k, t[0]) {
        1 + run_len(k, t.drop_first())
    } else {
        0
    }
}

/// The value of a hexadecimal digit.
pub open spec fn digit_value(c: char) -> nat {
    if is_digit(c) {
        (c as u32 - '0' as u32) as nat
    } else if 'a' <= c && c <= 'f' {
        (c as u32 - 'a' as u32 + 10) as nat
    } else {
        (c as u32 - 'A' as u32 + 10) as nat
    }
}

/// The value of a string of hexadecimal digits, most significant first.
pub open spec fn hex_value(d: Seq<char>) -> nat
    decreases d.len(),
{
    if d.len() == 0 {
        0
    } else {
        hex_value(d.drop_last()) * 16 + digit_value(d.last())
    }
}

pub open spec fn pow16(n: nat) -> nat
    decreases n,
{
    if n == 0 {
        1
    } else {
        16 * pow16((n - 1) as nat)
    }
}

/// The characters of a run are in the class, and the one after it is not.
pub proof fn lemma_run_len_bounds(k: CharClass, t: Seq<char>)
    ensures
        run_len(k, t) <= t.len(),
        forall|i: int| 0 <= i < run_len(k, t) ==> #[trigger] in_class(k, t[i]),
        run_len(k, t) < t.len() ==> !in_class(k, t[run_len(k, t) as int]),
    decreases t.len(),
{
    if t.len() > 0 && in_class(k, t[0]) {
        lemma_run_len_bounds(k, t.drop_first());
        assert forall|i: int| 0 <= i < run_len(k, t) implies #[trigger] in_class(k, t[i]) by {
            if i > 0 {
                assert(t[i] == t.drop_first()[i - 1]);
            }
        }
    }
}

/// A prefix of length `n` whose characters lie in the class, followed by the end or by
/// a character outside it, is the run.
pub proof fn lemma_run_len_exact(k: CharClass, t: Seq<char>, n: int)
    requires
        0 <= n <= t.len(),
        forall|i: int| 0 <= i < n ==> #[trigger] in_class(k, t[i]),
        n < t.len() ==> !in_class(k, t[n]),
    ensures
        run_len(k, t) == n,
    decreases t.len(),
{
    if n > 0 {
        assert(in_class(k, t[0]));
        assert forall|i: int| 0 <= i < n - 1 implies #[trigger] in_class(k, t.drop_first()[i]) by {
            assert(in_class(k, t[i + 1]));
        }
        lemma_run_len_exact(k, t.drop_first(), n - 1);
    }
}

/// Tells whether `c` lies in class `k`.
pub fn class_contains(k: CharClass, c: char) -> (r: bool)
    ensures
        r == in_class(k, c),
{
    match k {
        CharClass::Letter => ('a' <= c && c <= 'z') || ('A' <= c && c <= 'Z'),
        CharClass::IdentTail => ('a' <= c && c <= 'z') || ('A' <= c && c <= 'Z') || ('0' <= c
            && c <= '9'),
        CharClass::HexDigit => ('0' <= c && c <= '9') || ('a' <= c && c <= 'f') || ('A' <= c && c
            <= 'F'),
        CharClass::Blank => c == ' ' || c == '\t',
        CharClass::LineBody => c != '\n' && c != '\r',
    }
}

/// The position just past the run of class `k` that starts at position `from` of `s`.
pub fn scan(k: CharClass, s: &str, len: usize, from: usize) -> (j: usize)
    requires
        len == s@.len(),
        from <= len,
    ensures
        j == from + run_len(k, s@.skip(from as int)),
        j <= len,
{
    let mut j: usize = from;
    proof {
        lemma_run_len_bounds(k, s@.skip(from as int));
    }
    while j < len && class_contains(k, s.get_char(j))
        invariant
            from <= j <= len,
            len == s@.len(),
            forall|i: int| from <= i < j ==> #[trigger] in_class(k, s@[i]),
        decreases len - j,
    {
        j = j + 1;
    }
    proof {
        let t = s@.skip(from as int);
        assert forall|i: int| 0 <= i < j - from implies #[trigger] in_class(k, t[i]) by {
            assert(in_class(k, s@[from + i]));
        }
        lemma_run_len_exact(k, t, j - from);
    }
    j
}

/// The value of the digits at positions `from` up to `to` of `s`.
pub fn hex_digits_value(s: &str, len: usize, from: usize, to: usize) -> (v: u16)
    requires
        len == s@.len(),
        from < to <= len,
        to - from <= 4,
        forall|i: int| from <= i < to ==> #[trigger] in_class(CharClass::HexDigit, s@[i]),
    ensures
        v as nat == hex_value(s@.subrange(from as int, to as int)),
{
    let mut v: u16 = 0;
    let mut j: usize = from;
    assert(s@.subrange(from as int, from as int).len() == 0);
    while j < to
        invariant
            from <= j <= to,
            to - from <= 4,
            to <= len,
            len == s@.len(),
            forall|i: int| from <= i < to ==> #[trigger] in_class(CharClass::HexDigit, s@[i]),
            v as nat == hex_value(s@.subrange(from as int, j as int)),
            v < pow16((j - from) as nat),
            pow16((j - from) as nat) <= 0x10000,
        decreases to - j,
    {
        let c = s.get_char(j);
        assert(in_class(CharClass::HexDigit, s@[j as int]));
        let d: u16 = if '0' <= c && c <= '9' {
            (c as u32 - '0' as u32) as u16
        } else if 'a' <= c && c <= 'f' {
            (c as u32 - 'a' as u32 + 10) as u16
        } else {
            (c as u32 - 'A' as u32 + 10) as u16
        };
        assert(d as nat == digit_value(c) && d < 16);
        let ghost p = pow16((j - from) as nat);
        assert(pow16((j + 1 - from) as nat) == 16 * p);
        assert(v * 16 + d < 16 * p) by (nonlinear_arith)
            requires
                v < p,
                d < 16,
        ;
        proof {
            reveal_with_fuel(pow16, 5);
        }
        v = v * 16 + d;
        j = j + 1;
        let ghost sub = s@.subrange(from as int, j as int);
        assert(sub.drop_last() =~= s@.subrange(from as int, j - 1));
        assert(sub.last() == c);
    }
    v
}

} // verus!
