use vstd::prelude::*;

use crate::label::{ident_len, label_spec};
use crate::lexical::{
    in_class, is_digit, is_letter, lemma_run_len_bounds, lemma_run_len_exact, run_len, CharClass,
};
use crate::line::{body_spec, labeled_spec, line_spec, trailer_len};
use crate::mneumonic::mnemonic_spec;
use crate::operand::{hex_spec, operand_spec};
use crate::operation::operation_spec;

verus! {

/// Every string of an ASCII letter followed by ASCII letters and digits is read as a
/// label whole, and the label's text is that string.
pub proof fn lemma_identifier_read_whole(s: Seq<char>)
    requires
        s.len() > 0,
        is_letter(s[0]),
        forall|i: int| 1 <= i < s.len() ==> is_letter(#[trigger] s[i]) || is_digit(s[i]),
    ensures
        label_spec(s) == Some((s, s.len())),
{
    let t = s.skip(1);
    assert forall|i: int| 0 <= i < t.len() implies #[trigger] in_class(CharClass::IdentTail, t[i]) by {
        assert(t[i] == s[i + 1]);
    }
    lemma_run_len_exact(CharClass::IdentTail, t, t.len() as int);
    assert(s.take(s.len() as int) =~= s);
}

/// Text that starts with a digit is no label, and no operand either.
pub proof fn lemma_digit_led_rejected(s: Seq<char>)
    requires
        s.len() > 0,
        is_digit(s[0]),
    ensures
        label_spec(s) is None,
        operand_spec(s) is None,
{
}

proof fn lemma_run_len_take(k: CharClass, t: Seq<char>, m: int)
    requires
        run_len(k, t) <= m <= t.len(),
    ensures
        run_len(k, t.take(m)) == run_len(k, t),
{
    lemma_run_len_bounds(k, t);
    let r = run_len(k, t) as int;
    let p = t.take(m);
    assert forall|i: int| 0 <= i < r implies #[trigger] in_class(k, p[i]) by {
        assert(p[i] == t[i]);
    }
    if r < m {
        assert(p[r] == t[r]);
    }
    lemma_run_len_exact(k, p, r);
}

proof fn lemma_run_len_extend(k: CharClass, t: Seq<char>, m: int)
    requires
        0 <= m <= t.len(),
        run_len(k, t.take(m)) < m || (m < t.len() && !in_class(k, t[m])),
    ensures
        run_len(k, t) == run_len(k, t.take(m)),
{
    let p = t.take(m);
    lemma_run_len_bounds(k, p);
    let r = run_len(k, p) as int;
    assert forall|i: int| 0 <= i < r implies #[trigger] in_class(k, t[i]) by {
        assert(p[i] == t[i]);
    }
    if r < m {
        assert(p[r] == t[r]);
    }
    lemma_run_len_exact(k, t, r);
}

/// A read of the first `k` characters of `s` that consumed `n` of them ends where a
/// read of the whole of `s` ends too: before the `k`th, or at it where that character
/// cannot continue a word.
spec fn ends_cleanly(s: Seq<char>, n: int, k: int) -> bool {
    n < k || (n == k && k < s.len() && !in_class(CharClass::IdentTail, s[k]))
}

/// The label read from a text is read alike from every prefix of it that holds the
/// consumed characters, and the text that remains does not start with another label.
pub proof fn lemma_label_stable(s: Seq<char>, k: int)
    ensures
        match label_spec(s) {
            Some((l, n)) => (n <= k <= s.len() ==> label_spec(s.take(k)) == Some((l, n)))
                && label_spec(s.skip(n as int)) is None,
            None => true,
        },
{
    if label_spec(s) is None {
        return;
    }
    let n = ident_len(s);
    let t = s.skip(1);
    lemma_run_len_bounds(CharClass::IdentTail, t);
    if n <= k <= s.len() {
        let p = s.take(k);
        assert(p.skip(1) =~= t.take(k - 1));
        lemma_run_len_take(CharClass::IdentTail, t, k - 1);
        assert(p.take(n as int) =~= s.take(n as int));
    }
    if n < s.len() {
        assert(s.skip(n as int)[0] == t[n - 1]);
    }
}

proof fn lemma_label_extend(s: Seq<char>, k: int)
    requires
        0 <= k <= s.len(),
    ensures
        match label_spec(s.take(k)) {
            Some((l, n)) => ends_cleanly(s, n as int, k) ==> label_spec(s) == Some((l, n)),
            None => k > 0 ==> label_spec(s) is None,
        },
{
    let p = s.take(k);
    if k > 0 {
        assert(p[0] == s[0]);
        assert(p.skip(1) =~= s.skip(1).take(k - 1));
        if let Some((l, n)) = label_spec(p) {
            if ends_cleanly(s, n as int, k) {
                if k < s.len() {
                    assert(s.skip(1)[k - 1] == s[k]);
                }
                lemma_run_len_extend(CharClass::IdentTail, s.skip(1), k - 1);
                assert(p.take(n as int) =~= s.take(n as int));
            }
        }
    }
}

/// The operand read from a text is read alike from every prefix of it that holds the
/// consumed characters.
pub proof fn lemma_operand_stable(s: Seq<char>, k: int)
    ensures
        match operand_spec(s) {
            Some((o, n)) => n <= k <= s.len() ==> operand_spec(s.take(k)) == Some((o, n)),
            None => true,
        },
{
    if operand_spec(s) is None {
        return;
    }
    let n = operand_spec(s).unwrap().1;
    if n <= k <= s.len() {
        let p = s.take(k);
        if s[0] == '/' {
            let h = s.skip(1);
            let r = run_len(CharClass::HexDigit, h);
            assert(p.skip(1) =~= h.take(k - 1));
            lemma_run_len_take(CharClass::HexDigit, h, k - 1);
            assert(h.take(k - 1).take(r as int) =~= h.take(r as int));
        } else {
            lemma_label_stable(s, k);
        }
    }
}

proof fn lemma_operand_extend(s: Seq<char>, k: int)
    requires
        0 <= k <= s.len(),
    ensures
        match operand_spec(s.take(k)) {
            Some((o, n)) => ends_cleanly(s, n as int, k) ==> operand_spec(s) == Some((o, n)),
            None => true,
        },
{
    let p = s.take(k);
    if let Some((o, n)) = operand_spec(p) {
        if ends_cleanly(s, n as int, k) {
            if s[0] == '/' {
                assert(p[0] == s[0]);
                let h = s.skip(1);
                assert(p.skip(1) =~= h.take(k - 1));
                if k < s.len() {
                    assert(h[k - 1] == s[k]);
                }
                lemma_run_len_extend(CharClass::HexDigit, h, k - 1);
                let r = run_len(CharClass::HexDigit, h);
                assert(h.take(k - 1).take(r as int) =~= h.take(r as int));
            } else {
                assert(p[0] == s[0]);
                lemma_label_extend(s, k);
            }
        }
    }
}

proof fn lemma_operand_start(s: Seq<char>)
    ensures
        match operand_spec(s) {
            Some((o, n)) => n >= 1 && s.len() > 0 && (s[0] == '/' || is_letter(s[0])),
            None => true,
        },
{
}

/// The instruction read from a text is read alike from every prefix of it that holds
/// the consumed characters.
pub proof fn lemma_operation_stable(s: Seq<char>, k: int)
    ensures
        match operation_spec(s) {
            Some((o, n)) => n <= k <= s.len() ==> operation_spec(s.take(k)) == Some((o, n)),
            None => true,
        },
{
    if let Some((o, n)) = operation_spec(s) {
        if n <= k <= s.len() {
            let p = s.take(k);
            let b = run_len(CharClass::Blank, s.skip(2)) as int;
            assert(p.skip(2) =~= s.skip(2).take(k - 2));
            lemma_run_len_take(CharClass::Blank, s.skip(2), k - 2);
            assert(p.skip(2 + b) =~= s.skip(2 + b).take(k - 2 - b));
            lemma_operand_stable(s.skip(2 + b), k - 2 - b);
        }
    }
}

proof fn lemma_operation_extend(s: Seq<char>, k: int)
    requires
        0 <= k <= s.len(),
    ensures
        match operation_spec(s.take(k)) {
            Some((o, n)) => ends_cleanly(s, n as int, k) ==> operation_spec(s) == Some((o, n)),
            None => true,
        },
{
    let p = s.take(k);
    if let Some((o, n)) = operation_spec(p) {
        if ends_cleanly(s, n as int, k) {
            assert(p[0] == s[0] && p[1] == s[1]);
            let b = run_len(CharClass::Blank, p.skip(2)) as int;
            assert(p.skip(2) =~= s.skip(2).take(k - 2));
            lemma_operand_start(p.skip(2 + b));
            lemma_run_len_extend(CharClass::Blank, s.skip(2), k - 2);
            assert(p.skip(2 + b) =~= s.skip(2 + b).take(k - 2 - b));
            if k < s.len() {
                assert(s.skip(2 + b)[k - 2 - b] == s[k]);
            }
            lemma_operand_extend(s.skip(2 + b), k - 2 - b);
        }
    }
}

proof fn lemma_labeled_stable(s: Seq<char>, k: int)
    ensures
        match labeled_spec(s) {
            Some((m, n)) => n <= k <= s.len() ==> labeled_spec(s.take(k)) == Some((m, n)),
            None => true,
        },
{
    if let Some((m, q)) = labeled_spec(s) {
        if q <= k <= s.len() {
            let n = label_spec(s).unwrap().1 as int;
            let p = s.take(k);
            lemma_label_stable(s, k);
            let b = run_len(CharClass::Blank, s.skip(n)) as int;
            assert(p.skip(n as int) =~= s.skip(n as int).take(k - n));
            lemma_operation_len(s.skip(n + b));
            lemma_run_len_take(CharClass::Blank, s.skip(n as int), k - n);
            assert(p.skip(n + b) =~= s.skip(n + b).take(k - n - b));
            lemma_operation_stable(s.skip(n + b), k - n - b);
        }
    }
}

proof fn lemma_labeled_extend(s: Seq<char>, k: int)
    requires
        0 <= k <= s.len(),
    ensures
        match labeled_spec(s.take(k)) {
            Some((m, n)) => ends_cleanly(s, n as int, k) ==> labeled_spec(s) == Some((m, n)),
            None => true,
        },
{
    let p = s.take(k);
    if let Some((m, q)) = labeled_spec(p) {
        if ends_cleanly(s, q as int, k) {
            let n = label_spec(p).unwrap().1 as int;
            lemma_operation_len(p.skip(n + run_len(CharClass::Blank, p.skip(n))));
            lemma_label_extend(s, k);
            let b = run_len(CharClass::Blank, p.skip(n)) as int;
            assert(p.skip(n as int) =~= s.skip(n as int).take(k - n));
            lemma_run_len_extend(CharClass::Blank, s.skip(n as int), k - n);
            assert(p.skip(n + b) =~= s.skip(n + b).take(k - n - b));
            if k < s.len() {
                assert(s.skip(n + b)[k - n - b] == s[k]);
            }
            lemma_operation_extend(s.skip(n + b), k - n - b);
        }
    }
}

proof fn lemma_labeled_len(t: Seq<char>)
    ensures
        match labeled_spec(t) {
            Some((m, n)) => n <= t.len(),
            None => true,
        },
{
    if let Some((l, n)) = label_spec(t) {
        lemma_run_len_bounds(CharClass::IdentTail, t.skip(1));
        let b = run_len(CharClass::Blank, t.skip(n as int));
        lemma_run_len_bounds(CharClass::Blank, t.skip(n as int));
        lemma_operation_len(t.skip((n + b) as int));
    }
}

/// Where a bare instruction is read, the labelled form cannot match exactly the
/// characters that the instruction and its trailing blanks and comment span.
proof fn lemma_no_labeled_overlap(t: Seq<char>, k: int)
    requires
        operation_spec(t) is Some,
        k == operation_spec(t).unwrap().1 + trailer_len(t.skip(operation_spec(t).unwrap().1 as int)),
        k <= t.len(),
    ensures
        match labeled_spec(t.take(k)) {
            Some((m, q)) => q != k,
            None => true,
        },
{
    if labeled_spec(t.take(k)) is None || labeled_spec(t.take(k)).unwrap().1 != k {
        return;
    }
    let n = operation_spec(t).unwrap().1 as int;
    let p = t.take(k);
    let b0 = run_len(CharClass::Blank, t.skip(2)) as int;
    let v = t.skip(2 + b0);
    lemma_operand_start(v);
    lemma_run_len_bounds(CharClass::Blank, t.skip(2));
    assert(t.skip(2)[0] == t[2]);
    assert(p[0] == t[0] && p[1] == t[1] && p[2] == t[2]);
    assert(p.skip(1)[0] == p[1] && p.skip(1)[1] == p[2]);
    lemma_run_len_exact(CharClass::IdentTail, p.skip(1), 1);
    assert(p.skip(2) =~= t.skip(2).take(k - 2));
    lemma_run_len_take(CharClass::Blank, t.skip(2), k - 2);
    let w = p.skip(2 + b0);
    assert(w =~= v.take(k - 2 - b0));
    let bp = run_len(CharClass::Blank, w.skip(2)) as int;
    let x = w.skip(2 + bp);
    lemma_operand_start(x);
    lemma_run_len_bounds(CharClass::Blank, w.skip(2));
    assert(w.skip(2)[0] == w[2]);
    assert(v[0] == w[0] && v[1] == w[1] && v[2] == w[2]);
    assert(v.skip(1)[0] == v[1] && v.skip(1)[1] == v[2]);
    lemma_run_len_exact(CharClass::IdentTail, v.skip(1), 1);
    assert(n == 4 + b0);
    let u = t.skip(n);
    assert forall|i: int| 0 <= i < bp implies #[trigger] in_class(CharClass::Blank, u[i]) by {
        assert(u[i] == w.skip(2)[i]);
    }
    assert(u[bp] == x[0]);
    lemma_run_len_exact(CharClass::Blank, u, bp);
}

proof fn lemma_trailer_take(u: Seq<char>)
    ensures
        trailer_len(u) <= u.len(),
        trailer_len(u.take(trailer_len(u) as int)) == trailer_len(u),
{
    let b = run_len(CharClass::Blank, u) as int;
    lemma_run_len_bounds(CharClass::Blank, u);
    let tr = trailer_len(u) as int;
    if b < u.len() && u[b] == '#' {
        let r = u.skip(b + 1);
        lemma_run_len_bounds(CharClass::LineBody, r);
        let c = run_len(CharClass::LineBody, r) as int;
        lemma_run_len_take(CharClass::Blank, u, tr);
        let q = u.take(tr);
        assert(q[b] == u[b]);
        assert(q.skip(b + 1) =~= r.take(c));
        lemma_run_len_take(CharClass::LineBody, r, c);
    } else {
        lemma_run_len_take(CharClass::Blank, u, b);
    }
}

/// The line read from a text is read alike from the consumed characters alone.
#[verifier::rlimit(60)]
#[verifier::spinoff_prover]
pub proof fn lemma_line_stable(s: Seq<char>)
    ensures
        match line_spec(s) {
            Some((m, n)) => line_spec(s.take(n as int)) == Some((m, n)),
            None => true,
        },
{
    if line_spec(s) is None {
        return;
    }
    let a = run_len(CharClass::Blank, s) as int;
    lemma_run_len_bounds(CharClass::Blank, s);
    let t = s.skip(a);
    lemma_body_len(t);
    let n = body_spec(t).unwrap().1 as int;
    let u = t.skip(n);
    assert(s.skip(a + n) =~= u);
    lemma_trailer_take(u);
    let tr = trailer_len(u) as int;
    let k = n + tr;
    let p = s.take(a + k);
    lemma_run_len_take(CharClass::Blank, s, a + k);
    assert(p.skip(a) =~= t.take(k));
    assert(p.skip(a + n) =~= u.take(tr));
    assert(t.take(k).skip(n) =~= u.take(tr));
    if labeled_spec(t) is Some {
        lemma_labeled_stable(t, k);
    } else {
        lemma_operation_stable(t, k);
        if let Some((lm, q)) = labeled_spec(t.take(k)) {
            lemma_labeled_len(t.take(k));
            if q < k {
                lemma_labeled_extend(t, k);
            } else {
                lemma_no_labeled_overlap(t, k);
            }
        }
    }
    assert(body_spec(p.skip(a)) == body_spec(t));
    assert(trailer_len(p.skip(a + n)) == tr);
}

proof fn lemma_operand_last(x: Seq<char>)
    ensures
        match operand_spec(x) {
            Some((o, c)) => 1 <= c <= x.len() && !in_class(CharClass::Blank, x[c - 1]),
            None => true,
        },
{
    if let Some((o, c)) = operand_spec(x) {
        let t = x.skip(1);
        lemma_run_len_bounds(CharClass::IdentTail, t);
        lemma_run_len_bounds(CharClass::HexDigit, t);
        if c > 1 {
            assert(t[c - 2] == x[c - 1]);
            if x[0] == '/' {
                assert(in_class(CharClass::HexDigit, t[c - 2]));
            } else {
                assert(in_class(CharClass::IdentTail, t[c - 2]));
            }
        }
    }
}

proof fn lemma_operation_last(y: Seq<char>)
    ensures
        match operation_spec(y) {
            Some((o, n)) => 1 <= n <= y.len() && !in_class(CharClass::Blank, y[n - 1]),
            None => true,
        },
{
    if let Some((o, n)) = operation_spec(y) {
        let b = run_len(CharClass::Blank, y.skip(2)) as int;
        lemma_run_len_bounds(CharClass::Blank, y.skip(2));
        let x = y.skip(2 + b);
        lemma_operand_last(x);
        let c = operand_spec(x).unwrap().1 as int;
        assert(x[c - 1] == y[n - 1]);
    }
}

proof fn lemma_labeled_last(y: Seq<char>)
    ensures
        match labeled_spec(y) {
            Some((m, q)) => 1 <= q <= y.len() && !in_class(CharClass::Blank, y[q - 1]),
            None => true,
        },
{
    if let Some((m, q)) = labeled_spec(y) {
        let n = label_spec(y).unwrap().1 as int;
        lemma_run_len_bounds(CharClass::IdentTail, y.skip(1));
        let b = run_len(CharClass::Blank, y.skip(n)) as int;
        lemma_run_len_bounds(CharClass::Blank, y.skip(n));
        let x = y.skip(n + b);
        lemma_operation_last(x);
        let c = operation_spec(x).unwrap().1 as int;
        assert(x[c - 1] == y[q - 1]);
    }
}

proof fn lemma_trailer_blanks(u: Seq<char>, w: Seq<char>)
    requires
        trailer_len(u) == u.len(),
        forall|i: int| 0 <= i < w.len() ==> #[trigger] in_class(CharClass::Blank, w[i]),
    ensures
        trailer_len(u + w) == u.len() + w.len(),
{
    let v = u + w;
    let b = run_len(CharClass::Blank, u) as int;
    lemma_run_len_bounds(CharClass::Blank, u);
    assert(v.take(u.len() as int) =~= u);
    if b < u.len() && u[b] == '#' {
        lemma_run_len_extend(CharClass::Blank, v, u.len() as int);
        let r = u.skip(b + 1);
        lemma_run_len_bounds(CharClass::LineBody, r);
        assert(v.skip(b + 1) =~= r + w);
        assert forall|i: int| 0 <= i < (r + w).len() implies #[trigger] in_class(
            CharClass::LineBody,
            (r + w)[i],
        ) by {
            if i >= r.len() {
                assert(in_class(CharClass::Blank, w[i - r.len()]));
            }
        }
        lemma_run_len_exact(CharClass::LineBody, r + w, (r + w).len() as int);
    } else {
        assert forall|i: int| 0 <= i < v.len() implies #[trigger] in_class(CharClass::Blank, v[i]) by {
            if i >= u.len() {
                assert(in_class(CharClass::Blank, w[i - u.len()]));
            }
        }
        lemma_run_len_exact(CharClass::Blank, v, v.len() as int);
    }
}

proof fn lemma_body_blanks(t: Seq<char>, w: Seq<char>)
    requires
        body_spec(t) is Some,
        forall|i: int| 0 <= i < w.len() ==> #[trigger] in_class(CharClass::Blank, w[i]),
    ensures
        body_spec(t + w) == body_spec(t),
{
    lemma_labeled_last(t);
    lemma_operation_last(t);
    let yt = t + w;
    let k = t.len() as int;
    assert(yt.take(k) =~= t);
    if k < yt.len() {
        assert(yt[k] == w[0]);
        assert(in_class(CharClass::Blank, w[0]));
    }
    if labeled_spec(t) is Some {
        lemma_labeled_extend(yt, k);
    } else {
        lemma_operation_extend(yt, k);
        lemma_labeled_last(yt);
        if let Some((lm, q)) = labeled_spec(yt) {
            if q > k {
                assert(yt[q - 1] == w[q - 1 - k]);
            }
            lemma_labeled_stable(yt, k);
        }
    }
}

/// Blanks put after a line that is read whole change neither whether it is read nor
/// what is read: they are consumed with it.
#[verifier::rlimit(60)]
#[verifier::spinoff_prover]
pub proof fn lemma_line_trailing_blanks(x: Seq<char>, w: Seq<char>)
    requires
        forall|i: int| 0 <= i < w.len() ==> #[trigger] in_class(CharClass::Blank, w[i]),
    ensures
        match line_spec(x) {
            Some((m, n)) => n == x.len() ==> line_spec(x + w) == Some((m, n + w.len())),
            None => true,
        },
{
    if line_spec(x) is None || line_spec(x).unwrap().1 != x.len() {
        return;
    }
    let y = x + w;
    let a = run_len(CharClass::Blank, x) as int;
    lemma_run_len_bounds(CharClass::Blank, x);
    let t = x.skip(a);
    lemma_labeled_last(t);
    lemma_operation_last(t);
    lemma_body_len(t);
    assert(y.take(x.len() as int) =~= x);
    lemma_run_len_extend(CharClass::Blank, y, x.len() as int);
    assert(y.skip(a) =~= t + w);
    lemma_body_blanks(t, w);
    let n = body_spec(t).unwrap().1 as int;
    let u = x.skip(a + n);
    assert(t.skip(n) =~= u);
    assert(y.skip(a + n) =~= u + w);
    lemma_trailer_blanks(u, w);
}

/// Blanks around a line that is read whole do not change what is read: the record is
/// the same, and the blanks are consumed with it.
pub proof fn lemma_line_whitespace_invariant(w1: Seq<char>, x: Seq<char>, w2: Seq<char>)
    requires
        forall|i: int| 0 <= i < w1.len() ==> #[trigger] in_class(CharClass::Blank, w1[i]),
        forall|i: int| 0 <= i < w2.len() ==> #[trigger] in_class(CharClass::Blank, w2[i]),
    ensures
        match line_spec(x) {
            Some((m, n)) => n == x.len() ==> line_spec(w1 + x + w2) == Some(
                (m, w1.len() + x.len() + w2.len()),
            ),
            None => true,
        },
{
    lemma_line_trailing_blanks(x, w2);
    lemma_line_leading_blanks(w1, x + w2);
    assert(w1 + x + w2 =~= w1 + (x + w2));
}

/// A hexadecimal literal of five or more digits is no operand.
pub proof fn lemma_long_literal_rejected(s: Seq<char>)
    requires
        s.len() >= 6,
        s[0] == '/',
        forall|i: int| 1 <= i <= 5 ==> #[trigger] in_class(CharClass::HexDigit, s[i]),
    ensures
        hex_spec(s.skip(1)) is None,
        operand_spec(s) is None,
{
    let h = s.skip(1);
    lemma_run_len_bounds(CharClass::HexDigit, h);
    let k = run_len(CharClass::HexDigit, h);
    if k < 5 {
        assert(in_class(CharClass::HexDigit, s[(k + 1) as int]));
        assert(h[k as int] == s[(k + 1) as int]);
    }
}

/// A line holding a single word, with only blanks around it and perhaps a comment after
/// them, is rejected: an instruction needs a keyword and an operand apart, so a label
/// alone is no line.
pub proof fn lemma_single_word_rejected(s: Seq<char>, lo: int, hi: int, c: int)
    requires
        0 <= lo < hi <= c <= s.len(),
        forall|i: int| 0 <= i < lo ==> #[trigger] in_class(CharClass::Blank, s[i]),
        forall|i: int| lo <= i < hi ==> !#[trigger] in_class(CharClass::Blank, s[i]),
        forall|i: int| hi <= i < c ==> #[trigger] in_class(CharClass::Blank, s[i]),
        c < s.len() ==> s[c] == '#',
    ensures
        line_spec(s) is None,
{
    lemma_run_len_exact(CharClass::Blank, s, lo);
    let t = s.skip(lo);
    assert forall|i: int| 0 <= i < hi - lo implies !#[trigger] in_class(CharClass::Blank, t[i]) by {
        assert(t[i] == s[lo + i]);
    }
    assert forall|i: int| hi - lo <= i < c - lo implies #[trigger] in_class(CharClass::Blank, t[i]) by {
        assert(t[i] == s[lo + i]);
    }
    if c < s.len() {
        assert(t[c - lo] == s[c]);
    }
    lemma_word_not_body(t, hi - lo, c - lo);
}

/// `t` is a word of `k` characters, blanks up to position `c`, then the end or a `#`.
spec fn word_then_comment(t: Seq<char>, k: int, c: int) -> bool {
    &&& 1 <= k <= c <= t.len()
    &&& forall|i: int| 0 <= i < k ==> !#[trigger] in_class(CharClass::Blank, t[i])
    &&& forall|i: int| k <= i < c ==> #[trigger] in_class(CharClass::Blank, t[i])
    &&& c < t.len() ==> t[c] == '#'
}

/// After a word, the blanks run up to the comment or the end, and nothing is read there.
proof fn lemma_word_tail(t: Seq<char>, k: int, c: int, a: int)
    requires
        word_then_comment(t, k, c),
        a == k,
    ensures
        run_len(CharClass::Blank, t.skip(a)) == c - a,
        operation_spec(t.skip(c)) is None,
        operand_spec(t.skip(c)) is None,
{
    let u = t.skip(a);
    assert forall|i: int| 0 <= i < c - a implies #[trigger] in_class(CharClass::Blank, u[i]) by {
        assert(u[i] == t[a + i]);
    }
    if c < t.len() {
        assert(u[c - a] == t[c]);
        assert(t.skip(c)[0] == t[c]);
    }
    lemma_run_len_exact(CharClass::Blank, u, c - a);
    assert(t.skip(a).skip(c - a) =~= t.skip(c));
}

proof fn lemma_word_not_operation(t: Seq<char>, k: int, c: int)
    requires
        word_then_comment(t, k, c),
    ensures
        operation_spec(t) is None,
{
    if let Some((m, a)) = mnemonic_spec(t) {
        let u = t.skip(a as int);
        if a < k {
            assert(u[0] == t[a as int]);
        } else {
            assert(!in_class(CharClass::Blank, t[1]));
            lemma_word_tail(t, k, c, a as int);
        }
    }
}

proof fn lemma_word_not_body(t: Seq<char>, k: int, c: int)
    requires
        word_then_comment(t, k, c),
    ensures
        body_spec(t) is None,
{
    lemma_word_not_operation(t, k, c);
    if let Some((l, n)) = label_spec(t) {
        lemma_run_len_bounds(CharClass::IdentTail, t.skip(1));
        if n > k {
            assert(t.skip(1)[k - 1] == t[k]);
            assert(in_class(CharClass::IdentTail, t[k]));
            if k < c {
                assert(in_class(CharClass::Blank, t[k]));
            }
        }
        if n < k {
            assert(t.skip(n as int)[0] == t[n as int]);
        } else {
            lemma_word_tail(t, k, c, n as int);
        }
    }
}

proof fn lemma_blank_prefix(w: Seq<char>, s: Seq<char>)
    requires
        forall|i: int| 0 <= i < w.len() ==> #[trigger] in_class(CharClass::Blank, w[i]),
    ensures
        run_len(CharClass::Blank, w + s) == w.len() + run_len(CharClass::Blank, s),
    decreases w.len(),
{
    if w.len() > 0 {
        assert((w + s)[0] == w[0]);
        assert((w + s).drop_first() =~= w.drop_first() + s);
        assert forall|i: int| 0 <= i < w.drop_first().len() implies #[trigger] in_class(
            CharClass::Blank,
            w.drop_first()[i],
        ) by {
            assert(in_class(CharClass::Blank, w[i + 1]));
        }
        lemma_blank_prefix(w.drop_first(), s);
    } else {
        assert(w + s =~= s);
    }
}

/// Blanks put before a line change neither whether it is read nor what is read: they
/// only add to the characters consumed.
pub proof fn lemma_line_leading_blanks(w: Seq<char>, s: Seq<char>)
    requires
        forall|i: int| 0 <= i < w.len() ==> #[trigger] in_class(CharClass::Blank, w[i]),
    ensures
        line_spec(w + s) == match line_spec(s) {
            Some((m, n)) => Some((m, w.len() + n)),
            None => None,
        },
{
    lemma_blank_prefix(w, s);
    let a = run_len(CharClass::Blank, s);
    lemma_run_len_bounds(CharClass::Blank, s);
    lemma_body_len(s.skip(a as int));
    assert((w + s).skip((w.len() + a) as int) =~= s.skip(a as int));
    match body_spec(s.skip(a as int)) {
        Some((m, n)) => {
            assert((w + s).skip((w.len() + a + n) as int) =~= s.skip((a + n) as int));
        },
        None => {},
    }
}

/// What a line leaves unread starts with no blank: trailing blanks are always consumed.
pub proof fn lemma_line_rest_not_blank(s: Seq<char>)
    ensures
        match line_spec(s) {
            Some((m, n)) => n <= s.len() && (n < s.len() ==> !in_class(
                CharClass::Blank,
                s[n as int],
            )),
            None => true,
        },
{
    if line_spec(s) is None {
        return;
    }
    let a = run_len(CharClass::Blank, s);
    lemma_run_len_bounds(CharClass::Blank, s);
    let n = body_spec(s.skip(a as int)).unwrap().1;
    let e = a + n;
    lemma_body_len(s.skip(a as int));
    let t = s.skip(e as int);
    let b = run_len(CharClass::Blank, t);
    lemma_run_len_bounds(CharClass::Blank, t);
    if b < t.len() && t[b as int] == '#' {
        let u = t.skip((b + 1) as int);
        lemma_run_len_bounds(CharClass::LineBody, u);
        let c = run_len(CharClass::LineBody, u);
        if c < u.len() {
            assert(s[(e + b + 1 + c) as int] == u[c as int]);
        }
    } else if b < t.len() {
        assert(s[(e + b) as int] == t[b as int]);
    }
}

proof fn lemma_operand_len(t: Seq<char>)
    ensures
        match operand_spec(t) {
            Some((o, n)) => n <= t.len(),
            None => true,
        },
{
    lemma_run_len_bounds(CharClass::IdentTail, t.skip(1));
    lemma_run_len_bounds(CharClass::HexDigit, t.skip(1));
}

proof fn lemma_operation_len(t: Seq<char>)
    ensures
        match operation_spec(t) {
            Some((o, n)) => n <= t.len(),
            None => true,
        },
{
    if let Some((m, a)) = mnemonic_spec(t) {
        let b = run_len(CharClass::Blank, t.skip(a as int));
        lemma_run_len_bounds(CharClass::Blank, t.skip(a as int));
        lemma_operand_len(t.skip((a + b) as int));
    }
}

proof fn lemma_body_len(t: Seq<char>)
    ensures
        match body_spec(t) {
            Some((m, n)) => n <= t.len(),
            None => true,
        },
{
    lemma_operation_len(t);
    if let Some((l, n)) = label_spec(t) {
        lemma_run_len_bounds(CharClass::IdentTail, t.skip(1));
        let b = run_len(CharClass::Blank, t.skip(n as int));
        lemma_run_len_bounds(CharClass::Blank, t.skip(n as int));
        lemma_operation_len(t.skip((n + b) as int));
    }
}

} // verus!
