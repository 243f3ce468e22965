//! Byte-level text utilities for the assembler.
//!
//! Assembly source is line-oriented text, handled here as bytes. This
//! module defines the character classes, the identifier grammar, line
//! cleaning (comment stripping, whitespace normalization), splitting,
//! and numeric literal parsing, each as a spec function together with
//! an executable implementation proved against it.

use vstd::prelude::*;

verus! {

// ---------------------------------------------------------------------
// character classes

/// Whitespace bytes: space, tab, vertical tab, form feed, carriage return.
pub open spec fn is_space_b(b: u8) -> bool {
    b == 0x20 || b == 0x09 || b == 0x0b || b == 0x0c || b == 0x0d
}

/// ASCII letters.
pub open spec fn is_alpha_b(b: u8) -> bool {
    (0x41 <= b && b <= 0x5a) || (0x61 <= b && b <= 0x7a)
}

/// ASCII decimal digits.
pub open spec fn is_digit_b(b: u8) -> bool {
    0x30 <= b && b <= 0x39
}

/// Word bytes: letters, digits and underscore.
pub open spec fn is_word_b(b: u8) -> bool {
    is_alpha_b(b) || is_digit_b(b) || b == 0x5f
}

/// ASCII hexadecimal digits.
pub open spec fn is_hex_b(b: u8) -> bool {
    is_digit_b(b) || (0x41 <= b && b <= 0x46) || (0x61 <= b && b <= 0x66)
}

/// Numeric value of a hexadecimal digit byte.
pub open spec fn hex_digit_val(b: u8) -> int {
    if is_digit_b(b) {
        b - 0x30
    } else if 0x41 <= b && b <= 0x46 {
        b - 0x41 + 10
    } else {
        b - 0x61 + 10
    }
}

/// Identifier grammar for labels, functions and variables: a letter
/// followed by up to 31 letters, digits or underscores.
pub open spec fn is_valid_name(s: Seq<u8>) -> bool {
    &&& 1 <= s.len() <= 32
    &&& is_alpha_b(s[0])
    &&& forall|i: int| 1 <= i < s.len() ==> is_word_b(#[trigger] s[i])
}

pub fn byte_is_space(b: u8) -> (r: bool)
    ensures
        r == is_space_b(b),
{
    b == 0x20 || b == 0x09 || b == 0x0b || b == 0x0c || b == 0x0d
}

pub fn byte_is_alpha(b: u8) -> (r: bool)
    ensures
        r == is_alpha_b(b),
{
    (0x41 <= b && b <= 0x5a) || (0x61 <= b && b <= 0x7a)
}

pub fn byte_is_digit(b: u8) -> (r: bool)
    ensures
        r == is_digit_b(b),
{
    0x30 <= b && b <= 0x39
}

pub fn byte_is_word(b: u8) -> (r: bool)
    ensures
        r == is_word_b(b),
{
    byte_is_alpha(b) || byte_is_digit(b) || b == 0x5f
}

/// Compares two byte vectors for equality of their contents.
pub fn bytes_eq(a: &Vec<u8>, b: &Vec<u8>) -> (r: bool)
    ensures
        r == (a@ == b@),
{
    let r = a == b;
    proof {
        assert(<Vec<u8> as vstd::std_specs::cmp::PartialEqSpec<Vec<u8>>>::obeys_eq_spec());
        if r {
            assert(a@ =~= b@);
        }
        if a@ == b@ {
            assert(vstd::std_specs::cmp::PartialEqSpec::eq_spec(a, b));
        }
    }
    r
}

/// Checks a name against the identifier grammar.
pub fn check_name(s: &Vec<u8>) -> (r: bool)
    ensures
        r == is_valid_name(s@),
{
    if s.len() < 1 || s.len() > 32 {
        return false;
    }
    if !byte_is_alpha(s[0]) {
        return false;
    }
    let mut i: usize = 1;
    while i < s.len()
        invariant
            1 <= i <= s@.len() <= 32,
            is_alpha_b(s@[0]),
            forall|j: int| 1 <= j < i ==> is_word_b(#[trigger] s@[j]),
        decreases s@.len() - i,
    {
        if !byte_is_word(s[i]) {
            return false;
        }
        i = i + 1;
    }
    true
}

// ---------------------------------------------------------------------
// comment stripping and whitespace normalization

/// The prefix of a line before the first `#`.
pub open spec fn strip_comment(s: Seq<u8>) -> Seq<u8>
    decreases s.len(),
{
    if s.len() == 0 {
        s
    } else if s[0] == 0x23 {
        Seq::empty()
    } else {
        seq![s[0]] + strip_comment(s.drop_first())
    }
}

/// One normalization step: spaces are deferred, and a single 0x20 is
/// emitted before the next word byte once at least one word byte has
/// been emitted (`started`) and a space was seen since (`sep`).
pub open spec fn clean_from(s: Seq<u8>, i: int, started: bool, sep: bool) -> Seq<u8>
    decreases s.len() - i,
{
    if i < 0 || i >= s.len() {
        Seq::empty()
    } else if is_space_b(s[i]) {
        clean_from(s, i + 1, started, started)
    } else if sep {
        seq![0x20u8, s[i]] + clean_from(s, i + 1, true, false)
    } else {
        seq![s[i]] + clean_from(s, i + 1, true, false)
    }
}

/// A line with its comment removed, surrounding whitespace trimmed,
/// and every internal whitespace run collapsed to a single space.
pub open spec fn clean_line_s(s: Seq<u8>) -> Seq<u8> {
    clean_from(strip_comment(s), 0, false, false)
}

proof fn lemma_strip_comment_prefix(s: Seq<u8>, i: int)
    requires
        0 <= i <= s.len(),
        forall|j: int| 0 <= j < i ==> s[j] != 0x23,
    ensures
        strip_comment(s) == s.take(i) + strip_comment(s.skip(i)),
    decreases i,
{
    if i == 0 {
        assert(s.take(0) + strip_comment(s.skip(0)) =~= strip_comment(s)) by {
            assert(s.skip(0) =~= s);
            assert(s.take(0) =~= Seq::<u8>::empty());
        }
    } else {
        lemma_strip_comment_prefix(s, i - 1);
        assert(s.skip(i - 1).len() > 0);
        assert(s.skip(i - 1)[0] == s[i - 1]);
        assert(s[i - 1] != 0x23);
        assert(strip_comment(s.skip(i - 1)) == seq![s[i - 1]] + strip_comment(
            s.skip(i - 1).drop_first(),
        ));
        assert(s.skip(i - 1).drop_first() =~= s.skip(i));
        assert(s.take(i - 1) + seq![s[i - 1]] =~= s.take(i));
        assert(s.take(i) + strip_comment(s.skip(i)) =~= s.take(i - 1) + (seq![s[i - 1]]
            + strip_comment(s.skip(i))));
    }
}

/// Removes the `#`-comment from `line` (everything from the first `#`
/// to the end of the line).
pub fn remove_comment_bytes(line: &Vec<u8>) -> (out: Vec<u8>)
    ensures
        out@ == strip_comment(line@),
{
    let mut out: Vec<u8> = Vec::new();
    let mut i: usize = 0;
    while i < line.len()
        invariant
            0 <= i <= line@.len(),
            out@ == line@.take(i as int),
            forall|j: int| 0 <= j < i ==> line@[j] != 0x23,
        decreases line@.len() - i,
    {
        if line[i] == 0x23 {
            proof {
                lemma_strip_comment_prefix(line@, i as int);
                assert(line@.skip(i as int)[0] == line@[i as int]);
                assert(strip_comment(line@.skip(i as int)) =~= Seq::<u8>::empty());
                assert(out@ =~= line@.take(i as int) + Seq::<u8>::empty());
            }
            return out;
        }
        out.push(line[i]);
        proof {
            assert(out@ =~= line@.take(i as int + 1));
        }
        i = i + 1;
    }
    proof {
        lemma_strip_comment_prefix(line@, line@.len() as int);
        assert(line@.skip(line@.len() as int) =~= Seq::<u8>::empty());
        assert(out@ =~= line@.take(line@.len() as int) + Seq::<u8>::empty());
    }
    out
}

/// Normalizes the whitespace of a comment-free line: trims both ends
/// and collapses internal whitespace runs to single spaces.
pub fn clean_spaces(line: &Vec<u8>) -> (out: Vec<u8>)
    ensures
        out@ == clean_from(line@, 0, false, false),
{
    let mut out: Vec<u8> = Vec::new();
    let mut started = false;
    let mut sep = false;
    let mut i: usize = 0;
    while i < line.len()
        invariant
            0 <= i <= line@.len(),
            clean_from(line@, 0, false, false) == out@ + clean_from(
                line@,
                i as int,
                started,
                sep,
            ),
        decreases line@.len() - i,
    {
        let b = line[i];
        if byte_is_space(b) {
            proof {
                assert(clean_from(line@, i as int, started, sep) == clean_from(
                    line@,
                    i as int + 1,
                    started,
                    started,
                ));
            }
            sep = started;
        } else {
            let ghost out0 = out@;
            let ghost st0 = started;
            let ghost sp0 = sep;
            if sep {
                out.push(0x20);
            }
            out.push(b);
            proof {
                if sp0 {
                    assert(clean_from(line@, i as int, st0, sp0) == seq![
                        0x20u8,
                        line@[i as int],
                    ] + clean_from(line@, i as int + 1, true, false));
                    assert(out@ =~= out0 + seq![0x20u8, line@[i as int]]);
                } else {
                    assert(clean_from(line@, i as int, st0, sp0) == seq![line@[i as int]]
                        + clean_from(line@, i as int + 1, true, false));
                    assert(out@ =~= out0 + seq![line@[i as int]]);
                }
                assert(out@ + clean_from(line@, i as int + 1, true, false) =~= out0 + clean_from(
                    line@,
                    i as int,
                    st0,
                    sp0,
                ));
            }
            started = true;
            sep = false;
        }
        i = i + 1;
    }
    proof {
        assert(clean_from(line@, i as int, started, sep) =~= Seq::<u8>::empty());
        assert(out@ + Seq::<u8>::empty() =~= out@);
    }
    out
}

/// Strips the comment and normalizes whitespace.
pub fn clean_line(line: &Vec<u8>) -> (out: Vec<u8>)
    ensures
        out@ == clean_line_s(line@),
{
    let stripped = remove_comment_bytes(line);
    clean_spaces(&stripped)
}

// ---------------------------------------------------------------------
// splitting

/// Splits `s` at every occurrence of `b`; the separators are dropped
/// and empty pieces are kept, so the result always holds at least one
/// piece.
pub open spec fn split_on(s: Seq<u8>, b: u8) -> Seq<Seq<u8>>
    decreases s.len(),
{
    if s.len() == 0 {
        seq![Seq::empty()]
    } else if s[0] == b {
        seq![Seq::empty()] + split_on(s.drop_first(), b)
    } else {
        let r = split_on(s.drop_first(), b);
        seq![seq![s[0]] + r[0]] + r.skip(1)
    }
}

pub proof fn lemma_split_on_len(s: Seq<u8>, b: u8)
    ensures
        split_on(s, b).len() >= 1,
    decreases s.len(),
{
    if s.len() == 0 {
    } else if s[0] == b {
        lemma_split_on_len(s.drop_first(), b);
    } else {
        lemma_split_on_len(s.drop_first(), b);
    }
}

proof fn lemma_split_on_step(s: Seq<u8>, b: u8, i: int)
    requires
        0 <= i <= s.len(),
        forall|j: int| 0 <= j < i ==> s[j] != b,
    ensures
        split_on(s, b).len() >= 1,
        split_on(s, b)[0] == s.take(i) + split_on(s.skip(i), b)[0],
        split_on(s, b).skip(1) =~= split_on(s.skip(i), b).skip(1),
    decreases i,
{
    lemma_split_on_len(s, b);
    lemma_split_on_len(s.skip(i), b);
    if i == 0 {
        assert(s.skip(0) =~= s);
        assert(s.take(0) + split_on(s, b)[0] =~= split_on(s, b)[0]);
    } else {
        lemma_split_on_step(s, b, i - 1);
        lemma_split_on_len(s.skip(i - 1), b);
        assert(s.skip(i - 1).len() > 0);
        assert(s.skip(i - 1)[0] == s[i - 1]);
        assert(s.skip(i - 1).drop_first() =~= s.skip(i));
        let r = split_on(s.skip(i), b);
        assert(split_on(s.skip(i - 1), b)[0] == seq![s[i - 1]] + r[0]);
        assert(split_on(s.skip(i - 1), b).skip(1) =~= r.skip(1));
        assert(s.take(i - 1) + (seq![s[i - 1]] + r[0]) =~= s.take(i) + r[0]);
    }
}

/// Splits a byte vector at every occurrence of `b`.
pub fn split_bytes(s: &Vec<u8>, b: u8) -> (out: Vec<Vec<u8>>)
    ensures
        out.deep_view() == split_on(s@, b),
{
    let mut out: Vec<Vec<u8>> = Vec::new();
    let mut piece: Vec<u8> = Vec::new();
    let mut start: usize = 0;
    let mut i: usize = 0;
    proof {
        assert(s@.skip(0) =~= s@);
        assert(out.deep_view() =~= Seq::<Seq<u8>>::empty());
        assert(Seq::<Seq<u8>>::empty() + split_on(s@, b) =~= split_on(s@, b));
        assert(piece@ =~= s@.subrange(0, 0));
    }
    while i < s.len()
        invariant
            0 <= start <= i <= s@.len(),
            piece@ == s@.subrange(start as int, i as int),
            forall|j: int| start <= j < i ==> s@[j] != b,
            out.deep_view() + split_on(s@.skip(start as int), b) == split_on(s@, b),
        decreases s@.len() - i,
    {
        if s[i] == b {
            proof {
                let sp0 = split_on(s@.skip(start as int), b);
                lemma_split_on_step(s@.skip(start as int), b, i - start);
                assert(s@.skip(start as int).take(i - start) =~= s@.subrange(
                    start as int,
                    i as int,
                ));
                assert(s@.skip(start as int).skip(i - start) =~= s@.skip(i as int));
                assert(s@.skip(i as int)[0] == b);
                let spi = split_on(s@.skip(i as int), b);
                assert(spi == seq![Seq::<u8>::empty()] + split_on(
                    s@.skip(i as int).drop_first(),
                    b,
                ));
                assert(s@.skip(i as int).drop_first() =~= s@.skip(i as int + 1));
                assert(spi[0] =~= Seq::<u8>::empty());
                assert(spi.skip(1) =~= split_on(s@.skip(i as int + 1), b));
                assert(sp0[0] == piece@ + spi[0]);
                assert(piece@ + spi[0] =~= piece@);
                assert(sp0 =~= seq![piece@] + split_on(s@.skip(i as int + 1), b));
            }
            let ghost dv0 = out.deep_view();
            out.push(piece);
            proof {
                assert(out.deep_view() =~~= dv0.push(s@.subrange(start as int, i as int)));
                assert(out.deep_view() + split_on(s@.skip(i as int + 1), b) =~= dv0 + split_on(
                    s@.skip(start as int),
                    b,
                ));
            }
            piece = Vec::new();
            start = i + 1;
            proof {
                assert(piece@ =~= s@.subrange(start as int, start as int));
            }
        } else {
            piece.push(s[i]);
            proof {
                assert(piece@ =~= s@.subrange(start as int, i as int + 1));
            }
        }
        i = i + 1;
    }
    proof {
        let sp0 = split_on(s@.skip(start as int), b);
        lemma_split_on_step(s@.skip(start as int), b, s@.len() - start);
        assert(s@.skip(start as int).take(s@.len() - start) =~= s@.skip(start as int));
        assert(s@.skip(start as int).skip(s@.len() - start) =~= Seq::<u8>::empty());
        assert(split_on(Seq::<u8>::empty(), b) =~= seq![Seq::<u8>::empty()]);
        assert(sp0[0] == s@.skip(start as int) + Seq::<u8>::empty());
        assert(s@.skip(start as int) + Seq::<u8>::empty() =~= piece@) by {
            assert(s@.subrange(start as int, s@.len() as int) =~= s@.skip(start as int));
        }
        assert(sp0.skip(1) =~= Seq::<Seq<u8>>::empty());
        lemma_split_on_len(s@.skip(start as int), b);
        assert(sp0 =~= seq![piece@]);
    }
    let ghost dv0 = out.deep_view();
    let ghost last = piece@;
    out.push(piece);
    proof {
        assert(out.deep_view() =~~= dv0.push(last));
        assert(dv0.push(last) =~= dv0 + seq![last]);
        assert(out.deep_view() =~= split_on(s@, b));
    }
    out
}

/// The total length of the first `k` pieces.
pub open spec fn lens_before(ls: Seq<Seq<u8>>, k: int) -> int
    decreases k,
{
    if k <= 0 {
        0
    } else {
        lens_before(ls, k - 1) + ls[k - 1].len()
    }
}

pub proof fn lemma_lens_mono(ls: Seq<Seq<u8>>, j: int, k: int)
    requires
        0 <= j <= k,
    ensures
        lens_before(ls, j) <= lens_before(ls, k),
    decreases k,
{
    if k > j {
        lemma_lens_mono(ls, j, k - 1);
    }
}

proof fn lemma_lens_cons(x: Seq<u8>, r: Seq<Seq<u8>>, k: int)
    requires
        0 <= k <= r.len(),
    ensures
        lens_before(seq![x] + r, k + 1) == x.len() + lens_before(r, k),
    decreases k,
{
    let c = seq![x] + r;
    if k == 0 {
        assert(lens_before(c, 1) == lens_before(c, 0) + c[0].len());
        assert(c[0] == x);
    } else {
        lemma_lens_cons(x, r, k - 1);
        assert(c[k] == r[k - 1]);
    }
}

/// The pieces of a split never hold more bytes than the split input.
pub proof fn lemma_split_on_total(s: Seq<u8>, b: u8)
    ensures
        lens_before(split_on(s, b), split_on(s, b).len() as int) <= s.len(),
    decreases s.len(),
{
    let ps = split_on(s, b);
    if s.len() == 0 {
        assert(lens_before(ps, 1) == lens_before(ps, 0) + ps[0].len());
    } else if s[0] == b {
        let r = split_on(s.drop_first(), b);
        lemma_split_on_total(s.drop_first(), b);
        lemma_split_on_len(s.drop_first(), b);
        lemma_lens_cons(Seq::empty(), r, r.len() as int);
        assert(ps == seq![Seq::<u8>::empty()] + r);
    } else {
        let r = split_on(s.drop_first(), b);
        lemma_split_on_total(s.drop_first(), b);
        lemma_split_on_len(s.drop_first(), b);
        let x = seq![s[0]] + r[0];
        let rest = r.skip(1);
        assert(ps == seq![x] + rest);
        lemma_lens_cons(x, rest, rest.len() as int);
        assert(r =~= seq![r[0]] + rest);
        lemma_lens_cons(r[0], rest, rest.len() as int);
        assert(lens_before(r, r.len() as int) == r[0].len() + lens_before(
            rest,
            rest.len() as int,
        ));
    }
}

pub proof fn lemma_strip_comment_len(s: Seq<u8>)
    ensures
        strip_comment(s).len() <= s.len(),
    decreases s.len(),
{
    if s.len() == 0 {
    } else if s[0] == 0x23 {
    } else {
        lemma_strip_comment_len(s.drop_first());
    }
}

proof fn lemma_clean_from_len(s: Seq<u8>, i: int, started: bool, sep: bool)
    requires
        0 <= i <= s.len(),
    ensures
        clean_from(s, i, started, sep).len() <= s.len() - i + (if sep {
            1int
        } else {
            0int
        }),
    decreases s.len() - i,
{
    if i >= s.len() {
    } else if is_space_b(s[i]) {
        lemma_clean_from_len(s, i + 1, started, started);
    } else {
        lemma_clean_from_len(s, i + 1, true, false);
    }
}

/// Cleaning a line never makes it longer.
pub proof fn lemma_clean_line_len(s: Seq<u8>)
    ensures
        clean_line_s(s).len() <= s.len(),
{
    lemma_strip_comment_len(s);
    lemma_clean_from_len(strip_comment(s), 0, false, false);
}

// ---------------------------------------------------------------------
// trimming

/// `s` without leading whitespace.
pub open spec fn trim_start_s(s: Seq<u8>) -> Seq<u8>
    decreases s.len(),
{
    if s.len() > 0 && is_space_b(s[0]) {
        trim_start_s(s.drop_first())
    } else {
        s
    }
}

/// `s` without trailing whitespace.
pub open spec fn trim_end_s(s: Seq<u8>) -> Seq<u8>
    decreases s.len(),
{
    if s.len() > 0 && is_space_b(s.last()) {
        trim_end_s(s.drop_last())
    } else {
        s
    }
}

/// `s` without surrounding whitespace.
pub open spec fn trim_s(s: Seq<u8>) -> Seq<u8> {
    trim_end_s(trim_start_s(s))
}

proof fn lemma_trim_start_skip(s: Seq<u8>, a: int)
    requires
        0 <= a <= s.len(),
        forall|j: int| 0 <= j < a ==> is_space_b(#[trigger] s[j]),
    ensures
        trim_start_s(s) == trim_start_s(s.skip(a)),
    decreases a,
{
    if a == 0 {
        assert(s.skip(0) =~= s);
    } else {
        assert(s.len() > 0 && is_space_b(s[0]));
        assert(trim_start_s(s) == trim_start_s(s.drop_first()));
        assert(s.drop_first() =~= s.skip(1));
        lemma_trim_start_skip(s.skip(1), a - 1);
        assert(s.skip(1).skip(a - 1) =~= s.skip(a));
        assert(forall|j: int| 0 <= j < a - 1 ==> is_space_b(#[trigger] s.skip(1)[j]));
    }
}

proof fn lemma_trim_end_take(s: Seq<u8>, c: int)
    requires
        0 <= c <= s.len(),
        forall|j: int| c <= j < s.len() ==> is_space_b(#[trigger] s[j]),
    ensures
        trim_end_s(s) == trim_end_s(s.take(c)),
    decreases s.len() - c,
{
    if c == s.len() {
        assert(s.take(c) =~= s);
    } else {
        assert(s.len() > 0 && is_space_b(s.last()));
        assert(trim_end_s(s) == trim_end_s(s.drop_last()));
        assert(s.drop_last() =~= s.take(s.len() - 1));
        lemma_trim_end_take(s.take(s.len() - 1), c);
        assert(s.take(s.len() - 1).take(c) =~= s.take(c));
        assert(forall|j: int| c <= j < s.len() - 1 ==> is_space_b(#[trigger] s.take(
            s.len() - 1,
        )[j]));
    }
}

/// Copies `s[a..c]` out of a byte vector.
pub fn copy_range(s: &Vec<u8>, a: usize, c: usize) -> (out: Vec<u8>)
    requires
        a <= c <= s@.len(),
    ensures
        out@ == s@.subrange(a as int, c as int),
{
    let mut out: Vec<u8> = Vec::new();
    let mut i: usize = a;
    while i < c
        invariant
            a <= i <= c <= s@.len(),
            out@ == s@.subrange(a as int, i as int),
        decreases c - i,
    {
        out.push(s[i]);
        proof {
            assert(out@ =~= s@.subrange(a as int, i as int + 1));
        }
        i = i + 1;
    }
    out
}

/// Removes the surrounding whitespace of a byte vector.
pub fn trim_bytes(s: &Vec<u8>) -> (out: Vec<u8>)
    ensures
        out@ == trim_s(s@),
{
    let mut a: usize = 0;
    while a < s.len() && byte_is_space(s[a])
        invariant
            0 <= a <= s@.len(),
            forall|j: int| 0 <= j < a ==> is_space_b(#[trigger] s@[j]),
        decreases s@.len() - a,
    {
        a = a + 1;
    }
    proof {
        lemma_trim_start_skip(s@, a as int);
    }
    if a == s.len() {
        proof {
            assert(s@.skip(a as int) =~= Seq::<u8>::empty());
        }
        return Vec::new();
    }
    // a points at the first non-space byte, so trimming from the start
    // yields s[a..]; now scan the tail.
    let mut c: usize = s.len();
    while c > a && byte_is_space(s[c - 1])
        invariant
            a <= c <= s@.len(),
            forall|j: int| c <= j < s@.len() ==> is_space_b(#[trigger] s@[j]),
        decreases c,
    {
        c = c - 1;
    }
    proof {
        assert(!is_space_b(s@[a as int]));
        assert(c > a);
        let t = s@.skip(a as int);
        assert(trim_start_s(s@) == t);
        lemma_trim_end_take(t, c - a);
        assert(t.take(c - a) =~= s@.subrange(a as int, c as int));
        assert(!is_space_b(s@[c - 1]));
        let u = s@.subrange(a as int, c as int);
        assert(u.len() > 0 && !is_space_b(u.last()));
        assert(trim_end_s(u) == u);
    }
    copy_range(s, a, c)
}

// ---------------------------------------------------------------------
// numeric literals

/// Value of a decimal digit string (most significant digit first).
pub open spec fn dec_val(s: Seq<u8>) -> int
    decreases s.len(),
{
    if s.len() == 0 {
        0
    } else {
        dec_val(s.drop_last()) * 10 + (s.last() - 0x30)
    }
}

/// Value of a hexadecimal digit string (most significant digit first).
pub open spec fn hex_val(s: Seq<u8>) -> int
    decreases s.len(),
{
    if s.len() == 0 {
        0
    } else {
        hex_val(s.drop_last()) * 16 + hex_digit_val(s.last())
    }
}

/// A decimal literal: one or more digits.
pub open spec fn is_dec_lit(s: Seq<u8>) -> bool {
    s.len() >= 1 && forall|i: int| 0 <= i < s.len() ==> is_digit_b(#[trigger] s[i])
}

/// A hexadecimal literal: `0x` or `0X` followed by one or more hex digits.
pub open spec fn is_hex_lit(s: Seq<u8>) -> bool {
    &&& s.len() >= 3
    &&& s[0] == 0x30
    &&& (s[1] == 0x78 || s[1] == 0x58)
    &&& forall|i: int| 2 <= i < s.len() ==> is_hex_b(#[trigger] s[i])
}

/// The numeric value of a `u8` immediate literal: decimal or
/// `0x`-prefixed hexadecimal, rejected if malformed or above 255.
pub open spec fn parse_u8_s(s: Seq<u8>) -> Option<u8> {
    if is_hex_lit(s) {
        if hex_val(s.skip(2)) <= 255 {
            Some(hex_val(s.skip(2)) as u8)
        } else {
            None
        }
    } else if is_dec_lit(s) {
        if dec_val(s) <= 255 {
            Some(dec_val(s) as u8)
        } else {
            None
        }
    } else {
        None
    }
}

pub fn byte_is_hex(b: u8) -> (r: bool)
    ensures
        r == is_hex_b(b),
{
    byte_is_digit(b) || (0x41 <= b && b <= 0x46) || (0x61 <= b && b <= 0x66)
}

fn hex_digit_value(b: u8) -> (v: u8)
    requires
        is_hex_b(b),
    ensures
        v == hex_digit_val(b),
{
    if 0x30 <= b && b <= 0x39 {
        b - 0x30
    } else if 0x41 <= b && b <= 0x46 {
        b - 0x41 + 10
    } else {
        b - 0x61 + 10
    }
}

/// Accumulates the decimal digits `s[from..]`, saturating above 255.
fn dec_value_sat(s: &Vec<u8>, from: usize) -> (acc: u32)
    requires
        from <= s@.len(),
        forall|i: int| from <= i < s@.len() ==> is_digit_b(#[trigger] s@[i]),
    ensures
        acc <= 255 ==> acc == dec_val(s@.skip(from as int)),
        acc > 255 ==> dec_val(s@.skip(from as int)) > 255,
{
    let mut acc: u32 = 0;
    let mut i: usize = from;
    while i < s.len()
        invariant
            from <= i <= s@.len(),
            forall|j: int| from <= j < s@.len() ==> is_digit_b(#[trigger] s@[j]),
            acc <= 2560,
            acc <= 255 ==> acc == dec_val(s@.subrange(from as int, i as int)),
            acc > 255 ==> dec_val(s@.subrange(from as int, i as int)) > 255,
        decreases s@.len() - i,
    {
        let d = s[i] - 0x30;
        proof {
            let p = s@.subrange(from as int, i as int);
            let q = s@.subrange(from as int, i as int + 1);
            assert(q.drop_last() =~= p);
            assert(q.last() == s@[i as int]);
            assert(dec_val(q) == dec_val(p) * 10 + (s@[i as int] - 0x30));
        }
        if acc > 255 {
            acc = 256;
        } else {
            acc = acc * 10 + (d as u32);
        }
        i = i + 1;
    }
    proof {
        assert(s@.subrange(from as int, s@.len() as int) =~= s@.skip(from as int));
    }
    acc
}

/// Accumulates the hexadecimal digits `s[from..]`, saturating above 255.
fn hex_value_sat(s: &Vec<u8>, from: usize) -> (acc: u32)
    requires
        from <= s@.len(),
        forall|i: int| from <= i < s@.len() ==> is_hex_b(#[trigger] s@[i]),
    ensures
        acc <= 255 ==> acc == hex_val(s@.skip(from as int)),
        acc > 255 ==> hex_val(s@.skip(from as int)) > 255,
{
    let mut acc: u32 = 0;
    let mut i: usize = from;
    while i < s.len()
        invariant
            from <= i <= s@.len(),
            forall|j: int| from <= j < s@.len() ==> is_hex_b(#[trigger] s@[j]),
            acc <= 4111,
            acc <= 255 ==> acc == hex_val(s@.subrange(from as int, i as int)),
            acc > 255 ==> hex_val(s@.subrange(from as int, i as int)) > 255,
        decreases s@.len() - i,
    {
        let d = hex_digit_value(s[i]);
        proof {
            let p = s@.subrange(from as int, i as int);
            let q = s@.subrange(from as int, i as int + 1);
            assert(q.drop_last() =~= p);
            assert(q.last() == s@[i as int]);
            assert(hex_val(q) == hex_val(p) * 16 + hex_digit_val(s@[i as int]));
        }
        if acc > 255 {
            acc = 256;
        } else {
            acc = acc * 16 + (d as u32);
        }
        i = i + 1;
    }
    proof {
        assert(s@.subrange(from as int, s@.len() as int) =~= s@.skip(from as int));
    }
    acc
}

/// Parses a `u8` immediate literal, decimal or `0x`-hexadecimal.
pub fn parse_u8_literal(s: &Vec<u8>) -> (r: Option<u8>)
    ensures
        r == parse_u8_s(s@),
{
    // hexadecimal form
    if s.len() >= 3 && s[0] == 0x30 && (s[1] == 0x78 || s[1] == 0x58) {
        let mut ok = true;
        let mut i: usize = 2;
        while i < s.len()
            invariant
                2 <= i <= s@.len(),
                ok == forall|j: int| 2 <= j < i ==> is_hex_b(#[trigger] s@[j]),
            decreases s@.len() - i,
        {
            if !byte_is_hex(s[i]) {
                ok = false;
                proof {
                    assert(!is_hex_b(s@[i as int]));
                }
            }
            i = i + 1;
        }
        if ok {
            assert(is_hex_lit(s@));
            let v = hex_value_sat(s, 2);
            if v <= 255 {
                return Some(v as u8);
            } else {
                return None;
            }
        } else {
            // not a hex literal; it cannot be decimal either, since the
            // second byte is not a digit
            assert(!is_hex_lit(s@));
            assert(!is_dec_lit(s@));
            return None;
        }
    }
    // decimal form
    let mut ok = s.len() >= 1;
    let mut i: usize = 0;
    while i < s.len()
        invariant
            0 <= i <= s@.len(),
            ok == (s@.len() >= 1 && forall|j: int| 0 <= j < i ==> is_digit_b(#[trigger] s@[j])),
        decreases s@.len() - i,
    {
        if !byte_is_digit(s[i]) {
            ok = false;
            proof {
                assert(!is_digit_b(s@[i as int]));
            }
        }
        i = i + 1;
    }
    if ok {
        assert(is_dec_lit(s@));
        assert(!is_hex_lit(s@));
        let v = dec_value_sat(s, 0);
        proof {
            assert(s@.skip(0) =~= s@);
        }
        if v <= 255 {
            Some(v as u8)
        } else {
            None
        }
    } else {
        assert(!is_dec_lit(s@));
        assert(!is_hex_lit(s@));
        None
    }
}

} // verus!

