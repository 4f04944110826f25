use vstd::prelude::*;

use crate::bytecode::ByteCode;
use crate::error::VmError;

verus! {

// ------------------------------------------------------------------
// The textual grammar, as mathematics.
//
// A program text is a sequence of bytes.  It is split into lines at every
// line feed (a trailing carriage return is stripped from each line, and a
// final line feed does not open an empty last line); each line is split
// into tokens at runs of blank bytes; the first token picks the
// instruction keyword and the remaining tokens are its operands.
// ------------------------------------------------------------------

/// A blank byte: one of the ASCII whitespace characters that may separate
/// tokens within a line.
pub open spec fn is_blank(b: u8) -> bool {
    b == 32 || b == 9 || b == 11 || b == 12 || b == 13
}

/// A decimal digit.
pub open spec fn is_digit(b: u8) -> bool {
    48 <= b <= 57
}

/// The index of the first line feed at or after `i`, or `s.len()`.
pub open spec fn line_break(s: Seq<u8>, i: int) -> int
    decreases s.len() - i,
    when 0 <= i <= s.len()
{
    if i >= s.len() {
        s.len() as int
    } else if s[i] == 10 {
        i
    } else {
        line_break(s, i + 1)
    }
}

pub proof fn lemma_line_break(s: Seq<u8>, i: int)
    requires
        0 <= i <= s.len(),
    ensures
        i <= line_break(s, i) <= s.len(),
        line_break(s, i) < s.len() ==> s[line_break(s, i)] == 10,
        forall|j: int| i <= j < line_break(s, i) ==> s[j] != 10,
    decreases s.len() - i,
{
    if i < s.len() && s[i] != 10 {
        lemma_line_break(s, i + 1);
    }
}

/// A line without its trailing carriage return, if it carried one.
pub open spec fn strip_cr(line: Seq<u8>) -> Seq<u8> {
    if line.len() > 0 && line.last() == 13 {
        line.drop_last()
    } else {
        line
    }
}

/// The lines of `s` from byte position `i` on.
pub open spec fn lines_from(s: Seq<u8>, i: int) -> Seq<Seq<u8>>
    decreases s.len() - i,
    when 0 <= i <= s.len()
    via lines_from_dec
{
    if i >= s.len() {
        Seq::empty()
    } else {
        let e = line_break(s, i);
        let next = if e < s.len() {
            e + 1
        } else {
            e
        };
        seq![strip_cr(s.subrange(i, e))] + lines_from(s, next)
    }
}

#[via_fn]
proof fn lines_from_dec(s: Seq<u8>, i: int) {
    if i < s.len() {
        lemma_line_break(s, i);
    }
}

/// The lines of a whole program text.
pub open spec fn lines_spec(s: Seq<u8>) -> Seq<Seq<u8>> {
    lines_from(s, 0)
}

/// The first non-blank position at or after `i`.
pub open spec fn skip_blanks(s: Seq<u8>, i: int) -> int
    decreases s.len() - i,
    when 0 <= i <= s.len()
{
    if i >= s.len() {
        s.len() as int
    } else if is_blank(s[i]) {
        skip_blanks(s, i + 1)
    } else {
        i
    }
}

pub proof fn lemma_skip_blanks(s: Seq<u8>, i: int)
    requires
        0 <= i <= s.len(),
    ensures
        i <= skip_blanks(s, i) <= s.len(),
        skip_blanks(s, i) < s.len() ==> !is_blank(s[skip_blanks(s, i)]),
        forall|j: int| i <= j < skip_blanks(s, i) ==> is_blank(s[j]),
    decreases s.len() - i,
{
    if i < s.len() && is_blank(s[i]) {
        lemma_skip_blanks(s, i + 1);
    }
}

/// The first blank position at or after `i`.
pub open spec fn token_end(s: Seq<u8>, i: int) -> int
    decreases s.len() - i,
    when 0 <= i <= s.len()
{
    if i >= s.len() {
        s.len() as int
    } else if is_blank(s[i]) {
        i
    } else {
        token_end(s, i + 1)
    }
}

pub proof fn lemma_token_end(s: Seq<u8>, i: int)
    requires
        0 <= i <= s.len(),
    ensures
        i <= token_end(s, i) <= s.len(),
        token_end(s, i) < s.len() ==> is_blank(s[token_end(s, i)]),
        forall|j: int| i <= j < token_end(s, i) ==> !is_blank(s[j]),
    decreases s.len() - i,
{
    if i < s.len() && !is_blank(s[i]) {
        lemma_token_end(s, i + 1);
    }
}

/// The whitespace-separated tokens of `s` from position `i` on.
pub open spec fn tokens_from(s: Seq<u8>, i: int) -> Seq<Seq<u8>>
    decreases s.len() - i,
    when 0 <= i <= s.len()
    via tokens_from_dec
{
    let start = skip_blanks(s, i);
    if start >= s.len() {
        Seq::empty()
    } else {
        seq![s.subrange(start, token_end(s, start))] + tokens_from(s, token_end(s, start))
    }
}

#[via_fn]
proof fn tokens_from_dec(s: Seq<u8>, i: int) {
    lemma_skip_blanks(s, i);
    if skip_blanks(s, i) < s.len() {
        lemma_token_end(s, skip_blanks(s, i));
    }
}

/// The tokens of one line.
pub open spec fn tokenize_spec(line: Seq<u8>) -> Seq<Seq<u8>> {
    tokens_from(line, 0)
}

/// Where a run of non-blank bytes ends exactly at `e`, so does the token
/// that starts at `i`.
pub proof fn lemma_token_end_at(s: Seq<u8>, i: int, e: int)
    requires
        0 <= i <= e <= s.len(),
        forall|j: int| i <= j < e ==> !is_blank(s[j]),
        e == s.len() || is_blank(s[e]),
    ensures
        token_end(s, i) == e,
    decreases e - i,
{
    if i < e {
        lemma_token_end_at(s, i + 1, e);
    }
}

/// A suffix that is one unbroken run of non-blank bytes is one token.
pub proof fn lemma_tokens_last(s: Seq<u8>, i: int)
    requires
        0 <= i < s.len(),
        forall|j: int| i <= j < s.len() ==> !is_blank(s[j]),
    ensures
        tokens_from(s, i) == seq![s.subrange(i, s.len() as int)],
{
    lemma_token_end_at(s, i, s.len() as int);
    assert(skip_blanks(s, i) == i);
    assert(skip_blanks(s, s.len() as int) == s.len());
    assert(tokens_from(s, s.len() as int) =~= Seq::<Seq<u8>>::empty());
    assert(seq![s.subrange(i, s.len() as int)] + Seq::<Seq<u8>>::empty() =~= seq![
        s.subrange(i, s.len() as int),
    ]);
}

/// A run of non-blank bytes `[i, e)` followed by a blank is one token,
/// followed by whatever tokens start after the blank.
pub proof fn lemma_tokens_cons(s: Seq<u8>, i: int, e: int)
    requires
        0 <= i < e < s.len(),
        forall|j: int| i <= j < e ==> !is_blank(s[j]),
        is_blank(s[e]),
    ensures
        tokens_from(s, i) == seq![s.subrange(i, e)] + tokens_from(s, e + 1),
{
    lemma_token_end_at(s, i, e);
    assert(skip_blanks(s, i) == i);
    assert(skip_blanks(s, e) == skip_blanks(s, e + 1));
    assert(tokens_from(s, e) == tokens_from(s, e + 1));
}

// ------------------------------------------------------------------
// Operand forms.
// ------------------------------------------------------------------

/// The number denoted by a sequence of decimal digits, most significant
/// first.  Only meaningful when every byte is a digit.
pub open spec fn digits_val(t: Seq<u8>) -> int
    decreases t.len(),
{
    if t.len() == 0 {
        0
    } else {
        digits_val(t.drop_last()) * 10 + (t.last() - 48)
    }
}

pub open spec fn all_digits(t: Seq<u8>) -> bool {
    forall|j: int| 0 <= j < t.len() ==> is_digit(t[j])
}

/// A non-negative decimal numeral that fits the machine's word, or nothing.
pub open spec fn parse_usize_spec(t: Seq<u8>) -> Option<usize> {
    if t.len() > 0 && all_digits(t) && digits_val(t) <= usize::MAX {
        Some(digits_val(t) as usize)
    } else {
        None
    }
}

/// A variable operand token: its second byte is the variable's name
/// (the first is a marker, conventionally an apostrophe).  A token shorter
/// than two bytes carries no name.
pub open spec fn var_name_spec(t: Seq<u8>) -> Option<char> {
    if t.len() >= 2 {
        Some(t[1] as char)
    } else {
        None
    }
}

// ------------------------------------------------------------------
// Keywords.
// ------------------------------------------------------------------

pub open spec fn kw_load_val() -> Seq<u8> {
    seq!['L' as u8, 'O' as u8, 'A' as u8, 'D' as u8, '_' as u8, 'V' as u8, 'A' as u8, 'L' as u8]
}

pub open spec fn kw_write_var() -> Seq<u8> {
    seq![
        'W' as u8, 'R' as u8, 'I' as u8, 'T' as u8, 'E' as u8, '_' as u8, 'V' as u8, 'A' as u8,
        'R' as u8,
    ]
}

pub open spec fn kw_read_var() -> Seq<u8> {
    seq!['R' as u8, 'E' as u8, 'A' as u8, 'D' as u8, '_' as u8, 'V' as u8, 'A' as u8, 'R' as u8]
}

pub open spec fn kw_add() -> Seq<u8> {
    seq!['A' as u8, 'D' as u8, 'D' as u8]
}

pub open spec fn kw_subtract() -> Seq<u8> {
    seq!['S' as u8, 'U' as u8, 'B' as u8, 'T' as u8, 'R' as u8, 'A' as u8, 'C' as u8, 'T' as u8]
}

pub open spec fn kw_multiply() -> Seq<u8> {
    seq!['M' as u8, 'U' as u8, 'L' as u8, 'T' as u8, 'I' as u8, 'P' as u8, 'L' as u8, 'Y' as u8]
}

pub open spec fn kw_divide() -> Seq<u8> {
    seq!['D' as u8, 'I' as u8, 'V' as u8, 'I' as u8, 'D' as u8, 'E' as u8]
}

pub open spec fn kw_do_while_lt() -> Seq<u8> {
    seq![
        'D' as u8, 'O' as u8, '_' as u8, 'W' as u8, 'H' as u8, 'I' as u8, 'L' as u8, 'E' as u8,
        '_' as u8, 'L' as u8, 'T' as u8,
    ]
}

pub open spec fn kw_return_value() -> Seq<u8> {
    seq![
        'R' as u8, 'E' as u8, 'T' as u8, 'U' as u8, 'R' as u8, 'N' as u8, '_' as u8, 'V' as u8,
        'A' as u8, 'L' as u8, 'U' as u8, 'E' as u8,
    ]
}

// ------------------------------------------------------------------
// Decoding, line by line.
// ------------------------------------------------------------------

/// The instruction denoted by one line's tokens.
///
/// The first token picks the keyword by exact, case-sensitive match; the
/// tags that take operands read the following tokens; tokens beyond those a
/// tag consumes are ignored.  A line with no tokens, or whose first token is
/// no keyword, is `UnknownInstruction`; a missing or ill-formed operand is
/// `MalformedOperand`.
pub open spec fn decode_tokens_spec(toks: Seq<Seq<u8>>) -> Result<ByteCode, VmError> {
    if toks.len() == 0 {
        Err(VmError::UnknownInstruction)
    } else if toks[0] == kw_load_val() {
        if toks.len() < 2 {
            Err(VmError::MalformedOperand)
        } else {
            match parse_usize_spec(toks[1]) {
                Some(v) => Ok(ByteCode::LoadVal(v)),
                None => Err(VmError::MalformedOperand),
            }
        }
    } else if toks[0] == kw_write_var() {
        if toks.len() < 2 {
            Err(VmError::MalformedOperand)
        } else {
            match var_name_spec(toks[1]) {
                Some(c) => Ok(ByteCode::WriteVar(c)),
                None => Err(VmError::MalformedOperand),
            }
        }
    } else if toks[0] == kw_read_var() {
        if toks.len() < 2 {
            Err(VmError::MalformedOperand)
        } else {
            match var_name_spec(toks[1]) {
                Some(c) => Ok(ByteCode::ReadVar(c)),
                None => Err(VmError::MalformedOperand),
            }
        }
    } else if toks[0] == kw_add() {
        Ok(ByteCode::Add)
    } else if toks[0] == kw_subtract() {
        Ok(ByteCode::Subtract)
    } else if toks[0] == kw_multiply() {
        Ok(ByteCode::Multiply)
    } else if toks[0] == kw_divide() {
        Ok(ByteCode::Divide)
    } else if toks[0] == kw_do_while_lt() {
        if toks.len() < 4 {
            Err(VmError::MalformedOperand)
        } else {
            match (var_name_spec(toks[1]), var_name_spec(toks[2]), parse_usize_spec(toks[3])) {
                (Some(c1), Some(c2), Some(t)) => Ok(ByteCode::DoWhileLt(c1, c2, t)),
                _ => Err(VmError::MalformedOperand),
            }
        }
    } else if toks[0] == kw_return_value() {
        Ok(ByteCode::ReturnValue)
    } else {
        Err(VmError::UnknownInstruction)
    }
}

/// The instruction denoted by one line of text.
pub open spec fn decode_line_spec(line: Seq<u8>) -> Result<ByteCode, VmError> {
    decode_tokens_spec(tokenize_spec(line))
}

/// The program denoted by a sequence of lines, or the first error together
/// with the index of the line that caused it.
pub open spec fn decode_lines_spec(lines: Seq<Seq<u8>>) -> Result<Seq<ByteCode>, (VmError, int)>
    decreases lines.len(),
{
    if lines.len() == 0 {
        Ok(Seq::empty())
    } else {
        match decode_line_spec(lines[0]) {
            Err(e) => Err((e, 0)),
            Ok(b) => match decode_lines_spec(lines.drop_first()) {
                Ok(rest) => Ok(seq![b] + rest),
                Err((e, j)) => Err((e, j + 1)),
            },
        }
    }
}

/// The program denoted by a whole program text.
pub open spec fn decode_program_spec(s: Seq<u8>) -> Result<Seq<ByteCode>, (VmError, int)> {
    decode_lines_spec(lines_spec(s))
}

// ------------------------------------------------------------------
// Digit arithmetic lemmas.
// ------------------------------------------------------------------

pub proof fn lemma_digits_val_nonneg(t: Seq<u8>)
    requires
        all_digits(t),
    ensures
        digits_val(t) >= 0,
    decreases t.len(),
{
    if t.len() > 0 {
        assert forall|j: int| 0 <= j < t.drop_last().len() implies is_digit(
            t.drop_last()[j],
        ) by {
            assert(t.drop_last()[j] == t[j]);
        }
        lemma_digits_val_nonneg(t.drop_last());
    }
}

/// Reading one more digit multiplies the value so far by ten and adds it.
pub proof fn lemma_digits_val_step(t: Seq<u8>, k: int)
    requires
        0 <= k < t.len(),
    ensures
        digits_val(t.take(k + 1)) == digits_val(t.take(k)) * 10 + (t[k] - 48),
{
    assert(t.take(k + 1).drop_last() =~= t.take(k));
    assert(t.take(k + 1).last() == t[k]);
}

/// Appending further digits never shrinks the value.
pub proof fn lemma_digits_val_prefix(t: Seq<u8>, k: int)
    requires
        all_digits(t),
        0 <= k <= t.len(),
    ensures
        digits_val(t) >= digits_val(t.take(k)),
    decreases t.len() - k,
{
    if k == t.len() {
        assert(t.take(k) =~= t);
    } else {
        assert forall|j: int| 0 <= j < t.take(k).len() implies is_digit(t.take(k)[j]) by {
            assert(t.take(k)[j] == t[j]);
        }
        lemma_digits_val_nonneg(t.take(k));
        lemma_digits_val_step(t, k);
        lemma_digits_val_prefix(t, k + 1);
    }
}

// ------------------------------------------------------------------
// The executable decoder.
// ------------------------------------------------------------------

fn byte_is_blank(b: u8) -> (r: bool)
    ensures
        r == is_blank(b),
{
    b == 32 || b == 9 || b == 11 || b == 12 || b == 13
}

/// A fresh vector holding `s[from..to]`.
fn subrange_vec(s: &[u8], from: usize, to: usize) -> (r: Vec<u8>)
    requires
        from <= to <= s@.len(),
    ensures
        r@ == s@.subrange(from as int, to as int),
{
    let mut r: Vec<u8> = Vec::new();
    let mut k = from;
    while k < to
        invariant
            from <= k <= to <= s@.len(),
            r@ == s@.subrange(from as int, k as int),
        decreases to - k,
    {
        r.push(s[k]);
        proof {
            assert(r@ =~= s@.subrange(from as int, k + 1));
        }
        k = k + 1;
    }
    r
}

/// Split one line into its whitespace-separated tokens.
fn tokenize(line: &[u8]) -> (r: Vec<Vec<u8>>)
    ensures
        r.deep_view() == tokenize_spec(line@),
{
    let n = line.len();
    let mut toks: Vec<Vec<u8>> = Vec::new();
    let mut i: usize = 0;
    while i < n
        invariant
            n == line@.len(),
            i <= n,
            tokens_from(line@, 0) == toks.deep_view() + tokens_from(line@, i as int),
        decreases n - i,
    {
        if byte_is_blank(line[i]) {
            i = i + 1;
        } else {
            let start = i;
            let mut j = i;
            while j < n && !byte_is_blank(line[j])
                invariant
                    n == line@.len(),
                    start <= j <= n,
                    token_end(line@, start as int) == token_end(line@, j as int),
                decreases n - j,
            {
                j = j + 1;
            }
            assert(token_end(line@, start as int) == j);
            let tok = subrange_vec(line, start, j);
            let ghost prev = toks.deep_view();
            proof {
                assert(tok.deep_view() =~= tok@);
            }
            let ghost tdv = tok.deep_view();
            toks.push(tok);
            proof {
                assert(toks.deep_view() =~= prev.push(tdv));
                assert(tokens_from(line@, i as int) == seq![
                    line@.subrange(start as int, j as int),
                ] + tokens_from(line@, j as int));
                assert(toks.deep_view() + tokens_from(line@, j as int) =~= prev + tokens_from(
                    line@,
                    i as int,
                ));
            }
            i = j;
        }
    }
    proof {
        assert(tokens_from(line@, i as int) =~= Seq::<Seq<u8>>::empty());
        assert(toks.deep_view() =~= tokens_from(line@, 0));
    }
    toks
}

/// Parse a token as a non-negative decimal number.
fn parse_usize(t: &Vec<u8>) -> (r: Option<usize>)
    ensures
        r == parse_usize_spec(t@),
{
    if t.len() == 0 {
        return None;
    }
    let mut acc: usize = 0;
    let mut i: usize = 0;
    while i < t.len()
        invariant
            i <= t@.len(),
            all_digits(t@.take(i as int)),
            acc == digits_val(t@.take(i as int)),
        decreases t@.len() - i,
    {
        let b = t[i];
        if b < 48 || b > 57 {
            assert(!all_digits(t@));
            return None;
        }
        proof {
            lemma_digits_val_step(t@, i as int);
            let tk = t@.take(i + 1);
            assert forall|j: int| 0 <= j < tk.len() implies is_digit(tk[j]) by {
                assert(tk[j] == t@[j]);
            }
        }
        let d = (b - 48) as usize;
        let shifted = match acc.checked_mul(10) {
            Some(x) => x,
            None => {
                proof {
                    if all_digits(t@) {
                        lemma_digits_val_prefix(t@, i + 1);
                    }
                }
                return None;
            },
        };
        acc = match shifted.checked_add(d) {
            Some(y) => y,
            None => {
                proof {
                    if all_digits(t@) {
                        lemma_digits_val_prefix(t@, i + 1);
                    }
                }
                return None;
            },
        };
        i = i + 1;
    }
    proof {
        assert(t@.take(i as int) =~= t@);
    }
    Some(acc)
}

/// The variable name carried by an operand token, if the token is long
/// enough to hold one.
fn var_name(t: &Vec<u8>) -> (r: Option<char>)
    ensures
        r == var_name_spec(t@),
{
    if t.len() < 2 {
        None
    } else {
        Some(t[1] as char)
    }
}

// Fixed-length byte-sequence matchers for the keyword tokens.

fn eq3(t: &Vec<u8>, b0: u8, b1: u8, b2: u8) -> (r: bool)
    ensures
        r == (t@ == seq![b0, b1, b2]),
{
    let r = t.len() == 3 && t[0] == b0 && t[1] == b1 && t[2] == b2;
    proof {
        if r {
            assert(t@ =~= seq![b0, b1, b2]);
        }
    }
    r
}

fn eq6(t: &Vec<u8>, b0: u8, b1: u8, b2: u8, b3: u8, b4: u8, b5: u8) -> (r: bool)
    ensures
        r == (t@ == seq![b0, b1, b2, b3, b4, b5]),
{
    let r = t.len() == 6 && t[0] == b0 && t[1] == b1 && t[2] == b2 && t[3] == b3 && t[4] == b4
        && t[5] == b5;
    proof {
        if r {
            assert(t@ =~= seq![b0, b1, b2, b3, b4, b5]);
        }
    }
    r
}

fn eq8(t: &Vec<u8>, b0: u8, b1: u8, b2: u8, b3: u8, b4: u8, b5: u8, b6: u8, b7: u8) -> (r: bool)
    ensures
        r == (t@ == seq![b0, b1, b2, b3, b4, b5, b6, b7]),
{
    let r = t.len() == 8 && t[0] == b0 && t[1] == b1 && t[2] == b2 && t[3] == b3 && t[4] == b4
        && t[5] == b5 && t[6] == b6 && t[7] == b7;
    proof {
        if r {
            assert(t@ =~= seq![b0, b1, b2, b3, b4, b5, b6, b7]);
        }
    }
    r
}

fn eq9(
    t: &Vec<u8>,
    b0: u8,
    b1: u8,
    b2: u8,
    b3: u8,
    b4: u8,
    b5: u8,
    b6: u8,
    b7: u8,
    b8: u8,
) -> (r: bool)
    ensures
        r == (t@ == seq![b0, b1, b2, b3, b4, b5, b6, b7, b8]),
{
    let r = t.len() == 9 && t[0] == b0 && t[1] == b1 && t[2] == b2 && t[3] == b3 && t[4] == b4
        && t[5] == b5 && t[6] == b6 && t[7] == b7 && t[8] == b8;
    proof {
        if r {
            assert(t@ =~= seq![b0, b1, b2, b3, b4, b5, b6, b7, b8]);
        }
    }
    r
}

fn eq11(
    t: &Vec<u8>,
    b0: u8,
    b1: u8,
    b2: u8,
    b3: u8,
    b4: u8,
    b5: u8,
    b6: u8,
    b7: u8,
    b8: u8,
    b9: u8,
    b10: u8,
) -> (r: bool)
    ensures
        r == (t@ == seq![b0, b1, b2, b3, b4, b5, b6, b7, b8, b9, b10]),
{
    let r = t.len() == 11 && t[0] == b0 && t[1] == b1 && t[2] == b2 && t[3] == b3 && t[4] == b4
        && t[5] == b5 && t[6] == b6 && t[7] == b7 && t[8] == b8 && t[9] == b9 && t[10] == b10;
    proof {
        if r {
            assert(t@ =~= seq![b0, b1, b2, b3, b4, b5, b6, b7, b8, b9, b10]);
        }
    }
    r
}

fn eq12(
    t: &Vec<u8>,
    b0: u8,
    b1: u8,
    b2: u8,
    b3: u8,
    b4: u8,
    b5: u8,
    b6: u8,
    b7: u8,
    b8: u8,
    b9: u8,
    b10: u8,
    b11: u8,
) -> (r: bool)
    ensures
        r == (t@ == seq![b0, b1, b2, b3, b4, b5, b6, b7, b8, b9, b10, b11]),
{
    let r = t.len() == 12 && t[0] == b0 && t[1] == b1 && t[2] == b2 && t[3] == b3 && t[4] == b4
        && t[5] == b5 && t[6] == b6 && t[7] == b7 && t[8] == b8 && t[9] == b9 && t[10] == b10
        && t[11] == b11;
    proof {
        if r {
            assert(t@ =~= seq![b0, b1, b2, b3, b4, b5, b6, b7, b8, b9, b10, b11]);
        }
    }
    r
}

/// Decode one line's tokens into an instruction.
fn decode_tokens(toks: &Vec<Vec<u8>>) -> (r: Result<ByteCode, VmError>)
    ensures
        r == decode_tokens_spec(toks.deep_view()),
{
    if toks.len() == 0 {
        return Err(VmError::UnknownInstruction);
    }
    let t0 = &toks[0];
    proof {
        assert(toks.deep_view()[0] == t0.deep_view());
        assert(t0.deep_view() =~= t0@);
    }
    if eq8(t0, 'L' as u8, 'O' as u8, 'A' as u8, 'D' as u8, '_' as u8, 'V' as u8, 'A' as u8,
        'L' as u8) {
        if toks.len() < 2 {
            return Err(VmError::MalformedOperand);
        }
        let t1 = &toks[1];
        proof {
            assert(toks.deep_view()[1] == t1.deep_view());
            assert(t1.deep_view() =~= t1@);
        }
        match parse_usize(t1) {
            Some(v) => Ok(ByteCode::LoadVal(v)),
            None => Err(VmError::MalformedOperand),
        }
    } else if eq9(t0, 'W' as u8, 'R' as u8, 'I' as u8, 'T' as u8, 'E' as u8, '_' as u8, 'V' as u8,
        'A' as u8, 'R' as u8) {
        if toks.len() < 2 {
            return Err(VmError::MalformedOperand);
        }
        let t1 = &toks[1];
        proof {
            assert(toks.deep_view()[1] == t1.deep_view());
            assert(t1.deep_view() =~= t1@);
        }
        match var_name(t1) {
            Some(c) => Ok(ByteCode::WriteVar(c)),
            None => Err(VmError::MalformedOperand),
        }
    } else if eq8(t0, 'R' as u8, 'E' as u8, 'A' as u8, 'D' as u8, '_' as u8, 'V' as u8, 'A' as u8,
        'R' as u8) {
        if toks.len() < 2 {
            return Err(VmError::MalformedOperand);
        }
        let t1 = &toks[1];
        proof {
            assert(toks.deep_view()[1] == t1.deep_view());
            assert(t1.deep_view() =~= t1@);
        }
        match var_name(t1) {
            Some(c) => Ok(ByteCode::ReadVar(c)),
            None => Err(VmError::MalformedOperand),
        }
    } else if eq3(t0, 'A' as u8, 'D' as u8, 'D' as u8) {
        Ok(ByteCode::Add)
    } else if eq8(t0, 'S' as u8, 'U' as u8, 'B' as u8, 'T' as u8, 'R' as u8, 'A' as u8, 'C' as u8,
        'T' as u8) {
        Ok(ByteCode::Subtract)
    } else if eq8(t0, 'M' as u8, 'U' as u8, 'L' as u8, 'T' as u8, 'I' as u8, 'P' as u8, 'L' as u8,
        'Y' as u8) {
        Ok(ByteCode::Multiply)
    } else if eq6(t0, 'D' as u8, 'I' as u8, 'V' as u8, 'I' as u8, 'D' as u8, 'E' as u8) {
        Ok(ByteCode::Divide)
    } else if eq11(t0, 'D' as u8, 'O' as u8, '_' as u8, 'W' as u8, 'H' as u8, 'I' as u8, 'L' as u8,
        'E' as u8, '_' as u8, 'L' as u8, 'T' as u8) {
        if toks.len() < 4 {
            return Err(VmError::MalformedOperand);
        }
        let t1 = &toks[1];
        let t2 = &toks[2];
        let t3 = &toks[3];
        proof {
            assert(toks.deep_view()[1] == t1.deep_view());
            assert(t1.deep_view() =~= t1@);
            assert(toks.deep_view()[2] == t2.deep_view());
            assert(t2.deep_view() =~= t2@);
            assert(toks.deep_view()[3] == t3.deep_view());
            assert(t3.deep_view() =~= t3@);
        }
        match (var_name(t1), var_name(t2), parse_usize(t3)) {
            (Some(c1), Some(c2), Some(t)) => Ok(ByteCode::DoWhileLt(c1, c2, t)),
            _ => Err(VmError::MalformedOperand),
        }
    } else if eq12(t0, 'R' as u8, 'E' as u8, 'T' as u8, 'U' as u8, 'R' as u8, 'N' as u8, '_' as u8,
        'V' as u8, 'A' as u8, 'L' as u8, 'U' as u8, 'E' as u8) {
        Ok(ByteCode::ReturnValue)
    } else {
        Err(VmError::UnknownInstruction)
    }
}

/// Decode one line of program text into an instruction.
pub fn decode_line(line: &[u8]) -> (r: Result<ByteCode, VmError>)
    ensures
        r == decode_line_spec(line@),
{
    let toks = tokenize(line);
    decode_tokens(&toks)
}

/// Decode a whole program text and append the instructions to `mem`.
///
/// The text is the UTF-8 byte sequence of `opcodes_string`, split into
/// lines as [`lines_spec`] says.  On success every line's instruction is
/// appended to `mem` in input order; on the first failing line nothing is
/// appended at all, and the error comes back with that line's index.
pub fn load_memory(mem: &mut Vec<ByteCode>, opcodes_string: String) -> (r: Result<
    (),
    (VmError, usize),
>)
    ensures
        match r {
            Ok(()) => decode_program_spec(vstd::utf8::encode_utf8(opcodes_string@)) matches Ok(
                prog,
            ) && final(mem)@ == old(mem)@ + prog,
            Err((e, ln)) => decode_program_spec(vstd::utf8::encode_utf8(opcodes_string@)) == Err::<
                Seq<ByteCode>,
                (VmError, int),
            >((e, ln as int)) && final(mem)@ == old(mem)@,
        },
{
    let bytes: &[u8] = opcodes_string.as_str().as_bytes();
    proof {
        assert(bytes@ == vstd::utf8::encode_utf8(opcodes_string@));
    }
    let n = bytes.len();
    let mut decoded: Vec<ByteCode> = Vec::new();
    let mut line_no: usize = 0;
    let mut i: usize = 0;
    while i < n
        invariant
            n == bytes@.len(),
            bytes@ == vstd::utf8::encode_utf8(opcodes_string@),
            i <= n,
            line_no <= i,
            decode_program_spec(bytes@) == (match decode_lines_spec(lines_from(bytes@, i as int)) {
                Ok(rest) => Ok::<Seq<ByteCode>, (VmError, int)>(decoded@ + rest),
                Err((e, j)) => Err::<Seq<ByteCode>, (VmError, int)>((e, j + line_no)),
            }),
        decreases n - i,
    {
        // Find the end of the current line.
        let start = i;
        let mut j = i;
        while j < n && bytes[j] != 10
            invariant
                n == bytes@.len(),
                start <= j <= n,
                line_break(bytes@, start as int) == line_break(bytes@, j as int),
            decreases n - j,
        {
            j = j + 1;
        }
        assert(line_break(bytes@, start as int) == j);
        let mut line = subrange_vec(bytes, start, j);
        if line.len() > 0 && line[line.len() - 1] == 13 {
            line.truncate(line.len() - 1);
        }
        proof {
            assert(line@ =~= strip_cr(bytes@.subrange(start as int, j as int)));
        }
        let ghost remaining = lines_from(bytes@, i as int);
        proof {
            assert(remaining == seq![line@] + lines_from(
                bytes@,
                if j < n {
                    j + 1
                } else {
                    j as int
                },
            ));
            assert(remaining[0] == line@);
            assert(remaining.drop_first() =~= lines_from(
                bytes@,
                if j < n {
                    j + 1
                } else {
                    j as int
                },
            ));
        }
        match decode_line(line.as_slice()) {
            Ok(b) => {
                let ghost prev = decoded@;
                decoded.push(b);
                proof {
                    let res = decode_lines_spec(remaining.drop_first());
                    if res is Ok {
                        let rest = res->Ok_0;
                        assert(prev + (seq![b] + rest) =~= decoded@ + rest);
                    }
                }
                line_no = line_no + 1;
            },
            Err(e) => {
                proof {
                    assert(decode_lines_spec(remaining) == Err::<Seq<ByteCode>, (VmError, int)>(
                        (e, 0),
                    ));
                }
                return Err((e, line_no));
            },
        }
        if j < n {
            i = j + 1;
        } else {
            i = j;
        }
    }
    proof {
        assert(lines_from(bytes@, i as int) =~= Seq::<Seq<u8>>::empty());
        assert(decode_program_spec(bytes@) == Ok::<Seq<ByteCode>, (VmError, int)>(
            decoded@ + Seq::<ByteCode>::empty(),
        ));
        assert(decoded@ + Seq::<ByteCode>::empty() =~= decoded@);
    }
    let ghost dec = decoded@;
    mem.append(&mut decoded);
    proof {
        assert(mem@ == old(mem)@ + dec);
    }
    Ok(())
}

} // verus!
