use vstd::prelude::*;

use crate::bytecode::ByteCode;
use crate::decode::{
    kw_add, kw_divide, kw_do_while_lt, kw_load_val, kw_multiply, kw_read_var, kw_return_value,
    kw_subtract, kw_write_var,
};

verus! {

/// A single separating space.
pub open spec fn space() -> Seq<u8> {
    seq![' ' as u8]
}

/// The canonical decimal numeral of `v`: most significant digit first, no
/// leading zeros (a lone zero for zero).
pub open spec fn dec_digits(v: int) -> Seq<u8>
    decreases v,
    when v >= 0
{
    if v < 10 {
        seq![(48 + v) as u8]
    } else {
        dec_digits(v / 10).push((48 + (v % 10)) as u8)
    }
}

/// The canonical variable operand token: the name between apostrophes.
pub open spec fn var_token(c: char) -> Seq<u8> {
    seq!['\'' as u8, c as u8, '\'' as u8]
}

/// The canonical textual line for an instruction.
pub open spec fn encode_spec(b: ByteCode) -> Seq<u8> {
    match b {
        ByteCode::LoadVal(n) => kw_load_val() + space() + dec_digits(n as int),
        ByteCode::WriteVar(c) => kw_write_var() + space() + var_token(c),
        ByteCode::ReadVar(c) => kw_read_var() + space() + var_token(c),
        ByteCode::Add => kw_add(),
        ByteCode::Subtract => kw_subtract(),
        ByteCode::Multiply => kw_multiply(),
        ByteCode::Divide => kw_divide(),
        ByteCode::DoWhileLt(c1, c2, t) => kw_do_while_lt() + space() + var_token(c1) + space()
            + var_token(c2) + space() + dec_digits(t as int),
        ByteCode::ReturnValue => kw_return_value(),
    }
}

/// Every byte of a canonical numeral is a digit.
pub proof fn lemma_dec_digits_are_digits(v: int)
    requires
        v >= 0,
    ensures
        crate::decode::all_digits(dec_digits(v)),
        dec_digits(v).len() > 0,
    decreases v,
{
    if v >= 10 {
        lemma_dec_digits_are_digits(v / 10);
        let d = dec_digits(v);
        assert forall|j: int| 0 <= j < d.len() implies crate::decode::is_digit(d[j]) by {
            if j < d.len() - 1 {
                assert(d[j] == dec_digits(v / 10)[j]);
            }
        }
    }
}

/// The canonical numeral of `v` denotes `v`.
pub proof fn lemma_dec_digits_val(v: int)
    requires
        v >= 0,
    ensures
        crate::decode::digits_val(dec_digits(v)) == v,
    decreases v,
{
    if v < 10 {
        assert(dec_digits(v).drop_last() =~= Seq::<u8>::empty());
        assert(crate::decode::digits_val(Seq::<u8>::empty()) == 0);
    } else {
        lemma_dec_digits_val(v / 10);
        assert(dec_digits(v).drop_last() =~= dec_digits(v / 10));
    }
}

/// Append the decimal numeral of `v`.
fn push_dec_digits(out: &mut Vec<u8>, v: usize)
    ensures
        final(out)@ == old(out)@ + dec_digits(v as int),
    decreases v,
{
    if v < 10 {
        out.push(48 + v as u8);
        proof {
            assert(out@ =~= old(out)@ + dec_digits(v as int));
        }
    } else {
        push_dec_digits(out, v / 10);
        out.push(48 + (v % 10) as u8);
        proof {
            assert(out@ =~= old(out)@ + dec_digits(v as int));
        }
    }
}

/// Append a variable operand token.
fn push_var_token(out: &mut Vec<u8>, c: char)
    ensures
        final(out)@ == old(out)@ + var_token(c),
{
    out.push('\'' as u8);
    out.push(c as u8);
    out.push('\'' as u8);
    proof {
        assert(out@ =~= old(out)@ + var_token(c));
    }
}

/// Render an instruction as its canonical textual line (without a line
/// terminator).
pub fn encode_line(b: &ByteCode) -> (r: Vec<u8>)
    ensures
        r@ == encode_spec(*b),
{
    let mut out: Vec<u8> = Vec::new();
    match b {
        ByteCode::LoadVal(n) => {
            out.push('L' as u8);
            out.push('O' as u8);
            out.push('A' as u8);
            out.push('D' as u8);
            out.push('_' as u8);
            out.push('V' as u8);
            out.push('A' as u8);
            out.push('L' as u8);
            out.push(' ' as u8);
            proof {
                assert(out@ =~= kw_load_val() + space());
            }
            push_dec_digits(&mut out, *n);
        },
        ByteCode::WriteVar(c) => {
            out.push('W' as u8);
            out.push('R' as u8);
            out.push('I' as u8);
            out.push('T' as u8);
            out.push('E' as u8);
            out.push('_' as u8);
            out.push('V' as u8);
            out.push('A' as u8);
            out.push('R' as u8);
            out.push(' ' as u8);
            proof {
                assert(out@ =~= kw_write_var() + space());
            }
            push_var_token(&mut out, *c);
        },
        ByteCode::ReadVar(c) => {
            out.push('R' as u8);
            out.push('E' as u8);
            out.push('A' as u8);
            out.push('D' as u8);
            out.push('_' as u8);
            out.push('V' as u8);
            out.push('A' as u8);
            out.push('R' as u8);
            out.push(' ' as u8);
            proof {
                assert(out@ =~= kw_read_var() + space());
            }
            push_var_token(&mut out, *c);
        },
        ByteCode::Add => {
            out.push('A' as u8);
            out.push('D' as u8);
            out.push('D' as u8);
            proof {
                assert(out@ =~= kw_add());
            }
        },
        ByteCode::Subtract => {
            out.push('S' as u8);
            out.push('U' as u8);
            out.push('B' as u8);
            out.push('T' as u8);
            out.push('R' as u8);
            out.push('A' as u8);
            out.push('C' as u8);
            out.push('T' as u8);
            proof {
                assert(out@ =~= kw_subtract());
            }
        },
        ByteCode::Multiply => {
            out.push('M' as u8);
            out.push('U' as u8);
            out.push('L' as u8);
            out.push('T' as u8);
            out.push('I' as u8);
            out.push('P' as u8);
            out.push('L' as u8);
            out.push('Y' as u8);
            proof {
                assert(out@ =~= kw_multiply());
            }
        },
        ByteCode::Divide => {
            out.push('D' as u8);
            out.push('I' as u8);
            out.push('V' as u8);
            out.push('I' as u8);
            out.push('D' as u8);
            out.push('E' as u8);
            proof {
                assert(out@ =~= kw_divide());
            }
        },
        ByteCode::DoWhileLt(c1, c2, t) => {
            out.push('D' as u8);
            out.push('O' as u8);
            out.push('_' as u8);
            out.push('W' as u8);
            out.push('H' as u8);
            out.push('I' as u8);
            out.push('L' as u8);
            out.push('E' as u8);
            out.push('_' as u8);
            out.push('L' as u8);
            out.push('T' as u8);
            out.push(' ' as u8);
            proof {
                assert(out@ =~= kw_do_while_lt() + space());
            }
            push_var_token(&mut out, *c1);
            out.push(' ' as u8);
            proof {
                assert(out@ =~= kw_do_while_lt() + space() + var_token(*c1) + space());
            }
            push_var_token(&mut out, *c2);
            out.push(' ' as u8);
            proof {
                assert(out@ =~= kw_do_while_lt() + space() + var_token(*c1) + space() + var_token(
                    *c2,
                ) + space());
            }
            push_dec_digits(&mut out, *t);
        },
        ByteCode::ReturnValue => {
            out.push('R' as u8);
            out.push('E' as u8);
            out.push('T' as u8);
            out.push('U' as u8);
            out.push('R' as u8);
            out.push('N' as u8);
            out.push('_' as u8);
            out.push('V' as u8);
            out.push('A' as u8);
            out.push('L' as u8);
            out.push('U' as u8);
            out.push('E' as u8);
            proof {
                assert(out@ =~= kw_return_value());
            }
        },
    }
    out
}

} // verus!
