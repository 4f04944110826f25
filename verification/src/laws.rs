use vstd::prelude::*;

use crate::bytecode::ByteCode;
use crate::decode::{
    decode_line_spec, is_blank, kw_add, kw_divide, kw_do_while_lt, kw_load_val, kw_multiply,
    kw_read_var, kw_return_value, kw_subtract, kw_write_var, lemma_tokens_cons, lemma_tokens_last,
    tokenize_spec, var_name_spec,
};
use crate::encode::{
    dec_digits, encode_spec, lemma_dec_digits_are_digits, lemma_dec_digits_val, space, var_token,
};
use crate::error::VmError;
use crate::semantics::{
    lemma_slot_of, run_spec, slot_of, step_spec, AbsState, RunRes, StepRes,
};

verus! {

// ------------------------------------------------------------------
// Decode round-trip.
// ------------------------------------------------------------------

/// A variable name the canonical grammar can carry: a printable ASCII
/// character.  A blank or unprintable name would be swallowed by
/// tokenization, and a name beyond ASCII does not fit the one-byte name
/// position of an operand token.
pub open spec fn valid_name(c: char) -> bool {
    33 <= c as u32 <= 126
}

/// An instruction whose canonical line carries every part of it: all its
/// variable names are printable ASCII.
pub open spec fn encodable(b: ByteCode) -> bool {
    match b {
        ByteCode::WriteVar(c) => valid_name(c),
        ByteCode::ReadVar(c) => valid_name(c),
        ByteCode::DoWhileLt(c1, c2, _t) => valid_name(c1) && valid_name(c2),
        _ => true,
    }
}

/// The four keywords of equal length differ from one another.
proof fn lemma_kw_distinct()
    ensures
        kw_load_val() != kw_read_var(),
        kw_load_val() != kw_subtract(),
        kw_load_val() != kw_multiply(),
        kw_read_var() != kw_subtract(),
        kw_read_var() != kw_multiply(),
        kw_subtract() != kw_multiply(),
{
    assert(kw_load_val()[0] != kw_read_var()[0]);
    assert(kw_load_val()[0] != kw_subtract()[0]);
    assert(kw_load_val()[0] != kw_multiply()[0]);
    assert(kw_read_var()[0] != kw_subtract()[0]);
    assert(kw_read_var()[0] != kw_multiply()[0]);
    assert(kw_subtract()[0] != kw_multiply()[0]);
}

/// A keyword alone on a line is its own single token.
proof fn lemma_tokens_bare(kw: Seq<u8>)
    requires
        kw.len() > 0,
        forall|j: int| 0 <= j < kw.len() ==> !is_blank(kw[j]),
    ensures
        tokenize_spec(kw) == seq![kw],
{
    lemma_tokens_last(kw, 0);
    assert(kw.subrange(0, kw.len() as int) =~= kw);
}

/// A keyword, a space and one operand token make exactly two tokens.
proof fn lemma_tokens_kw_operand(kw: Seq<u8>, op: Seq<u8>)
    requires
        kw.len() > 0,
        op.len() > 0,
        forall|j: int| 0 <= j < kw.len() ==> !is_blank(kw[j]),
        forall|j: int| 0 <= j < op.len() ==> !is_blank(op[j]),
    ensures
        tokenize_spec(kw + space() + op) == seq![kw, op],
{
    let line = kw + space() + op;
    let e = kw.len() as int;
    assert forall|j: int| 0 <= j < e implies !is_blank(line[j]) by {
        assert(line[j] == kw[j]);
    }
    assert(line[e] == ' ' as u8);
    lemma_tokens_cons(line, 0, e);
    assert forall|j: int| e + 1 <= j < line.len() implies !is_blank(line[j]) by {
        assert(line[j] == op[j - e - 1]);
    }
    lemma_tokens_last(line, e + 1);
    assert(line.subrange(0, e) =~= kw);
    assert(line.subrange(e + 1, line.len() as int) =~= op);
    assert(seq![kw] + seq![op] =~= seq![kw, op]);
}

/// Every byte of a printable variable name's operand token is non-blank.
proof fn lemma_var_token_solid(c: char)
    requires
        valid_name(c),
    ensures
        var_token(c).len() == 3,
        forall|j: int| 0 <= j < 3 ==> !is_blank(var_token(c)[j]),
        var_name_spec(var_token(c)) == Some(c),
{
    assert(c as u8 > 32);
    assert(var_token(c)[1] == c as u8);
    assert(((c as u8) as char) == c);
}

/// Every byte of a canonical numeral is non-blank, and the numeral parses
/// back to its value.
proof fn lemma_dec_digits_solid(v: usize)
    ensures
        dec_digits(v as int).len() > 0,
        forall|j: int| 0 <= j < dec_digits(v as int).len() ==> !is_blank(dec_digits(v as int)[j]),
        crate::decode::parse_usize_spec(dec_digits(v as int)) == Some(v),
{
    lemma_dec_digits_are_digits(v as int);
    lemma_dec_digits_val(v as int);
    let d = dec_digits(v as int);
    assert forall|j: int| 0 <= j < d.len() implies !is_blank(d[j]) by {
        assert(crate::decode::is_digit(d[j]));
    }
}

/// Decode round-trip: the canonical textual line of any encodable
/// instruction decodes back to exactly that instruction.  Since
/// [`encode_spec`] is the canonical grammar, this also says that re-encoding
/// what such a line decodes to reproduces the line itself.
pub proof fn lemma_decode_inverts_encode(b: ByteCode)
    requires
        encodable(b),
    ensures
        decode_line_spec(encode_spec(b)) == Ok::<ByteCode, VmError>(b),
{
    lemma_kw_distinct();
    match b {
        ByteCode::LoadVal(n) => {
            lemma_dec_digits_solid(n);
            lemma_tokens_kw_operand(kw_load_val(), dec_digits(n as int));
        },
        ByteCode::WriteVar(c) => {
            lemma_var_token_solid(c);
            lemma_tokens_kw_operand(kw_write_var(), var_token(c));
        },
        ByteCode::ReadVar(c) => {
            lemma_var_token_solid(c);
            lemma_tokens_kw_operand(kw_read_var(), var_token(c));
        },
        ByteCode::Add => {
            lemma_tokens_bare(kw_add());
        },
        ByteCode::Subtract => {
            lemma_tokens_bare(kw_subtract());
        },
        ByteCode::Multiply => {
            lemma_tokens_bare(kw_multiply());
        },
        ByteCode::Divide => {
            lemma_tokens_bare(kw_divide());
        },
        ByteCode::DoWhileLt(c1, c2, t) => {
            lemma_var_token_solid(c1);
            lemma_var_token_solid(c2);
            lemma_dec_digits_solid(t);
            lemma_tokens_do_while(c1, c2, t);
        },
        ByteCode::ReturnValue => {
            lemma_tokens_bare(kw_return_value());
        },
    }
}

/// The canonical loop line makes exactly four tokens.
proof fn lemma_tokens_do_while(c1: char, c2: char, t: usize)
    requires
        valid_name(c1),
        valid_name(c2),
    ensures
        tokenize_spec(encode_spec(ByteCode::DoWhileLt(c1, c2, t))) == seq![
            kw_do_while_lt(),
            var_token(c1),
            var_token(c2),
            dec_digits(t as int),
        ],
{
    lemma_var_token_solid(c1);
    lemma_var_token_solid(c2);
    lemma_dec_digits_solid(t);
    let line = encode_spec(ByteCode::DoWhileLt(c1, c2, t));
    let dd = dec_digits(t as int);
    assert(line.len() == 20 + dd.len());
    assert forall|j: int| 0 <= j < 11 implies !is_blank(line[j]) by {
        assert(line[j] == kw_do_while_lt()[j]);
    }
    assert(line[11] == ' ' as u8);
    lemma_tokens_cons(line, 0, 11);
    assert forall|j: int| 12 <= j < 15 implies !is_blank(line[j]) by {
        assert(line[j] == var_token(c1)[j - 12]);
    }
    assert(line[15] == ' ' as u8);
    lemma_tokens_cons(line, 12, 15);
    assert forall|j: int| 16 <= j < 19 implies !is_blank(line[j]) by {
        assert(line[j] == var_token(c2)[j - 16]);
    }
    assert(line[19] == ' ' as u8);
    lemma_tokens_cons(line, 16, 19);
    assert forall|j: int| 20 <= j < line.len() implies !is_blank(line[j]) by {
        assert(line[j] == dd[j - 20]);
    }
    lemma_tokens_last(line, 20);
    assert(line.subrange(0, 11) =~= kw_do_while_lt());
    assert(line.subrange(12, 15) =~= var_token(c1));
    assert(line.subrange(16, 19) =~= var_token(c2));
    assert(line.subrange(20, line.len() as int) =~= dd);
    assert(seq![kw_do_while_lt()] + (seq![var_token(c1)] + (seq![var_token(c2)] + seq![dd]))
        =~= seq![kw_do_while_lt(), var_token(c1), var_token(c2), dd]);
}

// ------------------------------------------------------------------
// Stack arithmetic.
// ------------------------------------------------------------------

/// The four-instruction program `LoadVal a; LoadVal b; Subtract;
/// ReturnValue`.
pub open spec fn subtract_program(a: usize, b: usize) -> Seq<ByteCode> {
    seq![ByteCode::LoadVal(a), ByteCode::LoadVal(b), ByteCode::Subtract, ByteCode::ReturnValue]
}

/// Stack arithmetic law: pushing `a` then `b` and subtracting computes
/// `a - b` — the earlier-pushed operand is the left-hand one — and the
/// returned value leaves the operand stack empty.  Holds whenever `a >= b`.
pub proof fn lemma_subtract_yields_difference(a: usize, b: usize)
    requires
        b <= a,
    ensures
        run_spec(AbsState::init(subtract_program(a, b)), 4) matches RunRes::Halted(v, s)
            && v == Some((a - b) as usize) && s.stack.len() == 0,
{
    let p = subtract_program(a, b);
    let s0 = AbsState::init(p);
    let s1 = AbsState { pc: 1, stack: s0.stack.push(a), ..s0 };
    let s2 = AbsState { pc: 2, stack: s1.stack.push(b), ..s1 };
    assert(s2.stack.last() == b && s2.stack[s2.stack.len() - 2] == a);
    let s3 = AbsState {
        pc: 3,
        stack: s2.stack.drop_last().drop_last().push((a - b) as usize),
        ..s2
    };
    assert(step_spec(s0) == StepRes::Next(s1));
    assert(step_spec(s1) == StepRes::Next(s2));
    assert(step_spec(s2) == StepRes::Next(s3));
    assert(s3.stack.len() == 1);
    let s4 = AbsState { pc: 4, stack: s3.stack.drop_last(), ..s3 };
    assert(step_spec(s3) == StepRes::Returned((a - b) as usize, s4));
    assert(run_spec(s0, 4) == run_spec(s1, 3));
    assert(run_spec(s1, 3) == run_spec(s2, 2));
    assert(run_spec(s2, 2) == run_spec(s3, 1));
    assert(run_spec(s3, 1) == RunRes::Halted(Some((a - b) as usize), s4));
}

/// The under-zero edge of the same program: with `a < b` the subtraction
/// leaves the unsigned range, and the run has no result at all rather than
/// a silently wrapped one.
pub proof fn lemma_subtract_underflow_is_no_result(a: usize, b: usize)
    requires
        a < b,
    ensures
        run_spec(AbsState::init(subtract_program(a, b)), 4) == RunRes::OverflowAt(2),
{
    let p = subtract_program(a, b);
    let s0 = AbsState::init(p);
    let s1 = AbsState { pc: 1, stack: s0.stack.push(a), ..s0 };
    let s2 = AbsState { pc: 2, stack: s1.stack.push(b), ..s1 };
    assert(step_spec(s0) == StepRes::Next(s1));
    assert(step_spec(s1) == StepRes::Next(s2));
    assert(s2.stack.last() == b && s2.stack[s2.stack.len() - 2] == a);
    assert(step_spec(s2) == StepRes::Overflow);
    assert(run_spec(s0, 4) == run_spec(s1, 3));
    assert(run_spec(s1, 3) == run_spec(s2, 2));
}

// ------------------------------------------------------------------
// Variable binding.
// ------------------------------------------------------------------

/// First-write-defines-slot: storing to a name never seen before allocates
/// exactly one fresh slot, bound to that name and holding the popped value;
/// storing to a known name overwrites its slot in place and allocates
/// nothing.  Names stay unique, so the number of bindings never exceeds the
/// number of distinct names ever stored.
pub proof fn lemma_first_write_defines_slot(s: AbsState, c: char)
    requires
        s.wf(),
        s.pc < s.program.len(),
        s.program[s.pc as int] == ByteCode::WriteVar(c),
        s.stack.len() > 0,
    ensures
        step_spec(s) matches StepRes::Next(s2) && s2.wf() && {
            let v = s.stack.last();
            &&& !s.names.contains(c) ==> s2.names == s.names.push(c) && s2.locals
                == s.locals.push(v)
            &&& s.names.contains(c) ==> s2.names == s.names && s2.locals == s.locals.update(
                slot_of(s.names, c),
                v,
            )
        },
{
    lemma_slot_of(s.names, c);
    crate::semantics::lemma_step_wf(s);
    if slot_of(s.names, c) == -1 {
        assert(!s.names.contains(c));
    } else {
        assert(s.names.contains(c));
    }
}

// ------------------------------------------------------------------
// Error determinism.
// ------------------------------------------------------------------

/// `Add` with fewer than two operands on the stack always fails with
/// `EmptyStack`, whatever else the state holds, and the abort leaves the
/// machine's state exactly as it was — no operand is consumed first.
pub proof fn lemma_add_underflow_deterministic(s: AbsState, fuel: nat)
    requires
        s.pc < s.program.len(),
        s.program[s.pc as int] == ByteCode::Add,
        s.stack.len() < 2,
        fuel > 0,
    ensures
        step_spec(s) == StepRes::Failed(VmError::EmptyStack),
        run_spec(s, fuel) == RunRes::Aborted(VmError::EmptyStack, s.pc, s),
{
}

} // verus!
