use vstd::prelude::*;
use crate::builtins::Builtin;
use crate::bytecode::ByteCode;
use crate::codec::{be4, lemma_be4_round_trip, u32_at};
use crate::fault::Fault;
use crate::model::{
    builtin_spec, byte_op, call_address_spec, call_builtin_spec, call_common_spec,
    call_name_spec, call_spec, exec_spec, lemma_builtin_keeps, operate_spec, ret_spec, run_spec,
    step, State, Table,
};
use crate::text::decimal;
use crate::wide::{binary, Op, Ty};

verus! {

/// What a step leaves alone.  After every step the state is well formed
/// again and the program is the same; a step pushes or pops at most one call
/// frame; and below the active segment of the shallower of the two states
/// nothing changes: neither a segment nor the address at which a frame
/// resumes.
pub proof fn law_step_is_local(s: State, table: Table)
    requires
        s.wf(),
        step(s, table) is Ok,
    ensures
        step(s, table)->Ok_0.wf(),
        step(s, table)->Ok_0.code == s.code,
        s.frames.len() - 1 <= step(s, table)->Ok_0.frames.len() <= s.frames.len() + 1,
        forall|k: int|
            0 <= k < s.frames.len() && k < step(s, table)->Ok_0.frames.len() ==> (#[trigger] step(
                s,
                table,
            )->Ok_0.stack[k]) == s.stack[k] && step(s, table)->Ok_0.frames[k].ret
                == s.frames[k].ret,
{
    if ByteCode::decode(s.code[s.pc]) == Some(ByteCode::Call) {
        lemma_call_is_local(s, table);
    }
}

proof fn lemma_call_is_local(s: State, table: Table)
    requires
        s.wf(),
        s.fits(1),
        call_spec(s, table) is Ok,
    ensures
        ({
            let t = call_spec(s, table)->Ok_0.0;
            &&& t.wf()
            &&& t.code == s.code
            &&& s.frames.len() <= t.frames.len() <= s.frames.len() + 1
            &&& forall|k: int|
                0 <= k < s.frames.len() ==> (#[trigger] t.stack[k]) == s.stack[k]
                    && t.frames[k].ret == s.frames[k].ret
            &&& t.frames.len() == s.frames.len() ==> 0 <= call_spec(s, table)->Ok_0.1 <= u32::MAX
        }),
{
    let at = s.at(s.pc + 1);
    if s.code[s.pc + 1] != 0 && at.lookup(at.name()) is None {
        let inner = at.past_name();
        let b = table[at.name()];
        let entered = call_common_spec(inner)->Ok_0;
        lemma_builtin_keeps(b, entered);
        let done = builtin_spec(b, entered)->Ok_0;
        assert(done.stack.take(entered.stack.len() - 1) == entered.stack.take(
            entered.stack.len() - 1,
        ));
        assert forall|k: int| 0 <= k < s.frames.len() implies (#[trigger] done.stack[k])
            == s.stack[k] by {
            assert(done.stack.take(entered.stack.len() - 1)[k] == done.stack[k]);
            assert(entered.stack.take(entered.stack.len() - 1)[k] == entered.stack[k]);
        }
    }
}

/// A call and the return that ends it.  Let a `Call` at `s` enter a callee
/// (the first state of `trace`), let every state of `trace` lead to the next
/// by one step while the callee's frame stays on the call stack, and let the
/// last state of `trace` execute a `Ret` that pops that frame.  Then the
/// caller's segment after the return is its segment before the call without
/// the argument bytes, followed by the bytes that the callee left on its own
/// segment, in order; the call stack and the segments below are as before
/// the call; and control resumes at the address that the call saved.
pub proof fn law_call_then_return(s: State, table: Table, trace: Seq<State>)
    requires
        s.wf(),
        trace.len() > 0,
        ByteCode::decode(s.code[s.pc]) == Some(ByteCode::Call),
        step(s, table) == Ok::<State, Fault>(trace[0]),
        trace[0].frames.len() == s.frames.len() + 1,
        forall|i: int| 0 <= i < trace.len() ==> (#[trigger] trace[i]).frames.len() > s.frames.len(),
        forall|i: int|
            0 <= i < trace.len() - 1 ==> step(#[trigger] trace[i], table) == Ok::<State, Fault>(
                trace[i + 1],
            ),
        ByteCode::decode(trace.last().code[trace.last().pc]) == Some(ByteCode::Ret),
        trace.last().frames.len() == s.frames.len() + 1,
        step(trace.last(), table) is Ok,
    ensures
        ({
            let callee = trace.last();
            let back = step(callee, table)->Ok_0;
            let args = trace[0].seg().len();
            &&& args <= s.seg().len()
            &&& trace[0].seg() == s.seg().skip(s.seg().len() - args)
            &&& back.seg() == s.seg().take(s.seg().len() - args) + callee.seg()
            &&& back.stack.len() == s.stack.len()
            &&& back.stack.drop_last() == s.stack.drop_last()
            &&& back.frames.len() == s.frames.len()
            &&& back.pc == trace[0].frames.last().ret
        }),
{
    let d = s.frames.len() as int;
    lemma_call_is_local(s, table);
    let first = trace[0];
    assert(first.stack[d] == s.seg().take(s.seg().len() - first.seg().len()) && first.seg()
        == s.seg().skip(s.seg().len() - first.seg().len()) && first.seg().len() <= s.seg().len()
        && first.wf()) by {
        let at = s.at(s.pc + 1);
        if s.code[s.pc + 1] != 0 && at.lookup(at.name()) is None {
            let inner = at.past_name();
            let b = table[at.name()];
            lemma_builtin_keeps(b, call_common_spec(inner)->Ok_0);
        }
    }
    lemma_callee_keeps(s, table, trace, trace.len() - 1);
    let callee = trace.last();
    let back = step(callee, table)->Ok_0;
    assert(back.stack.drop_last() =~= s.stack.drop_last()) by {
        assert forall|k: int| 0 <= k < d implies back.stack.drop_last()[k] == s.stack.drop_last()[k] by {
            assert(callee.stack[k] == s.stack[k]);
        }
    }
}

/// While the callee's frame stays on the call stack, what lies below it
/// stays as the call left it.
proof fn lemma_callee_keeps(s: State, table: Table, trace: Seq<State>, i: int)
    requires
        s.wf(),
        0 <= i < trace.len(),
        trace[0].wf(),
        trace[0].frames.len() == s.frames.len() + 1,
        forall|k: int| 0 <= k < s.frames.len() ==> (#[trigger] trace[0].stack[k]) == s.stack[k],
        forall|i: int| 0 <= i < trace.len() ==> (#[trigger] trace[i]).frames.len() > s.frames.len(),
        forall|i: int|
            0 <= i < trace.len() - 1 ==> step(#[trigger] trace[i], table) == Ok::<State, Fault>(
                trace[i + 1],
            ),
    ensures
        trace[i].wf(),
        trace[i].stack[s.frames.len() as int] == trace[0].stack[s.frames.len() as int],
        trace[i].frames[s.frames.len() as int].ret == trace[0].frames[s.frames.len() as int].ret,
        forall|k: int| 0 <= k < s.frames.len() ==> (#[trigger] trace[i].stack[k]) == s.stack[k],
    decreases i,
{
    if i > 0 {
        lemma_callee_keeps(s, table, trace, i - 1);
        let prev = trace[i - 1];
        assert(step(prev, table) == Ok::<State, Fault>(trace[i]));
        law_step_is_local(prev, table);
        let d = s.frames.len() as int;
        assert(trace[i].stack[d] == prev.stack[d]);
        assert forall|k: int| 0 <= k < d implies (#[trigger] trace[i].stack[k]) == s.stack[k] by {
            assert(trace[i].stack[k] == prev.stack[k]);
        }
    }
}

/// A builtin call returns in the same step: the caller's segment after it
/// is its segment before the call without the argument bytes, followed by
/// the bytes that the builtin left on the segment of its arguments.
pub proof fn law_builtin_call_returns(s: State, b: Builtin)
    requires
        s.wf(),
        call_builtin_spec(s, b) is Ok,
    ensures
        ({
            let args = u32_at(s.code, s.pc + 1);
            let entered = call_common_spec(s)->Ok_0;
            let left = builtin_spec(b, entered)->Ok_0;
            let back = call_builtin_spec(s, b)->Ok_0.0;
            &&& entered.seg() == s.seg().skip(s.seg().len() - args)
            &&& back.seg() == s.seg().take(s.seg().len() - args) + left.seg()
            &&& back.frames == s.frames
            &&& back.stack.drop_last() == s.stack.drop_last()
        }),
{
    let entered = call_common_spec(s)->Ok_0;
    lemma_builtin_keeps(b, entered);
    let left = builtin_spec(b, entered)->Ok_0;
    let back = call_builtin_spec(s, b)->Ok_0.0;
    let n = s.stack.len() as int;
    assert(left.stack[n - 1] == entered.stack[n - 1]) by {
        assert(left.stack.take(n)[n - 1] == left.stack[n - 1]);
        assert(entered.stack.take(n)[n - 1] == entered.stack[n - 1]);
    }
    assert(back.frames =~= s.frames);
    assert(back.stack.drop_last() =~= s.stack.drop_last()) by {
        assert forall|k: int| 0 <= k < n - 1 implies back.stack.drop_last()[k] == s.stack.drop_last()[k] by {
            assert(left.stack.take(n)[k] == left.stack[k]);
            assert(entered.stack.take(n)[k] == entered.stack[k]);
        }
    }
}

/// A definition read back.  When a `Def` succeeds and the next instruction
/// is a `Get` of the same name, the `Get` succeeds and appends to the
/// active segment exactly the byte that was defined.
pub proof fn law_def_then_get(s: State, table: Table)
    requires
        s.wf(),
        ByteCode::decode(s.code[s.pc]) == Some(ByteCode::Def),
        step(s, table) is Ok,
        ByteCode::decode(step(s, table)->Ok_0.code[step(s, table)->Ok_0.pc]) == Some(ByteCode::Get),
        step(s, table)->Ok_0.name_fits(),
        step(s, table)->Ok_0.name() == s.name(),
    ensures
        step(step(s, table)->Ok_0, table) is Ok,
        step(step(s, table)->Ok_0, table)->Ok_0.seg() == s.seg().drop_last().push(s.seg().last()),
        step(step(s, table)->Ok_0, table)->Ok_0.seg() == s.seg(),
{
    let t = step(s, table)->Ok_0;
    let u = step(t, table)->Ok_0;
    assert(t.locals().contains_key(s.name()));
    assert(t.locals()[s.name()] == seq![s.seg().last()]);
    assert(t.seg() == s.seg().drop_last());
    assert(u.seg() =~= s.seg().drop_last().push(s.seg().last()));
    assert(s.seg().drop_last().push(s.seg().last()) =~= s.seg());
}

/// A label read back.  A `Label` binds its name globally to the program
/// counter as it stands when the name has been read.  Where the active
/// scope does not bind the name otherwise, a `Get` of the name that comes
/// next appends the four bytes of that address, highest-order byte first,
/// and a `Call` of the name that comes next and succeeds transfers control
/// to that address.
pub proof fn law_label_then_use(s: State, table: Table)
    requires
        s.wf(),
        ByteCode::decode(s.code[s.pc]) == Some(ByteCode::Label),
        step(s, table) is Ok,
        s.frames.len() > 0 ==> !s.locals().contains_key(s.name()),
    ensures
        ({
            let t = step(s, table)->Ok_0;
            let captured = s.pc + 4 + s.name_len();
            &&& t.pc == captured + 1
            &&& t.globals.contains_key(s.name())
            &&& t.globals[s.name()] == be4(captured)
            &&& t.lookup(s.name()) == Some(be4(captured))
            &&& ByteCode::decode(t.code[t.pc]) == Some(ByteCode::Get) && t.name_fits() && t.name()
                == s.name() ==> step(t, table) is Ok && step(t, table)->Ok_0.seg() == t.seg() + be4(
                captured,
            )
            &&& ByteCode::decode(t.code[t.pc]) == Some(ByteCode::Call) && t.fits(2) && t.code[t.pc
                + 1] != 0 && t.at(t.pc + 1).name() == s.name() && step(t, table) is Ok ==> step(
                t,
                table,
            )->Ok_0.pc == captured
        }),
{
    let t = step(s, table)->Ok_0;
    let captured = s.pc + 4 + s.name_len();
    lemma_be4_round_trip(captured);
    assert(t.lookup(s.name()) == Some(be4(captured)));
    assert(t.at(t.pc + 1).lookup(s.name()) == Some(be4(captured)));
}

/// The highest number of a type.
pub open spec fn max_value(ty: Ty) -> int {
    if ty.signed() {
        ty.modulus() / 2 - 1
    } else {
        ty.modulus() - 1
    }
}

/// The binary builtins at the edges of a type's range, zero and the highest
/// number: sums, differences and products wrap around as the arithmetic of
/// the machine's integers does, and the other operations yield what they
/// yield on numbers.
pub proof fn law_boundary_operands(ty: Ty)
    ensures
        ({
            let m = ty.modulus();
            let max = max_value(ty);
            let ok = |v: int| Ok::<int, Fault>(v);
            &&& ty.value(max) == max && ty.in_range(max) && !ty.in_range(max + 1)
            &&& binary(Op::Add, ty, 0, 0) == ok(0)
            &&& binary(Op::Add, ty, max, 0) == ok(max)
            &&& binary(Op::Add, ty, 0, max) == ok(max)
            &&& binary(Op::Add, ty, max, max) == ok(m - 2)
            &&& binary(Op::Sub, ty, max, 0) == ok(max)
            &&& binary(Op::Sub, ty, 0, max) == ok(m - max)
            &&& binary(Op::Sub, ty, max, max) == ok(0)
            &&& binary(Op::Mul, ty, max, 0) == ok(0)
            &&& binary(Op::Mul, ty, 0, max) == ok(0)
            &&& binary(Op::Mul, ty, max, max) == ok(1)
            &&& binary(Op::Div, ty, 0, max) == ok(0)
            &&& binary(Op::Div, ty, max, max) == ok(1)
            &&& binary(Op::Modulo, ty, 0, max) == ok(0)
            &&& binary(Op::Modulo, ty, max, max) == ok(0)
            &&& binary(Op::BitAnd, ty, max, 0) == ok(0)
            &&& binary(Op::BitOr, ty, max, 0) == ok(max)
            &&& binary(Op::BitXor, ty, max, max) == ok(0)
            &&& binary(Op::Lt, ty, 0, max) == ok(1)
            &&& binary(Op::Le, ty, max, max) == ok(1)
            &&& binary(Op::Gt, ty, 0, max) == ok(0)
            &&& binary(Op::Ge, ty, 0, max) == ok(0)
            &&& binary(Op::Eq, ty, max, max) == ok(1)
            &&& binary(Op::Eq, ty, 0, max) == ok(0)
        }),
{
    let m = ty.modulus();
    let max = max_value(ty);
    assert(max * max == (max - 1) * m + 1 || max * max == (m / 4 - 1) * m + 1) by {
        assert(m == 0x1_0000 || m == 0x1_0000_0000 || m == 0x1_0000_0000_0000_0000 || m
            == 0x1_0000_0000_0000_0000_0000_0000_0000_0000);
        if ty.signed() {
            assert(max * max == (m / 4 - 1) * m + 1) by (nonlinear_arith)
                requires
                    max == m / 2 - 1,
                    m % 4 == 0,
            ;
        } else {
            assert(max * max == (max - 1) * m + 1) by (nonlinear_arith)
                requires
                    max == m - 1,
            ;
        }
    }
    vstd::arithmetic::div_mod::lemma_mod_multiples_vanish(max - 1, 1, m);
    vstd::arithmetic::div_mod::lemma_mod_multiples_vanish(m / 4 - 1, 1, m);
    assert((max * max) % m == 1);
    assert((max + max) % m == m - 2);
    assert((0int - max) % m == m - max);
    assert(max / max == 1 && max % max == 0 && 0int / max == 0 && 0int % max == 0);
    let x = max as u128;
    assert(x & 0 == 0 && x | 0 == x && x ^ x == 0) by (bit_vector);
}

/// Division and remainder by zero fault, whatever the dividend: the
/// byte-wise instructions and the builtins of every width alike.
pub proof fn law_division_by_zero(s: State, table: Table, ty: Ty, b: int, left: u8)
    requires
        s.wf(),
    ensures
        byte_op(ByteCode::Div, left, 0) == Err::<u8, Fault>(Fault::ArithmeticFault),
        byte_op(ByteCode::Mod, left, 0) == Err::<u8, Fault>(Fault::ArithmeticFault),
        binary(Op::Div, ty, b, 0) == Err::<int, Fault>(Fault::ArithmeticFault),
        binary(Op::Modulo, ty, b, 0) == Err::<int, Fault>(Fault::ArithmeticFault),
        s.fits(1) && s.seg().len() >= 2 && s.seg().last() == 0 && (ByteCode::decode(s.code[s.pc])
            == Some(ByteCode::Div) || ByteCode::decode(s.code[s.pc]) == Some(ByteCode::Mod))
            ==> step(s, table) == Err::<State, Fault>(Fault::ArithmeticFault),
{
}

/// `Jif` transfers control to its target exactly if the byte that it pops
/// is greater than zero; with the byte zero control goes on at the next
/// instruction.
pub proof fn law_jif(s: State, table: Table)
    requires
        s.wf(),
        ByteCode::decode(s.code[s.pc]) == Some(ByteCode::Jif),
        s.fits(5),
        s.seg().len() > 0,
    ensures
        step(s, table) is Ok,
        s.seg().last() > 0 ==> step(s, table)->Ok_0.pc == u32_at(s.code, s.pc + 1),
        s.seg().last() == 0 ==> step(s, table)->Ok_0.pc == s.pc + 5,
        step(s, table)->Ok_0.seg() == s.seg().drop_last(),
{
}

/// What the print instruction `kind` (`Putc` or `Puts`) prints of a byte.
pub open spec fn shown(kind: ByteCode, b: u8) -> Seq<char> {
    if kind == ByteCode::Putc {
        seq![b as char]
    } else {
        decimal(b as nat)
    }
}

/// What the print instructions `kinds`, executed in order, print of a
/// segment: each takes the byte on top.
pub open spec fn printed(kinds: Seq<ByteCode>, bytes: Seq<u8>) -> Seq<char>
    decreases kinds.len(),
{
    if kinds.len() == 0 {
        Seq::empty()
    } else {
        shown(kinds[0], bytes.last()) + printed(kinds.skip(1), bytes.drop_last())
    }
}

/// The program that pushes `bytes` with one `Push` and then executes the
/// print instructions `kinds`.
pub open spec fn push_print_program(bytes: Seq<u8>, kinds: Seq<ByteCode>) -> Seq<u8> {
    seq![ByteCode::Push.byte(), bytes.len() as u8] + bytes + Seq::new(
        kinds.len(),
        |i: int| kinds[i].byte(),
    )
}

/// Push, then print.  A program that pushes some bytes with one `Push` and
/// then prints with `Putc` and `Puts`, no more often than it has pushed,
/// runs to its end without a fault and prints the pushed bytes, the last
/// one first, each as a character or as a number as its instruction says.
pub proof fn law_push_then_print(bytes: Seq<u8>, kinds: Seq<ByteCode>, table: Table, fuel: nat)
    requires
        bytes.len() <= 255,
        kinds.len() <= bytes.len(),
        forall|i: int|
            0 <= i < kinds.len() ==> kinds[i] == ByteCode::Putc || kinds[i] == ByteCode::Puts,
        fuel > kinds.len(),
    ensures
        ({
            let (end, r) = run_spec(
                State::initial(push_print_program(bytes, kinds)),
                table,
                fuel,
            );
            &&& r == Ok::<bool, Fault>(true)
            &&& end.out == printed(kinds, bytes)
            &&& end.seg() == bytes.take(bytes.len() - kinds.len())
        }),
{
    let code = push_print_program(bytes, kinds);
    let s = State::initial(code);
    let n = bytes.len() as int;
    assert(code.len() == 2 + n + kinds.len());
    assert(code[0] == 0x05 && code[1] == n);
    assert(code.subrange(2, 2 + n) =~= bytes);
    let t = step(s, table)->Ok_0;
    assert(s.seg() + bytes =~= bytes);
    assert(t.seg() == bytes);
    assert(bytes.take(n) =~= bytes);
    assert(kinds.skip(0) =~= kinds);
    assert(t.out + printed(kinds, bytes) =~= printed(kinds, bytes));
    lemma_prints(t, bytes, kinds, table, 0, (fuel - 1) as nat);
}

proof fn lemma_prints(s: State, bytes: Seq<u8>, kinds: Seq<ByteCode>, table: Table, j: int, fuel: nat)
    requires
        s.wf(),
        bytes.len() <= 255,
        0 <= j <= kinds.len() <= bytes.len(),
        forall|i: int|
            0 <= i < kinds.len() ==> kinds[i] == ByteCode::Putc || kinds[i] == ByteCode::Puts,
        fuel >= kinds.len() - j,
        s.code == push_print_program(bytes, kinds),
        s.pc == 2 + bytes.len() + j,
        !s.finished,
        s.seg() == bytes.take(bytes.len() - j),
    ensures
        run_spec(s, table, fuel).1 == Ok::<bool, Fault>(true),
        run_spec(s, table, fuel).0.out == s.out + printed(kinds.skip(j), s.seg()),
        run_spec(s, table, fuel).0.seg() == bytes.take(bytes.len() - kinds.len()),
    decreases kinds.len() - j,
{
    let code = push_print_program(bytes, kinds);
    assert(code.len() == 2 + bytes.len() + kinds.len());
    if j == kinds.len() {
        assert(s.halted());
        assert(printed(kinds.skip(j), s.seg()) =~= Seq::<char>::empty());
        assert(s.out + Seq::<char>::empty() =~= s.out);
    } else {
        assert(code[s.pc] == kinds[j].byte());
        let t = step(s, table)->Ok_0;
        assert(t.seg() == s.seg().drop_last());
        assert(s.seg().drop_last() =~= bytes.take(bytes.len() - (j + 1)));
        assert(t.out == s.out + shown(kinds[j], s.seg().last()));
        lemma_prints(t, bytes, kinds, table, j + 1, (fuel - 1) as nat);
        assert(kinds.skip(j)[0] == kinds[j]);
        assert(kinds.skip(j).skip(1) =~= kinds.skip(j + 1));
        assert(s.out + printed(kinds.skip(j), s.seg()) =~= t.out + printed(
            kinds.skip(j + 1),
            t.seg(),
        ));
    }
}

} // verus!
