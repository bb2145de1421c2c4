use vstd::prelude::*;
use crate::builtins::{invoke, Builtin, Builtins};
use crate::bytecode::ByteCode;
use crate::codec::{be_bytes_u32, be_tail_u32};
use crate::fault::Fault;
use crate::frame::Frame;
use crate::model::{
    byte_op, call_address_spec, call_builtin_spec, call_common_spec, call_name_spec, call_spec,
    def_spec, enter_spec, lemma_builtin_keeps, dup_spec, exec_spec, get_spec, jif_spec,
    jmp_spec, label_spec, lemma_same_state, len_spec, load_spec, meets, meets_transfer, not_spec,
    operate_spec, pop_spec, push_spec, putc_spec, puts_spec, ret_spec, rev_spec, set_spec,
    store_spec, swap_spec,
};
use crate::text::push_decimal;
use crate::vm::Vm;

verus! {

/// Executes the instruction with the opcode `code` at the program counter,
/// moves the program counter to the instruction that comes next, and returns
/// its address.  After a fault the machine is as it was.
pub fn exec(vm_state: &mut Vm, code: ByteCode, table: &Builtins) -> (r: Result<u32, Fault>)
    requires
        old(vm_state).wf(),
        table.wf(),
    ensures
        final(vm_state).wf(),
        match exec_spec(old(vm_state)@, code, table@) {
            Ok(t) => r is Ok && r->Ok_0 == t.pc && final(vm_state)@ == t,
            Err(f) => r == Err::<u32, Fault>(f) && final(vm_state)@ == old(vm_state)@,
        },
{
    if !vm_state.fits(1) {
        return Err(Fault::DecodeFault);
    }
    let done = match code {
        ByteCode::Exit => {
            vm_state.finished = true;
            Ok(())
        },
        ByteCode::Putc => putc(vm_state),
        ByteCode::Puts => puts(vm_state),
        ByteCode::Push => push(vm_state),
        ByteCode::Jmp => {
            let target = jmp(vm_state);
            return goto(vm_state, target);
        },
        ByteCode::Jif => {
            let target = jif(vm_state);
            return goto(vm_state, target);
        },
        ByteCode::Pop => pop(vm_state),
        ByteCode::Call => {
            let target = call(vm_state, table);
            return goto(vm_state, target);
        },
        ByteCode::Ret => {
            let target = ret(vm_state);
            return goto(vm_state, target);
        },
        ByteCode::Def => def(vm_state),
        ByteCode::Get => get(vm_state),
        ByteCode::Assign => set(vm_state),
        ByteCode::Load => load(vm_state),
        ByteCode::Store => store(vm_state),
        ByteCode::RotR => rot_r(vm_state),
        ByteCode::RotL => rot_l(vm_state),
        ByteCode::Not => not(vm_state),
        ByteCode::Swap => swap(vm_state),
        ByteCode::Rev => rev(vm_state),
        ByteCode::Label => label(vm_state),
        ByteCode::Len => len(vm_state),
        ByteCode::Dup => dup(vm_state),
        ByteCode::Add
        | ByteCode::Sub
        | ByteCode::Mul
        | ByteCode::Div
        | ByteCode::Mod
        | ByteCode::ShR
        | ByteCode::ShL
        | ByteCode::And
        | ByteCode::Or
        | ByteCode::Eq
        | ByteCode::Gt
        | ByteCode::Lt
        | ByteCode::Ge
        | ByteCode::Le => operate(vm_state, code),
    };
    match done {
        Ok(()) => {
            vm_state.pc = vm_state.pc + 1;
            Ok(vm_state.pc)
        },
        Err(f) => Err(f),
    }
}

/// Moves the program counter to the address that a jump, a call or a return
/// has named.
fn goto(vm_state: &mut Vm, target: Result<u32, Fault>) -> (r: Result<u32, Fault>)
    ensures
        r == target,
        match target {
            Ok(t) => *final(vm_state) == (Vm { pc: t, ..*old(vm_state) }),
            Err(_) => *final(vm_state) == *old(vm_state),
        },
{
    match target {
        Ok(t) => {
            vm_state.pc = t;
            Ok(t)
        },
        Err(f) => Err(f),
    }
}

fn putc(vm_state: &mut Vm) -> (r: Result<(), Fault>)
    requires
        old(vm_state).wf(),
    ensures
        final(vm_state).wf(),
        meets(r, putc_spec(old(vm_state)@), old(vm_state)@, final(vm_state)@),
{
    if vm_state.depth() == 0 {
        return Err(Fault::StackUnderflow);
    }
    let x = vm_state.top();
    vm_state.emit(x as char);
    Ok(())
}

fn puts(vm_state: &mut Vm) -> (r: Result<(), Fault>)
    requires
        old(vm_state).wf(),
    ensures
        final(vm_state).wf(),
        meets(r, puts_spec(old(vm_state)@), old(vm_state)@, final(vm_state)@),
{
    if vm_state.depth() == 0 {
        return Err(Fault::StackUnderflow);
    }
    let x = vm_state.top();
    let ghost mid = *vm_state;
    push_decimal(&mut vm_state.output, x as u128);
    proof {
        lemma_same_state(vm_state@, mid@.emit(crate::text::decimal(x as nat)));
    }
    Ok(())
}

fn pop(vm_state: &mut Vm) -> (r: Result<(), Fault>)
    requires
        old(vm_state).wf(),
    ensures
        final(vm_state).wf(),
        meets(r, pop_spec(old(vm_state)@), old(vm_state)@, final(vm_state)@),
{
    if vm_state.depth() == 0 {
        return Err(Fault::StackUnderflow);
    }
    vm_state.top();
    Ok(())
}

fn push(vm_state: &mut Vm) -> (r: Result<(), Fault>)
    requires
        old(vm_state).wf(),
    ensures
        final(vm_state).wf(),
        meets(r, push_spec(old(vm_state)@), old(vm_state)@, final(vm_state)@),
{
    if !vm_state.fits(2) {
        return Err(Fault::DecodeFault);
    }
    let ghost before = *vm_state;
    let start = vm_state.pc;
    vm_state.incr();
    let num = vm_state.curr_byte();
    if !vm_state.fits(1 + num as u64) {
        vm_state.pc = start;
        return Err(Fault::DecodeFault);
    }
    let mut i: u8 = 0;
    proof {
        assert(before@.seg() + before@.code.subrange(start + 2, start + 2 + 0) =~= before@.seg());
        lemma_same_state(vm_state@, before@.with_seg(before@.seg()).at(start + 1));
    }
    while i < num
        invariant
            i <= num,
            before.wf(),
            vm_state.wf(),
            start == before.pc,
            before@.fits(2 + num),
            vm_state@ == before@.with_seg(
                before@.seg() + before@.code.subrange(start + 2, start + 2 + i),
            ).at(start + 1 + i),
        decreases num - i,
    {
        let ghost prev = *vm_state;
        vm_state.incr();
        let data = vm_state.curr_byte();
        vm_state.push_byte(data);
        i += 1;
        proof {
            assert(before@.code.subrange(start + 2, start + 2 + i) =~= before@.code.subrange(
                start + 2,
                start + 2 + i - 1,
            ).push(data));
            lemma_same_state(
                vm_state@,
                before@.with_seg(
                    before@.seg() + before@.code.subrange(start + 2, start + 2 + i),
                ).at(start + 1 + i),
            );
        }
    }
    Ok(())
}

fn jmp(vm_state: &mut Vm) -> (r: Result<u32, Fault>)
    requires
        old(vm_state).wf(),
    ensures
        final(vm_state).wf(),
        meets_transfer(r, jmp_spec(old(vm_state)@), old(vm_state)@, final(vm_state)@),
{
    if !vm_state.fits(5) {
        return Err(Fault::DecodeFault);
    }
    Ok(vm_state.get_u32())
}

fn jif(vm_state: &mut Vm) -> (r: Result<u32, Fault>)
    requires
        old(vm_state).wf(),
    ensures
        final(vm_state).wf(),
        meets_transfer(r, jif_spec(old(vm_state)@), old(vm_state)@, final(vm_state)@),
{
    if !vm_state.fits(5) {
        return Err(Fault::DecodeFault);
    }
    if vm_state.depth() == 0 {
        return Err(Fault::StackUnderflow);
    }
    let addr = vm_state.get_u32();
    if vm_state.top() > 0 {
        return Ok(addr);
    }
    Ok(vm_state.pc + 1)
}

/// Reads a name: a length of four bytes, then as many bytes as it says.
pub fn get_name(vm_state: &mut Vm) -> (r: Result<Vec<u8>, Fault>)
    requires
        old(vm_state).wf(),
    ensures
        final(vm_state).wf(),
        match r {
            Ok(name) => old(vm_state)@.name_fits() && name@ == old(vm_state)@.name()
                && final(vm_state)@ == old(vm_state)@.past_name(),
            Err(f) => !old(vm_state)@.name_fits() && f == Fault::DecodeFault && final(vm_state)@
                == old(vm_state)@,
        },
{
    if !vm_state.fits(5) {
        return Err(Fault::DecodeFault);
    }
    let ghost before = *vm_state;
    let start = vm_state.pc;
    let name_num = vm_state.get_u32();
    if !vm_state.fits(1 + name_num as u64) {
        vm_state.pc = start;
        return Err(Fault::DecodeFault);
    }
    let mut name: Vec<u8> = Vec::new();
    let mut i: u32 = 0;
    while i < name_num
        invariant
            i <= name_num,
            before.wf(),
            start == before.pc,
            before@.fits(5 + name_num),
            *vm_state == (Vm { pc: (start + 4 + i) as u32, ..before }),
            name@ == before@.code.subrange(start + 5, start + 5 + i),
        decreases name_num - i,
    {
        vm_state.incr();
        name.push(vm_state.curr_byte());
        i += 1;
        proof {
            assert(name@ =~= before@.code.subrange(start + 5, start + 5 + i));
        }
    }
    Ok(name)
}

/// Enters a call: reads the argument count, moves that many bytes from the
/// top of the active segment to a new segment, and pushes a frame.
fn call_common(vm_state: &mut Vm) -> (r: Result<(), Fault>)
    requires
        old(vm_state).wf(),
    ensures
        final(vm_state).wf(),
        meets(r, call_common_spec(old(vm_state)@), old(vm_state)@, final(vm_state)@),
{
    if !vm_state.fits(5) {
        return Err(Fault::DecodeFault);
    }
    let ghost before = *vm_state;
    let start = vm_state.pc;
    let num = vm_state.get_u32();
    let len = vm_state.depth();
    if num as usize > len {
        vm_state.pc = start;
        return Err(Fault::StackUnderflow);
    }
    let args = vm_state.stack().split_off(len - num as usize);
    vm_state.stack.push(args);
    vm_state.frames.push((Frame::new(), vm_state.pc + 1));
    proof {
        let want = call_common_spec(before@)->Ok_0;
        assert(vm_state@.stack =~= want.stack);
        assert(vm_state@.frames =~= want.frames);
        lemma_same_state(vm_state@, want);
    }
    Ok(())
}

fn call(vm_state: &mut Vm, table: &Builtins) -> (r: Result<u32, Fault>)
    requires
        old(vm_state).wf(),
        table.wf(),
    ensures
        final(vm_state).wf(),
        meets_transfer(r, call_spec(old(vm_state)@, table@), old(vm_state)@, final(vm_state)@),
{
    if !vm_state.fits(2) {
        return Err(Fault::DecodeFault);
    }
    let start = vm_state.pc;
    vm_state.incr();
    let is_name = vm_state.curr_byte();
    let target = if is_name == 0 {
        call_address(vm_state)
    } else {
        call_name(vm_state, table)
    };
    match target {
        Ok(addr) => Ok(addr),
        Err(f) => {
            vm_state.pc = start;
            Err(f)
        },
    }
}

/// Enters a call and names its target.
fn enter(vm_state: &mut Vm, target: u32) -> (r: Result<u32, Fault>)
    requires
        old(vm_state).wf(),
    ensures
        final(vm_state).wf(),
        meets_transfer(
            r,
            enter_spec(old(vm_state)@, target as int),
            old(vm_state)@,
            final(vm_state)@,
        ),
{
    match call_common(vm_state) {
        Ok(()) => Ok(target),
        Err(f) => Err(f),
    }
}

fn call_address(vm_state: &mut Vm) -> (r: Result<u32, Fault>)
    requires
        old(vm_state).wf(),
    ensures
        final(vm_state).wf(),
        meets_transfer(r, call_address_spec(old(vm_state)@), old(vm_state)@, final(vm_state)@),
{
    if !vm_state.fits(5) {
        return Err(Fault::DecodeFault);
    }
    let start = vm_state.pc;
    let addr = vm_state.get_u32();
    match enter(vm_state, addr) {
        Ok(addr) => Ok(addr),
        Err(f) => {
            vm_state.pc = start;
            Err(f)
        },
    }
}

fn call_name(vm_state: &mut Vm, table: &Builtins) -> (r: Result<u32, Fault>)
    requires
        old(vm_state).wf(),
        table.wf(),
    ensures
        final(vm_state).wf(),
        meets_transfer(
            r,
            call_name_spec(old(vm_state)@, table@),
            old(vm_state)@,
            final(vm_state)@,
        ),
{
    let start = vm_state.pc;
    let name = match get_name(vm_state) {
        Ok(name) => name,
        Err(f) => {
            return Err(f);
        },
    };
    if !vm_state.fits(5) {
        vm_state.pc = start;
        return Err(Fault::DecodeFault);
    }
    let bound: Option<Option<u32>> = match vm_state.lookup(&name) {
        Some(x) => if x.len() < 4 {
            Some(None)
        } else {
            Some(Some(be_tail_u32(x)))
        },
        None => None,
    };
    let target = match bound {
        Some(None) => Err(Fault::UnresolvedReference),
        Some(Some(addr)) => enter(vm_state, addr),
        None => match table.get(&name) {
            None => Err(Fault::UnresolvedReference),
            Some(b) => call_builtin(vm_state, b),
        },
    };
    match target {
        Ok(addr) => Ok(addr),
        Err(f) => {
            vm_state.pc = start;
            Err(f)
        },
    }
}

/// Enters a call, runs a builtin and returns from the call.
fn call_builtin(vm_state: &mut Vm, b: Builtin) -> (r: Result<u32, Fault>)
    requires
        old(vm_state).wf(),
    ensures
        final(vm_state).wf(),
        meets_transfer(
            r,
            call_builtin_spec(old(vm_state)@, b),
            old(vm_state)@,
            final(vm_state)@,
        ),
{
    let ghost before = *vm_state;
    let start = vm_state.pc;
    match call_common(vm_state) {
        Err(f) => Err(f),
        Ok(()) => {
            let ghost entered = *vm_state;
            match invoke(vm_state, b) {
                Ok(()) => {
                    proof {
                        lemma_builtin_keeps(b, entered@);
                    }
                    let _ = ret(vm_state);
                    Ok(vm_state.pc + 1)
                },
                Err(f) => {
                    let _ = ret(vm_state);
                    vm_state.pc = start;
                    proof {
                        let seg = before@.seg();
                        let count = crate::codec::u32_at(before@.code, before@.pc + 1);
                        let k = seg.len() - count;
                        assert(seg.take(k) + seg.skip(k) =~= seg);
                        assert(vm_state@.stack =~= before@.stack);
                        assert(vm_state@.frames =~= before@.frames);
                        lemma_same_state(vm_state@, before@);
                    }
                    Err(f)
                },
            }
        },
    }
}

fn ret(vm_state: &mut Vm) -> (r: Result<u32, Fault>)
    requires
        old(vm_state).wf(),
    ensures
        final(vm_state).wf(),
        meets_transfer(r, ret_spec(old(vm_state)@), old(vm_state)@, final(vm_state)@),
{
    if vm_state.frames.len() == 0 {
        return Err(Fault::StackUnderflow);
    }
    let ghost before = *vm_state;
    let (_, r_addr) = vm_state.frames.pop().unwrap();
    let mut returned = vm_state.stack.pop().unwrap();
    vm_state.stack().append(&mut returned);
    proof {
        let want = ret_spec(before@)->Ok_0.0;
        assert(vm_state@.stack =~= want.stack);
        assert(vm_state@.frames =~= want.frames);
        lemma_same_state(vm_state@, want);
    }
    Ok(r_addr)
}

fn len(vm_state: &mut Vm) -> (r: Result<(), Fault>)
    requires
        old(vm_state).wf(),
    ensures
        final(vm_state).wf(),
        meets(r, len_spec(old(vm_state)@), old(vm_state)@, final(vm_state)@),
{
    let len: usize = vm_state.stack.len();
    if len > u32::MAX as usize {
        return Err(Fault::CountOverflow);
    }
    let ghost before = *vm_state;
    let mut bytes = be_bytes_u32(len as u32);
    vm_state.stack().append(&mut bytes);
    proof {
        Vm::lemma_stack(before, *vm_state);
    }
    Ok(())
}

fn def(vm_state: &mut Vm) -> (r: Result<(), Fault>)
    requires
        old(vm_state).wf(),
    ensures
        final(vm_state).wf(),
        meets(r, def_spec(old(vm_state)@), old(vm_state)@, final(vm_state)@),
{
    let ghost before = *vm_state;
    let start = vm_state.pc;
    let name = match get_name(vm_state) {
        Ok(name) => name,
        Err(f) => {
            return Err(f);
        },
    };
    if vm_state.depth() == 0 {
        vm_state.pc = start;
        return Err(Fault::StackUnderflow);
    }
    if !vm_state.locals().contains_key(&name) {
        vm_state.pc = start;
        return Err(Fault::DefinitionConflict);
    }
    let mut val: Vec<u8> = Vec::new();
    val.push(vm_state.top());
    let ghost mid = *vm_state;
    let ghost key = name@;
    let ghost value = val@;
    vm_state.top_frame().insert(name, val);
    proof {
        let f = if mid.frames@.len() == 0 {
            vm_state.globals
        } else {
            vm_state.frames@.last().0
        };
        Vm::lemma_top_frame(mid, *vm_state, f);
        assert(value =~= seq![before@.seg().last()]);
        lemma_same_state(vm_state@, def_spec(before@)->Ok_0);
    }
    Ok(())
}

fn label(vm_state: &mut Vm) -> (r: Result<(), Fault>)
    requires
        old(vm_state).wf(),
    ensures
        final(vm_state).wf(),
        meets(r, label_spec(old(vm_state)@), old(vm_state)@, final(vm_state)@),
{
    let ghost before = *vm_state;
    let name = match get_name(vm_state) {
        Ok(name) => name,
        Err(f) => {
            return Err(f);
        },
    };
    let val = vm_state.pc;
    vm_state.globals.insert(name, be_bytes_u32(val));
    proof {
        lemma_same_state(vm_state@, label_spec(before@)->Ok_0);
    }
    Ok(())
}

fn set(vm_state: &mut Vm) -> (r: Result<(), Fault>)
    requires
        old(vm_state).wf(),
    ensures
        final(vm_state).wf(),
        meets(r, set_spec(old(vm_state)@), old(vm_state)@, final(vm_state)@),
{
    let ghost before = *vm_state;
    let start = vm_state.pc;
    let name = match get_name(vm_state) {
        Ok(name) => name,
        Err(f) => {
            return Err(f);
        },
    };
    if vm_state.depth() == 0 {
        vm_state.pc = start;
        return Err(Fault::StackUnderflow);
    }
    let local = vm_state.locals().contains_key(&name);
    if !local && !vm_state.globals.contains_key(&name) {
        vm_state.pc = start;
        return Err(Fault::UnresolvedReference);
    }
    let mut val: Vec<u8> = Vec::new();
    val.push(vm_state.top());
    let ghost mid = *vm_state;
    let ghost value = val@;
    proof {
        assert(value =~= seq![before@.seg().last()]);
    }
    if local {
        vm_state.top_frame().insert(name, val);
        proof {
            let f = if mid.frames@.len() == 0 {
                vm_state.globals
            } else {
                vm_state.frames@.last().0
            };
            Vm::lemma_top_frame(mid, *vm_state, f);
        }
    } else {
        vm_state.globals.insert(name, val);
    }
    proof {
        lemma_same_state(vm_state@, set_spec(before@)->Ok_0);
    }
    Ok(())
}

fn get(vm_state: &mut Vm) -> (r: Result<(), Fault>)
    requires
        old(vm_state).wf(),
    ensures
        final(vm_state).wf(),
        meets(r, get_spec(old(vm_state)@), old(vm_state)@, final(vm_state)@),
{
    let ghost before = *vm_state;
    let start = vm_state.pc;
    let name = match get_name(vm_state) {
        Ok(name) => name,
        Err(f) => {
            return Err(f);
        },
    };
    let mut val: Vec<u8> = match vm_state.lookup(&name) {
        Some(x) => copy(x),
        None => {
            vm_state.pc = start;
            return Err(Fault::UnresolvedReference);
        },
    };
    let ghost mid = *vm_state;
    vm_state.stack().append(&mut val);
    proof {
        Vm::lemma_stack(mid, *vm_state);
        lemma_same_state(vm_state@, get_spec(before@)->Ok_0);
    }
    Ok(())
}

/// A copy of a byte string.
fn copy(x: &Vec<u8>) -> (r: Vec<u8>)
    ensures
        r@ == x@,
{
    let mut r: Vec<u8> = Vec::new();
    let mut i: usize = 0;
    while i < x.len()
        invariant
            i <= x@.len(),
            r@ == x@.take(i as int),
        decreases x@.len() - i,
    {
        r.push(x[i]);
        i += 1;
        assert(r@ =~= x@.take(i as int));
    }
    assert(x@.take(x@.len() as int) =~= x@);
    r
}

fn load(vm_state: &mut Vm) -> (r: Result<(), Fault>)
    requires
        old(vm_state).wf(),
    ensures
        final(vm_state).wf(),
        meets(r, load_spec(old(vm_state)@), old(vm_state)@, final(vm_state)@),
{
    if !vm_state.fits(2) {
        return Err(Fault::DecodeFault);
    }
    vm_state.incr();
    let addr = vm_state.curr_byte();
    let val = vm_state.mem[addr as usize];
    vm_state.push_byte(val);
    Ok(())
}

fn store(vm_state: &mut Vm) -> (r: Result<(), Fault>)
    requires
        old(vm_state).wf(),
    ensures
        final(vm_state).wf(),
        meets(r, store_spec(old(vm_state)@), old(vm_state)@, final(vm_state)@),
{
    if !vm_state.fits(2) {
        return Err(Fault::DecodeFault);
    }
    if vm_state.depth() == 0 {
        return Err(Fault::StackUnderflow);
    }
    let ghost before = *vm_state;
    vm_state.incr();
    let addr = vm_state.curr_byte();
    let prev = vm_state.mem[addr as usize];
    let x = vm_state.top();
    vm_state.mem[addr as usize] = x;
    vm_state.push_byte(prev);
    proof {
        lemma_same_state(vm_state@, store_spec(before@)->Ok_0);
    }
    Ok(())
}

/// What a byte-wise operator yields on the left operand `b` and the right
/// operand `a`.
pub fn byte_result(code: ByteCode, b: u8, a: u8) -> (r: Result<u8, Fault>)
    ensures
        r == byte_op(code, b, a),
{
    match code {
        ByteCode::Add => Ok(((b as u16 + a as u16) % 256) as u8),
        ByteCode::Sub => Ok(((256 + b as u16 - a as u16) % 256) as u8),
        ByteCode::Mul => {
            assert(b * a <= 255 * 255) by (nonlinear_arith)
                requires
                    b <= 255,
                    a <= 255,
            ;
            Ok(((b as u16 * a as u16) % 256) as u8)
        },
        ByteCode::Div => if a == 0 {
            Err(Fault::ArithmeticFault)
        } else {
            Ok(b / a)
        },
        ByteCode::Mod => if a == 0 {
            Err(Fault::ArithmeticFault)
        } else {
            Ok(b % a)
        },
        ByteCode::ShR => Ok(b >> (a % 8)),
        ByteCode::ShL => Ok(b << (a % 8)),
        ByteCode::RotR => Ok((b >> (a % 8)) | (b << ((8 - a % 8) % 8))),
        ByteCode::RotL => Ok((b << (a % 8)) | (b >> ((8 - a % 8) % 8))),
        ByteCode::And => Ok(b & a),
        ByteCode::Or => Ok(b | a),
        ByteCode::Eq => Ok(flag(b == a)),
        ByteCode::Gt => Ok(flag(b > a)),
        ByteCode::Lt => Ok(flag(b < a)),
        ByteCode::Ge => Ok(flag(b >= a)),
        ByteCode::Le => Ok(flag(b <= a)),
        _ => Err(Fault::DecodeFault),
    }
}

fn flag(b: bool) -> (r: u8)
    ensures
        r == crate::wide::truth(b),
{
    if b {
        1
    } else {
        0
    }
}

/// A byte-wise operator: takes the right operand and then the left one off
/// the active segment and pushes the result.
fn operate(vm_state: &mut Vm, code: ByteCode) -> (r: Result<(), Fault>)
    requires
        old(vm_state).wf(),
    ensures
        final(vm_state).wf(),
        meets(r, operate_spec(old(vm_state)@, code), old(vm_state)@, final(vm_state)@),
{
    if vm_state.depth() < 2 {
        return Err(Fault::StackUnderflow);
    }
    let ghost before = *vm_state;
    let res = match byte_result(code, vm_state.peek(1), vm_state.peek(0)) {
        Ok(res) => res,
        Err(f) => {
            return Err(f);
        },
    };
    let a = vm_state.top();
    let b = vm_state.top();
    vm_state.push_byte(res);
    proof {
        let seg = before@.seg();
        assert(vm_state@.seg() =~= seg.take(seg.len() - 2).push(res));
        lemma_same_state(vm_state@, operate_spec(before@, code)->Ok_0);
    }
    Ok(())
}

fn rot_r(vm_state: &mut Vm) -> (r: Result<(), Fault>)
    requires
        old(vm_state).wf(),
    ensures
        final(vm_state).wf(),
        meets(r, operate_spec(old(vm_state)@, ByteCode::RotR), old(vm_state)@, final(vm_state)@),
{
    operate(vm_state, ByteCode::RotR)
}

fn rot_l(vm_state: &mut Vm) -> (r: Result<(), Fault>)
    requires
        old(vm_state).wf(),
    ensures
        final(vm_state).wf(),
        meets(r, operate_spec(old(vm_state)@, ByteCode::RotL), old(vm_state)@, final(vm_state)@),
{
    operate(vm_state, ByteCode::RotL)
}

fn not(vm_state: &mut Vm) -> (r: Result<(), Fault>)
    requires
        old(vm_state).wf(),
    ensures
        final(vm_state).wf(),
        meets(r, not_spec(old(vm_state)@), old(vm_state)@, final(vm_state)@),
{
    if vm_state.depth() == 0 {
        return Err(Fault::StackUnderflow);
    }
    let ghost before = *vm_state;
    let a = vm_state.top();
    vm_state.push_byte(!a);
    proof {
        lemma_same_state(vm_state@, not_spec(before@)->Ok_0);
    }
    Ok(())
}

fn swap(vm_state: &mut Vm) -> (r: Result<(), Fault>)
    requires
        old(vm_state).wf(),
    ensures
        final(vm_state).wf(),
        meets(r, swap_spec(old(vm_state)@), old(vm_state)@, final(vm_state)@),
{
    if vm_state.depth() < 2 {
        return Err(Fault::StackUnderflow);
    }
    let ghost before = *vm_state;
    let a = vm_state.top();
    let b = vm_state.top();
    vm_state.push_byte(a);
    vm_state.push_byte(b);
    proof {
        let seg = before@.seg();
        assert(vm_state@.seg() =~= seg.take(seg.len() - 2).push(a).push(b));
        lemma_same_state(vm_state@, swap_spec(before@)->Ok_0);
    }
    Ok(())
}

fn dup(vm_state: &mut Vm) -> (r: Result<(), Fault>)
    requires
        old(vm_state).wf(),
    ensures
        final(vm_state).wf(),
        meets(r, dup_spec(old(vm_state)@), old(vm_state)@, final(vm_state)@),
{
    if vm_state.depth() == 0 {
        return Err(Fault::StackUnderflow);
    }
    let ghost before = *vm_state;
    let a = vm_state.top();
    vm_state.push_byte(a);
    vm_state.push_byte(a);
    proof {
        assert(vm_state@.seg() =~= before@.seg().push(a));
        lemma_same_state(vm_state@, dup_spec(before@)->Ok_0);
    }
    Ok(())
}

fn rev(vm_state: &mut Vm) -> (r: Result<(), Fault>)
    requires
        old(vm_state).wf(),
    ensures
        final(vm_state).wf(),
        meets(r, rev_spec(old(vm_state)@), old(vm_state)@, final(vm_state)@),
{
    let ghost before = *vm_state;
    let seg = vm_state.stack();
    let mut out: Vec<u8> = Vec::new();
    let mut i: usize = seg.len();
    while i > 0
        invariant
            i <= seg@.len(),
            out@.len() == seg@.len() - i,
            forall|j: int| 0 <= j < out@.len() ==> out@[j] == seg@[seg@.len() - 1 - j],
        decreases i,
    {
        i -= 1;
        out.push(seg[i]);
    }
    assert(out@ =~= seg@.reverse());
    *seg = out;
    proof {
        Vm::lemma_stack(before, *vm_state);
    }
    Ok(())
}

} // verus!
