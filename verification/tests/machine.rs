use vm_rs::{init, ByteCode, Fault, Vm};

fn le(v: u32) -> Vec<u8> {
    v.to_le_bytes().to_vec()
}

fn named(opcode: u8, name: &[u8]) -> Vec<u8> {
    let mut out = vec![opcode];
    out.extend(le(name.len() as u32));
    out.extend_from_slice(name);
    out
}

fn call_name(name: &[u8], args: u32) -> Vec<u8> {
    let mut out = vec![0x03, 1];
    out.extend(le(name.len() as u32));
    out.extend_from_slice(name);
    out.extend(le(args));
    out
}

fn call_addr(addr: u32, args: u32) -> Vec<u8> {
    let mut out = vec![0x03, 0];
    out.extend(le(addr));
    out.extend(le(args));
    out
}

fn push(bytes: &[u8]) -> Vec<u8> {
    let mut out = vec![0x05, bytes.len() as u8];
    out.extend_from_slice(bytes);
    out
}

fn program(parts: &[Vec<u8>]) -> Vec<u8> {
    parts.concat()
}

fn run(code: Vec<u8>) -> (Vm, Result<bool, Fault>) {
    let table = init();
    let mut vm = Vm::new(code);
    let r = vm.run(&table, 10_000);
    (vm, r)
}

fn text(vm: &Vm) -> String {
    vm.output.iter().collect()
}

fn seg(vm: &Vm) -> Vec<u8> {
    vm.stack.last().unwrap().clone()
}

#[test]
fn push_putc_exit_prints_a_and_halts() {
    let (vm, r) = run(vec![0x05, 0x01, 0x41, 0x06, 0x00]);
    assert_eq!(r, Ok(true));
    assert_eq!(text(&vm), "A");
    assert!(vm.finished);
    assert_eq!(vm.pc, 5);
    assert_eq!(vm.stack.len(), 1);
    assert!(seg(&vm).is_empty());
}

#[test]
fn unknown_name_is_an_unresolved_reference() {
    let code = program(&[call_name(b"no_such_builtin", 0), vec![0x00]]);
    let (vm, r) = run(code);
    assert_eq!(r, Err(Fault::UnresolvedReference));
    assert_eq!(vm.pc, 0);
    assert!(!vm.finished);
    assert_eq!(vm.stack.len(), 1);
    assert_eq!(vm.frames.len(), 0);
    assert_eq!(text(&vm), "");
}

#[test]
fn pushed_bytes_print_last_first() {
    let code = program(&[push(&[0x41, 0x42, 200]), vec![0x07, 0x06, 0x06]]);
    let (vm, r) = run(code);
    assert_eq!(r, Ok(true));
    assert_eq!(text(&vm), "200BA");
    assert!(!vm.finished);
    assert_eq!(vm.pc, 8);
}

#[test]
fn puts_prints_decimal_numbers() {
    let code = program(&[push(&[0, 7, 10, 99, 100, 255]), vec![0x07; 6]]);
    let (vm, r) = run(code);
    assert_eq!(r, Ok(true));
    assert_eq!(text(&vm), "255100991070");
}

#[test]
fn putc_prints_high_bytes_as_their_code_points() {
    let code = program(&[push(&[0xE9]), vec![0x06]]);
    let (vm, _) = run(code);
    assert_eq!(vm.output, vec!['\u{E9}']);
}

#[test]
fn printing_more_than_was_pushed_underflows() {
    let code = program(&[push(&[1]), vec![0x06, 0x06]]);
    let (vm, r) = run(code);
    assert_eq!(r, Err(Fault::StackUnderflow));
    assert_eq!(vm.pc, 4);
    assert_eq!(vm.output, vec!['\u{1}']);
}

#[test]
fn call_and_return_merge_the_callee_segment() {
    // 0: push 1 2 3; 5: call 18 with 2 arguments; 15: puts puts; 17: exit;
    // 18: add; 19: push 9; 22: ret
    let code = program(&[
        push(&[1, 2, 3]),
        call_addr(18, 2),
        vec![0x07, 0x07, 0x00],
        vec![0x11],
        push(&[9]),
        vec![0x04],
    ]);
    let table = init();
    let mut vm = Vm::new(code);
    assert_eq!(vm.eval(&table), Ok(()));
    assert_eq!(vm.eval(&table), Ok(()));
    assert_eq!(vm.pc, 18);
    assert_eq!(vm.stack, vec![vec![1u8], vec![2u8, 3u8]]);
    assert_eq!(vm.frames.len(), 1);
    assert_eq!(vm.frames[0].1, 15);
    assert_eq!(vm.eval(&table), Ok(()));
    assert_eq!(vm.eval(&table), Ok(()));
    assert_eq!(vm.stack, vec![vec![1u8], vec![5u8, 9u8]]);
    assert_eq!(vm.eval(&table), Ok(()));
    assert_eq!(vm.pc, 15);
    assert_eq!(vm.frames.len(), 0);
    assert_eq!(vm.stack, vec![vec![1u8, 5u8, 9u8]]);
    assert_eq!(vm.run(&table, 100), Ok(true));
    assert_eq!(text(&vm), "95");
    assert!(vm.finished);
}

#[test]
fn callee_may_return_nothing_or_many_bytes() {
    // the callee drops its argument and returns nothing
    let code = program(&[push(&[7, 8]), call_addr(15, 1), vec![0x00], vec![0x0F, 0x04]]);
    let (vm, r) = run(code);
    assert_eq!(r, Ok(true));
    assert_eq!(seg(&vm), vec![7u8]);
    // the callee returns three bytes for one argument
    let code = program(&[push(&[7, 8]), call_addr(15, 1), vec![0x00], vec![0x23, 0x23, 0x04]]);
    let (vm, r) = run(code);
    assert_eq!(r, Ok(true));
    assert_eq!(seg(&vm), vec![7u8, 8, 8, 8]);
}

#[test]
fn call_with_too_many_arguments_underflows_and_changes_nothing() {
    let code = program(&[push(&[1]), call_addr(0, 2)]);
    let table = init();
    let mut vm = Vm::new(code);
    assert_eq!(vm.eval(&table), Ok(()));
    assert_eq!(vm.eval(&table), Err(Fault::StackUnderflow));
    assert_eq!(vm.pc, 3);
    assert_eq!(vm.stack, vec![vec![1u8]]);
    assert_eq!(vm.frames.len(), 0);
}

#[test]
fn ret_without_a_call_underflows() {
    let (vm, r) = run(vec![0x04]);
    assert_eq!(r, Err(Fault::StackUnderflow));
    assert_eq!(vm.pc, 0);
}

#[test]
fn label_binds_the_counter_big_endian() {
    // label "L" occupies bytes 0..6; the counter stands on byte 5 when it is bound
    let code = program(&[named(0x10, b"L"), named(0x0A, b"L"), vec![0x00]]);
    let (vm, r) = run(code);
    assert_eq!(r, Ok(true));
    assert_eq!(seg(&vm), vec![0u8, 0, 0, 5]);
    assert_eq!(vm.globals.get(&b"L".to_vec()), Some(&vec![0u8, 0, 0, 5]));
}

#[test]
fn label_far_into_the_program_keeps_all_four_bytes() {
    let mut code = vec![0x01];
    code.extend(le(0x0001_0203));
    code.resize(0x0001_0203, 0x00);
    code.extend(named(0x10, b"far"));
    code.extend(named(0x0A, b"far"));
    let (vm, r) = run(code);
    assert_eq!(r, Ok(true));
    assert_eq!(seg(&vm), vec![0x00u8, 0x01, 0x02, 0x0A]);
}

#[test]
fn call_by_label_goes_to_the_bound_counter() {
    // the label's name ends in the opcode of Pop, which is what the call lands on
    let code = program(&[
        push(&[4, 5]),
        named(0x10, &[0x0F]),
        call_name(&[0x0F], 2),
        vec![0x00],
    ]);
    let table = init();
    let mut vm = Vm::new(code);
    assert_eq!(vm.eval(&table), Ok(()));
    assert_eq!(vm.eval(&table), Ok(()));
    assert_eq!(vm.globals.get(&vec![0x0Fu8]), Some(&vec![0u8, 0, 0, 9]));
    assert_eq!(vm.pc, 10);
    assert_eq!(vm.eval(&table), Ok(()));
    assert_eq!(vm.pc, 9);
    assert_eq!(vm.frames.len(), 1);
    assert_eq!(vm.frames[0].1, 21);
    assert_eq!(vm.stack, vec![vec![], vec![4u8, 5u8]]);
    assert_eq!(vm.eval(&table), Ok(()));
    assert_eq!(vm.stack, vec![vec![], vec![4u8]]);
    assert_eq!(vm.pc, 10);
}

#[test]
fn call_by_name_uses_the_last_four_bytes_of_a_binding() {
    let table = init();
    let mut vm = Vm::new(program(&[call_name(b"f", 0), vec![0x00]]));
    vm.globals.insert(b"f".to_vec(), vec![9, 9, 0x00, 0x00, 0x01, 0x02]);
    assert_eq!(vm.eval(&table), Ok(()));
    assert_eq!(vm.pc, 0x0102);
    assert_eq!(vm.frames.len(), 1);
    assert_eq!(vm.frames[0].1, 11);
    assert_eq!(vm.run(&table, 5), Ok(true));
}

#[test]
fn call_by_name_of_a_short_binding_is_unresolved() {
    let table = init();
    let mut vm = Vm::new(program(&[call_name(b"f", 0), vec![0x00]]));
    vm.globals.insert(b"f".to_vec(), vec![1, 2, 3]);
    assert_eq!(vm.eval(&table), Err(Fault::UnresolvedReference));
    assert_eq!(vm.pc, 0);
    assert_eq!(vm.frames.len(), 0);
}

#[test]
fn a_binding_shadows_a_builtin() {
    let table = init();
    let mut vm = Vm::new(program(&[call_name(b"print", 0), vec![0x00]]));
    vm.globals.insert(b"print".to_vec(), vec![0, 0, 0, 13]);
    assert_eq!(vm.eval(&table), Ok(()));
    assert_eq!(vm.pc, 13);
    assert_eq!(vm.frames.len(), 1);
}

#[test]
fn def_overwrites_a_binding_and_get_reads_it_back() {
    let code = program(&[
        named(0x10, b"x"),
        push(&[42]),
        named(0x08, b"x"),
        named(0x0A, b"x"),
        vec![0x00],
    ]);
    let (vm, r) = run(code);
    assert_eq!(r, Ok(true));
    assert_eq!(seg(&vm), vec![42u8]);
    assert_eq!(vm.globals.get(&b"x".to_vec()), Some(&vec![42u8]));
}

#[test]
fn def_of_a_new_name_is_a_definition_conflict() {
    let code = program(&[push(&[42]), named(0x08, b"x"), vec![0x00]]);
    let (vm, r) = run(code);
    assert_eq!(r, Err(Fault::DefinitionConflict));
    assert_eq!(vm.pc, 3);
    assert_eq!(seg(&vm), vec![42u8]);
    assert_eq!(vm.globals.len(), 0);
}

#[test]
fn def_inside_a_call_looks_at_the_local_scope_only() {
    // 0: label x; 6: push 1; 9: call 21 with 1 argument; 19: exit; 20: exit; 21: def x
    let code = program(&[
        named(0x10, b"x"),
        push(&[1]),
        call_addr(21, 1),
        vec![0x00, 0x00],
        named(0x08, b"x"),
    ]);
    let (vm, r) = run(code);
    assert_eq!(r, Err(Fault::DefinitionConflict));
    assert_eq!(vm.pc, 21);
    assert_eq!(vm.frames.len(), 1);
    assert_eq!(vm.stack, vec![vec![], vec![1u8]]);
}

#[test]
fn set_falls_back_to_the_global_binding() {
    // 0: label x; 6: push 7; 9: call 20 with 1 argument; 19: exit; 20: set x; 26: get x; 32: ret
    let code = program(&[
        named(0x10, b"x"),
        push(&[7]),
        call_addr(20, 1),
        vec![0x00],
        named(0x09, b"x"),
        named(0x0A, b"x"),
        vec![0x04],
    ]);
    let (vm, r) = run(code);
    assert_eq!(r, Ok(true));
    assert_eq!(vm.globals.get(&b"x".to_vec()), Some(&vec![7u8]));
    assert_eq!(seg(&vm), vec![7u8]);
}

#[test]
fn set_prefers_the_local_binding() {
    let table = init();
    let mut vm = Vm::new(program(&[push(&[5]), call_addr(14, 1), vec![0x00], named(0x09, b"x")]));
    vm.globals.insert(b"x".to_vec(), vec![1]);
    assert_eq!(vm.eval(&table), Ok(()));
    assert_eq!(vm.eval(&table), Ok(()));
    vm.top_frame().insert(b"x".to_vec(), vec![2]);
    assert_eq!(vm.eval(&table), Ok(()));
    assert_eq!(vm.frames[0].0.get(&b"x".to_vec()), Some(&vec![5u8]));
    assert_eq!(vm.globals.get(&b"x".to_vec()), Some(&vec![1u8]));
}

#[test]
fn set_and_get_of_an_unbound_name_are_unresolved() {
    let (vm, r) = run(program(&[push(&[1]), named(0x09, b"y")]));
    assert_eq!(r, Err(Fault::UnresolvedReference));
    assert_eq!(seg(&vm), vec![1u8]);
    assert_eq!(vm.pc, 3);
    let (vm, r) = run(named(0x0A, b"y"));
    assert_eq!(r, Err(Fault::UnresolvedReference));
    assert_eq!(vm.pc, 0);
}

#[test]
fn jif_jumps_on_a_positive_byte_only() {
    // 0: push c; 3: jif 12; 8: push 'n'; 11: exit; 12: push 'y'; 15: exit
    let build = |c: u8| {
        program(&[
            push(&[c]),
            vec![0x02],
            le(12),
            push(&[b'n']),
            vec![0x00],
            push(&[b'y']),
            vec![0x00],
        ])
    };
    let (vm, r) = run(build(0));
    assert_eq!(r, Ok(true));
    assert_eq!(seg(&vm), vec![b'n']);
    for c in [1u8, 2, 127, 128, 255] {
        let (vm, r) = run(build(c));
        assert_eq!(r, Ok(true));
        assert_eq!(seg(&vm), vec![b'y']);
    }
}

#[test]
fn jif_steps_to_the_next_instruction_on_zero() {
    let table = init();
    let mut vm = Vm::new(program(&[push(&[0]), vec![0x02], le(77), vec![0x00]]));
    assert_eq!(vm.eval(&table), Ok(()));
    assert_eq!(vm.eval(&table), Ok(()));
    assert_eq!(vm.pc, 8);
    let mut vm = Vm::new(program(&[push(&[1]), vec![0x02], le(77), vec![0x00]]));
    assert_eq!(vm.eval(&table), Ok(()));
    assert_eq!(vm.eval(&table), Ok(()));
    assert_eq!(vm.pc, 77);
    assert_eq!(vm.run(&table, 1), Ok(true));
}

#[test]
fn jmp_reads_its_target_little_endian() {
    let table = init();
    let mut vm = Vm::new(vec![0x01, 0x04, 0x03, 0x02, 0x01]);
    assert_eq!(vm.eval(&table), Ok(()));
    assert_eq!(vm.pc, 0x0102_0304);
}

#[test]
fn a_loop_runs_out_of_fuel() {
    let table = init();
    let mut vm = Vm::new(vec![0x01, 0, 0, 0, 0]);
    assert_eq!(vm.run(&table, 1000), Ok(false));
    assert_eq!(vm.pc, 0);
    assert_eq!(vm.run(&table, 0), Ok(false));
}

#[test]
fn an_empty_program_is_over_at_once() {
    let (vm, r) = run(Vec::new());
    assert_eq!(r, Ok(true));
    assert!(!vm.finished);
    assert_eq!(vm.pc, 0);
}

#[test]
fn a_byte_outside_the_instruction_set_is_a_decode_fault() {
    for b in [0x24u8, 0x25, 0x7F, 0xFF] {
        let (vm, r) = run(vec![b]);
        assert_eq!(r, Err(Fault::DecodeFault));
        assert_eq!(vm.pc, 0);
    }
    let table = init();
    let mut vm = Vm::new(vec![0x00]);
    vm.pc = 1;
    assert_eq!(vm.eval(&table), Err(Fault::DecodeFault));
}

#[test]
fn a_truncated_instruction_is_a_decode_fault() {
    let cases: Vec<Vec<u8>> = vec![
        vec![0x05],
        vec![0x05, 2, 1],
        vec![0x01, 1, 2, 3],
        vec![0x08, 1, 0, 0, 0],
        vec![0x0A, 2, 0, 0, 0, b'a'],
        vec![0x0B],
        vec![0x0C],
        vec![0x03],
        vec![0x03, 0, 1, 2, 3, 4, 0, 0, 0],
        vec![0x03, 1, 1, 0, 0, 0, b'f', 0, 0],
    ];
    for code in cases {
        let (vm, r) = run(code);
        assert_eq!(r, Err(Fault::DecodeFault));
        assert_eq!(vm.pc, 0);
        assert_eq!(vm.stack, vec![Vec::<u8>::new()]);
    }
}

#[test]
fn byte_arithmetic_wraps_around() {
    let cases: Vec<(u8, u8, u8, u8)> = vec![
        (0x11, 200, 100, 44),
        (0x11, 255, 255, 254),
        (0x11, 0, 255, 255),
        (0x12, 3, 5, 254),
        (0x12, 0, 255, 1),
        (0x12, 255, 0, 255),
        (0x13, 16, 16, 0),
        (0x13, 255, 255, 1),
        (0x13, 0, 255, 0),
        (0x14, 7, 2, 3),
        (0x14, 255, 255, 1),
        (0x14, 0, 255, 0),
        (0x15, 7, 2, 1),
        (0x15, 255, 254, 1),
        (0x16, 0x80, 7, 1),
        (0x16, 0x80, 8, 0x80),
        (0x16, 0xFF, 9, 0x7F),
        (0x17, 1, 7, 0x80),
        (0x17, 0xFF, 4, 0xF0),
        (0x17, 3, 15, 0x80),
        (0x18, 0b1000_0001, 1, 0b1100_0000),
        (0x18, 0b0000_0110, 8, 0b0000_0110),
        (0x18, 0b0000_0110, 10, 0b1000_0001),
        (0x19, 0b1000_0001, 1, 0b0000_0011),
        (0x19, 0b0110_0000, 0, 0b0110_0000),
        (0x19, 0b0110_0000, 18, 0b1000_0001),
        (0x1A, 0b1100, 0b1010, 0b1000),
        (0x1B, 0b1100, 0b1010, 0b1110),
        (0x1D, 3, 3, 1),
        (0x1D, 3, 4, 0),
        (0x1E, 4, 3, 1),
        (0x1E, 3, 3, 0),
        (0x1F, 3, 4, 1),
        (0x1F, 4, 3, 0),
        (0x20, 3, 3, 1),
        (0x20, 2, 3, 0),
        (0x21, 3, 3, 1),
        (0x21, 4, 3, 0),
    ];
    for (op, b, a, want) in cases {
        let (vm, r) = run(program(&[push(&[9, b, a]), vec![op]]));
        assert_eq!(r, Ok(true), "opcode {:#x}", op);
        assert_eq!(seg(&vm), vec![9u8, want], "opcode {:#x} on {} and {}", op, b, a);
    }
}

#[test]
fn rotations_agree_with_the_native_ones() {
    for b in [0u8, 1, 0x80, 0xA5, 0xFF] {
        for a in 0..=255u8 {
            let (vm, _) = run(program(&[push(&[b, a]), vec![0x18]]));
            assert_eq!(seg(&vm), vec![b.rotate_right(a as u32)]);
            let (vm, _) = run(program(&[push(&[b, a]), vec![0x19]]));
            assert_eq!(seg(&vm), vec![b.rotate_left(a as u32)]);
            let (vm, _) = run(program(&[push(&[b, a]), vec![0x16]]));
            assert_eq!(seg(&vm), vec![b.wrapping_shr(a as u32)]);
            let (vm, _) = run(program(&[push(&[b, a]), vec![0x17]]));
            assert_eq!(seg(&vm), vec![b.wrapping_shl(a as u32)]);
        }
    }
}

#[test]
fn byte_division_by_zero_faults() {
    for op in [0x14u8, 0x15] {
        for b in [0u8, 1, 255] {
            let (vm, r) = run(program(&[push(&[b, 0]), vec![op, 0x00]]));
            assert_eq!(r, Err(Fault::ArithmeticFault));
            assert_eq!(seg(&vm), vec![b, 0]);
            assert_eq!(vm.pc, 4);
            assert!(!vm.finished);
        }
    }
}

#[test]
fn operators_need_two_bytes() {
    for op in 0x11u8..=0x21 {
        if op == 0x1C {
            continue;
        }
        let (vm, r) = run(program(&[push(&[1]), vec![op]]));
        assert_eq!(r, Err(Fault::StackUnderflow), "opcode {:#x}", op);
        assert_eq!(seg(&vm), vec![1u8]);
    }
    for op in [0x06u8, 0x07, 0x0C, 0x0D, 0x0F, 0x1C, 0x23] {
        let code = if op == 0x0C { vec![op, 0] } else { vec![op] };
        let (_, r) = run(code);
        assert_eq!(r, Err(Fault::StackUnderflow), "opcode {:#x}", op);
    }
}

#[test]
fn stack_instructions_move_bytes() {
    let (vm, _) = run(program(&[push(&[1, 2, 3]), vec![0x0D]]));
    assert_eq!(seg(&vm), vec![1u8, 3, 2]);
    let (vm, _) = run(program(&[push(&[1, 2, 3]), vec![0x0E]]));
    assert_eq!(seg(&vm), vec![3u8, 2, 1]);
    let (vm, _) = run(vec![0x0E]);
    assert!(seg(&vm).is_empty());
    let (vm, _) = run(program(&[push(&[1, 2, 3]), vec![0x0F]]));
    assert_eq!(seg(&vm), vec![1u8, 2]);
    let (vm, _) = run(program(&[push(&[1, 2, 3]), vec![0x23]]));
    assert_eq!(seg(&vm), vec![1u8, 2, 3, 3]);
    let (vm, _) = run(program(&[push(&[0b1010_0101]), vec![0x1C]]));
    assert_eq!(seg(&vm), vec![0b0101_1010u8]);
    let (vm, _) = run(push(&[]));
    assert!(seg(&vm).is_empty());
    assert_eq!(vm.pc, 2);
}

#[test]
fn len_pushes_the_number_of_segments() {
    let (vm, _) = run(vec![0x22]);
    assert_eq!(seg(&vm), vec![0u8, 0, 0, 1]);
    // 0: call 11; 10: exit; 11: call 22; 21: ret; 22: len; 23: ret
    let code = program(&[
        call_addr(11, 0),
        vec![0x00],
        call_addr(22, 0),
        vec![0x04],
        vec![0x22, 0x04],
    ]);
    let (vm, r) = run(code);
    assert_eq!(r, Ok(true));
    assert_eq!(seg(&vm), vec![0u8, 0, 0, 3]);
}

#[test]
fn load_and_store_use_the_scratch_memory() {
    // store swaps the top byte with the cell
    let code = program(&[push(&[7]), vec![0x0C, 200], vec![0x0B, 200], vec![0x0B, 0]]);
    let (vm, r) = run(code);
    assert_eq!(r, Ok(true));
    assert_eq!(seg(&vm), vec![0u8, 7, 0]);
    assert_eq!(vm.mem[200], 7);
    assert_eq!(vm.mem.iter().filter(|b| **b != 0).count(), 1);
    let code = program(&[push(&[7, 8]), vec![0x0C, 255], vec![0x0F], vec![0x0C, 255]]);
    let (vm, _) = run(code);
    assert_eq!(seg(&vm), vec![8u8]);
    assert_eq!(vm.mem[255], 7);
}

#[test]
fn the_scratch_memory_is_shared_by_all_scopes() {
    // 0: push 5; 3: call 14 with 1 argument; 13: exit; 14: store 3; 16: ret
    let code = program(&[push(&[5]), call_addr(14, 1), vec![0x00], vec![0x0C, 3, 0x04]]);
    let (vm, r) = run(code);
    assert_eq!(r, Ok(true));
    assert_eq!(vm.mem[3], 5);
    assert_eq!(seg(&vm), vec![0u8]);
}

#[test]
fn exec_returns_the_next_counter() {
    let table = init();
    let mut vm = Vm::new(program(&[push(&[1, 2]), vec![0x11]]));
    assert_eq!(vm_rs::exec(&mut vm, ByteCode::Push, &table), Ok(4));
    assert_eq!(vm.pc, 4);
    assert_eq!(vm_rs::exec(&mut vm, ByteCode::Add, &table), Ok(5));
    assert_eq!(vm.stack, vec![vec![3u8]]);
    assert_eq!(vm_rs::exec(&mut vm, ByteCode::Add, &table), Err(Fault::DecodeFault));
}

#[test]
fn the_machine_starts_empty() {
    let vm = Vm::new(vec![1, 2, 3]);
    assert!(!vm.finished);
    assert_eq!(vm.code, vec![1u8, 2, 3]);
    assert_eq!(vm.pc, 0);
    assert_eq!(vm.pc(), 0);
    assert_eq!(vm.len_of_code(), 3);
    assert_eq!(vm.frames.len(), 0);
    assert_eq!(vm.globals.len(), 0);
    assert_eq!(vm.stack, vec![Vec::<u8>::new()]);
    assert_eq!(vm.mem, [0u8; 256]);
    assert!(vm.output.is_empty());
    assert!(!vm.halted());
}

#[test]
fn the_accessors_read_and_move_the_counter() {
    let mut vm = Vm::new(vec![9, 0x78, 0x56, 0x34, 0x12, 7]);
    assert_eq!(vm.curr_byte(), 9);
    assert!(vm.fits(5));
    assert_eq!(vm.get_u32(), 0x1234_5678);
    assert_eq!(vm.pc(), 4);
    vm.incr();
    assert_eq!(vm.curr_byte(), 7);
    assert!(vm.fits(1));
    assert!(!vm.fits(2));
    vm.incr();
    assert!(vm.halted());
    vm.stack().push(4);
    vm.push_byte(5);
    assert_eq!(vm.depth(), 2);
    assert_eq!(vm.peek(0), 5);
    assert_eq!(vm.peek(1), 4);
    assert_eq!(vm.top(), 5);
    assert_eq!(vm.top(), 4);
    assert_eq!(vm.depth(), 0);
    vm.emit('x');
    assert_eq!(vm.take_output(), vec!['x']);
    assert!(vm.output.is_empty());
    assert_eq!(vm.top_frame().len(), 0);
    vm.top_frame().insert(vec![1], vec![2]);
    assert_eq!(vm.globals.get(&vec![1u8]), Some(&vec![2u8]));
    assert_eq!(vm.lookup(&vec![1u8]), Some(&vec![2u8]));
    assert_eq!(vm.locals().len(), 1);
}
