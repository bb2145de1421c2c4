use vm_rs::builtins::{name_of, op_text, ty_text};
use vm_rs::wide::{apply, Op, Ty};
use vm_rs::{init, Builtin, Builtins, Fault, Vm};

const TYPES: [Ty; 8] = [Ty::U16, Ty::U32, Ty::U64, Ty::U128, Ty::I16, Ty::I32, Ty::I64, Ty::I128];

const OPS: [Op; 13] = [
    Op::Add,
    Op::Sub,
    Op::Mul,
    Op::Div,
    Op::Modulo,
    Op::BitAnd,
    Op::BitOr,
    Op::BitXor,
    Op::Le,
    Op::Ge,
    Op::Lt,
    Op::Gt,
    Op::Eq,
];

fn le(v: u32) -> Vec<u8> {
    v.to_le_bytes().to_vec()
}

fn call_name(name: &[u8], args: u32) -> Vec<u8> {
    let mut out = vec![0x03, 1];
    out.extend(le(name.len() as u32));
    out.extend_from_slice(name);
    out.extend(le(args));
    out
}

fn push(bytes: &[u8]) -> Vec<u8> {
    let mut out = vec![0x05, bytes.len() as u8];
    out.extend_from_slice(bytes);
    out
}

/// Runs `name` on the operands `b` (left) and `a` (right), each given as a bit
/// pattern of `size` bytes, below one byte that is no argument.
fn call(name: &str, size: usize, b: u128, a: u128) -> (Vm, Result<bool, Fault>) {
    let mut bytes = vec![0xEE];
    bytes.extend_from_slice(&b.to_le_bytes()[..size]);
    bytes.extend_from_slice(&a.to_le_bytes()[..size]);
    let mut code = push(&bytes);
    code.extend(call_name(name.as_bytes(), 2 * size as u32));
    code.push(0x00);
    let table = init();
    let mut vm = Vm::new(code);
    let r = vm.run(&table, 100);
    (vm, r)
}

fn result(name: &str, size: usize, b: u128, a: u128) -> Result<Vec<u8>, Fault> {
    let (vm, r) = call(name, size, b, a);
    match r {
        Ok(done) => {
            assert!(done);
            assert!(vm.finished);
            assert_eq!(vm.stack.len(), 1);
            assert_eq!(vm.frames.len(), 0);
            assert_eq!(vm.stack[0][0], 0xEE);
            Ok(vm.stack[0][1..].to_vec())
        }
        Err(f) => {
            assert_eq!(vm.pc, 2 + 1 + 2 * size as u32);
            assert_eq!(vm.stack.len(), 1);
            assert_eq!(vm.stack[0].len(), 1 + 2 * size);
            assert_eq!(vm.frames.len(), 0);
            Err(f)
        }
    }
}

fn truth(b: bool) -> Result<Vec<u8>, Fault> {
    Ok(vec![b as u8])
}

fn check_u16(b: u16, a: u16) {
    let (x, y) = (b as u128, a as u128);
    assert_eq!(result("add_u16", 2, x, y), Ok(b.wrapping_add(a).to_be_bytes().to_vec()));
    assert_eq!(result("sub_u16", 2, x, y), Ok(b.wrapping_sub(a).to_be_bytes().to_vec()));
    assert_eq!(result("mul_u16", 2, x, y), Ok(b.wrapping_mul(a).to_be_bytes().to_vec()));
    assert_eq!(
        result("div_u16", 2, x, y),
        b.checked_div(a).map(|v| v.to_be_bytes().to_vec()).ok_or(Fault::ArithmeticFault)
    );
    assert_eq!(
        result("modulo_u16", 2, x, y),
        b.checked_rem(a).map(|v| v.to_be_bytes().to_vec()).ok_or(Fault::ArithmeticFault)
    );
    assert_eq!(result("bit_and_u16", 2, x, y), Ok((b & a).to_be_bytes().to_vec()));
    assert_eq!(result("bit_or_u16", 2, x, y), Ok((b | a).to_be_bytes().to_vec()));
    assert_eq!(result("bit_xor_u16", 2, x, y), Ok((b ^ a).to_be_bytes().to_vec()));
    assert_eq!(result("le_u16", 2, x, y), truth(b <= a));
    assert_eq!(result("ge_u16", 2, x, y), truth(b >= a));
    assert_eq!(result("lt_u16", 2, x, y), truth(b < a));
    assert_eq!(result("gt_u16", 2, x, y), truth(b > a));
    assert_eq!(result("eq_u16", 2, x, y), truth(b == a));
}

fn check_u32(b: u32, a: u32) {
    let (x, y) = (b as u128, a as u128);
    assert_eq!(result("add_u32", 4, x, y), Ok(b.wrapping_add(a).to_be_bytes().to_vec()));
    assert_eq!(result("sub_u32", 4, x, y), Ok(b.wrapping_sub(a).to_be_bytes().to_vec()));
    assert_eq!(result("mul_u32", 4, x, y), Ok(b.wrapping_mul(a).to_be_bytes().to_vec()));
    assert_eq!(
        result("div_u32", 4, x, y),
        b.checked_div(a).map(|v| v.to_be_bytes().to_vec()).ok_or(Fault::ArithmeticFault)
    );
    assert_eq!(
        result("modulo_u32", 4, x, y),
        b.checked_rem(a).map(|v| v.to_be_bytes().to_vec()).ok_or(Fault::ArithmeticFault)
    );
    assert_eq!(result("bit_and_u32", 4, x, y), Ok((b & a).to_be_bytes().to_vec()));
    assert_eq!(result("bit_or_u32", 4, x, y), Ok((b | a).to_be_bytes().to_vec()));
    assert_eq!(result("bit_xor_u32", 4, x, y), Ok((b ^ a).to_be_bytes().to_vec()));
    assert_eq!(result("le_u32", 4, x, y), truth(b <= a));
    assert_eq!(result("ge_u32", 4, x, y), truth(b >= a));
    assert_eq!(result("lt_u32", 4, x, y), truth(b < a));
    assert_eq!(result("gt_u32", 4, x, y), truth(b > a));
    assert_eq!(result("eq_u32", 4, x, y), truth(b == a));
}

fn check_u64(b: u64, a: u64) {
    let (x, y) = (b as u128, a as u128);
    assert_eq!(result("add_u64", 8, x, y), Ok(b.wrapping_add(a).to_be_bytes().to_vec()));
    assert_eq!(result("sub_u64", 8, x, y), Ok(b.wrapping_sub(a).to_be_bytes().to_vec()));
    assert_eq!(result("mul_u64", 8, x, y), Ok(b.wrapping_mul(a).to_be_bytes().to_vec()));
    assert_eq!(
        result("div_u64", 8, x, y),
        b.checked_div(a).map(|v| v.to_be_bytes().to_vec()).ok_or(Fault::ArithmeticFault)
    );
    assert_eq!(
        result("modulo_u64", 8, x, y),
        b.checked_rem(a).map(|v| v.to_be_bytes().to_vec()).ok_or(Fault::ArithmeticFault)
    );
    assert_eq!(result("bit_and_u64", 8, x, y), Ok((b & a).to_be_bytes().to_vec()));
    assert_eq!(result("bit_or_u64", 8, x, y), Ok((b | a).to_be_bytes().to_vec()));
    assert_eq!(result("bit_xor_u64", 8, x, y), Ok((b ^ a).to_be_bytes().to_vec()));
    assert_eq!(result("le_u64", 8, x, y), truth(b <= a));
    assert_eq!(result("ge_u64", 8, x, y), truth(b >= a));
    assert_eq!(result("lt_u64", 8, x, y), truth(b < a));
    assert_eq!(result("gt_u64", 8, x, y), truth(b > a));
    assert_eq!(result("eq_u64", 8, x, y), truth(b == a));
}

fn check_u128(b: u128, a: u128) {
    let (x, y) = (b, a);
    assert_eq!(result("add_u128", 16, x, y), Ok(b.wrapping_add(a).to_be_bytes().to_vec()));
    assert_eq!(result("sub_u128", 16, x, y), Ok(b.wrapping_sub(a).to_be_bytes().to_vec()));
    assert_eq!(result("mul_u128", 16, x, y), Ok(b.wrapping_mul(a).to_be_bytes().to_vec()));
    assert_eq!(
        result("div_u128", 16, x, y),
        b.checked_div(a).map(|v| v.to_be_bytes().to_vec()).ok_or(Fault::ArithmeticFault)
    );
    assert_eq!(
        result("modulo_u128", 16, x, y),
        b.checked_rem(a).map(|v| v.to_be_bytes().to_vec()).ok_or(Fault::ArithmeticFault)
    );
    assert_eq!(result("bit_and_u128", 16, x, y), Ok((b & a).to_be_bytes().to_vec()));
    assert_eq!(result("bit_or_u128", 16, x, y), Ok((b | a).to_be_bytes().to_vec()));
    assert_eq!(result("bit_xor_u128", 16, x, y), Ok((b ^ a).to_be_bytes().to_vec()));
    assert_eq!(result("le_u128", 16, x, y), truth(b <= a));
    assert_eq!(result("ge_u128", 16, x, y), truth(b >= a));
    assert_eq!(result("lt_u128", 16, x, y), truth(b < a));
    assert_eq!(result("gt_u128", 16, x, y), truth(b > a));
    assert_eq!(result("eq_u128", 16, x, y), truth(b == a));
}

fn check_i16(b: i16, a: i16) {
    let (x, y) = (b as u16 as u128, a as u16 as u128);
    assert_eq!(result("add_i16", 2, x, y), Ok(b.wrapping_add(a).to_be_bytes().to_vec()));
    assert_eq!(result("sub_i16", 2, x, y), Ok(b.wrapping_sub(a).to_be_bytes().to_vec()));
    assert_eq!(result("mul_i16", 2, x, y), Ok(b.wrapping_mul(a).to_be_bytes().to_vec()));
    assert_eq!(
        result("div_i16", 2, x, y),
        b.checked_div(a).map(|v| v.to_be_bytes().to_vec()).ok_or(Fault::ArithmeticFault)
    );
    assert_eq!(
        result("modulo_i16", 2, x, y),
        b.checked_rem(a).map(|v| v.to_be_bytes().to_vec()).ok_or(Fault::ArithmeticFault)
    );
    assert_eq!(result("bit_and_i16", 2, x, y), Ok((b & a).to_be_bytes().to_vec()));
    assert_eq!(result("bit_or_i16", 2, x, y), Ok((b | a).to_be_bytes().to_vec()));
    assert_eq!(result("bit_xor_i16", 2, x, y), Ok((b ^ a).to_be_bytes().to_vec()));
    assert_eq!(result("le_i16", 2, x, y), truth(b <= a));
    assert_eq!(result("ge_i16", 2, x, y), truth(b >= a));
    assert_eq!(result("lt_i16", 2, x, y), truth(b < a));
    assert_eq!(result("gt_i16", 2, x, y), truth(b > a));
    assert_eq!(result("eq_i16", 2, x, y), truth(b == a));
}

fn check_i32(b: i32, a: i32) {
    let (x, y) = (b as u32 as u128, a as u32 as u128);
    assert_eq!(result("add_i32", 4, x, y), Ok(b.wrapping_add(a).to_be_bytes().to_vec()));
    assert_eq!(result("sub_i32", 4, x, y), Ok(b.wrapping_sub(a).to_be_bytes().to_vec()));
    assert_eq!(result("mul_i32", 4, x, y), Ok(b.wrapping_mul(a).to_be_bytes().to_vec()));
    assert_eq!(
        result("div_i32", 4, x, y),
        b.checked_div(a).map(|v| v.to_be_bytes().to_vec()).ok_or(Fault::ArithmeticFault)
    );
    assert_eq!(
        result("modulo_i32", 4, x, y),
        b.checked_rem(a).map(|v| v.to_be_bytes().to_vec()).ok_or(Fault::ArithmeticFault)
    );
    assert_eq!(result("bit_and_i32", 4, x, y), Ok((b & a).to_be_bytes().to_vec()));
    assert_eq!(result("bit_or_i32", 4, x, y), Ok((b | a).to_be_bytes().to_vec()));
    assert_eq!(result("bit_xor_i32", 4, x, y), Ok((b ^ a).to_be_bytes().to_vec()));
    assert_eq!(result("le_i32", 4, x, y), truth(b <= a));
    assert_eq!(result("ge_i32", 4, x, y), truth(b >= a));
    assert_eq!(result("lt_i32", 4, x, y), truth(b < a));
    assert_eq!(result("gt_i32", 4, x, y), truth(b > a));
    assert_eq!(result("eq_i32", 4, x, y), truth(b == a));
}

fn check_i64(b: i64, a: i64) {
    let (x, y) = (b as u64 as u128, a as u64 as u128);
    assert_eq!(result("add_i64", 8, x, y), Ok(b.wrapping_add(a).to_be_bytes().to_vec()));
    assert_eq!(result("sub_i64", 8, x, y), Ok(b.wrapping_sub(a).to_be_bytes().to_vec()));
    assert_eq!(result("mul_i64", 8, x, y), Ok(b.wrapping_mul(a).to_be_bytes().to_vec()));
    assert_eq!(
        result("div_i64", 8, x, y),
        b.checked_div(a).map(|v| v.to_be_bytes().to_vec()).ok_or(Fault::ArithmeticFault)
    );
    assert_eq!(
        result("modulo_i64", 8, x, y),
        b.checked_rem(a).map(|v| v.to_be_bytes().to_vec()).ok_or(Fault::ArithmeticFault)
    );
    assert_eq!(result("bit_and_i64", 8, x, y), Ok((b & a).to_be_bytes().to_vec()));
    assert_eq!(result("bit_or_i64", 8, x, y), Ok((b | a).to_be_bytes().to_vec()));
    assert_eq!(result("bit_xor_i64", 8, x, y), Ok((b ^ a).to_be_bytes().to_vec()));
    assert_eq!(result("le_i64", 8, x, y), truth(b <= a));
    assert_eq!(result("ge_i64", 8, x, y), truth(b >= a));
    assert_eq!(result("lt_i64", 8, x, y), truth(b < a));
    assert_eq!(result("gt_i64", 8, x, y), truth(b > a));
    assert_eq!(result("eq_i64", 8, x, y), truth(b == a));
}

fn check_i128(b: i128, a: i128) {
    let (x, y) = (b as u128, a as u128);
    assert_eq!(result("add_i128", 16, x, y), Ok(b.wrapping_add(a).to_be_bytes().to_vec()));
    assert_eq!(result("sub_i128", 16, x, y), Ok(b.wrapping_sub(a).to_be_bytes().to_vec()));
    assert_eq!(result("mul_i128", 16, x, y), Ok(b.wrapping_mul(a).to_be_bytes().to_vec()));
    assert_eq!(
        result("div_i128", 16, x, y),
        b.checked_div(a).map(|v| v.to_be_bytes().to_vec()).ok_or(Fault::ArithmeticFault)
    );
    assert_eq!(
        result("modulo_i128", 16, x, y),
        b.checked_rem(a).map(|v| v.to_be_bytes().to_vec()).ok_or(Fault::ArithmeticFault)
    );
    assert_eq!(result("bit_and_i128", 16, x, y), Ok((b & a).to_be_bytes().to_vec()));
    assert_eq!(result("bit_or_i128", 16, x, y), Ok((b | a).to_be_bytes().to_vec()));
    assert_eq!(result("bit_xor_i128", 16, x, y), Ok((b ^ a).to_be_bytes().to_vec()));
    assert_eq!(result("le_i128", 16, x, y), truth(b <= a));
    assert_eq!(result("ge_i128", 16, x, y), truth(b >= a));
    assert_eq!(result("lt_i128", 16, x, y), truth(b < a));
    assert_eq!(result("gt_i128", 16, x, y), truth(b > a));
    assert_eq!(result("eq_i128", 16, x, y), truth(b == a));
}

#[test]
fn boundary_operands_u16() {
    for b in [0, 1, 0x1234, u16::MAX - 1, u16::MAX] {
        for a in [0, 1, 0x00FF, u16::MAX - 1, u16::MAX] {
            check_u16(b, a);
        }
    }
}

#[test]
fn boundary_operands_u32() {
    for b in [0, 1, 0x1234_5678, u32::MAX - 1, u32::MAX] {
        for a in [0, 1, 0x0001_0000, u32::MAX - 1, u32::MAX] {
            check_u32(b, a);
        }
    }
}

#[test]
fn boundary_operands_u64() {
    for b in [0, 1, 0x1234_5678_9ABC_DEF0, u64::MAX - 1, u64::MAX] {
        for a in [0, 1, 0x1_0000_0000, u64::MAX - 1, u64::MAX] {
            check_u64(b, a);
        }
    }
}

#[test]
fn boundary_operands_u128() {
    for b in [0, 1, 0x1234_5678_9ABC_DEF0_0FED_CBA9_8765_4321, u128::MAX - 1, u128::MAX] {
        for a in [0, 1, 0x1_0000_0000_0000_0000, u128::MAX - 1, u128::MAX] {
            check_u128(b, a);
        }
    }
}

#[test]
fn boundary_operands_i16() {
    for b in [0, 1, -1, 0x1234, -0x1234, i16::MAX, i16::MIN, i16::MIN + 1] {
        for a in [0, 1, -1, 7, -7, i16::MAX, i16::MIN] {
            check_i16(b, a);
        }
    }
}

#[test]
fn boundary_operands_i32() {
    for b in [0, 1, -1, 0x1234_5678, -0x1234_5678, i32::MAX, i32::MIN, i32::MIN + 1] {
        for a in [0, 1, -1, 7, -7, i32::MAX, i32::MIN] {
            check_i32(b, a);
        }
    }
}

#[test]
fn boundary_operands_i64() {
    for b in [0, 1, -1, 0x1234_5678_9ABC, -0x1234_5678_9ABC, i64::MAX, i64::MIN, i64::MIN + 1] {
        for a in [0, 1, -1, 7, -7, i64::MAX, i64::MIN] {
            check_i64(b, a);
        }
    }
}

#[test]
fn boundary_operands_i128() {
    for b in [0, 1, -1, 0x1234_5678_9ABC_DEF0_1234, -0x1234_5678_9ABC, i128::MAX, i128::MIN, i128::MIN + 1] {
        for a in [0, 1, -1, 7, -7, i128::MAX, i128::MIN] {
            check_i128(b, a);
        }
    }
}

#[test]
fn division_by_zero_faults_in_every_width() {
    for (ty, size) in [("u16", 2), ("u32", 4), ("u64", 8), ("u128", 16), ("i16", 2), ("i32", 4), ("i64", 8), ("i128", 16)] {
        for b in [0u128, 1, 0x7FFF] {
            assert_eq!(result(&format!("div_{}", ty), size, b, 0), Err(Fault::ArithmeticFault));
            assert_eq!(result(&format!("modulo_{}", ty), size, b, 0), Err(Fault::ArithmeticFault));
        }
    }
}

#[test]
fn the_lowest_number_divided_by_minus_one_faults() {
    assert_eq!(result("div_i16", 2, 0x8000, 0xFFFF), Err(Fault::ArithmeticFault));
    assert_eq!(result("modulo_i16", 2, 0x8000, 0xFFFF), Err(Fault::ArithmeticFault));
    assert_eq!(result("div_i128", 16, 1 << 127, u128::MAX), Err(Fault::ArithmeticFault));
    assert_eq!(result("div_i16", 2, 0x8001, 0xFFFF), Ok(vec![0x7F, 0xFF]));
}

#[test]
fn operands_are_read_with_the_high_byte_on_top() {
    // the left operand 0x0102 lies below the right operand 0x0304
    let mut code = push(&[0x02, 0x01, 0x04, 0x03]);
    code.extend(call_name(b"sub_u16", 4));
    let table = init();
    let mut vm = Vm::new(code);
    assert_eq!(vm.run(&table, 10), Ok(true));
    assert_eq!(vm.stack, vec![vec![0xFDu8, 0xFE]]);
}

#[test]
fn a_builtin_sees_its_arguments_only() {
    let mut code = push(&[9, 9, 9, 1, 0]);
    code.extend(call_name(b"add_u16", 2));
    let table = init();
    let mut vm = Vm::new(code);
    assert_eq!(vm.run(&table, 10), Err(Fault::StackUnderflow));
    assert_eq!(vm.stack, vec![vec![9u8, 9, 9, 1, 0]]);
    assert_eq!(vm.frames.len(), 0);
    assert_eq!(vm.pc, 7);
}

#[test]
fn print_builtins_write_a_line() {
    let cases: Vec<(&str, Vec<u8>, &str)> = vec![
        ("print_u16", vec![0x39, 0x30], "12345\n"),
        ("print_u16", vec![0xFF, 0xFF], "65535\n"),
        ("print_i16", vec![0xFF, 0xFF], "-1\n"),
        ("print_i16", vec![0x00, 0x80], "-32768\n"),
        ("print_i16", vec![0xFF, 0x7F], "32767\n"),
        ("print_u32", vec![0, 0, 0, 0], "0\n"),
        ("print_i32", vec![0xFE, 0xFF, 0xFF, 0xFF], "-2\n"),
        ("print_u64", vec![0xFF; 8], "18446744073709551615\n"),
        ("print_i64", vec![0, 0, 0, 0, 0, 0, 0, 0x80], "-9223372036854775808\n"),
        ("print_u128", vec![0xFF; 16], "340282366920938463463374607431768211455\n"),
        ("print_i128", vec![0xFF; 16], "-1\n"),
    ];
    for (name, bytes, want) in cases {
        let mut code = push(&bytes);
        code.extend(call_name(name.as_bytes(), bytes.len() as u32));
        let table = init();
        let mut vm = Vm::new(code);
        assert_eq!(vm.run(&table, 10), Ok(true), "{}", name);
        let text: String = vm.output.iter().collect();
        assert_eq!(text, want, "{}", name);
        assert_eq!(vm.stack, vec![Vec::<u8>::new()]);
    }
    let i = i128::MIN;
    let mut code = push(&i.to_le_bytes());
    code.extend(call_name(b"print_i128", 16));
    let table = init();
    let mut vm = Vm::new(code);
    assert_eq!(vm.run(&table, 10), Ok(true));
    let text: String = vm.output.iter().collect();
    assert_eq!(text, format!("{}\n", i));
}

#[test]
fn print_writes_the_arguments_top_first() {
    let mut code = push(b"x!iH");
    code.extend(call_name(b"print", 3));
    let table = init();
    let mut vm = Vm::new(code);
    assert_eq!(vm.run(&table, 10), Ok(true));
    let text: String = vm.output.iter().collect();
    assert_eq!(text, "Hi!");
    assert_eq!(vm.stack, vec![vec![b'x']]);
}

#[test]
fn is_def_reads_a_name_after_the_call() {
    let mut code = call_name(b"is_def", 0);
    code.extend(le(2));
    code.extend_from_slice(b"ab");
    code.push(0x00);
    let table = init();
    let mut vm = Vm::new(code.clone());
    vm.globals.insert(b"ab".to_vec(), vec![1]);
    assert_eq!(vm.eval(&table), Ok(()));
    assert_eq!(vm.pc as usize, code.len() - 1);
    assert_eq!(vm.stack, vec![vec![0u8]]);
    assert_eq!(vm.frames.len(), 0);
    assert_eq!(vm.run(&table, 5), Ok(true));
    assert!(vm.finished);
    // the name is missing
    let mut vm = Vm::new(call_name(b"is_def", 0));
    assert_eq!(vm.eval(&table), Err(Fault::DecodeFault));
    assert_eq!(vm.pc, 0);
    assert_eq!(vm.stack.len(), 1);
    assert_eq!(vm.frames.len(), 0);
}

#[test]
fn is_def_tells_whether_the_active_scope_binds_the_name() {
    let mut code = vec![0xFF];
    code.extend(le(1));
    code.push(b'k');
    let mut vm = Vm::new(code);
    assert_eq!(vm_rs::builtins::is_def(&mut vm), Ok(()));
    assert_eq!(vm.stack, vec![vec![0u8]]);
    assert_eq!(vm.pc, 5);
    vm.pc = 0;
    vm.globals.insert(vec![b'k'], vec![]);
    assert_eq!(vm_rs::builtins::is_def(&mut vm), Ok(()));
    assert_eq!(vm.stack, vec![vec![0u8, 1]]);
}

#[test]
fn the_table_holds_every_builtin_under_its_name() {
    let table = init();
    assert_eq!(table.get(&b"is_def".to_vec()), Some(Builtin::IsDef));
    assert_eq!(table.get(&b"print".to_vec()), Some(Builtin::PrintStr));
    let type_names = ["u16", "u32", "u64", "u128", "i16", "i32", "i64", "i128"];
    let op_names = [
        "add", "sub", "mul", "div", "modulo", "bit_and", "bit_or", "bit_xor", "le", "ge", "lt",
        "gt", "eq",
    ];
    for (t, ty) in TYPES.iter().enumerate() {
        assert_eq!(ty_text(*ty), type_names[t].as_bytes().to_vec());
        let name = format!("print_{}", type_names[t]);
        assert_eq!(table.get(&name.into_bytes()), Some(Builtin::Print(*ty)));
        for (k, op) in OPS.iter().enumerate() {
            assert_eq!(op_text(*op), op_names[k].as_bytes().to_vec());
            let name = format!("{}_{}", op_names[k], type_names[t]);
            assert_eq!(name_of(Builtin::Binary(*op, *ty)), name.clone().into_bytes());
            assert_eq!(table.get(&name.into_bytes()), Some(Builtin::Binary(*op, *ty)));
        }
    }
    for name in ["", "add", "add_", "add_u8", "add_i8", "print_", "shl_u16", "ADD_U16", "add_u16 "] {
        assert_eq!(table.get(&name.as_bytes().to_vec()), None, "{:?}", name);
    }
}

#[test]
fn a_table_replaces_an_entry_of_the_same_name() {
    let mut table = Builtins::new();
    assert_eq!(table.get(&vec![1u8]), None);
    table.insert(vec![1], Builtin::IsDef);
    table.insert(vec![2], Builtin::PrintStr);
    table.insert(vec![1], Builtin::Print(Ty::U16));
    assert_eq!(table.get(&vec![1u8]), Some(Builtin::Print(Ty::U16)));
    assert_eq!(table.get(&vec![2u8]), Some(Builtin::PrintStr));
}

#[test]
fn apply_computes_on_bit_patterns() {
    assert_eq!(apply(Op::Add, Ty::U16, 0xFFFF, 1), Ok(0));
    assert_eq!(apply(Op::Sub, Ty::U32, 0, 1), Ok(0xFFFF_FFFF));
    assert_eq!(apply(Op::Mul, Ty::U64, u64::MAX as u128, u64::MAX as u128), Ok(1));
    assert_eq!(apply(Op::Mul, Ty::U128, u128::MAX, u128::MAX), Ok(1));
    assert_eq!(apply(Op::Mul, Ty::I128, i128::MAX as u128, i128::MAX as u128), Ok(1));
    assert_eq!(apply(Op::Div, Ty::I16, 0xFFF9, 2), Ok(0xFFFD));
    assert_eq!(apply(Op::Modulo, Ty::I16, 0xFFF9, 2), Ok(0xFFFF));
    assert_eq!(apply(Op::Modulo, Ty::I16, 7, 0xFFFE), Ok(1));
    assert_eq!(apply(Op::Div, Ty::U16, 0xFFF9, 2), Ok(0x7FFC));
    assert_eq!(apply(Op::Lt, Ty::I16, 0xFFFF, 0), Ok(1));
    assert_eq!(apply(Op::Lt, Ty::U16, 0xFFFF, 0), Ok(0));
    assert_eq!(apply(Op::Div, Ty::U64, 1, 0), Err(Fault::ArithmeticFault));
    for ty in TYPES {
        assert_eq!(ty.size() * 8, ty.width() as usize);
        assert_eq!(ty.max_pattern(), u128::MAX >> (128 - ty.width() as u32));
    }
}
