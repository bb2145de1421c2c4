use vstd::prelude::*;
use crate::builtins::Builtin;
use crate::bytecode::ByteCode;
use crate::codec::{be4, be_bytes, be_tail, le_value, u32_at};
use crate::fault::Fault;
use crate::text::{decimal, signed_decimal};
use crate::wide::{binary, truth};

verus! {

/// A call frame: the local bindings of one active call and the address at
/// which its caller resumes.
pub struct Scope {
    pub locals: Map<Seq<u8>, Seq<u8>>,
    pub ret: int,
}

/// The state of the machine, as mathematics sees it.
pub struct State {
    /// Whether the halt instruction has been executed.
    pub finished: bool,
    /// The program.
    pub code: Seq<u8>,
    /// The program counter.
    pub pc: int,
    /// The call stack, innermost call last.
    pub frames: Seq<Scope>,
    /// The global bindings.
    pub globals: Map<Seq<u8>, Seq<u8>>,
    /// The operand stack segments; the last one is the active one.
    pub stack: Seq<Seq<u8>>,
    /// The scratch memory.
    pub mem: Seq<u8>,
    /// Everything printed so far.
    pub out: Seq<char>,
}

/// The dispatch table of the builtin procedures, by name.
pub type Table = Map<Seq<u8>, Builtin>;

impl State {
    /// The state is well formed: the program counter fits 32 bits, there is
    /// one segment more than there are call frames, and the scratch memory
    /// has 256 bytes.
    pub open spec fn wf(self) -> bool {
        &&& 0 <= self.pc <= u32::MAX
        &&& self.stack.len() == self.frames.len() + 1
        &&& self.mem.len() == 256
        &&& forall|i: int| 0 <= i < self.frames.len() ==> 0 <= (#[trigger] self.frames[i]).ret <= u32::MAX
    }

    /// The state in which a run of `code` starts.
    pub open spec fn initial(code: Seq<u8>) -> State {
        State {
            finished: false,
            code,
            pc: 0,
            frames: Seq::empty(),
            globals: Map::empty(),
            stack: seq![Seq::empty()],
            mem: Seq::new(256, |i: int| 0u8),
            out: Seq::empty(),
        }
    }

    /// Whether the run is over: the halt instruction was executed or the
    /// program counter has left the program.
    pub open spec fn halted(self) -> bool {
        self.finished || self.pc >= self.code.len()
    }

    /// The active segment.
    pub open spec fn seg(self) -> Seq<u8> {
        self.stack.last()
    }

    /// The state with `seg` as its active segment.
    pub open spec fn with_seg(self, seg: Seq<u8>) -> State {
        State { stack: self.stack.update(self.stack.len() - 1, seg), ..self }
    }

    /// The state with the program counter at `pc`.
    pub open spec fn at(self, pc: int) -> State {
        State { pc, ..self }
    }

    /// The state after `text` has been printed.
    pub open spec fn emit(self, text: Seq<char>) -> State {
        State { out: self.out + text, ..self }
    }

    /// The bindings of the active scope: those of the innermost call, or the
    /// global ones when no call is active.
    pub open spec fn locals(self) -> Map<Seq<u8>, Seq<u8>> {
        if self.frames.len() == 0 {
            self.globals
        } else {
            self.frames.last().locals
        }
    }

    /// The state with `m` as the bindings of the active scope.
    pub open spec fn with_locals(self, m: Map<Seq<u8>, Seq<u8>>) -> State {
        if self.frames.len() == 0 {
            State { globals: m, ..self }
        } else {
            State {
                frames: self.frames.update(
                    self.frames.len() - 1,
                    Scope { locals: m, ret: self.frames.last().ret },
                ),
                ..self
            }
        }
    }

    /// What `name` is bound to: in the active scope first, else globally.
    pub open spec fn lookup(self, name: Seq<u8>) -> Option<Seq<u8>> {
        if self.locals().contains_key(name) {
            Some(self.locals()[name])
        } else if self.globals.contains_key(name) {
            Some(self.globals[name])
        } else {
            None
        }
    }

    /// Whether `len` bytes from the program counter on lie in the program,
    /// and the address after them fits 32 bits.
    pub open spec fn fits(self, len: int) -> bool {
        self.pc + len <= self.code.len() && self.pc + len <= u32::MAX
    }

    /// The length of the name that follows the byte at the program counter.
    pub open spec fn name_len(self) -> int {
        u32_at(self.code, self.pc + 1)
    }

    /// Whether a name follows the byte at the program counter: a length of
    /// four bytes and then as many bytes as it says.
    pub open spec fn name_fits(self) -> bool {
        self.fits(5) && self.fits(5 + self.name_len())
    }

    /// The name that follows the byte at the program counter.
    pub open spec fn name(self) -> Seq<u8> {
        self.code.subrange(self.pc + 5, self.pc + 5 + self.name_len())
    }

    /// The state with the program counter on the last byte of the name.
    pub open spec fn past_name(self) -> State {
        self.at(self.pc + 4 + self.name_len())
    }
}

/// Two states with the same components are the same state.
pub proof fn lemma_same_state(a: State, b: State)
    requires
        a.finished == b.finished,
        a.code =~= b.code,
        a.pc == b.pc,
        a.frames =~= b.frames,
        a.globals =~= b.globals,
        a.stack =~= b.stack,
        a.mem =~= b.mem,
        a.out =~= b.out,
    ensures
        a == b,
{
}

/// The bytes of `seg` as characters, last byte first.
pub open spec fn unstacked(seg: Seq<u8>) -> Seq<char> {
    Seq::new(seg.len(), |i: int| seg[seg.len() - 1 - i] as char)
}

/// A byte rotated right by `a` bits.
pub open spec fn rotated_right(b: u8, a: u8) -> u8 {
    (b >> (a % 8)) | (b << ((8 - a % 8) as u8 % 8))
}

/// A byte rotated left by `a` bits.
pub open spec fn rotated_left(b: u8, a: u8) -> u8 {
    (b << (a % 8)) | (b >> ((8 - a % 8) as u8 % 8))
}

/// What a byte-wise operator yields on the left operand `b` and the right
/// operand `a`.  Sums, differences and products wrap around; shifts and
/// rotations take their distance modulo 8; comparisons yield 0 or 1.
pub open spec fn byte_op(code: ByteCode, b: u8, a: u8) -> Result<u8, Fault> {
    match code {
        ByteCode::Add => Ok(((b + a) % 256) as u8),
        ByteCode::Sub => Ok(((b - a) % 256) as u8),
        ByteCode::Mul => Ok(((b * a) % 256) as u8),
        ByteCode::Div => if a == 0 {
            Err(Fault::ArithmeticFault)
        } else {
            Ok(b / a)
        },
        ByteCode::Mod => if a == 0 {
            Err(Fault::ArithmeticFault)
        } else {
            Ok(b % a)
        },
        ByteCode::ShR => Ok(b >> (a % 8)),
        ByteCode::ShL => Ok(b << (a % 8)),
        ByteCode::RotR => Ok(rotated_right(b, a)),
        ByteCode::RotL => Ok(rotated_left(b, a)),
        ByteCode::And => Ok(b & a),
        ByteCode::Or => Ok(b | a),
        ByteCode::Eq => Ok(truth(b == a) as u8),
        ByteCode::Gt => Ok(truth(b > a) as u8),
        ByteCode::Lt => Ok(truth(b < a) as u8),
        ByteCode::Ge => Ok(truth(b >= a) as u8),
        ByteCode::Le => Ok(truth(b <= a) as u8),
        _ => Err(Fault::DecodeFault),
    }
}

/// A byte-wise operator: the two topmost bytes of the active segment, the
/// right operand on top, give way to the result.
pub open spec fn operate_spec(s: State, code: ByteCode) -> Result<State, Fault> {
    let seg = s.seg();
    let n = seg.len() as int;
    if n < 2 {
        Err(Fault::StackUnderflow)
    } else {
        match byte_op(code, seg[n - 2], seg[n - 1]) {
            Ok(v) => Ok(s.with_seg(seg.take(n - 2).push(v))),
            Err(f) => Err(f),
        }
    }
}

/// `Exit`: the run is over.
pub open spec fn exit_spec(s: State) -> Result<State, Fault> {
    Ok(State { finished: true, ..s })
}

/// `Putc`: the top byte leaves the segment and is printed as a character.
pub open spec fn putc_spec(s: State) -> Result<State, Fault> {
    if s.seg().len() == 0 {
        Err(Fault::StackUnderflow)
    } else {
        Ok(s.with_seg(s.seg().drop_last()).emit(seq![s.seg().last() as char]))
    }
}

/// `Puts`: the top byte leaves the segment and is printed as a number.
pub open spec fn puts_spec(s: State) -> Result<State, Fault> {
    if s.seg().len() == 0 {
        Err(Fault::StackUnderflow)
    } else {
        Ok(s.with_seg(s.seg().drop_last()).emit(decimal(s.seg().last() as nat)))
    }
}

/// `Pop`: the top byte leaves the segment.
pub open spec fn pop_spec(s: State) -> Result<State, Fault> {
    if s.seg().len() == 0 {
        Err(Fault::StackUnderflow)
    } else {
        Ok(s.with_seg(s.seg().drop_last()))
    }
}

/// `Push`: a count byte, then that many literal bytes, pushed in order.
pub open spec fn push_spec(s: State) -> Result<State, Fault> {
    if !s.fits(2) {
        Err(Fault::DecodeFault)
    } else {
        let n = s.code[s.pc + 1] as int;
        if !s.fits(2 + n) {
            Err(Fault::DecodeFault)
        } else {
            Ok(s.with_seg(s.seg() + s.code.subrange(s.pc + 2, s.pc + 2 + n)).at(s.pc + 1 + n))
        }
    }
}

/// `Jmp`: control goes to the target that follows the opcode.
pub open spec fn jmp_spec(s: State) -> Result<(State, int), Fault> {
    if !s.fits(5) {
        Err(Fault::DecodeFault)
    } else {
        Ok((s.at(s.pc + 4), u32_at(s.code, s.pc + 1)))
    }
}

/// `Jif`: the top byte leaves the segment; control goes to the target if
/// the byte is greater than zero, and to the next instruction if it is zero.
pub open spec fn jif_spec(s: State) -> Result<(State, int), Fault> {
    if !s.fits(5) {
        Err(Fault::DecodeFault)
    } else if s.seg().len() == 0 {
        Err(Fault::StackUnderflow)
    } else {
        Ok(
            (
                s.with_seg(s.seg().drop_last()).at(s.pc + 4),
                if s.seg().last() > 0 {
                    u32_at(s.code, s.pc + 1)
                } else {
                    s.pc + 5
                },
            ),
        )
    }
}

/// `Def`: the top byte leaves the segment and becomes the value of the
/// name in the active scope, which must hold the name already.
pub open spec fn def_spec(s: State) -> Result<State, Fault> {
    if !s.name_fits() {
        Err(Fault::DecodeFault)
    } else if s.seg().len() == 0 {
        Err(Fault::StackUnderflow)
    } else if !s.locals().contains_key(s.name()) {
        Err(Fault::DefinitionConflict)
    } else {
        Ok(
            s.with_seg(s.seg().drop_last()).with_locals(
                s.locals().insert(s.name(), seq![s.seg().last()]),
            ).past_name(),
        )
    }
}

/// `Set`: the top byte leaves the segment and becomes the value of the
/// name, in the active scope if that holds the name, else globally.
pub open spec fn set_spec(s: State) -> Result<State, Fault> {
    let popped = s.with_seg(s.seg().drop_last()).past_name();
    let value = seq![s.seg().last()];
    if !s.name_fits() {
        Err(Fault::DecodeFault)
    } else if s.seg().len() == 0 {
        Err(Fault::StackUnderflow)
    } else if s.locals().contains_key(s.name()) {
        Ok(popped.with_locals(s.locals().insert(s.name(), value)))
    } else if s.globals.contains_key(s.name()) {
        Ok(State { globals: s.globals.insert(s.name(), value), ..popped })
    } else {
        Err(Fault::UnresolvedReference)
    }
}

/// `Get`: the value of the name is appended to the active segment.
pub open spec fn get_spec(s: State) -> Result<State, Fault> {
    if !s.name_fits() {
        Err(Fault::DecodeFault)
    } else {
        match s.lookup(s.name()) {
            Some(v) => Ok(s.with_seg(s.seg() + v).past_name()),
            None => Err(Fault::UnresolvedReference),
        }
    }
}

/// `Label`: the name is bound globally to the program counter as it stands
/// when the name has been read, in four bytes, highest-order byte first.
pub open spec fn label_spec(s: State) -> Result<State, Fault> {
    if !s.name_fits() {
        Err(Fault::DecodeFault)
    } else {
        Ok(State { globals: s.globals.insert(s.name(), be4(s.past_name().pc)), ..s.past_name() })
    }
}

/// `Load`: the byte of the scratch memory at the address that follows the
/// opcode is pushed.
pub open spec fn load_spec(s: State) -> Result<State, Fault> {
    if !s.fits(2) {
        Err(Fault::DecodeFault)
    } else {
        Ok(s.with_seg(s.seg().push(s.mem[s.code[s.pc + 1] as int])).at(s.pc + 1))
    }
}

/// `Store`: the top byte changes places with the byte of the scratch
/// memory at the address that follows the opcode.
pub open spec fn store_spec(s: State) -> Result<State, Fault> {
    if !s.fits(2) {
        Err(Fault::DecodeFault)
    } else if s.seg().len() == 0 {
        Err(Fault::StackUnderflow)
    } else {
        let addr = s.code[s.pc + 1] as int;
        Ok(
            State { mem: s.mem.update(addr, s.seg().last()), ..s }.with_seg(
                s.seg().drop_last().push(s.mem[addr]),
            ).at(s.pc + 1),
        )
    }
}

/// `Swap`: the two topmost bytes change places.
pub open spec fn swap_spec(s: State) -> Result<State, Fault> {
    let seg = s.seg();
    let n = seg.len() as int;
    if n < 2 {
        Err(Fault::StackUnderflow)
    } else {
        Ok(s.with_seg(seg.take(n - 2).push(seg[n - 1]).push(seg[n - 2])))
    }
}

/// `Dup`: the top byte is pushed once more.
pub open spec fn dup_spec(s: State) -> Result<State, Fault> {
    if s.seg().len() == 0 {
        Err(Fault::StackUnderflow)
    } else {
        Ok(s.with_seg(s.seg().push(s.seg().last())))
    }
}

/// `Not`: the top byte gives way to its bitwise complement.
pub open spec fn not_spec(s: State) -> Result<State, Fault> {
    if s.seg().len() == 0 {
        Err(Fault::StackUnderflow)
    } else {
        Ok(s.with_seg(s.seg().drop_last().push(!s.seg().last())))
    }
}

/// `Rev`: the active segment is reversed.
pub open spec fn rev_spec(s: State) -> Result<State, Fault> {
    Ok(s.with_seg(s.seg().reverse()))
}

/// `Len`: the number of segments is pushed in four bytes, highest-order
/// byte first.
pub open spec fn len_spec(s: State) -> Result<State, Fault> {
    if s.stack.len() > u32::MAX {
        Err(Fault::CountOverflow)
    } else {
        Ok(s.with_seg(s.seg() + be4(s.stack.len() as int)))
    }
}

/// Entering a call: an argument count follows the byte at the program
/// counter; that many bytes leave the top of the active segment and form a
/// new segment, and a frame without bindings is pushed that resumes at the
/// address after the count.
pub open spec fn call_common_spec(s: State) -> Result<State, Fault> {
    let count = u32_at(s.code, s.pc + 1);
    let n = s.seg().len() as int;
    if !s.fits(5) {
        Err(Fault::DecodeFault)
    } else if count > n {
        Err(Fault::StackUnderflow)
    } else {
        Ok(
            State {
                pc: s.pc + 4,
                stack: s.stack.update(s.stack.len() - 1, s.seg().take(n - count)).push(
                    s.seg().skip(n - count),
                ),
                frames: s.frames.push(Scope { locals: Map::empty(), ret: s.pc + 5 }),
                ..s
            },
        )
    }
}

/// `Ret`: the innermost frame is popped, the bytes of the active segment
/// are appended to the segment below it, and control resumes where the
/// frame says.
pub open spec fn ret_spec(s: State) -> Result<(State, int), Fault> {
    let n = s.stack.len() as int;
    if s.frames.len() == 0 {
        Err(Fault::StackUnderflow)
    } else {
        Ok(
            (
                State {
                    frames: s.frames.drop_last(),
                    stack: s.stack.take(n - 2).push(s.stack[n - 2] + s.stack[n - 1]),
                    ..s
                },
                s.frames.last().ret,
            ),
        )
    }
}

/// What a builtin procedure does to the state in which it is called.
///
/// `is_def` reads a name that follows in the program and pushes 1 if the
/// active scope holds it, else 0.  `print` prints the whole active segment
/// as characters, last byte first, and empties it.  A numeric builtin takes
/// its operands from the top of the active segment, the right operand
/// first, each with its highest-order byte on top; `print_*` prints the
/// number and a line feed; the others push the result, highest-order byte
/// first, or one byte 0 or 1 for a comparison.
pub open spec fn builtin_spec(b: Builtin, s: State) -> Result<State, Fault> {
    let seg = s.seg();
    let n = seg.len() as int;
    match b {
        Builtin::IsDef => if !s.name_fits() {
            Err(Fault::DecodeFault)
        } else {
            Ok(s.with_seg(seg.push(truth(s.locals().contains_key(s.name())) as u8)).past_name())
        },
        Builtin::PrintStr => Ok(s.with_seg(Seq::empty()).emit(unstacked(seg))),
        Builtin::Print(ty) => {
            let k = ty.bytes() as int;
            if n < k {
                Err(Fault::StackUnderflow)
            } else {
                Ok(
                    s.with_seg(seg.take(n - k)).emit(
                        signed_decimal(ty.value(le_value(seg.skip(n - k)) as int)).push('\n'),
                    ),
                )
            }
        },
        Builtin::Binary(op, ty) => {
            let k = ty.bytes() as int;
            if n < 2 * k {
                Err(Fault::StackUnderflow)
            } else {
                let a = le_value(seg.skip(n - k)) as int;
                let b = le_value(seg.subrange(n - 2 * k, n - k)) as int;
                match binary(op, ty, b, a) {
                    Ok(v) => Ok(
                        s.with_seg(
                            seg.take(n - 2 * k) + (if op.is_comparison() {
                                seq![v as u8]
                            } else {
                                be_bytes(v, ty.bytes())
                            }),
                        ),
                    ),
                    Err(f) => Err(f),
                }
            }
        },
    }
}

/// Entering a call whose target is known: control goes to the target.
pub open spec fn enter_spec(s: State, target: int) -> Result<(State, int), Fault> {
    match call_common_spec(s) {
        Ok(t) => Ok((t, target)),
        Err(f) => Err(f),
    }
}

/// Calling a builtin: the call is entered, the builtin runs, and the call
/// returns at once; control goes on after the last byte that the builtin
/// read.
pub open spec fn call_builtin_spec(s: State, b: Builtin) -> Result<(State, int), Fault> {
    match call_common_spec(s) {
        Ok(t) => match builtin_spec(b, t) {
            Ok(u) => match ret_spec(u) {
                Ok((v, _)) => Ok((v, v.pc + 1)),
                Err(f) => Err(f),
            },
            Err(f) => Err(f),
        },
        Err(f) => Err(f),
    }
}

/// A call to an address: the address follows the byte at the program
/// counter, then the argument count.
pub open spec fn call_address_spec(s: State) -> Result<(State, int), Fault> {
    if !s.fits(5) {
        Err(Fault::DecodeFault)
    } else {
        enter_spec(s.at(s.pc + 4), u32_at(s.code, s.pc + 1))
    }
}

/// A call by name: the name follows the byte at the program counter, then
/// the argument count.  A name that is bound (in the active scope first,
/// else globally) must be bound to at least four bytes, the last four of
/// which give the address, highest-order byte first.  A name that is bound
/// nowhere must stand in the table.
pub open spec fn call_name_spec(s: State, table: Table) -> Result<(State, int), Fault> {
    if !s.name_fits() {
        Err(Fault::DecodeFault)
    } else if !s.past_name().fits(5) {
        Err(Fault::DecodeFault)
    } else {
        match s.lookup(s.name()) {
            Some(v) => if v.len() < 4 {
                Err(Fault::UnresolvedReference)
            } else {
                enter_spec(s.past_name(), be_tail(v))
            },
            None => if !table.contains_key(s.name()) {
                Err(Fault::UnresolvedReference)
            } else {
                call_builtin_spec(s.past_name(), table[s.name()])
            },
        }
    }
}

/// `Call`: a byte that is zero before an address and not zero before a
/// name, then the address or the name, then the argument count.
pub open spec fn call_spec(s: State, table: Table) -> Result<(State, int), Fault> {
    if !s.fits(2) {
        Err(Fault::DecodeFault)
    } else if s.code[s.pc + 1] == 0 {
        call_address_spec(s.at(s.pc + 1))
    } else {
        call_name_spec(s.at(s.pc + 1), table)
    }
}

/// A builtin leaves the call stack and the number of segments as they are,
/// and the program counter where the address after it still fits 32 bits.
pub proof fn lemma_builtin_keeps(b: Builtin, s: State)
    requires
        s.wf(),
        s.pc < u32::MAX,
        builtin_spec(b, s) is Ok,
    ensures
        builtin_spec(b, s)->Ok_0.wf(),
        builtin_spec(b, s)->Ok_0.frames == s.frames,
        builtin_spec(b, s)->Ok_0.stack.len() == s.stack.len(),
        builtin_spec(b, s)->Ok_0.stack.take(s.stack.len() - 1) == s.stack.take(s.stack.len() - 1),
        builtin_spec(b, s)->Ok_0.pc < u32::MAX,
{
    let u = builtin_spec(b, s)->Ok_0;
    assert(u.stack.take(s.stack.len() - 1) =~= s.stack.take(s.stack.len() - 1));
}

/// Whether a call that reports `r` and leaves the state `after` does what
/// `want` asks of the state `before`: the state asked for, or the fault and
/// no change.
pub open spec fn meets(r: Result<(), Fault>, want: Result<State, Fault>, before: State, after: State) -> bool {
    match want {
        Ok(t) => r is Ok && after == t,
        Err(f) => r == Err::<(), Fault>(f) && after == before,
    }
}

/// The same for a call that also reports the address at which control goes
/// on.
pub open spec fn meets_transfer(
    r: Result<u32, Fault>,
    want: Result<(State, int), Fault>,
    before: State,
    after: State,
) -> bool {
    match want {
        Ok((t, target)) => r is Ok && r->Ok_0 == target && after == t,
        Err(f) => r == Err::<u32, Fault>(f) && after == before,
    }
}

/// The state after an instruction that leaves the program counter on its
/// own last byte: control goes to the next byte.
pub open spec fn advance(r: Result<State, Fault>) -> Result<State, Fault> {
    match r {
        Ok(t) => Ok(t.at(t.pc + 1)),
        Err(f) => Err(f),
    }
}

/// The state after an instruction that names the address at which control
/// goes on.
pub open spec fn transfer(r: Result<(State, int), Fault>) -> Result<State, Fault> {
    match r {
        Ok((t, target)) => Ok(t.at(target)),
        Err(f) => Err(f),
    }
}

/// What the instruction with the opcode `code` does at the program counter.
pub open spec fn exec_spec(s: State, code: ByteCode, table: Table) -> Result<State, Fault> {
    if !s.fits(1) {
        Err(Fault::DecodeFault)
    } else {
        match code {
            ByteCode::Exit => advance(exit_spec(s)),
            ByteCode::Jmp => transfer(jmp_spec(s)),
            ByteCode::Jif => transfer(jif_spec(s)),
            ByteCode::Call => transfer(call_spec(s, table)),
            ByteCode::Ret => transfer(ret_spec(s)),
            ByteCode::Push => advance(push_spec(s)),
            ByteCode::Putc => advance(putc_spec(s)),
            ByteCode::Puts => advance(puts_spec(s)),
            ByteCode::Def => advance(def_spec(s)),
            ByteCode::Assign => advance(set_spec(s)),
            ByteCode::Get => advance(get_spec(s)),
            ByteCode::Load => advance(load_spec(s)),
            ByteCode::Store => advance(store_spec(s)),
            ByteCode::Swap => advance(swap_spec(s)),
            ByteCode::Rev => advance(rev_spec(s)),
            ByteCode::Pop => advance(pop_spec(s)),
            ByteCode::Label => advance(label_spec(s)),
            ByteCode::Not => advance(not_spec(s)),
            ByteCode::Len => advance(len_spec(s)),
            ByteCode::Dup => advance(dup_spec(s)),
            _ => advance(operate_spec(s, code)),
        }
    }
}

/// One step of the machine: the byte at the program counter is decoded and
/// the instruction executed.
pub open spec fn step(s: State, table: Table) -> Result<State, Fault> {
    if !(0 <= s.pc < s.code.len()) {
        Err(Fault::DecodeFault)
    } else {
        match ByteCode::decode(s.code[s.pc]) {
            Some(code) => exec_spec(s, code, table),
            None => Err(Fault::DecodeFault),
        }
    }
}

/// How a run of at most `fuel` steps ends: the last state reached, and
/// `Ok(true)` if the run is over there, `Ok(false)` if the steps are used up
/// first, or the fault of the instruction that could not be executed.
pub open spec fn run_spec(s: State, table: Table, fuel: nat) -> (State, Result<bool, Fault>)
    decreases fuel,
{
    if s.halted() {
        (s, Ok(true))
    } else if fuel == 0 {
        (s, Ok(false))
    } else {
        match step(s, table) {
            Ok(t) => run_spec(t, table, (fuel - 1) as nat),
            Err(f) => (s, Err(f)),
        }
    }
}

} // verus!
