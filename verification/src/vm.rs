use vstd::prelude::*;
use crate::builtins::Builtins;
use crate::bytecode::ByteCode;
use crate::codec::u32_at;
use crate::exec::exec;
use crate::fault::Fault;
use crate::frame::Frame;
use crate::model::{meets, run_spec, step, Scope, State};

verus! {

/// The machine: a program and the state of its run.
pub struct Vm {
    /// Whether the halt instruction has been executed.
    pub finished: bool,
    /// The program.
    pub code: Vec<u8>,
    /// The program counter.
    pub pc: u32,
    /// The call stack: the local bindings of each active call and the
    /// address at which its caller resumes.
    pub frames: Vec<(Frame, u32)>,
    /// The global bindings.
    pub globals: Frame,
    /// The operand stack segments; the last one is the active one.
    pub stack: Vec<Vec<u8>>,
    /// The scratch memory.
    pub mem: [u8; 256],
    /// What has been printed and not yet been taken out.
    pub output: Vec<char>,
}

impl View for Vm {
    type V = State;

    open spec fn view(&self) -> State {
        State {
            finished: self.finished,
            code: self.code@,
            pc: self.pc as int,
            frames: Seq::new(
                self.frames@.len(),
                |i: int| Scope { locals: self.frames@[i].0@, ret: self.frames@[i].1 as int },
            ),
            globals: self.globals@,
            stack: Seq::new(self.stack@.len(), |i: int| self.stack@[i]@),
            mem: self.mem@,
            out: self.output@,
        }
    }
}

impl Vm {
    /// The machine is well formed: its state is, and so is every binding map.
    pub open spec fn wf(&self) -> bool {
        &&& self@.wf()
        &&& self.globals.wf()
        &&& forall|i: int| 0 <= i < self.frames@.len() ==> (#[trigger] self.frames@[i]).0.wf()
    }

    /// A machine at the start of a run of `code`.
    pub fn new(code: Vec<u8>) -> (r: Vm)
        ensures
            r.wf(),
            r@ == State::initial(code@),
    {
        let mut stack: Vec<Vec<u8>> = Vec::new();
        stack.push(Vec::new());
        let r = Vm {
            finished: false,
            code,
            pc: 0,
            frames: Vec::new(),
            globals: Frame::new(),
            stack,
            mem: [0;256],
            output: Vec::new(),
        };
        assert(r@.stack =~= seq![Seq::<u8>::empty()]);
        assert(r@.frames =~= Seq::<Scope>::empty());
        assert(r@.mem =~= Seq::new(256, |i: int| 0u8));
        r
    }

    /// Runs the program for at most `fuel` steps: until it halts or runs off
    /// its end (`Ok(true)`), until the steps are used up (`Ok(false)`), or
    /// until an instruction faults; the machine then stands before that
    /// instruction.
    pub fn run(&mut self, table: &Builtins, fuel: u64) -> (r: Result<bool, Fault>)
        requires
            old(self).wf(),
            table.wf(),
        ensures
            final(self).wf(),
            (final(self)@, r) == run_spec(old(self)@, table@, fuel as nat),
    {
        let mut left: u64 = fuel;
        while !self.halted() && left > 0
            invariant
                self.wf(),
                table.wf(),
                run_spec(self@, table@, left as nat) == run_spec(old(self)@, table@, fuel as nat),
            decreases left,
        {
            match self.eval(table) {
                Ok(()) => {
                    left -= 1;
                },
                Err(f) => {
                    return Err(f);
                },
            }
        }
        Ok(self.halted())
    }

    /// Executes the instruction at the program counter.  After a fault the
    /// machine is as it was.
    pub fn eval(&mut self, table: &Builtins) -> (r: Result<(), Fault>)
        requires
            old(self).wf(),
            table.wf(),
        ensures
            final(self).wf(),
            meets(r, step(old(self)@, table@), old(self)@, final(self)@),
    {
        if self.pc() >= self.len_of_code() {
            return Err(Fault::DecodeFault);
        }
        let code = match ByteCode::try_from(self.curr_byte()) {
            Ok(code) => code,
            Err(_) => {
                return Err(Fault::DecodeFault);
            },
        };
        match exec(self, code, table) {
            Ok(next) => {
                self.pc = next;
                Ok(())
            },
            Err(f) => Err(f),
        }
    }

    /// The bindings of the active scope: those of the innermost call, or the
    /// global ones when no call is active.
    pub fn top_frame(&mut self) -> (r: &mut Frame)
        ensures
            r@ == old(self)@.locals(),
            r.wf() == (if old(self).frames@.len() == 0 {
                old(self).globals.wf()
            } else {
                old(self).frames@.last().0.wf()
            }),
            old(self).frames@.len() == 0 ==> *final(self) == (Vm {
                globals: *final(r),
                ..*old(self)
            }),
            old(self).frames@.len() > 0 ==> *final(self) == (Vm {
                frames: final(self).frames,
                ..*old(self)
            }) && final(self).frames@ == old(self).frames@.update(
                old(self).frames@.len() - 1,
                (*final(r), old(self).frames@.last().1),
            ),
    {
        let len: usize = self.frames.len();
        if len == 0 {
            &mut self.globals
        } else {
            &mut self.frames[len - 1].0
        }
    }

    /// The bindings of the active scope, to read.
    pub fn locals(&self) -> (r: &Frame)
        requires
            self.wf(),
        ensures
            r.wf(),
            r@ == self@.locals(),
    {
        let len: usize = self.frames.len();
        if len == 0 {
            &self.globals
        } else {
            &self.frames[len - 1].0
        }
    }

    /// What `name` is bound to: in the active scope first, else globally.
    pub fn lookup(&self, name: &Vec<u8>) -> (r: Option<&Vec<u8>>)
        requires
            self.wf(),
        ensures
            match r {
                Some(v) => self@.lookup(name@) == Some(v@),
                None => self@.lookup(name@) is None,
            },
    {
        match self.locals().get(name) {
            Some(v) => Some(v),
            None => self.globals.get(name),
        }
    }

    /// What a change of the active scope's bindings does to the state.
    pub proof fn lemma_top_frame(before: Vm, after: Vm, f: Frame)
        requires
            before.frames@.len() == 0 ==> after == (Vm { globals: f, ..before }),
            before.frames@.len() > 0 ==> after == (Vm { frames: after.frames, ..before })
                && after.frames@ == before.frames@.update(
                before.frames@.len() - 1,
                (f, before.frames@.last().1),
            ),
        ensures
            after@ == before@.with_locals(f@),
            before.wf() && f.wf() ==> after.wf(),
    {
        assert(after@.frames =~= before@.with_locals(f@).frames);
        assert(after@.stack =~= before@.stack);
    }

    /// Reads the four bytes after the byte at the program counter as a
    /// 32-bit value, lowest-order byte first, and leaves the program counter
    /// on the last of them.
    pub fn get_u32(&mut self) -> (r: u32)
        requires
            old(self)@.fits(5),
        ensures
            r == u32_at(old(self)@.code, old(self)@.pc + 1),
            *final(self) == (Vm { pc: (old(self).pc + 4) as u32, ..*old(self) }),
    {
        let mut res: u32 = 0;
        let ghost start = *self;
        self.incr();
        res = res + self.curr_byte() as u32;
        self.incr();
        res = res + 0x100 * (self.curr_byte() as u32);
        self.incr();
        res = res + 0x1_0000 * (self.curr_byte() as u32);
        self.incr();
        res = res + 0x100_0000 * (self.curr_byte() as u32);
        res
    }

    /// Pops the top byte of the active segment.
    pub fn top(&mut self) -> (r: u8)
        requires
            old(self).wf(),
            old(self)@.seg().len() > 0,
        ensures
            final(self).wf(),
            r == old(self)@.seg().last(),
            final(self)@ == old(self)@.with_seg(old(self)@.seg().drop_last()),
    {
        let ghost before = *self;
        let r = self.stack().pop().unwrap();
        proof {
            Self::lemma_stack(before, *self);
            assert(self@.seg() =~= before@.seg().drop_last());
        }
        r
    }

    /// The active segment.
    pub fn stack(&mut self) -> (r: &mut Vec<u8>)
        requires
            old(self).stack@.len() > 0,
        ensures
            *r == old(self).stack@.last(),
            final(self).stack@ == old(self).stack@.update(
                old(self).stack@.len() - 1,
                *final(r),
            ),
            *final(self) == (Vm { stack: final(self).stack, ..*old(self) }),
    {
        let idx: usize = self.stack.len() - 1;
        &mut self.stack[idx]
    }

    /// What a change of the active segment does to the state.
    pub proof fn lemma_stack(before: Vm, after: Vm)
        requires
            before.stack@.len() > 0,
            after == (Vm { stack: after.stack, ..before }),
            after.stack@ == before.stack@.update(before.stack@.len() - 1, after.stack@.last()),
        ensures
            after@ == before@.with_seg(after@.seg()),
            before.wf() ==> after.wf(),
    {
        assert(after@.stack =~= before@.with_seg(after@.seg()).stack);
        assert(after@.frames =~= before@.frames);
    }

    /// Pushes a byte on the active segment.
    pub fn push_byte(&mut self, x: u8)
        requires
            old(self).wf(),
        ensures
            final(self).wf(),
            final(self)@ == old(self)@.with_seg(old(self)@.seg().push(x)),
    {
        let ghost before = *self;
        self.stack().push(x);
        proof {
            Self::lemma_stack(before, *self);
        }
    }

    /// Prints a character.
    pub fn emit(&mut self, c: char)
        requires
            old(self).wf(),
        ensures
            final(self).wf(),
            final(self)@ == old(self)@.emit(seq![c]),
    {
        let ghost before = *self;
        self.output.push(c);
        proof {
            assert(self@.out =~= before@.out + seq![c]);
            assert(self@.stack =~= before@.stack);
            assert(self@.frames =~= before@.frames);
        }
    }

    /// The byte at the program counter.
    pub fn curr_byte(&self) -> (r: u8)
        requires
            self.pc < self.code@.len(),
        ensures
            r == self.code@[self.pc as int],
    {
        self.code[self.pc()]
    }

    /// The program counter.
    pub fn pc(&self) -> (r: usize)
        ensures
            r == self.pc,
    {
        self.pc as usize
    }

    /// The length of the program.
    pub fn len_of_code(&self) -> (r: usize)
        ensures
            r == self.code@.len(),
    {
        self.code.len()
    }

    /// Moves the program counter to the next byte.
    pub fn incr(&mut self)
        requires
            old(self).pc < u32::MAX,
        ensures
            *final(self) == (Vm { pc: (old(self).pc + 1) as u32, ..*old(self) }),
    {
        self.pc += 1
    }

    /// Whether the run is over.
    pub fn halted(&self) -> (r: bool)
        ensures
            r == self@.halted(),
    {
        self.finished || self.pc() >= self.len_of_code()
    }

    /// Whether `len` bytes from the program counter on lie in the program,
    /// and the address after them fits 32 bits.
    pub fn fits(&self, len: u64) -> (r: bool)
        requires
            len <= 0x2_0000_0000,
        ensures
            r == self@.fits(len as int),
    {
        let end: u64 = self.pc as u64 + len;
        end <= self.code.len() as u64 && end <= u32::MAX as u64
    }

    /// The number of bytes in the active segment.
    pub fn depth(&self) -> (r: usize)
        requires
            self.stack@.len() > 0,
        ensures
            r == self@.seg().len(),
    {
        self.stack[self.stack.len() - 1].len()
    }

    /// The byte of the active segment that lies `back` bytes below its top.
    pub fn peek(&self, back: usize) -> (r: u8)
        requires
            self.stack@.len() > 0,
            back < self@.seg().len(),
        ensures
            r == self@.seg()[self@.seg().len() - 1 - back],
    {
        let seg = &self.stack[self.stack.len() - 1];
        seg[seg.len() - 1 - back]
    }

    /// Takes out what has been printed since the output was last taken out.
    pub fn take_output(&mut self) -> (r: Vec<char>)
        ensures
            r@ == old(self).output@,
            final(self).output@ == Seq::<char>::empty(),
            *final(self) == (Vm { output: final(self).output, ..*old(self) }),
    {
        let mut r: Vec<char> = Vec::new();
        r.append(&mut self.output);
        r
    }
}

} // verus!
