//! A stack-based bytecode virtual machine.
//!
//! A program is a byte sequence.  The machine runs it by a fetch-decode-execute
//! loop over byte-granular operand stack segments, scoped variable bindings and
//! a scratch memory of 256 bytes.  Every instruction is a total function of the
//! machine state: it either yields the next state or reports a [`Fault`] and
//! leaves the state as it was.

pub mod fault;
pub mod bits;
pub mod bytecode;
pub mod frame;
pub mod codec;
pub mod text;
pub mod wide;
pub mod builtins;
pub mod model;
pub mod vm;
pub mod exec;
pub mod laws;

pub use fault::Fault;
pub use bits::Bits;
pub use bytecode::ByteCode;
pub use frame::{Frame, Key};
pub use vm::Vm;
pub use exec::exec;
pub use builtins::{init, Builtin, Builtins};
