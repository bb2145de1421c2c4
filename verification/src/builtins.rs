use vstd::prelude::*;
use crate::fault::Fault;
use crate::codec::{be_bytes, le_value, lemma_le_value_bound, lemma_pow256_monotonic, lemma_pow256_values, pow256};
use crate::exec::get_name;
use crate::model::{builtin_spec, lemma_same_state, meets, unstacked, State};
use crate::text::{push_signed_decimal};
use crate::vm::Vm;
use crate::wide::{apply, sign_magnitude, Op, Ty};

verus! {

/// A builtin procedure: a native operation that a program calls by name.
#[derive(Clone, Copy, Debug, PartialEq, Eq, Structural)]
pub enum Builtin {
    /// Tells whether a name is bound in the active scope.
    IsDef,
    /// Prints the active segment as characters.
    PrintStr,
    /// Prints a number of the given type.
    Print(Ty),
    /// A binary operation on numbers of the given type.
    Binary(Op, Ty),
}

/// The name of a type, as it ends the name of a builtin: `u16`, `i128`.
pub open spec fn ty_name(ty: Ty) -> Seq<u8> {
    match ty {
        Ty::U16 => seq!['u' as u8, '1' as u8, '6' as u8],
        Ty::U32 => seq!['u' as u8, '3' as u8, '2' as u8],
        Ty::U64 => seq!['u' as u8, '6' as u8, '4' as u8],
        Ty::U128 => seq!['u' as u8, '1' as u8, '2' as u8, '8' as u8],
        Ty::I16 => seq!['i' as u8, '1' as u8, '6' as u8],
        Ty::I32 => seq!['i' as u8, '3' as u8, '2' as u8],
        Ty::I64 => seq!['i' as u8, '6' as u8, '4' as u8],
        Ty::I128 => seq!['i' as u8, '1' as u8, '2' as u8, '8' as u8],
    }
}

/// The name of an operation, as it begins the name of a builtin.
pub open spec fn op_name(op: Op) -> Seq<u8> {
    match op {
        Op::Add => seq!['a' as u8, 'd' as u8, 'd' as u8],
        Op::Sub => seq!['s' as u8, 'u' as u8, 'b' as u8],
        Op::Mul => seq!['m' as u8, 'u' as u8, 'l' as u8],
        Op::Div => seq!['d' as u8, 'i' as u8, 'v' as u8],
        Op::Modulo => seq!['m' as u8, 'o' as u8, 'd' as u8, 'u' as u8, 'l' as u8, 'o' as u8],
        Op::BitAnd => seq!['b' as u8, 'i' as u8, 't' as u8, '_' as u8, 'a' as u8, 'n' as u8, 'd' as u8],
        Op::BitOr => seq!['b' as u8, 'i' as u8, 't' as u8, '_' as u8, 'o' as u8, 'r' as u8],
        Op::BitXor => seq!['b' as u8, 'i' as u8, 't' as u8, '_' as u8, 'x' as u8, 'o' as u8, 'r' as u8],
        Op::Le => seq!['l' as u8, 'e' as u8],
        Op::Ge => seq!['g' as u8, 'e' as u8],
        Op::Lt => seq!['l' as u8, 't' as u8],
        Op::Gt => seq!['g' as u8, 't' as u8],
        Op::Eq => seq!['e' as u8, 'q' as u8],
    }
}

/// `print`.
pub open spec fn print_name() -> Seq<u8> {
    seq!['p' as u8, 'r' as u8, 'i' as u8, 'n' as u8, 't' as u8]
}

/// `is_def`.
pub open spec fn is_def_name() -> Seq<u8> {
    seq!['i' as u8, 's' as u8, '_' as u8, 'd' as u8, 'e' as u8, 'f' as u8]
}

/// A name made of a stem, an underscore and the name of a type.
pub open spec fn typed_name(stem: Seq<u8>, ty: Ty) -> Seq<u8> {
    stem.push('_' as u8) + ty_name(ty)
}

/// The name under which a builtin is called: `is_def`, `print`, `print_u16`,
/// `add_u32`, `bit_and_i64`.
pub open spec fn builtin_name(b: Builtin) -> Seq<u8> {
    match b {
        Builtin::IsDef => is_def_name(),
        Builtin::PrintStr => print_name(),
        Builtin::Print(ty) => typed_name(print_name(), ty),
        Builtin::Binary(op, ty) => typed_name(op_name(op), ty),
    }
}

/// The table holds every builtin under its name, and nothing else.
pub open spec fn is_table(m: Map<Seq<u8>, Builtin>) -> bool {
    &&& forall|b: Builtin| #[trigger]
        m.contains_key(builtin_name(b)) && m[builtin_name(b)] == b
    &&& forall|k: Seq<u8>| #[trigger] m.contains_key(k) ==> builtin_name(m[k]) == k
}

proof fn lemma_typed_name(stem: Seq<u8>, ty: Ty)
    ensures
        typed_name(stem, ty).len() == stem.len() + 1 + ty_name(ty).len(),
        3 <= ty_name(ty).len() <= 4,
        typed_name(stem, ty).take(stem.len() as int) == stem,
        typed_name(stem, ty)[stem.len() as int] == '_' as u8,
        forall|i: int|
            0 <= i < ty_name(ty).len() ==> typed_name(stem, ty)[stem.len() + 1 + i] == ty_name(
                ty,
            )[i],
        ty_name(ty)[0] != '_' as u8,
        typed_name(stem, ty).last() != 'f' as u8,
        typed_name(stem, ty).last() != 't' as u8,
{
    assert(typed_name(stem, ty).take(stem.len() as int) =~= stem);
}

proof fn lemma_typed_names_differ(x1: Seq<u8>, t1: Ty, x2: Seq<u8>, t2: Ty)
    requires
        typed_name(x1, t1) == typed_name(x2, t2),
    ensures
        x1 == x2,
        t1 == t2,
{
    lemma_typed_name(x1, t1);
    lemma_typed_name(x2, t2);
    let s = typed_name(x1, t1);
    let n = s.len() as int;
    if ty_name(t1).len() != ty_name(t2).len() {
        assert(s[n - 4] == '_' as u8);
        assert(false);
    }
    assert(x1.len() == x2.len());
    assert(ty_name(t1)[0] == s[x1.len() as int + 1 + 0]);
    assert(ty_name(t1)[1] == s[x1.len() as int + 1 + 1]);
    assert(ty_name(t1)[2] == s[x1.len() as int + 1 + 2]);
    assert(ty_name(t2)[0] == s[x2.len() as int + 1 + 0]);
    assert(ty_name(t2)[1] == s[x2.len() as int + 1 + 1]);
    assert(ty_name(t2)[2] == s[x2.len() as int + 1 + 2]);
}

proof fn lemma_stems_differ(a: Op, b: Op)
    requires
        op_name(a) == op_name(b),
    ensures
        a == b,
{
    let x = op_name(a);
    let y = op_name(b);
    assert(x.len() == y.len() && x[0] == y[0] && x.last() == y.last());
}

proof fn lemma_print_is_no_stem(a: Op)
    ensures
        op_name(a) != print_name(),
{
    let x = op_name(a);
    let y = print_name();
    assert(x.len() != y.len() || x[0] != y[0]);
}

/// No two builtins have the same name.
pub proof fn lemma_names_differ(a: Builtin, b: Builtin)
    requires
        builtin_name(a) == builtin_name(b),
    ensures
        a == b,
{
    let s = builtin_name(a);
    assert(is_def_name().last() == 'f' as u8 && is_def_name().len() == 6);
    assert(print_name().last() == 't' as u8 && print_name().len() == 5);
    match (a, b) {
        (Builtin::Print(t1), Builtin::Print(t2)) => {
            lemma_typed_names_differ(print_name(), t1, print_name(), t2);
        },
        (Builtin::Binary(o1, t1), Builtin::Binary(o2, t2)) => {
            lemma_typed_names_differ(op_name(o1), t1, op_name(o2), t2);
            lemma_stems_differ(o1, o2);
        },
        (Builtin::Print(t1), Builtin::Binary(o2, t2)) => {
            lemma_typed_names_differ(print_name(), t1, op_name(o2), t2);
            lemma_print_is_no_stem(o2);
        },
        (Builtin::Binary(o1, t1), Builtin::Print(t2)) => {
            lemma_typed_names_differ(op_name(o1), t1, print_name(), t2);
            lemma_print_is_no_stem(o1);
        },
        (Builtin::Print(t), _) => {
            lemma_typed_name(print_name(), t);
        },
        (Builtin::Binary(o, t), _) => {
            lemma_typed_name(op_name(o), t);
        },
        (_, Builtin::Print(t)) => {
            lemma_typed_name(print_name(), t);
        },
        (_, Builtin::Binary(o, t)) => {
            lemma_typed_name(op_name(o), t);
        },
        _ => {},
    }
}

/// The name of a type.
pub fn ty_text(ty: Ty) -> (r: Vec<u8>)
    ensures
        r@ == ty_name(ty),
{
    match ty {
        Ty::U16 => vec!['u' as u8, '1' as u8, '6' as u8],
        Ty::U32 => vec!['u' as u8, '3' as u8, '2' as u8],
        Ty::U64 => vec!['u' as u8, '6' as u8, '4' as u8],
        Ty::U128 => vec!['u' as u8, '1' as u8, '2' as u8, '8' as u8],
        Ty::I16 => vec!['i' as u8, '1' as u8, '6' as u8],
        Ty::I32 => vec!['i' as u8, '3' as u8, '2' as u8],
        Ty::I64 => vec!['i' as u8, '6' as u8, '4' as u8],
        Ty::I128 => vec!['i' as u8, '1' as u8, '2' as u8, '8' as u8],
    }
}

/// The name of an operation.
pub fn op_text(op: Op) -> (r: Vec<u8>)
    ensures
        r@ == op_name(op),
{
    match op {
        Op::Add => vec!['a' as u8, 'd' as u8, 'd' as u8],
        Op::Sub => vec!['s' as u8, 'u' as u8, 'b' as u8],
        Op::Mul => vec!['m' as u8, 'u' as u8, 'l' as u8],
        Op::Div => vec!['d' as u8, 'i' as u8, 'v' as u8],
        Op::Modulo => vec!['m' as u8, 'o' as u8, 'd' as u8, 'u' as u8, 'l' as u8, 'o' as u8],
        Op::BitAnd => vec!['b' as u8, 'i' as u8, 't' as u8, '_' as u8, 'a' as u8, 'n' as u8, 'd' as u8],
        Op::BitOr => vec!['b' as u8, 'i' as u8, 't' as u8, '_' as u8, 'o' as u8, 'r' as u8],
        Op::BitXor => vec!['b' as u8, 'i' as u8, 't' as u8, '_' as u8, 'x' as u8, 'o' as u8, 'r' as u8],
        Op::Le => vec!['l' as u8, 'e' as u8],
        Op::Ge => vec!['g' as u8, 'e' as u8],
        Op::Lt => vec!['l' as u8, 't' as u8],
        Op::Gt => vec!['g' as u8, 't' as u8],
        Op::Eq => vec!['e' as u8, 'q' as u8],
    }
}

/// The name under which a builtin is called.
pub fn name_of(b: Builtin) -> (r: Vec<u8>)
    ensures
        r@ == builtin_name(b),
{
    match b {
        Builtin::IsDef => vec!['i' as u8, 's' as u8, '_' as u8, 'd' as u8, 'e' as u8, 'f' as u8],
        Builtin::PrintStr => vec!['p' as u8, 'r' as u8, 'i' as u8, 'n' as u8, 't' as u8],
        Builtin::Print(ty) => {
            let mut r: Vec<u8> = vec!['p' as u8, 'r' as u8, 'i' as u8, 'n' as u8, 't' as u8];
            let mut tail = ty_text(ty);
            r.push('_' as u8);
            r.append(&mut tail);
            r
        },
        Builtin::Binary(op, ty) => {
            let mut r = op_text(op);
            let mut tail = ty_text(ty);
            r.push('_' as u8);
            r.append(&mut tail);
            r
        },
    }
}

/// The dispatch table: the builtin procedures by name.
///
/// The entries are kept in the order in which they were entered, and no
/// name occurs twice.
pub struct Builtins {
    entries: Vec<(Vec<u8>, Builtin)>,
}

impl View for Builtins {
    type V = Map<Seq<u8>, Builtin>;

    closed spec fn view(&self) -> Map<Seq<u8>, Builtin> {
        Map::new(|k: Seq<u8>| self.holds(k), |k: Seq<u8>| self.entries@[self.index_of(k)].1)
    }
}

impl Builtins {
    /// No name occurs twice.
    pub closed spec fn wf(&self) -> bool {
        forall|i: int, j: int|
            0 <= i < self.entries@.len() && 0 <= j < self.entries@.len()
                && #[trigger] self.entries@[i].0@ == #[trigger] self.entries@[j].0@ ==> i == j
    }

    spec fn holds(&self, k: Seq<u8>) -> bool {
        exists|i: int| 0 <= i < self.entries@.len() && #[trigger] self.entries@[i].0@ == k
    }

    spec fn index_of(&self, k: Seq<u8>) -> int {
        choose|i: int| 0 <= i < self.entries@.len() && #[trigger] self.entries@[i].0@ == k
    }

    /// A table without entries.
    pub fn new() -> (r: Builtins)
        ensures
            r.wf(),
            r@ == Map::<Seq<u8>, Builtin>::empty(),
    {
        let r = Builtins { entries: Vec::new() };
        assert(r@ =~= Map::<Seq<u8>, Builtin>::empty());
        r
    }

    /// The builtin of the given name, if there is one.
    pub fn get(&self, name: &Vec<u8>) -> (r: Option<Builtin>)
        requires
            self.wf(),
        ensures
            match r {
                Some(b) => self@.contains_key(name@) && self@[name@] == b,
                None => !self@.contains_key(name@),
            },
    {
        let mut i: usize = 0;
        while i < self.entries.len()
            invariant
                self.wf(),
                i <= self.entries@.len(),
                forall|j: int| 0 <= j < i ==> #[trigger] self.entries@[j].0@ != name@,
            decreases self.entries@.len() - i,
        {
            if self.entries[i].0 == *name {
                assert(self.entries@[i as int].0@ =~= name@);
                assert(self.holds(name@));
                assert(self.index_of(name@) == i);
                return Some(self.entries[i].1);
            }
            assert(self.entries@[i as int].0@ != name@);
            i += 1;
        }
        None
    }

    /// Enters `builtin` under `name`, in place of what the name stood for
    /// before.
    pub fn insert(&mut self, name: Vec<u8>, builtin: Builtin)
        requires
            old(self).wf(),
        ensures
            final(self).wf(),
            final(self)@ == old(self)@.insert(name@, builtin),
    {
        let ghost before = *self;
        let ghost key = name@;
        let mut i: usize = 0;
        while i < self.entries.len()
            invariant
                *self == before,
                before == *old(self),
                self.wf(),
                key == name@,
                i <= self.entries@.len(),
                forall|j: int| 0 <= j < i ==> #[trigger] self.entries@[j].0@ != key,
            decreases self.entries@.len() - i,
        {
            if self.entries[i].0 == name {
                assert(self.entries@[i as int].0@ =~= key);
                let ghost fresh = (name, builtin);
                self.entries[i] = (name, builtin);
                proof {
                    assert(self.entries@ == before.entries@.update(i as int, fresh));
                    assert(self.entries@[i as int].0@ == key);
                    assert forall|k: Seq<u8>| self.holds(k) == before.holds(k) by {
                        if before.holds(k) {
                            let j = before.index_of(k);
                            assert(self.entries@[j].0@ == k);
                        }
                        if self.holds(k) {
                            let j = self.index_of(k);
                            assert(before.entries@[j].0@ == k);
                        }
                    }
                    assert forall|k: Seq<u8>| self.holds(k) implies #[trigger] self@[k]
                        == before@.insert(key, builtin)[k] by {
                        let j = self.index_of(k);
                        assert(before.entries@[j].0@ == k);
                        assert(before.index_of(k) == j);
                    }
                    assert(self@ =~= before@.insert(key, builtin));
                }
                return ;
            }
            assert(self.entries@[i as int].0@ != key);
            i += 1;
        }
        self.entries.push((name, builtin));
        proof {
            let n = before.entries@.len() as int;
            assert(self.entries@[n].0@ == key);
            assert forall|k: Seq<u8>| self.holds(k) == (before.holds(k) || k == key) by {
                if before.holds(k) {
                    let j = before.index_of(k);
                    assert(self.entries@[j].0@ == k);
                }
                if self.holds(k) {
                    let j = self.index_of(k);
                    if j < n {
                        assert(before.entries@[j].0@ == k);
                    }
                }
            }
            assert forall|k: Seq<u8>| self.holds(k) implies #[trigger] self@[k] == before@.insert(
                key,
                builtin,
            )[k] by {
                let j = self.index_of(k);
                if j < n {
                    assert(before.entries@[j].0@ == k);
                    assert(before.index_of(k) == j);
                }
            }
            assert(self@ =~= before@.insert(key, builtin));
        }
    }
}

/// The place of a type in the order in which the table is filled.
pub open spec fn ty_index(ty: Ty) -> int {
    match ty {
        Ty::U16 => 0,
        Ty::U32 => 1,
        Ty::U64 => 2,
        Ty::U128 => 3,
        Ty::I16 => 4,
        Ty::I32 => 5,
        Ty::I64 => 6,
        Ty::I128 => 7,
    }
}

/// The place of an operation in the order in which the table is filled.
pub open spec fn op_index(op: Op) -> int {
    match op {
        Op::Add => 0,
        Op::Sub => 1,
        Op::Mul => 2,
        Op::Div => 3,
        Op::Modulo => 4,
        Op::BitAnd => 5,
        Op::BitOr => 6,
        Op::BitXor => 7,
        Op::Le => 8,
        Op::Ge => 9,
        Op::Lt => 10,
        Op::Gt => 11,
        Op::Eq => 12,
    }
}

/// The type at the given place.
pub fn ty_at(t: usize) -> (ty: Ty)
    requires
        t < 8,
    ensures
        ty_index(ty) == t,
{
    match t {
        0 => Ty::U16,
        1 => Ty::U32,
        2 => Ty::U64,
        3 => Ty::U128,
        4 => Ty::I16,
        5 => Ty::I32,
        6 => Ty::I64,
        _ => Ty::I128,
    }
}

/// The operation at the given place.
pub fn op_at(k: usize) -> (op: Op)
    requires
        k < 13,
    ensures
        op_index(op) == k,
{
    match k {
        0 => Op::Add,
        1 => Op::Sub,
        2 => Op::Mul,
        3 => Op::Div,
        4 => Op::Modulo,
        5 => Op::BitAnd,
        6 => Op::BitOr,
        7 => Op::BitXor,
        8 => Op::Le,
        9 => Op::Ge,
        10 => Op::Lt,
        11 => Op::Gt,
        _ => Op::Eq,
    }
}

/// Whether a builtin has been entered when the types before place `t` are
/// done, and of the type at place `t` the operations before place `k`.
spec fn entered(b: Builtin, t: int, k: int) -> bool {
    match b {
        Builtin::IsDef => true,
        Builtin::PrintStr => true,
        Builtin::Print(ty) => ty_index(ty) < t,
        Builtin::Binary(op, ty) => ty_index(ty) < t || (ty_index(ty) == t && op_index(op) < k),
    }
}

/// Every entry stands under its own name.
spec fn sound(m: Map<Seq<u8>, Builtin>) -> bool {
    forall|k: Seq<u8>| #[trigger] m.contains_key(k) ==> builtin_name(m[k]) == k
}

/// The table holds `b` under its name.
spec fn has(m: Map<Seq<u8>, Builtin>, b: Builtin) -> bool {
    m.contains_key(builtin_name(b)) && m[builtin_name(b)] == b
}

proof fn lemma_enter(m: Map<Seq<u8>, Builtin>, b: Builtin)
    requires
        sound(m),
    ensures
        sound(m.insert(builtin_name(b), b)),
        has(m.insert(builtin_name(b), b), b),
        forall|c: Builtin| has(m, c) ==> has(m.insert(builtin_name(b), b), c),
{
    assert forall|c: Builtin| has(m, c) implies has(m.insert(builtin_name(b), b), c) by {
        if builtin_name(c) == builtin_name(b) {
            lemma_names_differ(c, b);
        }
    }
}

fn enter(table: &mut Builtins, b: Builtin)
    requires
        old(table).wf(),
        sound(old(table)@),
    ensures
        final(table).wf(),
        sound(final(table)@),
        has(final(table)@, b),
        forall|c: Builtin| has(old(table)@, c) ==> has(final(table)@, c),
{
    proof {
        lemma_enter(table@, b);
    }
    table.insert(name_of(b), b);
}

/// The dispatch table of the builtin procedures: `is_def`, `print`, and for
/// each of the eight integer types the thirteen binary operations and
/// `print`, each under its name.
pub fn init() -> (res: Builtins)
    ensures
        res.wf(),
        is_table(res@),
{
    let mut res = Builtins::new();
    enter(&mut res, Builtin::IsDef);
    enter(&mut res, Builtin::PrintStr);
    let mut t: usize = 0;
    while t < 8
        invariant
            t <= 8,
            res.wf(),
            sound(res@),
            forall|b: Builtin| entered(b, t as int, 0) ==> has(res@, b),
        decreases 8 - t,
    {
        let ty = ty_at(t);
        let mut k: usize = 0;
        while k < 13
            invariant
                t < 8,
                k <= 13,
                ty_index(ty) == t,
                res.wf(),
                sound(res@),
                forall|b: Builtin| entered(b, t as int, k as int) ==> has(res@, b),
            decreases 13 - k,
        {
            enter(&mut res, Builtin::Binary(op_at(k), ty));
            k += 1;
        }
        enter(&mut res, Builtin::Print(ty));
        t += 1;
    }
    assert forall|b: Builtin| #[trigger]
        res@.contains_key(builtin_name(b)) && res@[builtin_name(b)] == b by {
        assert(entered(b, 8, 0));
        assert(has(res@, b));
    }
    res
}

/// The number whose bytes lie in the active segment `below` bytes under its
/// top, the highest-order byte uppermost.
pub fn peek_value(vm: &Vm, ty: Ty, below: usize) -> (r: u128)
    requires
        vm.stack@.len() > 0,
        below + ty.bytes() <= vm@.seg().len(),
    ensures
        r == le_value(
            vm@.seg().subrange(
                vm@.seg().len() - below - ty.bytes(),
                vm@.seg().len() - below,
            ),
        ),
        r < ty.modulus(),
{
    let n = ty.size();
    let seg = &vm.stack[vm.stack.len() - 1];
    let hi: usize = seg.len() - below;
    let mut res: u128 = 0;
    let mut i: usize = 0;
    proof {
        lemma_pow256_values();
    }
    while i < n
        invariant
            i <= n <= 16,
            n <= hi <= seg@.len(),
            res == le_value(seg@.subrange(hi - i, hi as int)),
        decreases n - i,
    {
        let x = seg[hi - i - 1];
        proof {
            let window = seg@.subrange(hi - i - 1, hi as int);
            assert(window.skip(1) =~= seg@.subrange(hi - i, hi as int));
            assert(window[0] == x);
            lemma_le_value_bound(seg@.subrange(hi - i, hi as int));
            lemma_pow256_monotonic(i as nat, 15);
            lemma_pow256_values();
        }
        res = res * 256 + x as u128;
        i += 1;
    }
    proof {
        lemma_le_value_bound(seg@.subrange(hi - n, hi as int));
        lemma_pow256_values();
        assert(seg@ == vm@.seg());
    }
    res
}

/// Takes a number off the active segment: as many bytes as the type has,
/// the highest-order byte uppermost.
pub fn get(vm: &mut Vm, ty: Ty) -> (r: u128)
    requires
        old(vm).wf(),
        ty.bytes() <= old(vm)@.seg().len(),
    ensures
        final(vm).wf(),
        r == le_value(old(vm)@.seg().skip(old(vm)@.seg().len() - ty.bytes())),
        r < ty.modulus(),
        final(vm)@ == old(vm)@.with_seg(old(vm)@.seg().take(old(vm)@.seg().len() - ty.bytes())),
{
    let r = peek_value(vm, ty, 0);
    let rest: usize = vm.depth() - ty.size();
    drop_to(vm, rest);
    r
}

/// Shortens the active segment to its `rest` lowest bytes.
pub fn drop_to(vm: &mut Vm, rest: usize)
    requires
        old(vm).wf(),
        rest <= old(vm)@.seg().len(),
    ensures
        final(vm).wf(),
        final(vm)@ == old(vm)@.with_seg(old(vm)@.seg().take(rest as int)),
{
    let ghost before = *vm;
    vm.stack().truncate(rest);
    proof {
        Vm::lemma_stack(before, *vm);
        assert(vm@.seg() =~= before@.seg().take(rest as int));
    }
}

/// Appends the `n` low-order bytes of `v` to `seg`, highest-order byte
/// first.
pub fn push_be(seg: &mut Vec<u8>, v: u128, n: usize)
    requires
        1 <= n <= 16,
    ensures
        final(seg)@ == old(seg)@ + be_bytes(v as int, n as nat),
{
    let ghost start = seg@;
    let mut d: u128 = 1;
    let mut j: usize = 1;
    proof {
        lemma_pow256_values();
    }
    while j < n
        invariant
            1 <= j <= n <= 16,
            d == pow256((j - 1) as nat),
        decreases n - j,
    {
        proof {
            lemma_pow256_monotonic((j - 1) as nat, 14);
            lemma_pow256_values();
        }
        d = d * 256;
        j += 1;
    }
    let mut i: usize = 0;
    while i < n
        invariant
            i <= n <= 16,
            i < n ==> d == pow256((n - 1 - i) as nat),
            seg@ == start + be_bytes(v as int, n as nat).take(i as int),
        decreases n - i,
    {
        proof {
            lemma_pow256_monotonic(0, (n - 1 - i) as nat);
        }
        let ghost prev = seg@;
        seg.push((v / d % 256) as u8);
        proof {
            assert(be_bytes(v as int, n as nat)[i as int] == (v / d % 256) as u8);
            assert(seg@ =~= start + be_bytes(v as int, n as nat).take(i + 1));
        }
        i += 1;
        if i < n {
            d = d / 256;
        }
    }
    assert(be_bytes(v as int, n as nat).take(n as int) =~= be_bytes(v as int, n as nat));
}

/// Runs a builtin on the machine.  After a fault the machine is as it was.
pub fn invoke(vm: &mut Vm, b: Builtin) -> (r: Result<(), Fault>)
    requires
        old(vm).wf(),
    ensures
        final(vm).wf(),
        meets(r, builtin_spec(b, old(vm)@), old(vm)@, final(vm)@),
{
    match b {
        Builtin::IsDef => is_def(vm),
        Builtin::PrintStr => print_str(vm),
        Builtin::Print(ty) => print(vm, ty),
        Builtin::Binary(op, ty) => operate(vm, op, ty),
    }
}

/// The builtin `is_def`: reads a name that follows in the program and
/// pushes 1 if the active scope holds it, else 0.
pub fn is_def(vm_state: &mut Vm) -> (r: Result<(), Fault>)
    requires
        old(vm_state).wf(),
    ensures
        final(vm_state).wf(),
        meets(r, builtin_spec(Builtin::IsDef, old(vm_state)@), old(vm_state)@, final(vm_state)@),
{
    let ghost before = *vm_state;
    let name = match get_name(vm_state) {
        Ok(name) => name,
        Err(f) => {
            return Err(f);
        },
    };
    let is_def = vm_state.locals().contains_key(&name);
    vm_state.push_byte(
        if is_def {
            1
        } else {
            0
        },
    );
    proof {
        lemma_same_state(vm_state@, builtin_spec(Builtin::IsDef, before@)->Ok_0);
    }
    Ok(())
}

/// The builtin `print`: prints the active segment as characters, the top
/// byte first, and leaves it empty.
pub fn print_str(vm: &mut Vm) -> (r: Result<(), Fault>)
    requires
        old(vm).wf(),
    ensures
        final(vm).wf(),
        r is Ok,
        builtin_spec(Builtin::PrintStr, old(vm)@) == Ok::<State, Fault>(final(vm)@),
{
    let ghost before = *vm;
    let ghost seg = vm@.seg();
    proof {
        assert(seg.take(seg.len() as int) =~= seg);
        assert(unstacked(seg).take(0) =~= Seq::<char>::empty());
        lemma_same_state(before@.with_seg(seg).emit(Seq::<char>::empty()), before@);
    }
    while vm.depth() > 0
        invariant
            vm.wf(),
            before@.stack.len() > 0,
            vm@.seg().len() <= seg.len(),
            vm@.seg() == seg.take(vm@.seg().len() as int),
            vm@ == before@.with_seg(vm@.seg()).emit(
                unstacked(seg).take(seg.len() - vm@.seg().len()),
            ),
        decreases vm@.seg().len(),
    {
        let ghost prev = *vm;
        let x = vm.top();
        vm.emit(x as char);
        proof {
            let done = seg.len() - prev@.seg().len();
            assert(unstacked(seg)[done] == x as char);
            assert(unstacked(seg).take(done + 1) =~= unstacked(seg).take(done) + seq![x as char]);
            assert(vm@.seg() =~= seg.take(vm@.seg().len() as int));
            lemma_same_state(
                vm@,
                before@.with_seg(vm@.seg()).emit(unstacked(seg).take(done + 1)),
            );
        }
    }
    proof {
        assert(vm@.seg() =~= Seq::<u8>::empty());
        assert(unstacked(seg).take(seg.len() as int) =~= unstacked(seg));
    }
    Ok(())
}

/// The builtins `print_u16` to `print_i128`: take a number off the active
/// segment and print it with a line feed.
pub fn print(vm: &mut Vm, ty: Ty) -> (r: Result<(), Fault>)
    requires
        old(vm).wf(),
    ensures
        final(vm).wf(),
        match builtin_spec(Builtin::Print(ty), old(vm)@) {
            Ok(t) => r is Ok && final(vm)@ == t,
            Err(f) => r == Err::<(), Fault>(f) && final(vm)@ == old(vm)@,
        },
{
    if vm.depth() < ty.size() {
        return Err(Fault::StackUnderflow);
    }
    let ghost before = *vm;
    let p = get(vm, ty);
    let (negative, m) = sign_magnitude(ty, p);
    let ghost mid = *vm;
    push_signed_decimal(&mut vm.output, negative, m);
    vm.output.push('\n');
    proof {
        assert(vm@.stack =~= mid@.stack);
        assert(vm@.frames =~= mid@.frames);
    }
    Ok(())
}

/// The binary builtins, `add_u16` to `eq_i128`: take the right operand and
/// then the left one off the active segment and push the result.
pub fn operate(vm: &mut Vm, op: Op, ty: Ty) -> (r: Result<(), Fault>)
    requires
        old(vm).wf(),
    ensures
        final(vm).wf(),
        match builtin_spec(Builtin::Binary(op, ty), old(vm)@) {
            Ok(t) => r is Ok && final(vm)@ == t,
            Err(f) => r == Err::<(), Fault>(f) && final(vm)@ == old(vm)@,
        },
{
    let k = ty.size();
    if vm.depth() < 2 * k {
        return Err(Fault::StackUnderflow);
    }
    let ghost before = *vm;
    let ghost seg = vm@.seg();
    let a = peek_value(vm, ty, 0);
    let b = peek_value(vm, ty, k);
    proof {
        assert(seg.subrange(seg.len() - k, seg.len() as int) =~= seg.skip(seg.len() - k));
    }
    match apply(op, ty, b, a) {
        Ok(v) => {
            let rest: usize = vm.depth() - 2 * k;
            drop_to(vm, rest);
            let ghost mid = *vm;
            if op.yields_truth() {
                vm.push_byte(v as u8);
                proof {
                    assert(vm@.seg() =~= seg.take(rest as int) + seq![v as u8]);
                }
            } else {
                push_be(vm.stack(), v, k);
                proof {
                    Vm::lemma_stack(mid, *vm);
                    assert(vm@.seg() == mid@.seg() + be_bytes(v as int, k as nat));
                }
            }
            proof {
                lemma_same_state(vm@, before@.with_seg(vm@.seg()));
            }
            Ok(())
        },
        Err(f) => Err(f),
    }
}

} // verus!
