//! Assembly emission: the register allocator binding virtual variable ids
//! to a finite pool of physical registers, and the dialect abstraction that
//! renders TAC into one concrete target syntax.

use std::collections::HashMap;

use vstd::prelude::*;

use crate::tac::{Address, CompileError, Line, Program};
use crate::text::{dec_chars, u64_to_string};

verus! {

broadcast use vstd::std_specs::hash::group_hash_axioms, vstd::set::group_set_axioms;

/// One physical machine register, by name.
#[derive(Debug)]
pub struct Register {
    pub name: String,
}

impl Clone for Register {
    fn clone(&self) -> (r: Register)
        ensures
            r.name@ == self.name@,
    {
        Register { name: self.name.clone() }
    }
}

/// The model of a register allocator: the pool of register names, the LIFO
/// stack of free pool indices (top last), and the binding of virtual
/// variable ids to pool indices.
#[verifier::ext_equal]
pub struct RsState {
    pub pool: Seq<Seq<char>>,
    pub free: Seq<usize>,
    pub bound: Map<u64, usize>,
}

/// The allocator invariant: every tracked index is in range, the free
/// stack holds no index twice, no index is both free and bound, no two
/// ids are bound to one index, and every pool index is accounted for:
/// bindings and free slots together exhaust the pool.
pub open spec fn rs_wf(s: RsState) -> bool {
    &&& forall|i: int| 0 <= i < s.free.len() ==> (#[trigger] s.free[i]) < s.pool.len()
    &&& forall|i: int, j: int| 0 <= i < j < s.free.len() ==> s.free[i] != s.free[j]
    &&& s.bound.dom().finite()
    &&& forall|id: u64|
        s.bound.dom().contains(id) ==> (#[trigger] s.bound[id]) < s.pool.len()
    &&& forall|id1: u64, id2: u64|
        #![trigger s.bound[id1], s.bound[id2]]
        id1 != id2 && s.bound.dom().contains(id1) && s.bound.dom().contains(id2)
            ==> s.bound[id1] != s.bound[id2]
    &&& forall|id: u64, i: int|
        #![trigger s.bound[id], s.free[i]]
        s.bound.dom().contains(id) && 0 <= i < s.free.len() ==> s.free[i] != s.bound[id]
    &&& s.bound.dom().len() + s.free.len() == s.pool.len()
}

/// Binding a fresh id: pops the most recently freed index off the free
/// stack and binds the id to it; with the stack empty nothing changes and
/// no register is produced.
pub open spec fn bind_spec(s: RsState, id: u64) -> (RsState, Option<Seq<char>>) {
    if s.free.len() == 0 {
        (s, None)
    } else {
        let idx = s.free.last();
        (
            RsState { pool: s.pool, free: s.free.drop_last(), bound: s.bound.insert(id, idx) },
            Some(s.pool[idx as int]),
        )
    }
}

/// Resolving an id: an already bound id keeps its register and the state
/// is untouched; an unbound id is bound as by `bind_spec`.
pub open spec fn resolve_spec(s: RsState, id: u64) -> (RsState, Option<Seq<char>>) {
    if s.bound.dom().contains(id) {
        (s, Some(s.pool[s.bound[id] as int]))
    } else {
        bind_spec(s, id)
    }
}

/// Releasing a bound id: the binding is dropped and its index returns to
/// the top of the free stack.
pub open spec fn release_spec(s: RsState, id: u64) -> RsState {
    RsState { pool: s.pool, free: s.free.push(s.bound[id]), bound: s.bound.remove(id) }
}

/// Binding a fresh id preserves the allocator invariant.
pub proof fn lemma_bind_preserves_wf(s: RsState, id: u64)
    requires
        rs_wf(s),
        !s.bound.dom().contains(id),
    ensures
        rs_wf(bind_spec(s, id).0),
{
    if s.free.len() > 0 {
        let idx = s.free.last();
        let s2 = bind_spec(s, id).0;
        assert(s2.bound.dom() =~= s.bound.dom().insert(id));
        assert forall|id2: u64| s2.bound.dom().contains(id2) implies (#[trigger] s2.bound[id2])
            < s2.pool.len() by {
            if id2 != id {
                assert(s2.bound[id2] == s.bound[id2]);
            }
        }
        assert forall|id1: u64, id2: u64|
            #![trigger s2.bound[id1], s2.bound[id2]]
            id1 != id2 && s2.bound.dom().contains(id1) && s2.bound.dom().contains(
                id2,
            ) implies s2.bound[id1] != s2.bound[id2] by {
            if id1 == id {
                assert(s.free[s.free.len() - 1] == idx);
                assert(s2.bound[id2] == s.bound[id2]);
            } else if id2 == id {
                assert(s.free[s.free.len() - 1] == idx);
                assert(s2.bound[id1] == s.bound[id1]);
            } else {
                assert(s2.bound[id1] == s.bound[id1]);
                assert(s2.bound[id2] == s.bound[id2]);
            }
        }
        assert forall|id2: u64, i: int|
            #![trigger s2.bound[id2], s2.free[i]]
            s2.bound.dom().contains(id2) && 0 <= i < s2.free.len() implies s2.free[i]
            != s2.bound[id2] by {
            assert(s2.free[i] == s.free[i]);
            if id2 == id {
                assert(s.free[s.free.len() - 1] == idx);
            } else {
                assert(s2.bound[id2] == s.bound[id2]);
            }
        }
    }
}

/// Resolving preserves the allocator invariant.
pub proof fn lemma_resolve_preserves_wf(s: RsState, id: u64)
    requires
        rs_wf(s),
    ensures
        rs_wf(resolve_spec(s, id).0),
{
    if !s.bound.dom().contains(id) {
        lemma_bind_preserves_wf(s, id);
    }
}

/// Releasing a bound id preserves the allocator invariant.
pub proof fn lemma_release_preserves_wf(s: RsState, id: u64)
    requires
        rs_wf(s),
        s.bound.dom().contains(id),
    ensures
        rs_wf(release_spec(s, id)),
{
    let s2 = release_spec(s, id);
    let idx = s.bound[id];
    assert(s2.bound.dom() =~= s.bound.dom().remove(id));
    assert forall|i: int| 0 <= i < s2.free.len() implies (#[trigger] s2.free[i])
        < s2.pool.len() by {
        if i < s.free.len() {
            assert(s2.free[i] == s.free[i]);
        }
    }
    assert forall|i: int, j: int| 0 <= i < j < s2.free.len() implies s2.free[i] != s2.free[j] by {
        if j < s.free.len() {
        } else {
            assert(s2.free[j] == idx);
            assert(s2.free[i] == s.free[i]);
        }
    }
    assert forall|id2: u64| s2.bound.dom().contains(id2) implies (#[trigger] s2.bound[id2])
        < s2.pool.len() by {
        assert(s2.bound[id2] == s.bound[id2]);
    }
    assert forall|id2: u64, i: int|
        #![trigger s2.bound[id2], s2.free[i]]
        s2.bound.dom().contains(id2) && 0 <= i < s2.free.len() implies s2.free[i]
        != s2.bound[id2] by {
        assert(s2.bound[id2] == s.bound[id2]);
        if i < s.free.len() {
            assert(s2.free[i] == s.free[i]);
        } else {
            assert(s2.free[i] == idx);
        }
    }
}

/// Exclusivity: under the invariant, no pool index is bound to two
/// different virtual ids at once, whatever sequence of bind and release
/// calls produced the state.
pub proof fn lemma_allocator_exclusive(s: RsState, id1: u64, id2: u64)
    requires
        rs_wf(s),
        id1 != id2,
        s.bound.dom().contains(id1),
        s.bound.dom().contains(id2),
    ensures
        s.bound[id1] != s.bound[id2],
{
}

/// Idempotence: resolving an id twice with no release in between gives
/// the same register both times, and the second call changes nothing.
pub proof fn lemma_resolve_idempotent(s: RsState, id: u64)
    ensures
        resolve_spec(resolve_spec(s, id).0, id) == resolve_spec(s, id),
{
    let (s1, r1) = resolve_spec(s, id);
    if !s.bound.dom().contains(id) && s.free.len() > 0 {
        assert(s1.bound == s.bound.insert(id, s.free.last()));
        assert(s1.bound.dom().contains(id));
        assert(s1.bound[id] == s.free.last());
        assert(resolve_spec(s1, id).0 =~= s1);
    }
}

/// Exhaustion: against a pool of size `N`, with all `N` indices bound and
/// no release in between, binding one more live id fails.
pub proof fn lemma_allocator_exhaustion(s: RsState, id: u64)
    requires
        rs_wf(s),
        s.bound.dom().len() == s.pool.len(),
        !s.bound.dom().contains(id),
    ensures
        bind_spec(s, id).1 is None,
        resolve_spec(s, id).1 is None,
        resolve_spec(s, id).0 == s,
{
    assert(s.free.len() == 0);
}

/// LIFO reuse: releasing a binding and then binding a fresh id hands the
/// fresh id exactly the register most recently freed.
pub proof fn lemma_lifo_reuse(s: RsState, id_a: u64, id_b: u64)
    requires
        rs_wf(s),
        s.bound.dom().contains(id_a),
    ensures
        bind_spec(release_spec(s, id_a), id_b).1 == Some(s.pool[s.bound[id_a] as int]),
{
    let s1 = release_spec(s, id_a);
    assert(s1.free.last() == s.bound[id_a]);
}

/// The allocator: the ordered pool of registers, the LIFO stack of free
/// pool indices, and the map from virtual variable id to bound index.
/// One allocator serves one emission pass over one program.
#[derive(Debug)]
pub struct RegisterSet {
    registers: Vec<Register>,
    available: Vec<usize>,
    map: HashMap<u64, usize>,
}

impl RegisterSet {
    /// The allocator's model.
    pub closed spec fn model(&self) -> RsState {
        RsState {
            pool: self.registers@.map(|i: int, r: Register| r.name@),
            free: self.available@,
            bound: self.map@,
        }
    }

    /// The allocator invariant on the model.
    pub open spec fn wf(&self) -> bool {
        rs_wf(self.model())
    }

    /// A fresh allocator over the given pool: nothing bound, every index
    /// free, the highest index on top of the free stack.
    pub fn new(registers: &Vec<Register>) -> (rs: RegisterSet)
        ensures
            rs.wf(),
            rs.model().pool == registers@.map(|i: int, r: Register| r.name@),
            rs.model().free == Seq::new(registers@.len(), |i: int| i as usize),
            rs.model().bound == Map::<u64, usize>::empty(),
    {
        let n = registers.len();
        let mut available: Vec<usize> = Vec::new();
        let mut i: usize = 0;
        while i < n
            invariant
                0 <= i <= n,
                available@.len() == i,
                forall|j: int| 0 <= j < i ==> (#[trigger] available@[j]) == j as usize,
            decreases n - i,
        {
            available.push(i);
            i = i + 1;
        }
        let mut cloned: Vec<Register> = Vec::new();
        let mut k: usize = 0;
        while k < n
            invariant
                0 <= k <= n,
                n == registers@.len(),
                cloned@.len() == k,
                forall|j: int| 0 <= j < k ==> (#[trigger] cloned@[j]).name@ == registers@[j].name@,
            decreases n - k,
        {
            let r = registers[k].clone();
            cloned.push(r);
            k = k + 1;
        }
        let rs = RegisterSet { registers: cloned, available, map: HashMap::new() };
        proof {
            assert(rs.model().free =~= Seq::new(registers@.len(), |i: int| i as usize));
            assert(rs.model().pool =~= registers@.map(|i: int, r: Register| r.name@));
            assert(rs.model().bound.dom() =~= Set::<u64>::empty());
        }
        rs
    }

    /// Binds a not-yet-bound id to the most recently freed register and
    /// returns it; fails with no register when the pool is exhausted.
    pub fn add_register(&mut self, id: u64) -> (r: Option<Register>)
        requires
            old(self).wf(),
            !old(self).model().bound.dom().contains(id),
        ensures
            final(self).wf(),
            final(self).model() == bind_spec(old(self).model(), id).0,
            match r {
                Some(reg) => bind_spec(old(self).model(), id).1 == Some(reg.name@),
                None => bind_spec(old(self).model(), id).1 is None && final(self).model() == old(
                    self,
                ).model(),
            },
    {
        proof {
            lemma_bind_preserves_wf(old(self).model(), id);
        }
        match self.available.pop() {
            None => {
                proof {
                    assert(self.model() =~= old(self).model());
                }
                None
            },
            Some(index) => {
                self.map.insert(id, index);
                let reg = self.registers[index].clone();
                proof {
                    assert(self.model() =~= bind_spec(old(self).model(), id).0);
                }
                Some(reg)
            },
        }
    }

    /// Drops the binding of `i` and returns its register index to the top
    /// of the free stack.
    pub fn free_register(&mut self, i: u64)
        requires
            old(self).wf(),
            old(self).model().bound.dom().contains(i),
        ensures
            final(self).wf(),
            final(self).model() == release_spec(old(self).model(), i),
    {
        proof {
            lemma_release_preserves_wf(old(self).model(), i);
        }
        let index: usize = match self.map.get(&i) {
            Some(x) => *x,
            None => unreached(),
        };
        self.available.push(index);
        self.map.remove(&i);
        proof {
            assert(self.model() =~= release_spec(old(self).model(), i));
        }
    }

    /// Resolves an id to its register, binding it first if it is not bound
    /// yet; an already bound id keeps its register, so resolution is
    /// idempotent. Fails only when the id is unbound and the pool is
    /// exhausted.
    pub fn get_register(&mut self, id: u64) -> (r: Option<Register>)
        requires
            old(self).wf(),
        ensures
            final(self).wf(),
            final(self).model() == resolve_spec(old(self).model(), id).0,
            match r {
                Some(reg) => resolve_spec(old(self).model(), id).1 == Some(reg.name@),
                None => resolve_spec(old(self).model(), id).1 is None && final(self).model() == old(
                    self,
                ).model(),
            },
    {
        let cached: Option<usize> = match self.map.get(&id) {
            Some(x) => Some(*x),
            None => None,
        };
        match cached {
            Some(index) => {
                let reg = self.registers[index].clone();
                proof {
                    assert(self.model() =~= old(self).model());
                }
                Some(reg)
            },
            None => self.add_register(id),
        }
    }
}

/// Rendering an address in the GCC dialect: a constant as a bare decimal
/// immediate; a variable by resolving it against the allocator, which is
/// where register assignment actually happens, so emission order decides
/// the assignment.
pub open spec fn render_addr(s: RsState, a: Address) -> (RsState, Option<Seq<char>>) {
    match a {
        Address::Constant(value) => (s, Some(dec_chars(value as nat))),
        Address::Variable(id) => resolve_spec(s, id),
    }
}

/// A two-operand instruction line: the mnemonic, the first operand, a
/// comma, the second operand. Operands are rendered in the order they
/// appear in the text.
pub open spec fn render_binary(s: RsState, mnemonic: Seq<char>, first: Address, second: Address) -> (
    RsState,
    Option<Seq<char>>,
) {
    let (s1, t1) = render_addr(s, first);
    match t1 {
        None => (s1, None),
        Some(ta) => {
            let (s2, t2) = render_addr(s1, second);
            match t2 {
                None => (s2, None),
                Some(tb) => (s2, Some(mnemonic + ta + ", "@ + tb + "\n"@)),
            }
        },
    }
}

/// Rendering one TAC instruction in the GCC dialect, destination operand
/// first. `Return` honours the calling convention: the operand moves into
/// the return register before the control transfer.
pub open spec fn render_line(s: RsState, l: Line) -> (RsState, Option<Seq<char>>) {
    match l {
        Line::Add(a, b) => render_binary(s, "add "@, a, b),
        Line::Subtract(a, b) => render_binary(s, "sub "@, a, b),
        Line::Move(src, dst) => render_binary(s, "mov "@, dst, src),
        Line::Return(a) => {
            let (s1, t) = render_addr(s, a);
            match t {
                None => (s1, None),
                Some(ta) => (s1, Some("mov rax, "@ + ta + "\nret\n"@)),
            }
        },
    }
}

/// Rendering an instruction sequence in order, threading the allocator
/// state through; the first failure stops the sequence.
pub open spec fn render_lines(s: RsState, ls: Seq<Line>) -> (RsState, Option<Seq<char>>)
    decreases ls.len(),
{
    if ls.len() == 0 {
        (s, Some(Seq::empty()))
    } else {
        let (s1, t1) = render_lines(s, ls.drop_last());
        match t1 {
            None => (s1, None),
            Some(done) => {
                let (s2, t2) = render_line(s1, ls.last());
                match t2 {
                    None => (s2, None),
                    Some(tl) => (s2, Some(done + tl)),
                }
            },
        }
    }
}

/// Rendering one function: a global label followed by its instructions.
pub open spec fn render_function(s: RsState, name: Seq<char>, ls: Seq<Line>) -> (
    RsState,
    Option<Seq<char>>,
) {
    let (s1, t) = render_lines(s, ls);
    match t {
        None => (s1, None),
        Some(body) => (s1, Some(".global "@ + name + "\n"@ + name + ":\n"@ + body)),
    }
}

/// Rendering a whole program: every function in declaration order.
pub open spec fn render_program(s: RsState, fs: Seq<(Seq<char>, Seq<Line>)>) -> (
    RsState,
    Option<Seq<char>>,
)
    decreases fs.len(),
{
    if fs.len() == 0 {
        (s, Some(Seq::empty()))
    } else {
        let (s1, t1) = render_program(s, fs.drop_last());
        match t1 {
            None => (s1, None),
            Some(done) => {
                let (s2, t2) = render_function(s1, fs.last().0, fs.last().1);
                match t2 {
                    None => (s2, None),
                    Some(tf) => (s2, Some(done + tf)),
                }
            },
        }
    }
}

/// The emission view of a lowered program: each function's name and body,
/// in declaration order.
pub open spec fn program_model(p: Program) -> Seq<(Seq<char>, Seq<Line>)> {
    p.functions@.map(|i: int, nf: (String, crate::tac::Function)| (nf.0@, nf.1.spec_body()))
}

/// Determinism: rendering is a function of the program and the initial
/// allocator state alone. Together with `compile_program`'s contract,
/// rendering one program twice from equal allocator states yields
/// byte-identical assembly text.
pub proof fn lemma_render_deterministic(s1: RsState, s2: RsState, fs: Seq<(Seq<char>, Seq<Line>)>)
    requires
        s1 == s2,
    ensures
        render_program(s1, fs) == render_program(s2, fs),
{
}

/// A failure in a prefix of an instruction sequence is the failure of the
/// whole sequence.
proof fn lemma_render_lines_err(s: RsState, ls: Seq<Line>, i: int)
    requires
        0 <= i <= ls.len(),
        render_lines(s, ls.take(i)).1 is None,
    ensures
        render_lines(s, ls) == render_lines(s, ls.take(i)),
    decreases ls.len() - i,
{
    if i == ls.len() {
        assert(ls.take(i) =~= ls);
    } else {
        assert(ls.take(i + 1).drop_last() =~= ls.take(i));
        lemma_render_lines_err(s, ls, i + 1);
    }
}

/// A failure in a prefix of a function sequence is the failure of the
/// whole program.
proof fn lemma_render_program_err(s: RsState, fs: Seq<(Seq<char>, Seq<Line>)>, i: int)
    requires
        0 <= i <= fs.len(),
        render_program(s, fs.take(i)).1 is None,
    ensures
        render_program(s, fs) == render_program(s, fs.take(i)),
    decreases fs.len() - i,
{
    if i == fs.len() {
        assert(fs.take(i) =~= fs);
    } else {
        assert(fs.take(i + 1).drop_last() =~= fs.take(i));
        lemma_render_program_err(s, fs, i + 1);
    }
}

/// A target dialect: renders TAC operands, instructions, functions and
/// programs into one concrete assembly syntax, consuming an allocator to
/// resolve virtual ids to register names on first reference. Each level's
/// output is pinned by the dialect's own step functions on the model, so
/// rendering is deterministic for every dialect; failures are the
/// allocator's and propagate rather than being swallowed.
pub trait Dialect: Sized {
    /// The dialect's allocator state.
    spec fn state(&self) -> RsState;

    /// Well-formedness of the dialect's state.
    spec fn wf(&self) -> bool;

    /// What rendering an address does to the state, and its text.
    spec fn addr_step(s: RsState, addr: Address) -> (RsState, Option<Seq<char>>);

    /// What rendering one instruction does to the state, and its text.
    spec fn line_step(s: RsState, line: Line) -> (RsState, Option<Seq<char>>);

    /// What rendering a function does to the state, and its text.
    spec fn function_step(s: RsState, name: Seq<char>, lines: Seq<Line>) -> (
        RsState,
        Option<Seq<char>>,
    );

    /// What rendering a program does to the state, and its text.
    spec fn program_step(s: RsState, funcs: Seq<(Seq<char>, Seq<Line>)>) -> (
        RsState,
        Option<Seq<char>>,
    );

    fn compile_address(&mut self, addr: &Address) -> (r: Result<String, CompileError>)
        requires
            old(self).wf(),
        ensures
            final(self).wf(),
            final(self).state() == Self::addr_step(old(self).state(), *addr).0,
            match r {
                Ok(t) => Self::addr_step(old(self).state(), *addr).1 == Some(t@),
                Err(e) => Self::addr_step(old(self).state(), *addr).1 is None && e
                    == CompileError::OutOfRegisters,
            },
    ;

    fn compile_line(&mut self, line: &Line) -> (r: Result<String, CompileError>)
        requires
            old(self).wf(),
        ensures
            final(self).wf(),
            final(self).state() == Self::line_step(old(self).state(), *line).0,
            match r {
                Ok(t) => Self::line_step(old(self).state(), *line).1 == Some(t@),
                Err(e) => Self::line_step(old(self).state(), *line).1 is None && e
                    == CompileError::OutOfRegisters,
            },
    ;

    fn compile_function(&mut self, name: &str, lines: &Vec<Line>) -> (r: Result<
        String,
        CompileError,
    >)
        requires
            old(self).wf(),
        ensures
            final(self).wf(),
            final(self).state() == Self::function_step(old(self).state(), name@, lines@).0,
            match r {
                Ok(t) => Self::function_step(old(self).state(), name@, lines@).1 == Some(t@),
                Err(e) => Self::function_step(old(self).state(), name@, lines@).1 is None && e
                    == CompileError::OutOfRegisters,
            },
    ;

    fn compile_program(&mut self, program: &Program) -> (r: Result<String, CompileError>)
        requires
            old(self).wf(),
        ensures
            final(self).wf(),
            final(self).state() == Self::program_step(old(self).state(), program_model(*program)).0,
            match r {
                Ok(t) => Self::program_step(old(self).state(), program_model(*program)).1 == Some(
                    t@,
                ),
                Err(e) => Self::program_step(old(self).state(), program_model(*program)).1 is None
                    && e == CompileError::OutOfRegisters,
            },
    ;
}

/// The GCC-flavoured target dialect: Intel-style two-operand text with
/// the destination operand first, and `rax` as the return register.
pub struct GCC {
    register_set: RegisterSet,
}

impl GCC {
    pub fn new(register_set: RegisterSet) -> (g: GCC)
        ensures
            g.state() == register_set.model(),
            g.wf() == register_set.wf(),
    {
        GCC { register_set }
    }
}

impl Dialect for GCC {
    closed spec fn state(&self) -> RsState {
        self.register_set.model()
    }

    closed spec fn wf(&self) -> bool {
        self.register_set.wf()
    }

    open spec fn addr_step(s: RsState, addr: Address) -> (RsState, Option<Seq<char>>) {
        render_addr(s, addr)
    }

    open spec fn line_step(s: RsState, line: Line) -> (RsState, Option<Seq<char>>) {
        render_line(s, line)
    }

    open spec fn function_step(s: RsState, name: Seq<char>, lines: Seq<Line>) -> (
        RsState,
        Option<Seq<char>>,
    ) {
        render_function(s, name, lines)
    }

    open spec fn program_step(s: RsState, funcs: Seq<(Seq<char>, Seq<Line>)>) -> (
        RsState,
        Option<Seq<char>>,
    ) {
        render_program(s, funcs)
    }

    fn compile_address(&mut self, addr: &Address) -> (r: Result<String, CompileError>) {
        match addr {
            Address::Constant(value) => Ok(u64_to_string(*value)),
            Address::Variable(id) => match self.register_set.get_register(*id) {
                Some(reg) => Ok(reg.name),
                None => Err(CompileError::OutOfRegisters),
            },
        }
    }

    fn compile_line(&mut self, line: &Line) -> (r: Result<String, CompileError>) {
        match line {
            Line::Add(a, b) => {
                let ta = match self.compile_address(a) {
                    Ok(t) => t,
                    Err(e) => {
                        return Err(e);
                    },
                };
                let tb = match self.compile_address(b) {
                    Ok(t) => t,
                    Err(e) => {
                        return Err(e);
                    },
                };
                let mut s = String::new();
                s.append("add ");
                s.append(ta.as_str());
                s.append(", ");
                s.append(tb.as_str());
                s.append("\n");
                proof {
                    assert(s@ =~= "add "@ + ta@ + ", "@ + tb@ + "\n"@);
                }
                Ok(s)
            },
            Line::Subtract(a, b) => {
                let ta = match self.compile_address(a) {
                    Ok(t) => t,
                    Err(e) => {
                        return Err(e);
                    },
                };
                let tb = match self.compile_address(b) {
                    Ok(t) => t,
                    Err(e) => {
                        return Err(e);
                    },
                };
                let mut s = String::new();
                s.append("sub ");
                s.append(ta.as_str());
                s.append(", ");
                s.append(tb.as_str());
                s.append("\n");
                proof {
                    assert(s@ =~= "sub "@ + ta@ + ", "@ + tb@ + "\n"@);
                }
                Ok(s)
            },
            Line::Move(src, dst) => {
                let td = match self.compile_address(dst) {
                    Ok(t) => t,
                    Err(e) => {
                        return Err(e);
                    },
                };
                let ts = match self.compile_address(src) {
                    Ok(t) => t,
                    Err(e) => {
                        return Err(e);
                    },
                };
                let mut s = String::new();
                s.append("mov ");
                s.append(td.as_str());
                s.append(", ");
                s.append(ts.as_str());
                s.append("\n");
                proof {
                    assert(s@ =~= "mov "@ + td@ + ", "@ + ts@ + "\n"@);
                }
                Ok(s)
            },
            Line::Return(a) => {
                let ta = match self.compile_address(a) {
                    Ok(t) => t,
                    Err(e) => {
                        return Err(e);
                    },
                };
                let mut s = String::new();
                s.append("mov rax, ");
                s.append(ta.as_str());
                s.append("\nret\n");
                proof {
                    assert(s@ =~= "mov rax, "@ + ta@ + "\nret\n"@);
                }
                Ok(s)
            },
        }
    }

    fn compile_function(&mut self, name: &str, lines: &Vec<Line>) -> (r: Result<
        String,
        CompileError,
    >) {
        let ghost s0 = self.state();
        let mut body = String::new();
        let n = lines.len();
        let mut i: usize = 0;
        proof {
            assert(lines@.take(0) =~= Seq::<Line>::empty());
        }
        #[verifier::loop_isolation(false)]
        while i < n
            invariant
                0 <= i <= n,
                n == lines@.len(),
                self.wf(),
                render_lines(s0, lines@.take(i as int)) == (self.state(), Some(body@)),
            decreases n - i,
        {
            proof {
                assert(lines@.take(i as int + 1).drop_last() =~= lines@.take(i as int));
                assert(lines@.take(i as int + 1).last() == lines@[i as int]);
            }
            let line_text = match self.compile_line(&lines[i]) {
                Ok(t) => t,
                Err(e) => {
                    proof {
                        lemma_render_lines_err(s0, lines@, i as int + 1);
                    }
                    return Err(e);
                },
            };
            body.append(line_text.as_str());
            i = i + 1;
        }
        proof {
            assert(lines@.take(n as int) =~= lines@);
        }
        let mut out = String::new();
        out.append(".global ");
        out.append(name);
        out.append("\n");
        out.append(name);
        out.append(":\n");
        out.append(body.as_str());
        proof {
            assert(out@ =~= ".global "@ + name@ + "\n"@ + name@ + ":\n"@ + body@);
        }
        Ok(out)
    }

    fn compile_program(&mut self, program: &Program) -> (r: Result<String, CompileError>) {
        let ghost s0 = self.state();
        let ghost pm = program_model(*program);
        let mut out = String::new();
        let n = program.functions.len();
        let mut i: usize = 0;
        proof {
            assert(pm.take(0) =~= Seq::<(Seq<char>, Seq<Line>)>::empty());
        }
        #[verifier::loop_isolation(false)]
        while i < n
            invariant
                0 <= i <= n,
                n == program.functions@.len(),
                self.wf(),
                render_program(s0, pm.take(i as int)) == (self.state(), Some(out@)),
            decreases n - i,
        {
            proof {
                assert(pm.take(i as int + 1).drop_last() =~= pm.take(i as int));
                assert(pm.take(i as int + 1).last() == pm[i as int]);
                assert(pm[i as int] == (
                    program.functions@[i as int].0@,
                    program.functions@[i as int].1.spec_body(),
                ));
            }
            let entry = &program.functions[i];
            let func_text = match self.compile_function(entry.0.as_str(), &entry.1.body) {
                Ok(t) => t,
                Err(e) => {
                    proof {
                        lemma_render_program_err(s0, pm, i as int + 1);
                    }
                    return Err(e);
                },
            };
            out.append(func_text.as_str());
            i = i + 1;
        }
        proof {
            assert(pm.take(n as int) =~= pm);
        }
        Ok(out)
    }
}

} // verus!
