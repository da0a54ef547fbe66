use vstd::prelude::*;
use vstd::string::StringExecFns;
use crate::ast::{Statement, StatementV, lemma_stmts_view_push, stmts_view};
use crate::error::CompileError;
use crate::text::{dec_seq, decimal_string};

verus! {

#[derive(Debug, Clone, Copy, PartialEq, Eq, Structural)]
pub enum Register {
    Zero,
    AT,
    V0,
    V1,
    A0,
    A1,
    A2,
    A3,
    T0,
    T1,
    T2,
    T3,
    T4,
    T5,
    T6,
    T7,
    S0,
    S1,
    S2,
    S3,
    S4,
    S5,
    S6,
    S7,
    T8,
    T9,
    K0,
    K1,
    GP,
    SP,
    FP,
    RA,
}

#[derive(Debug, Clone, Copy, PartialEq, Eq, Structural)]
pub enum VariableLocation {
    Stack,
    ArgumentRegister,
}

/// The assembly name of a register.
pub open spec fn register_name(r: Register) -> Seq<char> {
    match r {
        Register::Zero => "$zero"@,
        Register::AT => "$at"@,
        Register::V0 => "$v0"@,
        Register::V1 => "$v1"@,
        Register::A0 => "$a0"@,
        Register::A1 => "$a1"@,
        Register::A2 => "$a2"@,
        Register::A3 => "$a3"@,
        Register::T0 => "$t0"@,
        Register::T1 => "$t1"@,
        Register::T2 => "$t2"@,
        Register::T3 => "$t3"@,
        Register::T4 => "$t4"@,
        Register::T5 => "$t5"@,
        Register::T6 => "$t6"@,
        Register::T7 => "$t7"@,
        Register::S0 => "$s0"@,
        Register::S1 => "$s1"@,
        Register::S2 => "$s2"@,
        Register::S3 => "$s3"@,
        Register::S4 => "$s4"@,
        Register::S5 => "$s5"@,
        Register::S6 => "$s6"@,
        Register::S7 => "$s7"@,
        Register::T8 => "$t8"@,
        Register::T9 => "$t9"@,
        Register::K0 => "$k0"@,
        Register::K1 => "$k1"@,
        Register::GP => "$gp"@,
        Register::SP => "$sp"@,
        Register::FP => "$fp"@,
        Register::RA => "$ra"@,
    }
}

impl Register {
    /// The assembly name of the register, such as `$t0`.
    pub fn name(&self) -> (r: String)
        ensures
            r@ == register_name(*self),
    {
        let s = match self {
            Register::Zero => "$zero",
            Register::AT => "$at",
            Register::V0 => "$v0",
            Register::V1 => "$v1",
            Register::A0 => "$a0",
            Register::A1 => "$a1",
            Register::A2 => "$a2",
            Register::A3 => "$a3",
            Register::T0 => "$t0",
            Register::T1 => "$t1",
            Register::T2 => "$t2",
            Register::T3 => "$t3",
            Register::T4 => "$t4",
            Register::T5 => "$t5",
            Register::T6 => "$t6",
            Register::T7 => "$t7",
            Register::S0 => "$s0",
            Register::S1 => "$s1",
            Register::S2 => "$s2",
            Register::S3 => "$s3",
            Register::S4 => "$s4",
            Register::S5 => "$s5",
            Register::S6 => "$s6",
            Register::S7 => "$s7",
            Register::T8 => "$t8",
            Register::T9 => "$t9",
            Register::K0 => "$k0",
            Register::K1 => "$k1",
            Register::GP => "$gp",
            Register::SP => "$sp",
            Register::FP => "$fp",
            Register::RA => "$ra",
        };
        String::from_str(s)
    }
}

/// The scratch registers, in the order they are leased.
pub open spec fn temp_pool() -> Seq<Register> {
    seq![
        Register::T0,
        Register::T1,
        Register::T2,
        Register::T3,
        Register::T4,
        Register::T5,
        Register::T6,
        Register::T7,
    ]
}

/// The argument registers, in the order they are leased.
pub open spec fn argument_pool() -> Seq<Register> {
    seq![Register::A0, Register::A1, Register::A2, Register::A3]
}

/// The first register of `pool` that `used` does not hold.
pub open spec fn first_free(pool: Seq<Register>, used: Seq<Register>) -> Option<Register>
    decreases pool.len(),
{
    if pool.len() == 0 {
        None
    } else if !used.contains(pool[0]) {
        Some(pool[0])
    } else {
        first_free(pool.drop_first(), used)
    }
}

/// `s` without the first occurrence of `r`.
pub open spec fn without(s: Seq<Register>, r: Register) -> Seq<Register>
    decreases s.len(),
{
    if s.len() == 0 {
        s
    } else if s[0] == r {
        s.drop_first()
    } else {
        seq![s[0]] + without(s.drop_first(), r)
    }
}

/// The value bound to `name` by its first entry, if any.
pub open spec fn lookup<V>(s: Seq<(Seq<char>, V)>, name: Seq<char>) -> Option<V>
    decreases s.len(),
{
    if s.len() == 0 {
        None
    } else if s[0].0 == name {
        Some(s[0].1)
    } else {
        lookup(s.drop_first(), name)
    }
}

/// `s` with `name` bound to `v`: its entry replaced if it has one, else a new entry last.
pub open spec fn bind<V>(s: Seq<(Seq<char>, V)>, name: Seq<char>, v: V) -> Seq<(Seq<char>, V)>
    decreases s.len(),
{
    if s.len() == 0 {
        seq![(name, v)]
    } else if s[0].0 == name {
        s.update(0, (name, v))
    } else {
        seq![s[0]] + bind(s.drop_first(), name, v)
    }
}

/// The registers held by argument bindings.
pub open spec fn bound_registers(s: Seq<(Seq<char>, Register)>) -> Seq<Register> {
    s.map_values(|e: (Seq<char>, Register)| e.1)
}

/// Stack slots that a statement list needs: one per variable declaration, in nested loop and
/// conditional bodies too, and one more per `for` for its induction variable.
pub open spec fn decl_slots(ss: Seq<StatementV>) -> nat
    decreases ss,
{
    if ss.len() == 0 {
        0
    } else {
        decl_slots(ss.drop_last()) + stmt_slots(ss.last())
    }
}

pub open spec fn stmt_slots(s: StatementV) -> nat
    decreases s,
{
    match s {
        StatementV::VariableDeclaration { .. } => 1,
        StatementV::While { body, .. } => decl_slots(body),
        StatementV::If { body, .. } => decl_slots(body),
        StatementV::For { body, .. } => 1 + decl_slots(body),
        _ => 0,
    }
}

/// The stack operand for an offset: `<offset>($sp)`.
pub open spec fn stack_operand(offset: usize) -> Seq<char> {
    dec_seq(offset as nat) + "($sp)"@
}

proof fn lemma_lookup_found<V>(s: Seq<(Seq<char>, V)>, name: Seq<char>, i: int)
    requires
        0 <= i < s.len(),
        s[i].0 == name,
        forall|j: int| 0 <= j < i ==> s[j].0 != name,
    ensures
        lookup(s, name) == Some(s[i].1),
        bind(s, name, s[i].1) == s,
    decreases i,
{
    if i > 0 {
        lemma_lookup_found(s.drop_first(), name, i - 1);
        assert(seq![s[0]] + s.drop_first() =~= s);
    } else {
        assert(s.update(0, (name, s[0].1)) =~= s);
    }
}

proof fn lemma_lookup_missing<V>(s: Seq<(Seq<char>, V)>, name: Seq<char>)
    requires
        forall|j: int| 0 <= j < s.len() ==> s[j].0 != name,
    ensures
        lookup(s, name) is None,
    decreases s.len(),
{
    if s.len() > 0 {
        lemma_lookup_missing(s.drop_first(), name);
    }
}

proof fn lemma_bind_at<V>(s: Seq<(Seq<char>, V)>, name: Seq<char>, v: V, i: int)
    requires
        0 <= i < s.len(),
        s[i].0 == name,
        forall|j: int| 0 <= j < i ==> s[j].0 != name,
    ensures
        bind(s, name, v) == s.update(i, (name, v)),
    decreases i,
{
    if i > 0 {
        lemma_bind_at(s.drop_first(), name, v, i - 1);
        assert(seq![s[0]] + s.drop_first().update(i - 1, (name, v)) =~= s.update(i, (name, v)));
    }
}

proof fn lemma_bind_new<V>(s: Seq<(Seq<char>, V)>, name: Seq<char>, v: V)
    requires
        forall|j: int| 0 <= j < s.len() ==> s[j].0 != name,
    ensures
        bind(s, name, v) == s.push((name, v)),
    decreases s.len(),
{
    if s.len() > 0 {
        lemma_bind_new(s.drop_first(), name, v);
        assert(seq![s[0]] + s.drop_first().push((name, v)) =~= s.push((name, v)));
    }
}

pub(crate) proof fn lemma_first_free_skip(pool: Seq<Register>, used: Seq<Register>, i: int)
    requires
        0 <= i <= pool.len(),
        forall|j: int| 0 <= j < i ==> used.contains(pool[j]),
    ensures
        first_free(pool, used) == first_free(pool.subrange(i, pool.len() as int), used),
    decreases i,
{
    if i > 0 {
        lemma_first_free_skip(pool.drop_first(), used, i - 1);
        assert(pool.drop_first().subrange(i - 1, pool.drop_first().len() as int) =~= pool.subrange(
            i,
            pool.len() as int,
        ));
    } else {
        assert(pool.subrange(0, pool.len() as int) =~= pool);
    }
}

pub(crate) proof fn lemma_without_at(s: Seq<Register>, r: Register, i: int)
    requires
        0 <= i < s.len(),
        s[i] == r,
        forall|j: int| 0 <= j < i ==> s[j] != r,
    ensures
        without(s, r) == s.remove(i),
    decreases i,
{
    if i > 0 {
        lemma_without_at(s.drop_first(), r, i - 1);
        assert(seq![s[0]] + s.drop_first().remove(i - 1) =~= s.remove(i));
    }
}

proof fn lemma_without_missing(s: Seq<Register>, r: Register)
    requires
        !s.contains(r),
    ensures
        without(s, r) == s,
    decreases s.len(),
{
    if s.len() > 0 {
        assert(!s.drop_first().contains(r)) by {
            if s.drop_first().contains(r) {
                let j = choose|j: int| 0 <= j < s.drop_first().len() && s.drop_first()[j] == r;
                assert(s[j + 1] == r);
            }
        }
        lemma_without_missing(s.drop_first(), r);
        assert(seq![s[0]] + s.drop_first() =~= s);
    }
}

pub(crate) proof fn lemma_slots_push(ss: Seq<StatementV>, s: StatementV)
    ensures
        decl_slots(ss.push(s)) == decl_slots(ss) + stmt_slots(s),
{
    assert(ss.push(s).drop_last() =~= ss);
}

pub(crate) proof fn lemma_slots_prefix(ss: Seq<StatementV>, i: int)
    requires
        0 <= i <= ss.len(),
    ensures
        decl_slots(ss.subrange(0, i)) <= decl_slots(ss),
    decreases ss.len() - i,
{
    if i < ss.len() {
        lemma_slots_prefix(ss, i + 1);
        assert(ss.subrange(0, i + 1).drop_last() =~= ss.subrange(0, i));
    } else {
        assert(ss.subrange(0, i) =~= ss);
    }
}


/// No name has two entries.
pub open spec fn names_unique<V>(s: Seq<(Seq<char>, V)>) -> bool {
    forall|i: int, j: int| 0 <= i < j < s.len() ==> #[trigger] s[i].0 != #[trigger] s[j].0
}

/// Binding a name keeps the names unique: an existing entry is replaced, a new one appended.
pub proof fn lemma_bind_unique<V>(s: Seq<(Seq<char>, V)>, name: Seq<char>, v: V)
    requires
        names_unique(s),
    ensures
        names_unique(bind(s, name, v)),
        bind(s, name, v).len() == if lookup(s, name) is Some { s.len() } else { s.len() + 1 },
    decreases s.len(),
{
    if s.len() > 0 && s[0].0 != name {
        let t = s.drop_first();
        assert(names_unique(t)) by {
            assert forall|i: int, j: int| 0 <= i < j < t.len() implies #[trigger] t[i].0 != #[trigger] t[j].0 by {
                assert(t[i] == s[i + 1] && t[j] == s[j + 1]);
            }
        }
        lemma_bind_unique(t, name, v);
        lemma_bind_keeps_names(t, name, v);
        let b = bind(s, name, v);
        assert forall|i: int, j: int| 0 <= i < j < b.len() implies #[trigger] b[i].0 != #[trigger] b[j].0 by {
            if i == 0 {
                let bt = bind(t, name, v);
                assert(b[j] == bt[j - 1]);
                if bt[j - 1].0 == name {
                } else {
                    let k = choose|k: int| 0 <= k < t.len() && t[k].0 == bt[j - 1].0;
                    assert(s[k + 1] == t[k]);
                }
            } else {
                assert(b[i] == bind(t, name, v)[i - 1] && b[j] == bind(t, name, v)[j - 1]);
            }
        }
    } else if s.len() > 0 {
        let b = s.update(0, (name, v));
        assert forall|i: int, j: int| 0 <= i < j < b.len() implies #[trigger] b[i].0 != #[trigger] b[j].0 by {
            assert(b[j] == s[j]);
            if i > 0 {
                assert(b[i] == s[i]);
            }
        }
    }
}

/// Every name bound after `bind` is `name` or was bound before.
proof fn lemma_bind_keeps_names<V>(s: Seq<(Seq<char>, V)>, name: Seq<char>, v: V)
    ensures
        forall|j: int|
            0 <= j < bind(s, name, v).len() ==> (#[trigger] bind(s, name, v)[j]).0 == name || exists|k: int|
                0 <= k < s.len() && s[k].0 == bind(s, name, v)[j].0,
    decreases s.len(),
{
    if s.len() > 0 && s[0].0 != name {
        let t = s.drop_first();
        lemma_bind_keeps_names(t, name, v);
        let b = bind(s, name, v);
        assert forall|j: int| 0 <= j < b.len() implies (#[trigger] b[j]).0 == name || exists|k: int|
            0 <= k < s.len() && s[k].0 == b[j].0 by {
            if j == 0 {
                assert(s[0].0 == b[0].0);
            } else {
                assert(b[j] == bind(t, name, v)[j - 1]);
                if bind(t, name, v)[j - 1].0 != name {
                    let k = choose|k: int| 0 <= k < t.len() && t[k].0 == bind(t, name, v)[j - 1].0;
                    assert(s[k + 1] == t[k]);
                }
            }
        }
    } else if s.len() > 0 {
        let b = bind(s, name, v);
        assert forall|j: int| 0 <= j < b.len() implies (#[trigger] b[j]).0 == name || exists|k: int|
            0 <= k < s.len() && s[k].0 == b[j].0 by {
            if j > 0 {
                assert(s[j].0 == b[j].0);
            }
        }
    }
}

/// The names bound by a list of entries.
pub open spec fn names_of<V>(s: Seq<(String, V)>) -> Seq<(Seq<char>, V)> {
    s.map_values(|e: (String, V)| (e.0@, e.1))
}

/// Per-function bookkeeping: leased scratch registers, argument registers of parameters, and
/// stack slots of local variables.
pub struct Allocator {
    used_registers: Vec<Register>,
    argument_registers: Vec<(String, Register)>,
    stack_variables: Vec<(String, usize)>,
    stack_size: usize,
}

impl Allocator {
    /// The leased scratch registers, in the order they were leased.
    pub closed spec fn used(&self) -> Seq<Register> {
        self.used_registers@
    }

    /// The parameters bound to argument registers, in binding order.
    pub closed spec fn arguments(&self) -> Seq<(Seq<char>, Register)> {
        names_of(self.argument_registers@)
    }

    /// The variables bound to stack offsets, in declaration order.
    pub closed spec fn stack_vars(&self) -> Seq<(Seq<char>, usize)> {
        names_of(self.stack_variables@)
    }

    /// The frame size in bytes.
    pub closed spec fn frame_size(&self) -> usize {
        self.stack_size
    }

    /// Each parameter and each stack variable has one entry.
    pub closed spec fn wf(&self) -> bool {
        &&& names_unique(self.arguments())
        &&& names_unique(self.stack_vars())
    }

    pub fn new() -> (r: Allocator)
        ensures
            r.used() == Seq::<Register>::empty(),
            r.arguments() == Seq::<(Seq<char>, Register)>::empty(),
            r.stack_vars() == Seq::<(Seq<char>, usize)>::empty(),
            r.frame_size() == 0,
            r.wf(),
    {
        let r = Allocator {
            used_registers: Vec::new(),
            argument_registers: Vec::new(),
            stack_variables: Vec::new(),
            stack_size: 0,
        };
        proof {
            assert(r.arguments() =~= Seq::<(Seq<char>, Register)>::empty());
            assert(r.stack_vars() =~= Seq::<(Seq<char>, usize)>::empty());
        }
        r
    }

    /// Leases the first scratch register that is not leased; none when all eight are.
    pub fn allocate_temp(&mut self) -> (r: Option<Register>)
        ensures
            old(self).wf() ==> final(self).wf(),
            r == first_free(temp_pool(), old(self).used()),
            final(self).used() == match r {
                Some(reg) => old(self).used().push(reg),
                None => old(self).used(),
            },
            final(self).arguments() == old(self).arguments(),
            final(self).stack_vars() == old(self).stack_vars(),
            final(self).frame_size() == old(self).frame_size(),
    {
        let temp_registers = [
            Register::T0,
            Register::T1,
            Register::T2,
            Register::T3,
            Register::T4,
            Register::T5,
            Register::T6,
            Register::T7,
        ];
        let ghost pool = temp_pool();
        assert(temp_registers@ =~= pool);
        let mut i: usize = 0;
        while i < 8
            invariant
                i <= 8,
                temp_registers@ == pool,
                pool == temp_pool(),
                self.used_registers@ == old(self).used_registers@,
                self.argument_registers@ == old(self).argument_registers@,
                self.stack_variables@ == old(self).stack_variables@,
                self.stack_size == old(self).stack_size,
                forall|j: int| 0 <= j < i ==> self.used_registers@.contains(pool[j]),
            decreases 8 - i,
        {
            let reg = temp_registers[i];
            if !contains_register(&self.used_registers, reg) {
                proof {
                    lemma_first_free_skip(pool, self.used_registers@, i as int);
                    assert(pool.subrange(i as int, 8)[0] == reg);
                }
                self.used_registers.push(reg);
                return Some(reg);
            }
            i = i + 1;
        }
        proof {
            lemma_first_free_skip(pool, self.used_registers@, 8);
        }
        None
    }

    /// Returns a scratch register to the pool; a register that is not leased is ignored.
    pub fn free_temp(&mut self, reg: Register)
        ensures
            old(self).wf() ==> final(self).wf(),
            final(self).used() == without(old(self).used(), reg),
            final(self).arguments() == old(self).arguments(),
            final(self).stack_vars() == old(self).stack_vars(),
            final(self).frame_size() == old(self).frame_size(),
    {
        let mut i: usize = 0;
        while i < self.used_registers.len()
            invariant
                i <= self.used_registers@.len(),
                self.used_registers@ == old(self).used_registers@,
                self.argument_registers@ == old(self).argument_registers@,
                self.stack_variables@ == old(self).stack_variables@,
                self.stack_size == old(self).stack_size,
                forall|j: int| 0 <= j < i ==> self.used_registers@[j] != reg,
            decreases self.used_registers@.len() - i,
        {
            if self.used_registers[i] == reg {
                proof {
                    lemma_without_at(self.used_registers@, reg, i as int);
                }
                self.used_registers.remove(i);
                return;
            }
            i = i + 1;
        }
        proof {
            lemma_without_missing(self.used_registers@, reg);
        }
    }

    /// Grows the frame by the space a function needs: a word for each parameter and one for the
    /// return address, and a word for each stack slot of its body.
    pub fn calculate_needed_stack_space(&mut self, body: &Vec<Statement>, num_params: usize) -> (r: usize)
        requires
            old(self).frame_size() + 4 * (num_params + 1) + 4 * decl_slots(stmts_view(body@)) <= usize::MAX,
        ensures
            old(self).wf() ==> final(self).wf(),
            r == final(self).frame_size(),
            final(self).frame_size() == old(self).frame_size() + 4 * (num_params + 1) + 4 * decl_slots(
                stmts_view(body@),
            ),
            final(self).used() == old(self).used(),
            final(self).arguments() == old(self).arguments(),
            final(self).stack_vars() == old(self).stack_vars(),
    {
        self.stack_size = self.stack_size + 4 * (num_params + 1);
        self.calculate_needed_stack_space_helper(body.as_slice());
        self.stack_size
    }

    fn calculate_needed_stack_space_helper(&mut self, statements: &[Statement])
        requires
            old(self).frame_size() + 4 * decl_slots(stmts_view(statements@)) <= usize::MAX,
        ensures
            final(self).frame_size() == old(self).frame_size() + 4 * decl_slots(stmts_view(statements@)),
            final(self).used() == old(self).used(),
            final(self).arguments() == old(self).arguments(),
            final(self).stack_vars() == old(self).stack_vars(),
        decreases statements@,
    {
        let ghost total = decl_slots(stmts_view(statements@));
        let mut i: usize = 0;
        while i < statements.len()
            invariant
                i <= statements@.len(),
                total == decl_slots(stmts_view(statements@)),
                old(self).frame_size() + 4 * total <= usize::MAX,
                self.stack_size == old(self).stack_size + 4 * decl_slots(
                    stmts_view(statements@.subrange(0, i as int)),
                ),
                self.used() == old(self).used(),
                self.arguments() == old(self).arguments(),
                self.stack_vars() == old(self).stack_vars(),
            decreases statements@.len() - i,
        {
            let ghost sub = statements@.subrange(0, i as int);
            proof {
                lemma_stmts_view_push(sub, statements@[i as int]);
                assert(sub.push(statements@[i as int]) =~= statements@.subrange(0, i + 1));
                lemma_slots_push(stmts_view(sub), statements@[i as int].view());
                crate::ast::lemma_stmts_view_len(statements@);
                lemma_slots_prefix(stmts_view(statements@), i + 1);
                assert(stmts_view(statements@).subrange(0, i + 1) =~= stmts_view(statements@.subrange(0, i + 1))) by {
                    crate::ast::lemma_stmts_view_len(statements@.subrange(0, i + 1));
                }
            }
            match &statements[i] {
                Statement::VariableDeclaration { .. } => {
                    self.stack_size = self.stack_size + 4;
                },
                Statement::While { body, .. } | Statement::If { body, .. } => {
                    proof {
                        assert(decreases_to!(statements@ => statements@[i as int]));
                    }
                    self.calculate_needed_stack_space_helper(body.as_slice());
                },
                Statement::For { body, .. } => {
                    self.stack_size = self.stack_size + 4;
                    proof {
                        assert(decreases_to!(statements@ => statements@[i as int]));
                    }
                    self.calculate_needed_stack_space_helper(body.as_slice());
                },
                _ => {},
            }
            i = i + 1;
        }
        proof {
            assert(statements@.subrange(0, statements@.len() as int) =~= statements@);
        }
    }

    /// Binds a parameter to the first argument register that no parameter holds; fails when
    /// all four are held, leaving the allocator as it was.
    pub fn add_argument(&mut self, name: &str) -> (r: Result<(), CompileError>)
        ensures
            old(self).wf() ==> final(self).wf(),
            final(self).used() == old(self).used(),
            final(self).stack_vars() == old(self).stack_vars(),
            final(self).frame_size() == old(self).frame_size(),
            match first_free(argument_pool(), bound_registers(old(self).arguments())) {
                Some(reg) => r is Ok && final(self).arguments() == bind(old(self).arguments(), name@, reg),
                None => r matches Err(e) && e is CodeGenError && final(self).arguments()
                    == old(self).arguments(),
            },
    {
        let arg_registers = [Register::A0, Register::A1, Register::A2, Register::A3];
        let ghost pool = argument_pool();
        let ghost held = bound_registers(old(self).arguments());
        assert(arg_registers@ =~= pool);
        let mut i: usize = 0;
        while i < 4
            invariant
                i <= 4,
                arg_registers@ == pool,
                pool == argument_pool(),
                held == bound_registers(self.arguments()),
                held == bound_registers(old(self).arguments()),
                self.used_registers@ == old(self).used_registers@,
                self.argument_registers@ == old(self).argument_registers@,
                self.stack_variables@ == old(self).stack_variables@,
                self.stack_size == old(self).stack_size,
                forall|j: int| 0 <= j < i ==> held.contains(pool[j]),
            decreases 4 - i,
        {
            let reg = arg_registers[i];
            if !self.holds_argument_register(reg) {
                proof {
                    lemma_first_free_skip(pool, held, i as int);
                    assert(pool.subrange(i as int, 4)[0] == reg);
                }
                proof {
                    if self.wf() {
                        lemma_bind_unique(self.arguments(), name@, reg);
                    }
                }
                let key = String::from_str(name);
                self.bind_argument(key, reg);
                return Ok(());
            }
            i = i + 1;
        }
        proof {
            lemma_first_free_skip(pool, held, 4);
        }
        Err(CompileError::CodeGenError { message: String::from_str("Out of argument registers"), line: 0 })
    }

    fn holds_argument_register(&self, reg: Register) -> (r: bool)
        ensures
            r == bound_registers(self.arguments()).contains(reg),
    {
        let mut i: usize = 0;
        while i < self.argument_registers.len()
            invariant
                i <= self.argument_registers@.len(),
                forall|j: int| 0 <= j < i ==> self.argument_registers@[j].1 != reg,
            decreases self.argument_registers@.len() - i,
        {
            if self.argument_registers[i].1 == reg {
                assert(bound_registers(self.arguments())[i as int] == reg);
                return true;
            }
            i = i + 1;
        }
        proof {
            if bound_registers(self.arguments()).contains(reg) {
                let j = choose|j: int| 0 <= j < bound_registers(self.arguments()).len() && bound_registers(self.arguments())[j] == reg;
                assert(self.argument_registers@[j].1 == reg);
            }
        }
        false
    }

    fn bind_argument(&mut self, name: String, reg: Register)
        ensures
            final(self).arguments() == bind(old(self).arguments(), name@, reg),
            final(self).used() == old(self).used(),
            final(self).stack_vars() == old(self).stack_vars(),
            final(self).frame_size() == old(self).frame_size(),
    {
        let ghost s = self.arguments();
        let mut i: usize = 0;
        while i < self.argument_registers.len()
            invariant
                i <= self.argument_registers@.len(),
                s == self.arguments(),
                self.argument_registers@ == old(self).argument_registers@,
                self.used_registers@ == old(self).used_registers@,
                self.stack_variables@ == old(self).stack_variables@,
                self.stack_size == old(self).stack_size,
                forall|j: int| 0 <= j < i ==> s[j].0 != name@,
            decreases self.argument_registers@.len() - i,
        {
            if self.argument_registers[i].0 == name {
                proof {
                    assert(s[i as int].0 == name@);
                    lemma_bind_at(s, name@, reg, i as int);
                }
                self.argument_registers.set(i, (name, reg));
                proof {
                    assert(self.arguments() =~= s.update(i as int, (name@, reg)));
                }
                return;
            }
            assert(s[i as int].0 != name@);
            i = i + 1;
        }
        proof {
            lemma_bind_new(s, name@, reg);
        }
        self.argument_registers.push((name, reg));
        proof {
            assert(self.arguments() =~= s.push((name@, reg)));
        }
    }

    /// The assembly name of the register bound to a parameter; a name that no parameter
    /// binds is an undefined-variable error.
    pub fn get_argument_register(&self, name: &str) -> (r: Result<String, CompileError>)
        ensures
            match lookup(self.arguments(), name@) {
                Some(reg) => r matches Ok(s) && s@ == register_name(reg),
                None => r matches Err(e) && undefined_error(e, name@),
            },
    {
        let ghost s = self.arguments();
        let mut i: usize = 0;
        while i < self.argument_registers.len()
            invariant
                i <= self.argument_registers@.len(),
                s == self.arguments(),
                forall|j: int| 0 <= j < i ==> s[j].0 != name@,
            decreases self.argument_registers@.len() - i,
        {
            if str_equal(self.argument_registers[i].0.as_str(), name) {
                proof {
                    lemma_lookup_found(s, name@, i as int);
                }
                return Ok(self.argument_registers[i].1.name());
            }
            i = i + 1;
        }
        proof {
            lemma_lookup_missing(s, name@);
        }
        Err(undefined(name))
    }

    /// Binds a variable to the next stack slot: the frame fills from the top down, so the
    /// `k`-th variable (from 0) lies at `frame - 4 * (k + 1)`.
    pub fn add_stack_variable(&mut self, name: &str)
        requires
            4 * (old(self).stack_vars().len() + 1) <= old(self).frame_size(),
        ensures
            old(self).wf() ==> final(self).wf(),
            final(self).stack_vars() == bind(
                old(self).stack_vars(),
                name@,
                (old(self).frame_size() - 4 * (old(self).stack_vars().len() + 1)) as usize,
            ),
            final(self).used() == old(self).used(),
            final(self).arguments() == old(self).arguments(),
            final(self).frame_size() == old(self).frame_size(),
    {
        let offset = self.stack_size - 4 * (self.stack_variables.len() + 1);
        let ghost s = self.stack_vars();
        proof {
            if self.wf() {
                lemma_bind_unique(s, name@, offset);
            }
        }
        let key = String::from_str(name);
        let mut i: usize = 0;
        while i < self.stack_variables.len()
            invariant
                i <= self.stack_variables@.len(),
                s == self.stack_vars(),
                self.stack_variables@ == old(self).stack_variables@,
                self.used_registers@ == old(self).used_registers@,
                self.argument_registers@ == old(self).argument_registers@,
                self.stack_size == old(self).stack_size,
                key@ == name@,
                s == old(self).stack_vars(),
                offset == old(self).frame_size() - 4 * (old(self).stack_vars().len() + 1),
                forall|j: int| 0 <= j < i ==> s[j].0 != name@,
            decreases self.stack_variables@.len() - i,
        {
            if self.stack_variables[i].0 == key {
                proof {
                    assert(s[i as int].0 == name@);
                    lemma_bind_at(s, name@, offset, i as int);
                }
                self.stack_variables.set(i, (key, offset));
                proof {
                    assert(self.stack_vars() =~= s.update(i as int, (name@, offset)));
                }
                return;
            }
            assert(s[i as int].0 != name@);
            i = i + 1;
        }
        proof {
            lemma_bind_new(s, name@, offset);
        }
        self.stack_variables.push((key, offset));
        proof {
            assert(self.stack_vars() =~= s.push((name@, offset)));
        }
    }

    /// How many variables have stack slots.
    pub fn stack_variable_count(&self) -> (r: usize)
        ensures
            r == self.stack_vars().len(),
    {
        self.stack_variables.len()
    }

    pub fn get_stack_size(&self) -> (r: &usize)
        ensures
            *r == self.frame_size(),
    {
        &self.stack_size
    }

    /// The stack offset bound to a variable, if there is one.
    pub fn get_stack_variable_offset(&self, name: &str) -> (r: Option<usize>)
        ensures
            r == lookup(self.stack_vars(), name@),
    {
        let ghost s = self.stack_vars();
        let mut i: usize = 0;
        while i < self.stack_variables.len()
            invariant
                i <= self.stack_variables@.len(),
                s == self.stack_vars(),
                forall|j: int| 0 <= j < i ==> s[j].0 != name@,
            decreases self.stack_variables@.len() - i,
        {
            if str_equal(self.stack_variables[i].0.as_str(), name) {
                proof {
                    lemma_lookup_found(s, name@, i as int);
                }
                return Some(self.stack_variables[i].1);
            }
            i = i + 1;
        }
        proof {
            lemma_lookup_missing(s, name@);
        }
        None
    }

    /// Where a name lives: on the stack if it has a slot, else in an argument register.
    pub fn get_variable_location(&self, name: &str) -> (r: VariableLocation)
        ensures
            r == (if lookup(self.stack_vars(), name@) is Some {
                VariableLocation::Stack
            } else {
                VariableLocation::ArgumentRegister
            }),
    {
        match self.get_stack_variable_offset(name) {
            Some(_) => VariableLocation::Stack,
            None => VariableLocation::ArgumentRegister,
        }
    }

    /// The operand for a name: `<offset>($sp)` for a stack variable, the register's name for a
    /// parameter; an unbound name is an undefined-variable error.
    pub fn get_variable_register(&self, name: &str) -> (r: Result<String, CompileError>)
        ensures
            match lookup(self.stack_vars(), name@) {
                Some(offset) => r matches Ok(s) && s@ == stack_operand(offset),
                None => match lookup(self.arguments(), name@) {
                    Some(reg) => r matches Ok(s) && s@ == register_name(reg),
                    None => r matches Err(e) && undefined_error(e, name@),
                },
            },
    {
        if self.get_variable_location(name) == VariableLocation::Stack {
            match self.get_stack_variable_offset(name) {
                Some(offset) => {
                    let mut operand = decimal_string(offset);
                    operand.append("($sp)");
                    Ok(operand)
                },
                None => Err(undefined(name)),
            }
        } else {
            self.get_argument_register(name)
        }
    }
}

/// The error for a name that nothing binds: `<name> is not defined`, with no line.
pub open spec fn undefined_error(e: CompileError, name: Seq<char>) -> bool {
    &&& e is UndefinedVariableError
    &&& e.message_of() == name + " is not defined"@
    &&& e.line_of() == 0
}

pub(crate) fn undefined(name: &str) -> (e: CompileError)
    ensures
        undefined_error(e, name@),
{
    let mut message = String::from_str(name);
    message.append(" is not defined");
    CompileError::UndefinedVariableError { message, line: 0 }
}

fn contains_register(v: &Vec<Register>, reg: Register) -> (r: bool)
    ensures
        r == v@.contains(reg),
{
    let mut i: usize = 0;
    while i < v.len()
        invariant
            i <= v@.len(),
            forall|j: int| 0 <= j < i ==> v@[j] != reg,
        decreases v@.len() - i,
    {
        if v[i] == reg {
            return true;
        }
        i = i + 1;
    }
    false
}

/// Whether two strings hold the same characters.
fn str_equal(a: &str, b: &str) -> (r: bool)
    ensures
        r == (a@ == b@),
{
    let x = String::from_str(a);
    let y = String::from_str(b);
    x == y
}

/// The stack bindings after declaring `names` in order, each as `add_stack_variable` binds
/// it, into a frame of `frame` bytes that starts with the bindings `vars`.
pub open spec fn declare_all(
    vars: Seq<(Seq<char>, usize)>,
    frame: usize,
    names: Seq<Seq<char>>,
) -> Seq<(Seq<char>, usize)>
    decreases names.len(),
{
    if names.len() == 0 {
        vars
    } else {
        let v = declare_all(vars, frame, names.drop_last());
        bind(v, names.last(), (frame - 4 * (v.len() + 1)) as usize)
    }
}

/// The offsets that distinct variables get, in declaration order.
pub open spec fn top_down_slots(frame: usize, names: Seq<Seq<char>>) -> Seq<(Seq<char>, usize)> {
    Seq::new(names.len(), |i: int| (names[i], (frame - 4 * (i + 1)) as usize))
}

/// Distinct variables declared into an empty frame of `frame` bytes fill it from the top down:
/// the `i`-th (from 0) lies at `frame - 4 * (i + 1)`.
pub proof fn lemma_stack_offsets(frame: usize, names: Seq<Seq<char>>)
    requires
        names.no_duplicates(),
        4 * names.len() <= frame,
    ensures
        declare_all(Seq::empty(), frame, names) == top_down_slots(frame, names),
        forall|i: int|
            0 <= i < names.len() ==> lookup(declare_all(Seq::empty(), frame, names), #[trigger] names[i])
                == Some((frame - 4 * (i + 1)) as usize),
    decreases names.len(),
{
    if names.len() > 0 {
        let rest = names.drop_last();
        assert(rest.no_duplicates()) by {
            assert forall|i: int, j: int| 0 <= i < rest.len() && 0 <= j < rest.len() && i != j implies rest[i]
                != rest[j] by {
                assert(rest[i] == names[i] && rest[j] == names[j]);
            }
        }
        lemma_stack_offsets(frame, rest);
        let v = top_down_slots(frame, rest);
        assert forall|j: int| 0 <= j < v.len() implies v[j].0 != names.last() by {
            assert(v[j].0 == names[j]);
            assert(names[j] != names[names.len() - 1]);
        }
        lemma_bind_new(v, names.last(), (frame - 4 * (v.len() + 1)) as usize);
        assert(v.push((names.last(), (frame - 4 * (v.len() + 1)) as usize)) =~= top_down_slots(frame, names));
    }
    let w = top_down_slots(frame, names);
    assert forall|i: int| 0 <= i < names.len() implies lookup(declare_all(Seq::empty(), frame, names), #[trigger] names[i])
        == Some((frame - 4 * (i + 1)) as usize) by {
        assert forall|j: int| 0 <= j < i implies w[j].0 != names[i] by {
            assert(w[j].0 == names[j]);
        }
        lemma_lookup_found(w, names[i], i);
    }
}

/// A body of declarations alone needs one slot per statement.
pub proof fn lemma_flat_body_slots(ss: Seq<StatementV>)
    requires
        forall|i: int| 0 <= i < ss.len() ==> (#[trigger] ss[i]) is VariableDeclaration,
    ensures
        decl_slots(ss) == ss.len(),
    decreases ss.len(),
{
    if ss.len() > 0 {
        let rest = ss.drop_last();
        assert forall|i: int| 0 <= i < rest.len() implies (#[trigger] rest[i]) is VariableDeclaration by {
            assert(rest[i] == ss[i]);
        }
        lemma_flat_body_slots(rest);
        assert(ss[ss.len() - 1] is VariableDeclaration);
        assert(stmt_slots(ss.last()) == 1);
        assert(decl_slots(ss) == decl_slots(rest) + stmt_slots(ss.last()));
    }
}

} // verus!
