//! A stack machine that runs a list of instructions and collects the routes
//! they build. Numbers are carried as they come, of any copyable type `N`:
//! the machine moves them and never computes with them.
use vstd::prelude::*;
use crate::analyze::RouteKind;
use crate::ast::Span;

verus! {

/// Room to reserve for a new table.
#[derive(Debug, Clone, Copy)]
pub struct InstructionPushTable {
    pub alloc: usize,
}

/// A route to start building: its kind, its target and its host.
#[derive(Debug)]
pub struct InstructionPushRoute {
    pub route_kind: RouteKind,
    pub service_target: String,
    pub service_port: usize,
    pub hostname: Option<String>,
    pub span: Span,
}

/// One step of the machine.
#[derive(Debug)]
pub enum Instruction<N> {
    PushNumber(N),
    PushString(String),
    PushBoolean(bool),
    PushNil,
    PushLocal(usize),
    PushGlobal(String),
    PushTable(InstructionPushTable),
    PushRoute(InstructionPushRoute),
    SetLocal(usize),
    SetGlobal(String),
    SetTable,
    SetRouteProperty(String),
    SetRoute,
}

/// A value on the machine's stack.
#[derive(Debug)]
pub enum Value<N> {
    Boolean(bool),
    Nil,
    Number(N),
    String(String),
    Table(Vec<(String, Value<N>)>),
    Route(RawRoute<N>),
}

/// A route being built: its properties by name, each name at most once.
#[derive(Debug)]
pub struct RawRoute<N> {
    pub kind: RouteKind,
    pub hostname: Option<String>,
    pub service_target: String,
    pub port: usize,
    pub properties: Vec<(String, Value<N>)>,
    pub span: Span,
}

/// The machine: numbered locals, named globals, the stack and its size,
/// and the routes built so far.
pub struct VirtualMachine<N> {
    pub locals: Vec<Value<N>>,
    pub globals: Vec<(String, Value<N>)>,
    pub instruction_at: usize,
    pub instruction_end: usize,
    pub stack: Vec<Value<N>>,
    pub n: usize,
    pub routes: Vec<RawRoute<N>>,
}

/// What a value is, with its texts taken by their views.
pub enum ValueV<N> {
    Boolean(bool),
    Nil,
    Number(N),
    String(Seq<char>),
    Table(Seq<(Seq<char>, ValueV<N>)>),
    Route(RawRouteV<N>),
}

pub struct RawRouteV<N> {
    pub kind: RouteKind,
    pub hostname: Option<Seq<char>>,
    pub service_target: Seq<char>,
    pub port: usize,
    pub properties: Seq<(Seq<char>, ValueV<N>)>,
    pub span: Span,
}

pub open spec fn opt_text(o: Option<String>) -> Option<Seq<char>> {
    match o {
        Some(s) => Some(s@),
        None => None,
    }
}

pub open spec fn value_view<N>(v: Value<N>) -> ValueV<N>
    decreases v,
{
    match v {
        Value::Boolean(b) => ValueV::Boolean(b),
        Value::Nil => ValueV::Nil,
        Value::Number(x) => ValueV::Number(x),
        Value::String(s) => ValueV::String(s@),
        Value::Table(t) => ValueV::Table(
            Seq::new(
                t@.len(),
                |i: int|
                    if 0 <= i < t@.len() {
                        (t@[i].0@, value_view(t@[i].1))
                    } else {
                        arbitrary()
                    },
            ),
        ),
        Value::Route(r) => ValueV::Route(route_view(r)),
    }
}

/// The name of a value's kind, as messages write it.
pub open spec fn value_kind_text<N>(v: ValueV<N>) -> Seq<char> {
    match v {
        ValueV::Boolean(_) => "bool"@,
        ValueV::Nil => "nil"@,
        ValueV::Number(_) => "number"@,
        ValueV::String(_) => "string"@,
        ValueV::Table(_) => "table"@,
        ValueV::Route(_) => "route"@,
    }
}

impl<N> Value<N> {
    /// The name of the value's kind, as messages write it.
    pub fn kind_name(&self) -> (r: &'static str)
        ensures
            r@ == value_kind_text(value_view(*self)),
    {
        match self {
            Value::Boolean(_) => "bool",
            Value::Nil => "nil",
            Value::Number(_) => "number",
            Value::String(_) => "string",
            Value::Table(_) => "table",
            Value::Route(_) => "route",
        }
    }
}

pub open spec fn route_view<N>(r: RawRoute<N>) -> RawRouteV<N>
    decreases r,
{
    RawRouteV {
        kind: r.kind,
        hostname: opt_text(r.hostname),
        service_target: r.service_target@,
        port: r.port,
        properties: Seq::new(
            r.properties@.len(),
            |i: int|
                if 0 <= i < r.properties@.len() {
                    (r.properties@[i].0@, value_view(r.properties@[i].1))
                } else {
                    arbitrary()
                },
        ),
        span: r.span,
    }
}

/// The views of a list of values.
pub open spec fn values_view<N>(v: Seq<Value<N>>) -> Seq<ValueV<N>> {
    Seq::new(v.len(), |i: int| value_view(v[i]))
}

/// The views of a list of named values.
pub open spec fn entries_view<N>(v: Seq<(String, Value<N>)>) -> Seq<(Seq<char>, ValueV<N>)> {
    Seq::new(v.len(), |i: int| (v[i].0@, value_view(v[i].1)))
}

/// The views of a list of routes.
pub open spec fn routes_view<N>(v: Seq<RawRoute<N>>) -> Seq<RawRouteV<N>> {
    Seq::new(v.len(), |i: int| route_view(v[i]))
}

/// What the machine holds.
pub struct MachineV<N> {
    pub locals: Seq<ValueV<N>>,
    pub globals: Seq<(Seq<char>, ValueV<N>)>,
    pub stack: Seq<ValueV<N>>,
    pub routes: Seq<RawRouteV<N>>,
}

impl<N> View for VirtualMachine<N> {
    type V = MachineV<N>;

    open spec fn view(&self) -> MachineV<N> {
        MachineV {
            locals: values_view(self.locals@),
            globals: entries_view(self.globals@),
            stack: values_view(self.stack@),
            routes: routes_view(self.routes@),
        }
    }
}

/// What an instruction is, with its texts taken by their views.
pub enum InstructionV<N> {
    PushNumber(N),
    PushString(Seq<char>),
    PushBoolean(bool),
    PushNil,
    PushLocal(usize),
    PushGlobal(Seq<char>),
    PushTable,
    PushRoute(RawRouteV<N>),
    SetLocal(usize),
    SetGlobal(Seq<char>),
    SetTable,
    SetRouteProperty(Seq<char>),
    SetRoute,
}

impl<N> View for Instruction<N> {
    type V = InstructionV<N>;

    open spec fn view(&self) -> InstructionV<N> {
        match self {
            Instruction::PushNumber(x) => InstructionV::PushNumber(*x),
            Instruction::PushString(s) => InstructionV::PushString(s@),
            Instruction::PushBoolean(b) => InstructionV::PushBoolean(*b),
            Instruction::PushNil => InstructionV::PushNil,
            Instruction::PushLocal(i) => InstructionV::PushLocal(*i),
            Instruction::PushGlobal(k) => InstructionV::PushGlobal(k@),
            Instruction::PushTable(_) => InstructionV::PushTable,
            Instruction::PushRoute(r) => InstructionV::PushRoute(
                RawRouteV {
                    kind: r.route_kind,
                    hostname: opt_text(r.hostname),
                    service_target: r.service_target@,
                    port: r.service_port,
                    properties: Seq::empty(),
                    span: r.span,
                },
            ),
            Instruction::SetLocal(i) => InstructionV::SetLocal(*i),
            Instruction::SetGlobal(k) => InstructionV::SetGlobal(k@),
            Instruction::SetTable => InstructionV::SetTable,
            Instruction::SetRouteProperty(k) => InstructionV::SetRouteProperty(k@),
            Instruction::SetRoute => InstructionV::SetRoute,
        }
    }
}

/// The first position of `key` among named values from `i` on.
pub open spec fn entry_position<N>(m: Seq<(Seq<char>, ValueV<N>)>, key: Seq<char>, i: int) -> Option<int>
    decreases m.len() - i,
{
    if i < 0 || i >= m.len() {
        None
    } else if m[i].0 == key {
        Some(i)
    } else {
        entry_position(m, key, i + 1)
    }
}

/// Named values with `key` set to `v`: its entry changes, or a new entry
/// is added at the end.
pub open spec fn map_insert<N>(m: Seq<(Seq<char>, ValueV<N>)>, key: Seq<char>, v: ValueV<N>) -> Seq<
    (Seq<char>, ValueV<N>),
> {
    match entry_position(m, key, 0) {
        Some(i) => m.update(i, (key, v)),
        None => m.push((key, v)),
    }
}

/// No name occurs twice among named values.
pub open spec fn distinct_entries<N>(m: Seq<(Seq<char>, ValueV<N>)>) -> bool {
    forall|i: int, j: int| 0 <= i < j < m.len() ==> #[trigger] m[i].0 != #[trigger] m[j].0
}

proof fn lemma_entry_position<N>(m: Seq<(Seq<char>, ValueV<N>)>, key: Seq<char>, j: int)
    requires
        0 <= j,
    ensures
        entry_position(m, key, j) matches Some(i) ==> j <= i < m.len() && m[i].0 == key,
        entry_position(m, key, j) is None ==> forall|k: int| j <= k < m.len() ==> #[trigger] m[k].0 != key,
    decreases m.len() - j,
{
    if j < m.len() {
        lemma_entry_position(m, key, j + 1);
    }
}

/// Setting a named value keeps the names distinct, as in the maps the
/// machine's globals, tables and route properties stand for.
pub proof fn lemma_map_insert_keeps_distinct<N>(m: Seq<(Seq<char>, ValueV<N>)>, key: Seq<char>, v: ValueV<N>)
    requires
        distinct_entries(m),
    ensures
        distinct_entries(map_insert(m, key, v)),
{
    lemma_entry_position(m, key, 0);
    let r = map_insert(m, key, v);
    assert forall|i: int, j: int| 0 <= i < j < r.len() implies #[trigger] r[i].0 != #[trigger] r[j].0 by {
        match entry_position(m, key, 0) {
            Some(p) => {
                if i != p && j != p {
                    assert(m[i].0 != m[j].0);
                } else if i == p {
                    assert(m[j].0 != m[p].0);
                } else {
                    assert(m[i].0 != m[p].0);
                }
            },
            None => {
                if j < m.len() {
                    assert(m[i].0 != m[j].0);
                } else {
                    assert(r[i] == m[i]);
                }
            },
        }
    }
}

/// Locals with slot `i` set to `v`, grown with nils where `i` lies past
/// their end.
pub open spec fn set_local<N>(locals: Seq<ValueV<N>>, i: int, v: ValueV<N>) -> Seq<ValueV<N>> {
    if i < locals.len() {
        locals.update(i, v)
    } else {
        (locals + Seq::new((i + 1 - locals.len()) as nat, |k: int| ValueV::<N>::Nil)).update(i, v)
    }
}

/// One step of the machine: the state it leaves, or `None` where the step
/// aborts (a missing local or global, too few or ill-typed values on the
/// stack).
pub open spec fn step<N>(m: MachineV<N>, instr: InstructionV<N>) -> Option<MachineV<N>> {
    match instr {
        InstructionV::PushNumber(x) => Some(MachineV { stack: m.stack.push(ValueV::Number(x)), ..m }),
        InstructionV::PushString(s) => Some(MachineV { stack: m.stack.push(ValueV::String(s)), ..m }),
        InstructionV::PushBoolean(b) => Some(MachineV { stack: m.stack.push(ValueV::Boolean(b)), ..m }),
        InstructionV::PushNil => Some(MachineV { stack: m.stack.push(ValueV::Nil), ..m }),
        InstructionV::PushLocal(i) => if i < m.locals.len() {
            Some(MachineV { stack: m.stack.push(m.locals[i as int]), ..m })
        } else {
            None
        },
        InstructionV::PushGlobal(k) => match entry_position(m.globals, k, 0) {
            Some(i) => Some(MachineV { stack: m.stack.push(m.globals[i].1), ..m }),
            None => None,
        },
        InstructionV::PushTable => Some(
            MachineV { stack: m.stack.push(ValueV::Table(Seq::empty())), ..m },
        ),
        InstructionV::PushRoute(r) => Some(MachineV { stack: m.stack.push(ValueV::Route(r)), ..m }),
        InstructionV::SetLocal(i) => if m.stack.len() > 0 && (i < m.locals.len() || i < usize::MAX) {
            Some(
                MachineV {
                    stack: m.stack.drop_last(),
                    locals: set_local(m.locals, i as int, m.stack.last()),
                    ..m
                },
            )
        } else {
            None
        },
        InstructionV::SetGlobal(k) => if m.stack.len() > 0 {
            Some(
                MachineV {
                    stack: m.stack.drop_last(),
                    globals: map_insert(m.globals, k, m.stack.last()),
                    ..m
                },
            )
        } else {
            None
        },
        InstructionV::SetTable => if m.stack.len() == 3 {
            match m.stack[1] {
                ValueV::String(key) => match m.stack[0] {
                    ValueV::Table(t) => Some(
                        MachineV {
                            stack: seq![ValueV::Table(map_insert(t, key, m.stack[2]))],
                            ..m
                        },
                    ),
                    _ => None,
                },
                _ => None,
            }
        } else {
            None
        },
        InstructionV::SetRouteProperty(k) => if m.stack.len() == 2 {
            match m.stack[0] {
                ValueV::Route(r) => Some(
                    MachineV {
                        stack: seq![
                            ValueV::Route(
                                RawRouteV {
                                    properties: map_insert(r.properties, k, m.stack[1]),
                                    ..r
                                },
                            ),
                        ],
                        ..m
                    },
                ),
                _ => None,
            }
        } else {
            None
        },
        InstructionV::SetRoute => if m.stack.len() > 0 {
            match m.stack.last() {
                ValueV::Route(r) => Some(
                    MachineV { stack: m.stack.drop_last(), routes: m.routes.push(r), ..m },
                ),
                _ => None,
            }
        } else {
            None
        },
    }
}

/// Running instructions one after the other: the final state, or `None`
/// where a step aborts.
pub open spec fn run_spec<N>(m: MachineV<N>, instrs: Seq<InstructionV<N>>) -> Option<MachineV<N>>
    decreases instrs.len(),
{
    if instrs.len() == 0 {
        Some(m)
    } else {
        match step(m, instrs[0]) {
            Some(m2) => run_spec(m2, instrs.drop_first()),
            None => None,
        }
    }
}

/// The views of a list of instructions.
pub open spec fn instructions_view<N>(v: Seq<Instruction<N>>) -> Seq<InstructionV<N>> {
    Seq::new(v.len(), |i: int| v[i]@)
}

/// A step grows the stack by at most one value.
proof fn lemma_step_stack<N>(m: MachineV<N>, instr: InstructionV<N>)
    ensures
        step(m, instr) matches Some(m2) ==> m2.stack.len() <= m.stack.len() + 1,
{
}

/// Two machines stand at the same instruction of the same run.
pub open spec fn same_counters<N>(a: VirtualMachine<N>, b: VirtualMachine<N>) -> bool {
    a.instruction_at == b.instruction_at && a.instruction_end == b.instruction_end
}

/// The machine holds as many values as its stack counter says.
pub open spec fn wf<N>(vm: VirtualMachine<N>) -> bool {
    vm.n == vm.stack@.len()
}

/// A copy of a value.
fn copy_value<N: Copy>(v: &Value<N>) -> (r: Value<N>)
    ensures
        value_view(r) == value_view(*v),
    decreases v,
{
    match v {
        Value::Boolean(b) => Value::Boolean(*b),
        Value::Nil => Value::Nil,
        Value::Number(x) => Value::Number(*x),
        Value::String(s) => Value::String(s.clone()),
        Value::Table(t) => {
            let c = copy_entries(t);
            proof {
                assert(value_view(Value::Table(c)) == value_view(*v)) by {
                    assert(entries_view(c@) =~= (value_view(Value::Table(c)))->Table_0);
                    assert(entries_view(t@) =~= (value_view(*v))->Table_0);
                }
            }
            Value::Table(c)
        },
        Value::Route(r) => Value::Route(copy_route(r)),
    }
}

/// A copy of a list of named values.
fn copy_entries<N: Copy>(t: &Vec<(String, Value<N>)>) -> (r: Vec<(String, Value<N>)>)
    ensures
        entries_view(r@) == entries_view(t@),
    decreases t,
{
    let mut r: Vec<(String, Value<N>)> = Vec::new();
    let mut i: usize = 0;
    while i < t.len()
        invariant
            i <= t@.len(),
            r@.len() == i,
            forall|k: int| 0 <= k < i ==> r@[k].0@ == t@[k].0@ && value_view(#[trigger] r@[k].1)
                == value_view(t@[k].1),
        decreases t.len() - i,
    {
        let v = copy_value(&t[i].1);
        r.push((t[i].0.clone(), v));
        i += 1;
    }
    proof {
        assert(entries_view(r@) =~= entries_view(t@));
    }
    r
}

/// A copy of a route.
fn copy_route<N: Copy>(r: &RawRoute<N>) -> (c: RawRoute<N>)
    ensures
        route_view(c) == route_view(*r),
    decreases r,
{
    let properties = copy_entries(&r.properties);
    let hostname = match &r.hostname {
        Some(h) => Some(h.clone()),
        None => None,
    };
    let c = RawRoute {
        kind: r.kind,
        hostname,
        service_target: r.service_target.clone(),
        port: r.port,
        properties,
        span: r.span,
    };
    proof {
        assert(route_view(c).properties =~= entries_view(c.properties@));
        assert(route_view(*r).properties =~= entries_view(r.properties@));
    }
    c
}

/// Sets `key` to `value` among named values.
fn insert_entry<N>(m: &mut Vec<(String, Value<N>)>, key: String, value: Value<N>)
    ensures
        entries_view(final(m)@) == map_insert(entries_view(old(m)@), key@, value_view(value)),
{
    let ghost e = entries_view(m@);
    let mut i: usize = 0;
    while i < m.len()
        invariant
            i <= m@.len(),
            *m == *old(m),
            e == entries_view(m@),
            entry_position(e, key@, 0) == entry_position(e, key@, i as int),
        decreases m.len() - i,
    {
        if m[i].0 == key {
            proof {
                assert(entry_position(e, key@, i as int) == Some(i as int));
            }
            let ghost kv = key@;
            let ghost vv = value_view(value);
            m.set(i, (key, value));
            proof {
                assert(entries_view(m@) =~= e.update(i as int, (kv, vv)));
            }
            return;
        }
        i += 1;
    }
    let ghost kv = key@;
    let ghost vv = value_view(value);
    m.push((key, value));
    proof {
        assert(entries_view(m@) =~= e.push((kv, vv)));
    }
}

impl<N: Copy> VirtualMachine<N> {
    #[allow(non_snake_case)]
    fn PUSH(&mut self, value: Value<N>)
        requires
            wf(*old(self)),
            old(self).n < usize::MAX,
        ensures
            wf(*final(self)),
            same_counters(*old(self), *final(self)),
            final(self)@ == (MachineV { stack: old(self)@.stack.push(value_view(value)), ..old(self)@ }),
    {
        self.stack.push(value);
        self.n += 1;
        proof {
            assert(values_view(self.stack@) =~= values_view(old(self).stack@).push(value_view(value)));
        }
    }

    #[allow(non_snake_case)]
    fn POP(&mut self) -> (r: Value<N>)
        requires
            wf(*old(self)),
            old(self).n > 0,
        ensures
            wf(*final(self)),
            same_counters(*old(self), *final(self)),
            value_view(r) == old(self)@.stack.last(),
            final(self)@ == (MachineV { stack: old(self)@.stack.drop_last(), ..old(self)@ }),
    {
        self.n -= 1;
        let r = self.stack.pop().unwrap();
        proof {
            assert(values_view(self.stack@) =~= values_view(old(self).stack@).drop_last());
        }
        r
    }

    /// Pushes the value of a global.
    #[verifier::spinoff_prover]
    fn push_global(&mut self, key: &String)
        requires
            wf(*old(self)),
            old(self).n < usize::MAX,
            step(old(self)@, InstructionV::PushGlobal(key@)) is Some,
        ensures
            wf(*final(self)),
            same_counters(*old(self), *final(self)),
            Some(final(self)@) == step(old(self)@, InstructionV::PushGlobal(key@)),
    {
        let mut i: usize = 0;
        let ghost g = self@.globals;
        while i < self.globals.len()
            invariant
                i <= self.globals@.len(),
                *self == *old(self),
                g == self@.globals,
                entry_position(g, key@, 0) == entry_position(g, key@, i as int),
            ensures
                i <= self.globals@.len(),
                *self == *old(self),
                entry_position(g, key@, 0) == entry_position(g, key@, i as int),
                i < self.globals@.len() ==> self.globals@[i as int].0@ == key@,
            decreases self.globals.len() - i,
        {
            if self.globals[i].0 == *key {
                break;
            }
            i += 1;
        }
        proof {
            if i == self.globals.len() {
                assert(entry_position(g, key@, i as int) is None);
            } else {
                assert(g[i as int].0 == key@);
                assert(entry_position(g, key@, i as int) == Some(i as int));
            }
        }
        let v = copy_value(&self.globals[i].1);
        self.PUSH(v)
    }

    /// Pops a value into a local slot, growing the locals with nils where
    /// the slot lies past their end.
    #[verifier::spinoff_prover]
    fn set_local(&mut self, index: usize)
        requires
            wf(*old(self)),
            old(self).n < usize::MAX,
            step(old(self)@, InstructionV::SetLocal(index)) is Some,
        ensures
            wf(*final(self)),
            same_counters(*old(self), *final(self)),
            Some(final(self)@) == step(old(self)@, InstructionV::SetLocal(index)),
    {
        let value = self.POP();
        let ghost before = self.locals@;
        let ghost popped = *self;
        if index >= self.locals.len() {
            while self.locals.len() < index + 1
                invariant
                    self.stack == popped.stack,
                    self.n == popped.n,
                    self.globals == popped.globals,
                    self.routes == popped.routes,
                    same_counters(popped, *self),
                    wf(popped),
                    index + 1 <= usize::MAX,
                    self.locals@.len() <= index + 1,
                    self.locals@.len() >= before.len(),
                    forall|k: int| 0 <= k < before.len() ==> #[trigger] self.locals@[k] == before[k],
                    forall|k: int| before.len() <= k < self.locals@.len() ==> #[trigger] self.locals@[k] is Nil,
                decreases index + 1 - self.locals.len(),
            {
                self.locals.push(Value::Nil);
            }
        }
        self.locals.set(index, value);
        proof {
            let m = old(self)@;
            assert(values_view(self.locals@) =~= set_local(m.locals, index as int, m.stack.last()));
        }
    }

    /// Pops a value and a key into the table below them.
    #[verifier::spinoff_prover]
    fn set_table(&mut self)
        requires
            wf(*old(self)),
            step(old(self)@, InstructionV::SetTable) is Some,
        ensures
            wf(*final(self)),
            same_counters(*old(self), *final(self)),
            Some(final(self)@) == step(old(self)@, InstructionV::SetTable),
    {
        proof {
            assert(self@.stack.len() == 3);
        }
        let value = self.POP();
        proof {
            assert(self@.stack.len() == 2);
        }
        let key = self.POP();
        proof {
            assert(self@.stack.len() == 1);
        }
        let target = self.POP();
        proof {
            assert(self@.stack.len() == 0);
        }
        match key {
            Value::String(key) => match target {
                Value::Table(mut t) => {
                    proof {
                        assert((value_view(Value::<N>::Table(t)))->Table_0 =~= entries_view(t@));
                    }
                    insert_entry(&mut t, key, value);
                    proof {
                        assert((value_view(Value::<N>::Table(t)))->Table_0 =~= entries_view(t@));
                    }
                    let ghost tv = entries_view(t@);
                    self.PUSH(Value::Table(t));
                    proof {
                        assert(values_view(self.stack@) =~= seq![ValueV::Table(tv)]);
                    }
                },
                _ => {
                    proof {
                        assert(false);
                    }
                },
            },
            _ => {
                proof {
                    assert(false);
                }
            },
        }
    }

    /// Pops a value into a property of the route below it.
    #[verifier::spinoff_prover]
    fn set_route_property(&mut self, key: &String)
        requires
            wf(*old(self)),
            step(old(self)@, InstructionV::SetRouteProperty(key@)) is Some,
        ensures
            wf(*final(self)),
            same_counters(*old(self), *final(self)),
            Some(final(self)@) == step(old(self)@, InstructionV::SetRouteProperty(key@)),
    {
        proof {
            assert(self@.stack.len() == 2);
        }
        let value = self.POP();
        proof {
            assert(self@.stack.len() == 1);
        }
        let target = self.POP();
        proof {
            assert(self@.stack.len() == 0);
        }
        match target {
            Value::Route(mut route) => {
                proof {
                    assert(route_view(route).properties =~= entries_view(route.properties@));
                }
                let ghost rv = route_view(route);
                insert_entry(&mut route.properties, key.clone(), value);
                proof {
                    assert(route_view(route).properties =~= entries_view(route.properties@));
                    assert(route_view(route) == (RawRouteV { properties: map_insert(rv.properties, key@, old(self)@.stack[1]), ..rv }));
                }
                let ghost nv = route_view(route);
                self.PUSH(Value::Route(route));
                proof {
                    assert(values_view(self.stack@) =~= seq![ValueV::Route(nv)]);
                }
            },
            _ => {
                proof {
                    assert(false);
                }
            },
        }
    }

    /// Pops a route into the routes built.
    #[verifier::spinoff_prover]
    fn set_route(&mut self)
        requires
            wf(*old(self)),
            step(old(self)@, InstructionV::SetRoute) is Some,
        ensures
            wf(*final(self)),
            same_counters(*old(self), *final(self)),
            Some(final(self)@) == step(old(self)@, InstructionV::SetRoute),
    {
        let value = self.POP();
        match value {
            Value::Route(route) => {
                let ghost rv = route_view(route);
                self.routes.push(route);
                proof {
                    assert(routes_view(self.routes@) =~= routes_view(old(self).routes@).push(rv));
                }
            },
            _ => {
                proof {
                    assert(false);
                }
            },
        }
    }

    /// Pushes a new route, with no properties yet.
    fn push_route(&mut self, route: &InstructionPushRoute)
        requires
            wf(*old(self)),
            old(self).n < usize::MAX,
        ensures
            wf(*final(self)),
            same_counters(*old(self), *final(self)),
            Some(final(self)@) == step(old(self)@, Instruction::<N>::PushRoute(*route)@),
    {
        let hostname = match &route.hostname {
            Some(h) => Some(h.clone()),
            None => None,
        };
        let r = RawRoute {
            kind: route.route_kind,
            hostname,
            service_target: route.service_target.clone(),
            port: route.service_port,
            properties: Vec::new(),
            span: route.span,
        };
        proof {
            assert(route_view(r).properties =~= Seq::<(Seq<char>, ValueV<N>)>::empty());
        }
        self.PUSH(Value::Route(r))
    }

    /// Carries out one instruction.
    pub fn process(&mut self, instruction: &Instruction<N>)
        requires
            wf(*old(self)),
            old(self).n < usize::MAX,
            step(old(self)@, instruction@) is Some,
        ensures
            wf(*final(self)),
            same_counters(*old(self), *final(self)),
            Some(final(self)@) == step(old(self)@, instruction@),
    {
        match instruction {
            Instruction::PushNumber(n) => self.PUSH(Value::Number(*n)),
            Instruction::PushString(s) => self.PUSH(Value::String(s.clone())),
            Instruction::PushBoolean(b) => self.PUSH(Value::Boolean(*b)),
            Instruction::PushNil => self.PUSH(Value::Nil),
            Instruction::PushLocal(index) => {
                let v = copy_value(&self.locals[*index]);
                self.PUSH(v)
            },
            Instruction::PushGlobal(key) => self.push_global(key),
            Instruction::PushTable(_) => {
                let t: Vec<(String, Value<N>)> = Vec::new();
                proof {
                    assert((value_view(Value::<N>::Table(t)))->Table_0 =~= Seq::<(Seq<char>, ValueV<N>)>::empty());
                }
                self.PUSH(Value::Table(t))
            },
            Instruction::PushRoute(route) => self.push_route(route),
            Instruction::SetLocal(index) => self.set_local(*index),
            Instruction::SetGlobal(key) => {
                let value = self.POP();
                insert_entry(&mut self.globals, key.clone(), value);
            },
            Instruction::SetTable => self.set_table(),
            Instruction::SetRouteProperty(key) => self.set_route_property(key),
            Instruction::SetRoute => self.set_route(),
        }
    }

    /// A machine with nothing on its stack and nothing built.
    pub fn create_vm() -> (r: Self)
        ensures
            wf(r),
            r@.locals == Seq::<ValueV<N>>::empty(),
            r@.globals == Seq::<(Seq<char>, ValueV<N>)>::empty(),
            r@.stack == Seq::<ValueV<N>>::empty(),
            r@.routes == Seq::<RawRouteV<N>>::empty(),
    {
        let r = Self {
            locals: Vec::new(),
            globals: Vec::new(),
            instruction_at: 0,
            instruction_end: 0,
            n: 0,
            stack: Vec::new(),
            routes: Vec::new(),
        };
        proof {
            assert(r@.locals =~= Seq::<ValueV<N>>::empty());
            assert(r@.globals =~= Seq::<(Seq<char>, ValueV<N>)>::empty());
            assert(r@.stack =~= Seq::<ValueV<N>>::empty());
            assert(r@.routes =~= Seq::<RawRouteV<N>>::empty());
        }
        r
    }
}

/// Running two lists of instructions one after the other is running the
/// first, then the second from where the first left the machine.
pub proof fn lemma_run_append<N>(m: MachineV<N>, a: Seq<InstructionV<N>>, b: Seq<InstructionV<N>>)
    ensures
        run_spec(m, a + b) == match run_spec(m, a) {
            Some(m2) => run_spec(m2, b),
            None => None,
        },
    decreases a.len(),
{
    if a.len() == 0 {
        assert(a + b =~= b);
    } else {
        assert((a + b)[0] == a[0]);
        assert((a + b).drop_first() =~= a.drop_first() + b);
        match step(m, a[0]) {
            Some(m2) => lemma_run_append(m2, a.drop_first(), b),
            None => {},
        }
    }
}

/// Copies of a list of routes.
fn copy_routes<N: Copy>(v: &Vec<RawRoute<N>>) -> (r: Vec<RawRoute<N>>)
    ensures
        routes_view(r@) == routes_view(v@),
{
    let mut r: Vec<RawRoute<N>> = Vec::new();
    let mut i: usize = 0;
    while i < v.len()
        invariant
            i <= v@.len(),
            r@.len() == i,
            forall|k: int| 0 <= k < i ==> route_view(#[trigger] r@[k]) == route_view(v@[k]),
        decreases v.len() - i,
    {
        r.push(copy_route(&v[i]));
        i += 1;
    }
    proof {
        assert(routes_view(r@) =~= routes_view(v@));
    }
    r
}

impl<N: Copy> VirtualMachine<N> {
    /// Runs the instructions one after the other and returns the routes
    /// built so far.
    pub fn run(&mut self, instructions: Vec<Instruction<N>>) -> (r: Vec<RawRoute<N>>)
        requires
            wf(*old(self)),
            instructions@.len() > 0,
            old(self).n + instructions@.len() < usize::MAX,
            run_spec(old(self)@, instructions_view(instructions@)) is Some,
        ensures
            wf(*final(self)),
            Some(final(self)@) == run_spec(old(self)@, instructions_view(instructions@)),
            routes_view(r@) == final(self)@.routes,
            final(self).instruction_at == instructions@.len(),
            final(self).instruction_end == instructions@.len() - 1,
    {
        let ghost all = instructions_view(instructions@);
        self.instruction_at = 0;
        self.instruction_end = instructions.len() - 1;
        proof {
            assert(all.skip(0) =~= all);
        }
        while self.instruction_at <= self.instruction_end
            invariant
                wf(*self),
                all == instructions_view(instructions@),
                self.instruction_end == instructions@.len() - 1,
                self.instruction_at <= instructions@.len(),
                self.n <= old(self).n + self.instruction_at,
                old(self).n + instructions@.len() < usize::MAX,
                run_spec(old(self)@, all) == run_spec(self@, all.skip(self.instruction_at as int)),
                run_spec(self@, all.skip(self.instruction_at as int)) is Some,
            decreases instructions@.len() - self.instruction_at,
        {
            let at = self.instruction_at;
            let ghost before = self@;
            proof {
                assert(all.skip(at as int)[0] == instructions@[at as int]@);
                assert(all.skip(at as int).drop_first() =~= all.skip(at + 1));
                lemma_step_stack(before, instructions@[at as int]@);
            }
            self.process(&instructions[at]);
            self.instruction_at += 1;
        }
        proof {
            assert(all.skip(self.instruction_at as int) =~= Seq::<InstructionV<N>>::empty());
        }
        copy_routes(&self.routes)
    }
}

} // verus!
