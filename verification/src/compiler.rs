//! Compiling a program into instructions for the stack machine. Numbers
//! are emitted as the text they are written with; whoever runs the
//! instructions reads them as numbers of its choice.
use vstd::prelude::*;
use crate::analyze::RouteKind;
use crate::ast::{
    Assign, Ast, Block, Expression, ExpressionTable, LetStatement, Route, RouteHTTP, RouteTCP,
    Statement, TableField, TokenKind, VarRoot, ExprV, FieldV, TableFieldV, StmtV, RouteV, BlockV,
};
use crate::vm::{Instruction, InstructionPushRoute, InstructionPushTable, InstructionV, RawRouteV};

verus! {

/// What the compiler has produced: the instructions, and the names of the
/// local slots by number.
pub struct VMState {
    pub instructions: Vec<Instruction<String>>,
    pub locals: Vec<String>,
}

/// A compiler: its output so far, and the number of instructions emitted.
pub struct Compiler {
    pub vm_state: VMState,
    pub next_instrucion: usize,
}

/// An instruction with its number, if it pushes one, taken as text.
pub type CodeV = InstructionV<Seq<char>>;

pub open spec fn code_view(i: Instruction<String>) -> CodeV {
    match i {
        Instruction::PushNumber(x) => InstructionV::PushNumber(x@),
        Instruction::PushString(s) => InstructionV::PushString(s@),
        Instruction::PushBoolean(b) => InstructionV::PushBoolean(b),
        Instruction::PushNil => InstructionV::PushNil,
        Instruction::PushLocal(i) => InstructionV::PushLocal(i),
        Instruction::PushGlobal(k) => InstructionV::PushGlobal(k@),
        Instruction::PushTable(_) => InstructionV::PushTable,
        Instruction::PushRoute(r) => InstructionV::PushRoute(
            RawRouteV {
                kind: r.route_kind,
                hostname: crate::vm::opt_text(r.hostname),
                service_target: r.service_target@,
                port: r.service_port,
                properties: Seq::empty(),
                span: r.span,
            },
        ),
        Instruction::SetLocal(i) => InstructionV::SetLocal(i),
        Instruction::SetGlobal(k) => InstructionV::SetGlobal(k@),
        Instruction::SetTable => InstructionV::SetTable,
        Instruction::SetRouteProperty(k) => InstructionV::SetRouteProperty(k@),
        Instruction::SetRoute => InstructionV::SetRoute,
    }
}

pub open spec fn codes_view(v: Seq<Instruction<String>>) -> Seq<CodeV> {
    Seq::new(v.len(), |i: int| code_view(v[i]))
}

pub open spec fn names_view(v: Seq<String>) -> Seq<Seq<char>> {
    Seq::new(v.len(), |i: int| v[i]@)
}

/// An expression the compiler handles: a literal, or a table of such.
pub open spec fn compilable(e: ExprV) -> bool
    decreases e,
{
    match e {
        ExprV::Boolean(..) => true,
        ExprV::Nil(..) => true,
        ExprV::Number(..) => true,
        ExprV::String(..) => true,
        ExprV::Table { fields, .. } => fields_compilable(fields),
        _ => false,
    }
}

pub open spec fn fields_compilable(fs: Seq<FieldV>) -> bool
    decreases fs,
{
    if fs.len() == 0 {
        true
    } else {
        fields_compilable(fs.subrange(0, fs.len() - 1)) && field_compilable(fs[fs.len() - 1])
    }
}

pub open spec fn field_compilable(f: FieldV) -> bool
    decreases f,
{
    table_field_compilable(f.field)
}

pub open spec fn table_field_compilable(f: TableFieldV) -> bool
    decreases f,
{
    match f {
        TableFieldV::NameKey { value, .. } => compilable(value),
        TableFieldV::NoKey { value, .. } => compilable(value),
    }
}

/// The instructions that push the value of an expression.
pub open spec fn expr_code(e: ExprV) -> Seq<CodeV>
    decreases e,
{
    match e {
        ExprV::Boolean(t, _) => seq![InstructionV::PushBoolean(t.kind == TokenKind::True)],
        ExprV::Nil(..) => seq![InstructionV::PushNil],
        ExprV::Number(t, _) => seq![InstructionV::PushNumber(t.text)],
        ExprV::String(t, _) => seq![InstructionV::PushString(t.text)],
        ExprV::Table { fields, .. } => seq![InstructionV::PushTable] + fields_code(fields),
        _ => Seq::empty(),
    }
}

/// The instructions that fill a table with its fields.
pub open spec fn fields_code(fs: Seq<FieldV>) -> Seq<CodeV>
    decreases fs,
{
    if fs.len() == 0 {
        Seq::empty()
    } else {
        fields_code(fs.subrange(0, fs.len() - 1)) + field_code(fs[fs.len() - 1])
    }
}

pub open spec fn field_code(f: FieldV) -> Seq<CodeV>
    decreases f,
{
    table_field_code(f.field)
}

/// A named field pushes its name and value and sets them into the table;
/// a field without a name only pushes its value.
pub open spec fn table_field_code(f: TableFieldV) -> Seq<CodeV>
    decreases f,
{
    match f {
        TableFieldV::NameKey { name, value, .. } => seq![InstructionV::PushString(name.text)]
            + expr_code(value) + seq![InstructionV::SetTable],
        TableFieldV::NoKey { value, .. } => expr_code(value),
    }
}

/// The first slot from `i` on whose name is `key`.
pub open spec fn slot_of(locals: Seq<Seq<char>>, key: Seq<char>, i: int) -> Option<int>
    decreases locals.len() - i,
{
    if i < 0 || i >= locals.len() {
        None
    } else if locals[i] == key {
        Some(i)
    } else {
        slot_of(locals, key, i + 1)
    }
}

/// The instruction that stores into `key`: its local slot, or else the
/// global of that name.
pub open spec fn set_value_code(locals: Seq<Seq<char>>, key: Seq<char>) -> CodeV {
    match slot_of(locals, key, 0) {
        Some(i) => InstructionV::SetLocal(i as usize),
        None => InstructionV::SetGlobal(key),
    }
}

/// The instruction that loads `key`: its local slot, or else the global of
/// that name.
pub open spec fn get_value_code(locals: Seq<Seq<char>>, key: Seq<char>) -> CodeV {
    match slot_of(locals, key, 0) {
        Some(i) => InstructionV::PushLocal(i as usize),
        None => InstructionV::PushGlobal(key),
    }
}

/// The instructions of a route's properties: each assignment sets a
/// property; other statements are left out.
pub open spec fn route_block_code(ss: Seq<StmtV>) -> Seq<CodeV>
    decreases ss.len(),
{
    if ss.len() == 0 {
        Seq::empty()
    } else {
        route_block_code(ss.drop_last()) + match ss.last() {
            StmtV::Assign { identifier, value, .. } => expr_code(value) + seq![
                InstructionV::SetRouteProperty(identifier.text),
            ],
            _ => Seq::empty(),
        }
    }
}

/// The assignments of a route's properties are compilable.
pub open spec fn route_block_compilable(ss: Seq<StmtV>) -> bool {
    forall|i: int|
        0 <= i < ss.len() ==> (#[trigger] ss[i] matches StmtV::Assign { value, .. } ==> compilable(
            value,
        ))
}

/// A route starts a route of its kind, sets its properties, and is added to
/// the routes built.
pub open spec fn route_code(r: RouteV) -> Seq<CodeV> {
    match r {
        RouteV::TCP { target, properties, span } => seq![
            InstructionV::PushRoute(
                RawRouteV {
                    kind: RouteKind::TCP,
                    hostname: None,
                    service_target: target.service.text,
                    port: target.port,
                    properties: Seq::empty(),
                    span,
                },
            ),
        ] + route_block_code(properties.body) + seq![InstructionV::SetRoute],
        RouteV::HTTP { hostname, target, properties, span } => seq![
            InstructionV::PushRoute(
                RawRouteV {
                    kind: RouteKind::HTTP,
                    hostname: Some(hostname.text),
                    service_target: target.service.text,
                    port: target.port,
                    properties: Seq::empty(),
                    span,
                },
            ),
        ] + route_block_code(properties.body) + seq![InstructionV::SetRoute],
    }
}

/// A statement the compiler handles.
pub open spec fn stmt_compilable(s: StmtV) -> bool {
    match s {
        StmtV::Assign { value, .. } => compilable(value),
        StmtV::Let { value, .. } => compilable(value),
        StmtV::Route(r) => match r {
            RouteV::TCP { properties, .. } => route_block_compilable(properties.body),
            RouteV::HTTP { properties, .. } => route_block_compilable(properties.body),
        },
    }
}

/// Compiling a statement with the given locals: the locals after it and its
/// instructions. A `let` takes the next slot.
pub open spec fn stmt_compile(locals: Seq<Seq<char>>, s: StmtV) -> (Seq<Seq<char>>, Seq<CodeV>) {
    match s {
        StmtV::Assign { identifier, value, .. } => (
            locals,
            expr_code(value) + seq![set_value_code(locals, identifier.text)],
        ),
        StmtV::Let { name, value, .. } => (
            locals.push(name.text),
            expr_code(value) + seq![InstructionV::SetLocal(locals.len() as usize)],
        ),
        StmtV::Route(r) => (locals, route_code(r)),
    }
}

/// Compiling statements one after the other.
pub open spec fn block_compile(locals: Seq<Seq<char>>, ss: Seq<StmtV>) -> (
    Seq<Seq<char>>,
    Seq<CodeV>,
)
    decreases ss.len(),
{
    if ss.len() == 0 {
        (locals, Seq::empty())
    } else {
        let (l1, c1) = block_compile(locals, ss.drop_last());
        let (l2, c2) = stmt_compile(l1, ss.last());
        (l2, c1 + c2)
    }
}

/// `after` is `before` with the instructions `code` emitted after its own,
/// its count advanced by as many.
pub open spec fn emitted(before: Compiler, after: Compiler, code: Seq<CodeV>) -> bool {
    &&& codes_view(after.vm_state.instructions@) == codes_view(before.vm_state.instructions@) + code
    &&& after.next_instrucion == before.next_instrucion + code.len()
}

/// The count of emitted instructions can grow by the length of `code`.
pub open spec fn fits(c: Compiler, code: Seq<CodeV>) -> bool {
    c.next_instrucion + code.len() <= usize::MAX
}

/// The names of a compiler's local slots.
pub open spec fn locals_of(c: Compiler) -> Seq<Seq<char>> {
    names_view(c.vm_state.locals@)
}

proof fn lemma_emitted_then(a: Compiler, b: Compiler, c: Compiler, x: Seq<CodeV>, y: Seq<CodeV>)
    requires
        emitted(a, b, x),
        emitted(b, c, y),
    ensures
        emitted(a, c, x + y),
{
    assert(codes_view(a.vm_state.instructions@) + x + y =~= codes_view(a.vm_state.instructions@) + (x + y));
}

proof fn lemma_emitted_nothing(a: Compiler)
    ensures
        emitted(a, a, Seq::empty()),
{
    assert(codes_view(a.vm_state.instructions@) + Seq::<CodeV>::empty() =~= codes_view(a.vm_state.instructions@));
}

proof fn lemma_fields_code_prefix(fs: Seq<FieldV>, j: int)
    requires
        0 <= j <= fs.len(),
    ensures
        fields_code(fs.subrange(0, j)).len() <= fields_code(fs).len(),
        fields_compilable(fs) ==> fields_compilable(fs.subrange(0, j)),
    decreases fs.len() - j,
{
    if j < fs.len() {
        lemma_fields_code_prefix(fs, j + 1);
        let t = fs.subrange(0, j + 1);
        assert(t.subrange(0, t.len() - 1) =~= fs.subrange(0, j));
    } else {
        assert(fs.subrange(0, j) =~= fs);
    }
}

proof fn lemma_route_block_code_prefix(ss: Seq<StmtV>, j: int)
    requires
        0 <= j <= ss.len(),
    ensures
        route_block_code(ss.subrange(0, j)).len() <= route_block_code(ss).len(),
    decreases ss.len() - j,
{
    if j < ss.len() {
        lemma_route_block_code_prefix(ss, j + 1);
        let t = ss.subrange(0, j + 1);
        assert(t.drop_last() =~= ss.subrange(0, j));
    } else {
        assert(ss.subrange(0, j) =~= ss);
    }
}

proof fn lemma_block_compile_prefix(locals: Seq<Seq<char>>, ss: Seq<StmtV>, j: int)
    requires
        0 <= j <= ss.len(),
    ensures
        block_compile(locals, ss.subrange(0, j)).1.len() <= block_compile(locals, ss).1.len(),
    decreases ss.len() - j,
{
    if j < ss.len() {
        lemma_block_compile_prefix(locals, ss, j + 1);
        let t = ss.subrange(0, j + 1);
        assert(t.drop_last() =~= ss.subrange(0, j));
    } else {
        assert(ss.subrange(0, j) =~= ss);
    }
}

#[allow(non_snake_case)]
impl Compiler {
    fn INSERT(&mut self, instruction: Instruction<String>)
        requires
            old(self).next_instrucion < usize::MAX,
        ensures
            emitted(*old(self), *final(self), seq![code_view(instruction)]),
            final(self).vm_state.locals == old(self).vm_state.locals,
    {
        let ghost c = code_view(instruction);
        self.vm_state.instructions.push(instruction);
        self.next_instrucion += 1;
        proof {
            assert(codes_view(self.vm_state.instructions@) =~= codes_view(old(self).vm_state.instructions@) + seq![c]);
        }
    }

    fn DEFINE_LOCAL(&mut self, root: &VarRoot) -> (r: usize)
        ensures
            locals_of(*final(self)) == locals_of(*old(self)).push(root.name.text@),
            r == locals_of(*old(self)).len(),
            final(self).vm_state.instructions == old(self).vm_state.instructions,
            final(self).next_instrucion == old(self).next_instrucion,
    {
        self.vm_state.locals.push(root.name.text.clone());
        proof {
            assert(locals_of(*self) =~= locals_of(*old(self)).push(root.name.text@));
        }
        return self.vm_state.locals.len() - 1;
    }

    /// The slot named `key`, if there is one.
    fn slot(&self, key: &str) -> (r: Option<usize>)
        ensures
            slot_of(locals_of(*self), key@, 0) == match r {
                Some(i) => Some(i as int),
                None => None::<int>,
            },
    {
        let name = String::from_str(key);
        let ghost l = locals_of(*self);
        let mut i: usize = 0;
        while i < self.vm_state.locals.len()
            invariant
                i <= self.vm_state.locals@.len(),
                l == locals_of(*self),
                name@ == key@,
                slot_of(l, key@, 0) == slot_of(l, key@, i as int),
            decreases self.vm_state.locals.len() - i,
        {
            if self.vm_state.locals[i] == name {
                proof {
                    assert(l[i as int] == key@);
                }
                return Some(i);
            }
            i += 1;
        }
        None
    }

    fn GET_VALUE(&mut self, key: &str)
        requires
            old(self).next_instrucion < usize::MAX,
        ensures
            emitted(*old(self), *final(self), seq![get_value_code(locals_of(*old(self)), key@)]),
            final(self).vm_state.locals == old(self).vm_state.locals,
    {
        let index = self.slot(key);
        if let Some(index) = index {
            self.INSERT(Instruction::PushLocal(index));
        } else {
            self.INSERT(Instruction::PushGlobal(String::from_str(key)));
        }
    }

    fn SET_VALUE(&mut self, key: &str)
        requires
            old(self).next_instrucion < usize::MAX,
        ensures
            emitted(*old(self), *final(self), seq![set_value_code(locals_of(*old(self)), key@)]),
            final(self).vm_state.locals == old(self).vm_state.locals,
    {
        let index = self.slot(key);
        if let Some(index) = index {
            self.INSERT(Instruction::SetLocal(index));
        } else {
            self.INSERT(Instruction::SetGlobal(String::from_str(key)));
        }
    }

    fn compile_expression(&mut self, expression: &Expression)
        requires
            compilable(expression@),
            fits(*old(self), expr_code(expression@)),
        ensures
            emitted(*old(self), *final(self), expr_code(expression@)),
            final(self).vm_state.locals == old(self).vm_state.locals,
        decreases expression,
    {
        match expression {
            Expression::Boolean(node) => {
                self.INSERT(
                    Instruction::PushBoolean(
                        if node.token.kind == TokenKind::True {
                            true
                        } else {
                            false
                        },
                    ),
                );
            },
            Expression::Nil(_) => {
                self.INSERT(Instruction::PushNil);
            },
            Expression::Number(node) => {
                self.INSERT(Instruction::PushNumber(node.token.text.clone()));
            },
            Expression::String(node) => {
                self.INSERT(Instruction::PushString(node.token.text.clone()));
            },
            Expression::Table(node) => {
                self.compile_table(node);
            },
            _ => {
                proof {
                    assert(false);
                }
            },
        }
    }

    fn compile_table(&mut self, table: &ExpressionTable)
        requires
            compilable(Expression::Table(*table)@),
            fits(*old(self), expr_code(Expression::Table(*table)@)),
        ensures
            emitted(*old(self), *final(self), expr_code(Expression::Table(*table)@)),
            final(self).vm_state.locals == old(self).vm_state.locals,
        decreases table,
    {
        let ghost c0 = *self;
        let ghost fs = (Expression::Table(*table)@)->fields;
        self.INSERT(Instruction::PushTable(InstructionPushTable { alloc: 1 }));
        let ghost c1 = *self;
        proof {
            lemma_emitted_nothing(c1);
            assert(fs.subrange(0, 0) =~= Seq::<FieldV>::empty());
        }
        let values = &table.values.value;
        let mut i: usize = 0;
        while i < values.len()
            invariant
                i <= values@.len(),
                values == &table.values.value,
                fs.len() == values@.len(),
                forall|k: int| 0 <= k < fs.len() ==> #[trigger] fs[k] == crate::ast::field_view(values@[k]),
                fields_compilable(fs),
                c1.next_instrucion + fields_code(fs).len() <= usize::MAX,
                emitted(c1, *self, fields_code(fs.subrange(0, i as int))),
                self.vm_state.locals == c0.vm_state.locals,
            decreases values.len() - i,
        {
            let ghost ci = *self;
            let ghost p = fields_code(fs.subrange(0, i as int));
            let ghost t = fs.subrange(0, i + 1);
            let ghost f = fs[i as int];
            proof {
                assert(t.subrange(0, t.len() - 1) =~= fs.subrange(0, i as int));
                lemma_fields_code_prefix(fs, i + 1);
                assert(fields_code(t) == p + field_code(f));
                assert(fields_compilable(t));
                assert(field_compilable(t[t.len() - 1]));
                assert(t[t.len() - 1] == f);
                assert(f == crate::ast::field_view(values@[i as int]));
                assert(table_field_compilable(f.field));
            }
            match &values[i].value {
                TableField::NameKey(node) => {
                    let ghost a = seq![InstructionV::PushString(node.name.text@)];
                    let ghost b = expr_code(node.value@);
                    let ghost c = seq![InstructionV::<Seq<char>>::SetTable];
                    proof {
                        assert(field_code(f) == a + b + c);
                    }
                    self.INSERT(Instruction::PushString(node.name.text.clone()));
                    let ghost d1 = *self;
                    self.compile_expression(&node.value);
                    let ghost d2 = *self;
                    proof {
                        lemma_emitted_then(ci, d1, d2, a, b);
                    }
                    self.INSERT(Instruction::SetTable);
                    proof {
                        lemma_emitted_then(ci, d2, *self, a + b, c);
                        lemma_emitted_then(c1, ci, *self, p, a + b + c);
                    }
                },
                TableField::NoKey(node) => {
                    self.compile_expression(&node.value);
                    proof {
                        lemma_emitted_then(c1, ci, *self, p, field_code(f));
                    }
                },
            }
            i += 1;
        }
        proof {
            assert(fs.subrange(0, i as int) =~= fs);
            lemma_emitted_then(c0, c1, *self, seq![InstructionV::<Seq<char>>::PushTable], fields_code(fs));
        }
    }

    fn compile_assignment(&mut self, assign: &Assign)
        requires
            compilable(assign.value@),
            fits(*old(self), stmt_compile(locals_of(*old(self)), Statement::Assign(*assign)@).1),
        ensures
            emitted(*old(self), *final(self), stmt_compile(locals_of(*old(self)), Statement::Assign(*assign)@).1),
            final(self).vm_state.locals == old(self).vm_state.locals,
    {
        let ghost c0 = *self;
        self.compile_expression(&assign.value);
        let ghost c1 = *self;
        self.SET_VALUE(assign.identifier.text.as_str());
        proof {
            lemma_emitted_then(c0, c1, *self, expr_code(assign.value@), seq![set_value_code(locals_of(c0), assign.identifier.text@)]);
        }
    }

    fn compile_var(&mut self, node: &LetStatement)
        requires
            compilable(node.value@),
            fits(*old(self), stmt_compile(locals_of(*old(self)), Statement::Let(*node)@).1),
        ensures
            emitted(*old(self), *final(self), stmt_compile(locals_of(*old(self)), Statement::Let(*node)@).1),
            locals_of(*final(self)) == stmt_compile(locals_of(*old(self)), Statement::Let(*node)@).0,
    {
        let ghost c0 = *self;
        self.compile_expression(&node.value);
        let ghost c1 = *self;
        let slot = self.DEFINE_LOCAL(&node.root);
        let ghost c2 = *self;
        proof {
            lemma_emitted_nothing(c2);
        }
        self.INSERT(Instruction::SetLocal(slot));
        proof {
            lemma_emitted_then(c0, c1, *self, expr_code(node.value@), seq![InstructionV::SetLocal(slot)]);
        }
    }

    fn compile_route_block(&mut self, block: &Block)
        requires
            route_block_compilable(block@.body),
            fits(*old(self), route_block_code(block@.body)),
        ensures
            emitted(*old(self), *final(self), route_block_code(block@.body)),
            final(self).vm_state.locals == old(self).vm_state.locals,
    {
        let ghost c0 = *self;
        let ghost ss = block@.body;
        proof {
            lemma_emitted_nothing(c0);
            assert(ss.subrange(0, 0) =~= Seq::<StmtV>::empty());
        }
        let mut i: usize = 0;
        while i < block.body.len()
            invariant
                i <= block.body@.len(),
                ss == block@.body,
                ss.len() == block.body@.len(),
                forall|k: int| 0 <= k < ss.len() ==> #[trigger] ss[k] == block.body@[k]@,
                route_block_compilable(ss),
                c0.next_instrucion + route_block_code(ss).len() <= usize::MAX,
                emitted(c0, *self, route_block_code(ss.subrange(0, i as int))),
                self.vm_state.locals == c0.vm_state.locals,
            decreases block.body.len() - i,
        {
            let ghost ci = *self;
            let ghost p = route_block_code(ss.subrange(0, i as int));
            let ghost t = ss.subrange(0, i + 1);
            proof {
                assert(t.drop_last() =~= ss.subrange(0, i as int));
                assert(t.last() == ss[i as int]);
                lemma_route_block_code_prefix(ss, i + 1);
            }
            match &block.body[i] {
                Statement::Assign(node) => {
                    let ghost a = expr_code(node.value@);
                    let ghost b = seq![InstructionV::SetRouteProperty(node.identifier.text@)];
                    proof {
                        assert(ss[i as int] == Statement::Assign(*node)@);
                    }
                    self.compile_expression(&node.value);
                    let ghost d1 = *self;
                    self.INSERT(Instruction::SetRouteProperty(node.identifier.text.clone()));
                    proof {
                        lemma_emitted_then(ci, d1, *self, a, b);
                        lemma_emitted_then(c0, ci, *self, p, a + b);
                    }
                },
                _ => {
                    proof {
                        lemma_emitted_then(c0, ci, ci, p, Seq::empty());
                        lemma_emitted_nothing(ci);
                        assert(p + Seq::<CodeV>::empty() =~= p);
                    }
                },
            }
            i += 1;
        }
        proof {
            assert(ss.subrange(0, i as int) =~= ss);
        }
    }

    fn compile_route_tcp(&mut self, tcp: &RouteTCP)
        requires
            route_block_compilable(tcp.properties@.body),
            fits(*old(self), route_code(crate::ast::route_view(Route::TCP(*tcp)))),
        ensures
            emitted(*old(self), *final(self), route_code(crate::ast::route_view(Route::TCP(*tcp)))),
            final(self).vm_state.locals == old(self).vm_state.locals,
    {
        let ghost c0 = *self;
        self.INSERT(
            Instruction::PushRoute(
                InstructionPushRoute {
                    route_kind: RouteKind::TCP,
                    service_target: tcp.target.service.text.clone(),
                    service_port: tcp.target.port,
                    hostname: None,
                    span: tcp.span,
                },
            ),
        );
        let ghost c1 = *self;
        let ghost a = codes_view(c1.vm_state.instructions@).subrange(
            codes_view(c0.vm_state.instructions@).len() as int,
            codes_view(c1.vm_state.instructions@).len() as int,
        );
        self.compile_route_block(&tcp.properties);
        let ghost c2 = *self;
        self.INSERT(Instruction::SetRoute);
        proof {
            let r = route_code(crate::ast::route_view(Route::TCP(*tcp)));
            let b = route_block_code(tcp.properties@.body);
            lemma_emitted_then(c1, c2, *self, b, seq![InstructionV::<Seq<char>>::SetRoute]);
            assert(codes_view(self.vm_state.instructions@) =~= codes_view(c0.vm_state.instructions@) + r);
        }
    }

    fn compile_route_http(&mut self, http: &RouteHTTP)
        requires
            route_block_compilable(http.properties@.body),
            fits(*old(self), route_code(crate::ast::route_view(Route::HTTP(*http)))),
        ensures
            emitted(*old(self), *final(self), route_code(crate::ast::route_view(Route::HTTP(*http)))),
            final(self).vm_state.locals == old(self).vm_state.locals,
    {
        let ghost c0 = *self;
        self.INSERT(
            Instruction::PushRoute(
                InstructionPushRoute {
                    route_kind: RouteKind::HTTP,
                    service_target: http.target.service.text.clone(),
                    service_port: http.target.port,
                    hostname: Some(http.hostname.text.clone()),
                    span: http.span,
                },
            ),
        );
        let ghost c1 = *self;
        self.compile_route_block(&http.properties);
        let ghost c2 = *self;
        self.INSERT(Instruction::SetRoute);
        proof {
            let r = route_code(crate::ast::route_view(Route::HTTP(*http)));
            let b = route_block_code(http.properties@.body);
            lemma_emitted_then(c1, c2, *self, b, seq![InstructionV::<Seq<char>>::SetRoute]);
            assert(codes_view(self.vm_state.instructions@) =~= codes_view(c0.vm_state.instructions@) + r);
        }
    }

    fn compile_route(&mut self, route: &Route)
        requires
            stmt_compilable(Statement::Route(*route)@),
            fits(*old(self), route_code(crate::ast::route_view(*route))),
        ensures
            emitted(*old(self), *final(self), route_code(crate::ast::route_view(*route))),
            final(self).vm_state.locals == old(self).vm_state.locals,
    {
        match route {
            Route::TCP(node) => self.compile_route_tcp(node),
            Route::HTTP(node) => self.compile_route_http(node),
        }
    }

    fn compile_block(&mut self, block: &Block)
        requires
            forall|i: int| 0 <= i < block@.body.len() ==> stmt_compilable(#[trigger] block@.body[i]),
            fits(*old(self), block_compile(locals_of(*old(self)), block@.body).1),
        ensures
            emitted(*old(self), *final(self), block_compile(locals_of(*old(self)), block@.body).1),
            locals_of(*final(self)) == block_compile(locals_of(*old(self)), block@.body).0,
    {
        let ghost c0 = *self;
        let ghost l0 = locals_of(c0);
        let ghost ss = block@.body;
        proof {
            lemma_emitted_nothing(c0);
            assert(ss.subrange(0, 0) =~= Seq::<StmtV>::empty());
        }
        let mut i: usize = 0;
        while i < block.body.len()
            invariant
                i <= block.body@.len(),
                ss == block@.body,
                ss.len() == block.body@.len(),
                forall|k: int| 0 <= k < ss.len() ==> #[trigger] ss[k] == block.body@[k]@,
                forall|k: int| 0 <= k < ss.len() ==> stmt_compilable(#[trigger] ss[k]),
                c0.next_instrucion + block_compile(l0, ss).1.len() <= usize::MAX,
                emitted(c0, *self, block_compile(l0, ss.subrange(0, i as int)).1),
                locals_of(*self) == block_compile(l0, ss.subrange(0, i as int)).0,
            decreases block.body.len() - i,
        {
            let ghost ci = *self;
            let ghost t = ss.subrange(0, i + 1);
            proof {
                assert(t.drop_last() =~= ss.subrange(0, i as int));
                assert(t.last() == ss[i as int]);
                lemma_block_compile_prefix(l0, ss, i + 1);
                assert(stmt_compilable(ss[i as int]));
            }
            match &block.body[i] {
                Statement::Assign(node) => self.compile_assignment(node),
                Statement::Let(node) => self.compile_var(node),
                Statement::Route(node) => self.compile_route(node),
            }
            proof {
                lemma_emitted_then(c0, ci, *self, block_compile(l0, ss.subrange(0, i as int)).1, stmt_compile(locals_of(ci), ss[i as int]).1);
            }
            i += 1;
        }
        proof {
            assert(ss.subrange(0, i as int) =~= ss);
        }
    }
}

/// A copy of an instruction.
fn copy_instruction(i: &Instruction<String>) -> (r: Instruction<String>)
    ensures
        code_view(r) == code_view(*i),
{
    match i {
        Instruction::PushNumber(x) => Instruction::PushNumber(x.clone()),
        Instruction::PushString(x) => Instruction::PushString(x.clone()),
        Instruction::PushBoolean(b) => Instruction::PushBoolean(*b),
        Instruction::PushNil => Instruction::PushNil,
        Instruction::PushLocal(n) => Instruction::PushLocal(*n),
        Instruction::PushGlobal(k) => Instruction::PushGlobal(k.clone()),
        Instruction::PushTable(t) => Instruction::PushTable(*t),
        Instruction::PushRoute(r) => Instruction::PushRoute(
            InstructionPushRoute {
                route_kind: r.route_kind,
                service_target: r.service_target.clone(),
                service_port: r.service_port,
                hostname: match &r.hostname {
                    Some(h) => Some(h.clone()),
                    None => None,
                },
                span: r.span,
            },
        ),
        Instruction::SetLocal(n) => Instruction::SetLocal(*n),
        Instruction::SetGlobal(k) => Instruction::SetGlobal(k.clone()),
        Instruction::SetTable => Instruction::SetTable,
        Instruction::SetRouteProperty(k) => Instruction::SetRouteProperty(k.clone()),
        Instruction::SetRoute => Instruction::SetRoute,
    }
}

impl Compiler {
    /// Compiles a program and returns all instructions emitted so far.
    pub fn compile(&mut self, ast: Ast) -> (r: Vec<Instruction<String>>)
        requires
            forall|i: int| 0 <= i < ast@.body.len() ==> stmt_compilable(#[trigger] ast@.body[i]),
            fits(*old(self), block_compile(locals_of(*old(self)), ast@.body).1),
        ensures
            emitted(*old(self), *final(self), block_compile(locals_of(*old(self)), ast@.body).1),
            locals_of(*final(self)) == block_compile(locals_of(*old(self)), ast@.body).0,
            codes_view(r@) == codes_view(final(self).vm_state.instructions@),
    {
        self.compile_block(&ast.block);
        let mut r: Vec<Instruction<String>> = Vec::new();
        let mut i: usize = 0;
        while i < self.vm_state.instructions.len()
            invariant
                i <= self.vm_state.instructions@.len(),
                r@.len() == i,
                forall|k: int| 0 <= k < i ==> code_view(#[trigger] r@[k]) == code_view(self.vm_state.instructions@[k]),
            decreases self.vm_state.instructions.len() - i,
        {
            r.push(copy_instruction(&self.vm_state.instructions[i]));
            i += 1;
        }
        proof {
            assert(codes_view(r@) =~= codes_view(self.vm_state.instructions@));
        }
        r
    }
}

} // verus!
