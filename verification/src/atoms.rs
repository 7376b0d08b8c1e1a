//! The syntax tree. A node, called an atom, is a tag and the payload that goes
//! with it. A node owns its operands, statements and arguments; it names a
//! declaration made earlier by that declaration's index in the parser's list
//! of declarations.

use crate::lexer::Operator;
use crate::lexer::Type;
use std::rc::Rc;
use vstd::prelude::*;

verus! {

/// The tag of a node.
#[derive(Debug, PartialEq, Eq, Clone, Copy, Structural)]
pub enum AtomType {
    Program,
    BoxFunction,
    Assignment,
    Expression,
    Return,
    Variable,
    Arg,
    FunctionCall,
    VariableDec,
    VariableDef,
    RefAtom,
    Nil,
}

/// The mathematical value of an [`Atom`].
pub struct AtomView {
    pub atype: AtomType,
    pub body: BodyView,
}

/// The mathematical value of an [`AtomBody`]: names are sequences of
/// characters, lists are sequences, and a reference to a declaration is its
/// index.
#[allow(inconsistent_fields)]
pub enum BodyView {
    Program { name: Seq<char>, crate_type: bool, start: nat },
    Function {
        id: Seq<char>,
        arguments: Seq<AtomView>,
        return_type: Type,
        statements: Seq<AtomView>,
    },
    Return { expr: Box<AtomView> },
    Statement { stype: AtomType, body: nat },
    Assignment { lhs: nat, rhs: Box<AtomView> },
    Const { ctype: Type, value: isize },
    BinaryOp { operator: Operator, lhs: Box<AtomView>, rhs: Box<AtomView> },
    Variable { id: Seq<char>, vtype: Type },
    Arg { id: Seq<char>, vtype: Type },
    Expression { etype: AtomType, body: nat },
    VariableDec { id: Seq<char>, vtype: Type },
    VariableDef { dec: nat, assign: Box<AtomView> },
    FunctionCall { id: nat, input: Seq<AtomView> },
    RefAtom { atom: nat },
    Nil,
}

/// A node of the syntax tree.
#[derive(Debug, PartialEq)]
pub struct Atom {
    pub atype: AtomType,
    pub body: AtomBody,
}

/// What a node holds, by kind.
#[derive(Debug, PartialEq)]
pub enum AtomBody {
    Program(Program),
    Function(Rc<Function>),
    Return(Box<Return>),
    Statement(Statement),
    Assignment(Box<Assignment>),
    Const(Const<isize>),
    BinaryOp(Box<BinaryOp>),
    Variable(Variable),
    Arg(Arg),
    Expression(Expression),
    VariableDec(VariableDec),
    VariableDef(Box<VariableDef>),
    FunctionCall(FunctionCall),
    RefAtom(RefAtom),
    Nil,
}

/// A reference to a declaration: its index among the declarations of the
/// parse.
#[derive(Debug, PartialEq, Eq, Clone, Copy, Structural)]
pub struct RefAtom {
    pub atom: usize,
}

/// A build target: its name, whether it is a library, and its entry node.
#[derive(Debug, PartialEq)]
pub struct Program {
    pub name: String,
    pub crate_type: bool,
    pub start: RefAtom,
}

/// A function: its name, formal parameters, return type and statements.
#[derive(Debug, PartialEq)]
pub struct Function {
    pub id: String,
    pub arguments: Vec<Atom>,
    pub return_type: Type,
    pub statements: Vec<Atom>,
}

/// A `return` statement and the expression it returns.
#[derive(Debug, PartialEq)]
pub struct Return {
    pub expr: Atom,
}

/// A node marked as a statement of some kind.
#[derive(Debug, PartialEq, Eq, Clone, Copy, Structural)]
pub struct Statement {
    pub stype: AtomType,
    pub body: RefAtom,
}

/// An assignment to a declared variable.
#[derive(Debug, PartialEq)]
pub struct Assignment {
    pub lhs: RefAtom,
    pub rhs: Atom,
}

/// A literal value with its type.
#[derive(Debug, PartialEq)]
pub struct Const<T> {
    pub ctype: Type,
    pub value: T,
}

/// A binary operator applied to two operands.
#[derive(Debug, PartialEq)]
pub struct BinaryOp {
    pub operator: Operator,
    pub lhs: Atom,
    pub rhs: Atom,
}

/// A variable that a name was resolved to.
#[derive(Debug, PartialEq)]
pub struct Variable {
    pub id: String,
    pub vtype: Type,
}

/// A formal parameter.
#[derive(Debug, PartialEq)]
pub struct Arg {
    pub id: String,
    pub vtype: Type,
}

/// A node marked as an expression of some kind.
#[derive(Debug, PartialEq, Eq, Clone, Copy, Structural)]
pub struct Expression {
    pub etype: AtomType,
    pub body: RefAtom,
}

/// A fresh variable declaration.
#[derive(Debug, PartialEq)]
pub struct VariableDec {
    pub id: String,
    pub vtype: Type,
}

/// A variable declaration together with the assignment that initializes it.
#[derive(Debug, PartialEq)]
pub struct VariableDef {
    pub dec: RefAtom,
    pub assign: Atom,
}

/// A call of a declared function.
#[derive(Debug, PartialEq)]
pub struct FunctionCall {
    pub id: RefAtom,
    pub input: Vec<Atom>,
}

/// The values of a sequence of nodes, in order.
pub open spec fn atoms_view(atoms: Seq<Atom>) -> Seq<AtomView> {
    Seq::new(atoms.len(), |i: int| atoms[i]@)
}

impl View for Atom {
    type V = AtomView;

    /// The value of the node.
    open spec fn view(&self) -> AtomView {
        self.value()
    }
}

impl Atom {
    /// The tag, and the value of the payload with every node below it taken
    /// by its own value.
    pub open spec fn value(&self) -> AtomView
        decreases self,
    {
        AtomView {
            atype: self.atype,
            body: match self.body {
                AtomBody::Program(p) => BodyView::Program {
                    name: p.name@,
                    crate_type: p.crate_type,
                    start: p.start.atom as nat,
                },
                AtomBody::Function(f) => BodyView::Function {
                    id: f.id@,
                    arguments: Seq::new(
                        f.arguments@.len(),
                        |i: int|
                            if 0 <= i < f.arguments@.len() {
                                f.arguments@[i].value()
                            } else {
                                arbitrary()
                            },
                    ),
                    return_type: f.return_type,
                    statements: Seq::new(
                        f.statements@.len(),
                        |i: int|
                            if 0 <= i < f.statements@.len() {
                                f.statements@[i].value()
                            } else {
                                arbitrary()
                            },
                    ),
                },
                AtomBody::Return(r) => BodyView::Return { expr: Box::new(r.expr.value()) },
                AtomBody::Statement(s) => BodyView::Statement {
                    stype: s.stype,
                    body: s.body.atom as nat,
                },
                AtomBody::Assignment(a) => BodyView::Assignment {
                    lhs: a.lhs.atom as nat,
                    rhs: Box::new(a.rhs.value()),
                },
                AtomBody::Const(c) => BodyView::Const { ctype: c.ctype, value: c.value },
                AtomBody::BinaryOp(b) => BodyView::BinaryOp {
                    operator: b.operator,
                    lhs: Box::new(b.lhs.value()),
                    rhs: Box::new(b.rhs.value()),
                },
                AtomBody::Variable(v) => BodyView::Variable { id: v.id@, vtype: v.vtype },
                AtomBody::Arg(a) => BodyView::Arg { id: a.id@, vtype: a.vtype },
                AtomBody::Expression(e) => BodyView::Expression {
                    etype: e.etype,
                    body: e.body.atom as nat,
                },
                AtomBody::VariableDec(d) => BodyView::VariableDec { id: d.id@, vtype: d.vtype },
                AtomBody::VariableDef(d) => BodyView::VariableDef {
                    dec: d.dec.atom as nat,
                    assign: Box::new(d.assign.value()),
                },
                AtomBody::FunctionCall(c) => BodyView::FunctionCall {
                    id: c.id.atom as nat,
                    input: Seq::new(
                        c.input@.len(),
                        |i: int|
                            if 0 <= i < c.input@.len() {
                                c.input@[i].value()
                            } else {
                                arbitrary()
                            },
                    ),
                },
                AtomBody::RefAtom(r) => BodyView::RefAtom { atom: r.atom as nat },
                AtomBody::Nil => BodyView::Nil,
            },
        }
    }
}

impl View for AtomBody {
    type V = BodyView;

    /// The value of a payload: each field by its value, each node below by
    /// its own.
    open spec fn view(&self) -> BodyView {
        match *self {
            AtomBody::Program(p) => BodyView::Program {
                name: p.name@,
                crate_type: p.crate_type,
                start: p.start.atom as nat,
            },
            AtomBody::Function(f) => BodyView::Function {
                id: f.id@,
                arguments: atoms_view(f.arguments@),
                return_type: f.return_type,
                statements: atoms_view(f.statements@),
            },
            AtomBody::Return(r) => BodyView::Return { expr: Box::new(r.expr@) },
            AtomBody::Statement(s) => BodyView::Statement {
                stype: s.stype,
                body: s.body.atom as nat,
            },
            AtomBody::Assignment(a) => BodyView::Assignment {
                lhs: a.lhs.atom as nat,
                rhs: Box::new(a.rhs@),
            },
            AtomBody::Const(c) => BodyView::Const { ctype: c.ctype, value: c.value },
            AtomBody::BinaryOp(b) => BodyView::BinaryOp {
                operator: b.operator,
                lhs: Box::new(b.lhs@),
                rhs: Box::new(b.rhs@),
            },
            AtomBody::Variable(v) => BodyView::Variable { id: v.id@, vtype: v.vtype },
            AtomBody::Arg(a) => BodyView::Arg { id: a.id@, vtype: a.vtype },
            AtomBody::Expression(e) => BodyView::Expression {
                etype: e.etype,
                body: e.body.atom as nat,
            },
            AtomBody::VariableDec(d) => BodyView::VariableDec { id: d.id@, vtype: d.vtype },
            AtomBody::VariableDef(d) => BodyView::VariableDef {
                dec: d.dec.atom as nat,
                assign: Box::new(d.assign@),
            },
            AtomBody::FunctionCall(c) => BodyView::FunctionCall {
                id: c.id.atom as nat,
                input: atoms_view(c.input@),
            },
            AtomBody::RefAtom(r) => BodyView::RefAtom { atom: r.atom as nat },
            AtomBody::Nil => BodyView::Nil,
        }
    }
}

/// The value of a node is its tag with the value of its payload.
pub proof fn lemma_atom_view(atom: Atom)
    ensures
        atom@ == (AtomView { atype: atom.atype, body: atom.body@ }),
{
    match atom.body {
        AtomBody::Function(f) => {
            match atom@.body {
                BodyView::Function { id, arguments, return_type, statements } => {
                    assert(arguments =~= atoms_view(f.arguments@));
                    assert(statements =~= atoms_view(f.statements@));
                },
                _ => {},
            }
        },
        AtomBody::FunctionCall(c) => {
            match atom@.body {
                BodyView::FunctionCall { id, input } => {
                    assert(input =~= atoms_view(c.input@));
                },
                _ => {},
            }
        },
        _ => {},
    }
}

impl RefAtom {
    /// A reference to the declaration at index `atom`.
    pub fn new(atom: usize) -> (r: Self)
        ensures
            r.atom == atom,
    {
        Self { atom }
    }
}

impl Program {
    /// A build target of the given name and kind, with its entry node.
    pub fn new(name: String, crate_type: bool, start: RefAtom) -> (r: Self)
        ensures
            r.name == name,
            r.crate_type == crate_type,
            r.start == start,
    {
        Program { name, crate_type, start }
    }
}

impl Function {
    /// A function of the given name, parameters, return type and statements.
    pub fn new(id: String, arguments: Vec<Atom>, return_type: Type, statements: Vec<Atom>) -> (r:
        Self)
        ensures
            r.id == id,
            r.arguments == arguments,
            r.return_type == return_type,
            r.statements == statements,
    {
        Function { id, arguments, return_type, statements }
    }
}

impl Return {
    /// A `return` of `expr`.
    pub fn new(expr: Atom) -> (r: Self)
        ensures
            r.expr == expr,
    {
        Self { expr }
    }
}

impl Statement {
    /// The node `body` marked as a statement of kind `stype`.
    pub fn new(stype: AtomType, body: RefAtom) -> (r: Self)
        ensures
            r.stype == stype,
            r.body == body,
    {
        Self { stype, body }
    }
}

impl Assignment {
    /// The assignment of `rhs` to the variable that declaration `lhs` made.
    pub fn new(lhs: RefAtom, rhs: Atom) -> (r: Self)
        ensures
            r.lhs == lhs,
            r.rhs == rhs,
    {
        Self { lhs, rhs }
    }
}

impl<T> Const<T> {
    /// The literal `value` of type `ctype`.
    pub fn new(ctype: Type, value: T) -> (r: Self)
        ensures
            r.ctype == ctype,
            r.value == value,
    {
        Self { ctype, value }
    }
}

impl BinaryOp {
    /// `operator` applied to `lhs` and `rhs`.
    pub fn new(operator: Operator, lhs: Atom, rhs: Atom) -> (r: Self)
        ensures
            r.operator == operator,
            r.lhs == lhs,
            r.rhs == rhs,
    {
        Self { operator, lhs, rhs }
    }
}

impl Variable {
    /// The variable `id` of type `vtype`.
    pub fn new(id: String, vtype: Type) -> (r: Self)
        ensures
            r.id == id,
            r.vtype == vtype,
    {
        Self { id, vtype }
    }
}

impl Arg {
    /// The formal parameter `id` of type `vtype`.
    pub fn new(id: String, vtype: Type) -> (r: Self)
        ensures
            r.id == id,
            r.vtype == vtype,
    {
        Self { id, vtype }
    }
}

impl Expression {
    /// The node `body` marked as an expression of kind `etype`.
    pub fn new(etype: AtomType, body: RefAtom) -> (r: Self)
        ensures
            r.etype == etype,
            r.body == body,
    {
        Self { etype, body }
    }
}

impl VariableDec {
    /// The declaration of the variable `id` of type `vtype`.
    pub fn new(id: String, vtype: Type) -> (r: Self)
        ensures
            r.id == id,
            r.vtype == vtype,
    {
        Self { id, vtype }
    }
}

impl VariableDef {
    /// Declaration `dec` with the assignment `assign` of its first value.
    pub fn new(dec: RefAtom, assign: Atom) -> (r: Self)
        ensures
            r.dec == dec,
            r.assign == assign,
    {
        Self { dec, assign }
    }
}

impl FunctionCall {
    /// A call of the function that declaration `id` made, with the arguments `input`.
    pub fn new(id: RefAtom, input: Vec<Atom>) -> (r: Self)
        ensures
            r.id == id,
            r.input == input,
    {
        Self { id, input }
    }
}

impl Atom {
    /// A node with the tag `atype` and the payload `body`.
    pub fn new(atype: AtomType, body: AtomBody) -> (r: Self)
        ensures
            r.atype == atype,
            r.body == body,
            r@ == (AtomView { atype, body: body@ }),
    {
        let r = Atom { atype, body };
        proof {
            lemma_atom_view(r);
        }
        r
    }
}

} // verus!
