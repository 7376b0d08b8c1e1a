//! The parser: one forward pass over the tokens that builds the syntax tree
//! and resolves each name to a declaration made before it.

use crate::atoms::Arg;
use crate::atoms::Assignment;
use crate::atoms::Atom;
use crate::atoms::AtomBody;
use crate::atoms::AtomType;
use crate::atoms::AtomView;
use crate::atoms::BinaryOp;
use crate::atoms::Const;
use crate::atoms::Function;
use crate::atoms::FunctionCall;
use crate::atoms::RefAtom;
use crate::atoms::Return;
use crate::atoms::Variable;
use crate::atoms::VariableDec;
use crate::atoms::VariableDef;
use crate::atoms::atoms_view;
use crate::atoms::lemma_atom_view;
use crate::grammar::ParseError;
use crate::grammar::extends;
use crate::grammar::lemma_prepend_nothing;
use crate::grammar::lemma_prepend_push;
use crate::grammar::lemma_prepend_statements_nothing;
use crate::grammar::lemma_prepend_statements_push;
use crate::grammar::mismatch;
use crate::grammar::name_at;
use crate::grammar::operator_at;
use crate::grammar::operator_level;
use crate::grammar::prepend;
use crate::grammar::prepend_statements;
use crate::grammar::resolve;
use crate::grammar::spec_args;
use crate::grammar::spec_args_from;
use crate::grammar::spec_binary;
use crate::grammar::spec_decordef;
use crate::grammar::spec_expression;
use crate::grammar::spec_expression_statement;
use crate::grammar::spec_function;
use crate::grammar::spec_input;
use crate::grammar::spec_input_from;
use crate::grammar::spec_next;
use crate::grammar::spec_operand;
use crate::grammar::spec_statement;
use crate::grammar::spec_statements;
use crate::grammar::spec_statements_from;
use crate::grammar::type_at;
use crate::grammar::variable_atom;
use crate::grammar::variable_of;
use crate::grammar::variables_of;
use crate::lexer::Keyword;
use crate::lexer::Operator;
use crate::lexer::Token;
use crate::lexer::TokenView;
use crate::lexer::Type;
use crate::lexer::tokens_view;
use crate::references::all_resolved_in;
use crate::references::backward;
use crate::references::lemma_decordef_resolved;
use crate::references::lemma_function_resolved;
use crate::references::lemma_next_resolved;
use crate::references::lemma_statement_resolved;
use crate::references::lemma_statements_resolved;
use crate::references::resolved_in;
use std::rc::Rc;
use vstd::prelude::*;

verus! {

/// A parse session: the tokens, the declarations made so far, in the order
/// in which they were made, and the index at which the declarations of the
/// function under way begin.
pub struct Parser {
    tokens: Vec<Token>,
    decls: Vec<Atom>,
    scope: usize,
}

/// The mathematical value of a [`Parser`].
pub struct ParserView {
    pub tokens: Seq<TokenView>,
    pub declarations: Seq<AtomView>,
    pub scope: nat,
}

impl ParserView {
    /// The function under way begins inside the declarations, so that a
    /// variable declared from now on is in sight; and each declaration
    /// refers only to declarations before it.
    pub open spec fn wf(self) -> bool {
        self.scope <= self.declarations.len() && backward(self.declarations)
    }
}

impl View for Parser {
    type V = ParserView;

    /// The tokens and the declarations by their values, and the beginning
    /// of the function under way.
    closed spec fn view(&self) -> ParserView {
        ParserView {
            tokens: tokens_view(self.tokens@),
            declarations: atoms_view(self.decls@),
            scope: self.scope as nat,
        }
    }
}

/// Whether a parse of one node is the outcome `want`.
pub open spec fn parsed_as(
    r: Result<(Atom, usize), ParseError>,
    want: Result<(AtomView, int), ParseError>,
) -> bool {
    match want {
        Ok((tree, end)) => r matches Ok((atom, next)) && atom@ == tree && next == end,
        Err(e) => r matches Err(f) && f == e,
    }
}

/// Whether a parse of a list of nodes is the outcome `want`.
pub open spec fn parsed_list_as(
    r: Result<(Vec<Atom>, usize), ParseError>,
    want: Result<(Seq<AtomView>, int), ParseError>,
) -> bool {
    match want {
        Ok((trees, end)) => r matches Ok((atoms, next)) && atoms_view(atoms@) == trees && next
            == end,
        Err(e) => r matches Err(f) && f == e,
    }
}

/// Whether a parse of one node that may declare something is the outcome
/// `want`, with the session going from `before` to `after`: on success the
/// session holds the new declarations, and `scope` is where the function
/// under way begins; on failure the session is as it was.
pub open spec fn parsed_with(
    r: Result<(Atom, usize), ParseError>,
    before: ParserView,
    after: ParserView,
    want: Result<(AtomView, int, Seq<AtomView>), ParseError>,
    scope: nat,
) -> bool {
    match want {
        Ok((tree, end, decls)) => r matches Ok((atom, next)) && atom@ == tree && next == end
            && after == (ParserView { tokens: before.tokens, declarations: decls, scope }),
        Err(e) => r matches Err(f) && f == e && after == before,
    }
}

/// The same for a parse of a list of nodes.
pub open spec fn parsed_list_with(
    r: Result<(Vec<Atom>, usize), ParseError>,
    before: ParserView,
    after: ParserView,
    want: Result<(Seq<AtomView>, int, Seq<AtomView>), ParseError>,
) -> bool {
    match want {
        Ok((trees, end, decls)) => r matches Ok((atoms, next)) && atoms_view(atoms@) == trees
            && next == end && after == (ParserView {
            tokens: before.tokens,
            declarations: decls,
            scope: before.scope,
        }),
        Err(e) => r matches Err(f) && f == e && after == before,
    }
}

/// Whether two tokens have the same value.
pub fn same_token(left: &Token, right: &Token) -> (r: bool)
    ensures
        r == (left@ == right@),
{
    match (left, right) {
        (Token::OpenBrace, Token::OpenBrace) => true,
        (Token::CloseBrace, Token::CloseBrace) => true,
        (Token::OpenParanthesis, Token::OpenParanthesis) => true,
        (Token::CloseParanthesis, Token::CloseParanthesis) => true,
        (Token::Semicolon, Token::Semicolon) => true,
        (Token::Colon, Token::Colon) => true,
        (Token::Keyword(a), Token::Keyword(b)) => *a == *b,
        (Token::Identifier(a), Token::Identifier(b)) => *a == *b,
        (Token::Literal(a), Token::Literal(b)) => *a == *b,
        (Token::Operator(a), Token::Operator(b)) => *a == *b,
        (Token::Arrow, Token::Arrow) => true,
        (Token::Unrecognizable, Token::Unrecognizable) => true,
        (Token::Comma, Token::Comma) => true,
        _ => false,
    }
}

/// How tightly a binary operator binds, if it is one.
pub fn level_of(operator: Operator) -> (r: Option<u8>)
    ensures
        match operator_level(operator) {
            Some(level) => r == Some(level as u8) && level < 5,
            None => r is None,
        },
{
    match operator {
        Operator::Equal => Some(0),
        Operator::LT | Operator::GT | Operator::LE | Operator::GE => Some(1),
        Operator::LShift | Operator::RShift => Some(2),
        Operator::Add | Operator::Sub => Some(3),
        Operator::Mul | Operator::Div => Some(4),
        Operator::Assign | Operator::Dot => None,
    }
}

impl Parser {
    /// A session on `tokens`, with nothing declared yet.
    pub fn new(tokens: Vec<Token>) -> (r: Self)
        ensures
            r@ == (ParserView {
                tokens: tokens_view(tokens@),
                declarations: Seq::empty(),
                scope: 0,
            }),
            r@.wf(),
    {
        let r = Self { tokens, decls: Vec::new(), scope: 0 };
        assert(r@.declarations =~= Seq::empty());
        r
    }

    /// The session holds no more tokens and declarations than the machine
    /// can count.
    pub proof fn lemma_lengths(&self)
        ensures
            self@.tokens.len() <= usize::MAX,
            self@.declarations.len() <= usize::MAX,
    {
        assert(self@.tokens.len() == self.tokens.len());
        assert(self@.declarations.len() == self.decls.len());
    }

    /// The tokens of the session.
    pub fn tokens(&self) -> (r: &Vec<Token>)
        ensures
            tokens_view(r@) == self@.tokens,
    {
        &self.tokens
    }

    /// The declarations made so far. The references in the tree are indices
    /// into this list.
    pub fn declarations(&self) -> (r: &Vec<Atom>)
        ensures
            atoms_view(r@) == self@.declarations,
    {
        &self.decls
    }

    /// The index at which the declarations of the function under way begin.
    pub fn scope(&self) -> (r: usize)
        ensures
            r == self@.scope,
    {
        self.scope
    }

    /// Tests that the token `wanted` stands at `pos`.
    pub fn expect(&self, pos: usize, wanted: &Token) -> (r: Result<(), ParseError>)
        ensures
            match mismatch(self@.tokens, pos as int, wanted@) {
                Some(e) => r == Err::<(), ParseError>(e),
                None => r is Ok && pos < self@.tokens.len(),
            },
    {
        if pos >= self.tokens.len() {
            Err(ParseError::UnexpectedEndOfInput)
        } else if same_token(&self.tokens[pos], wanted) {
            Ok(())
        } else {
            Err(ParseError::ParseExpectedToken)
        }
    }

    /// The identifier at `pos`.
    pub fn name_at(&self, pos: usize) -> (r: Result<String, ParseError>)
        ensures
            match name_at(self@.tokens, pos as int) {
                Ok(name) => r matches Ok(text) && text@ == name && pos < self@.tokens.len(),
                Err(e) => r == Err::<String, ParseError>(e),
            },
    {
        if pos >= self.tokens.len() {
            return Err(ParseError::UnexpectedEndOfInput);
        }
        match &self.tokens[pos] {
            Token::Identifier(name) => Ok(name.clone()),
            _ => Err(ParseError::ParseExpectedToken),
        }
    }

    /// The type keyword at `pos`.
    pub fn type_at(&self, pos: usize) -> (r: Result<Type, ParseError>)
        ensures
            r == type_at(self@.tokens, pos as int),
            r is Ok ==> pos < self@.tokens.len(),
    {
        if pos >= self.tokens.len() {
            return Err(ParseError::UnexpectedEndOfInput);
        }
        match &self.tokens[pos] {
            Token::Keyword(Keyword::Type(t)) => Ok(*t),
            _ => Err(ParseError::ParseExpectedToken),
        }
    }

    /// The binary operator of level `level` at `pos`, if one stands there.
    pub fn operator_at(&self, pos: usize, level: u8) -> (r: Option<Operator>)
        ensures
            r == operator_at(self@.tokens, pos as int, level as nat),
            r is Some ==> pos < self@.tokens.len(),
    {
        if pos >= self.tokens.len() {
            return None;
        }
        match &self.tokens[pos] {
            Token::Operator(operator) => match level_of(*operator) {
                Some(found) => if found == level {
                    Some(*operator)
                } else {
                    None
                },
                None => None,
            },
            _ => None,
        }
    }

    /// Resolves `name` to the index of the latest declaration in sight that
    /// declares it.
    pub fn resolve(&self, name: &String) -> (r: Option<usize>)
        ensures
            match resolve(self@.declarations, self@.scope, name@) {
                Some(index) => r == Some(index as usize) && 0 <= index
                    < self@.declarations.len(),
                None => r is None,
            },
    {
        let ghost decls = self@.declarations;
        let mut i: usize = self.decls.len();
        assert(decls.subrange(0, i as int) =~= decls);
        while i > 0
            invariant
                i <= self.decls.len(),
                decls == self@.declarations,
                resolve(decls, self@.scope, name@) == resolve(
                    decls.subrange(0, i as int),
                    self@.scope,
                    name@,
                ),
            decreases i,
        {
            i -= 1;
            let entry: &Atom = &self.decls[i];
            proof {
                lemma_atom_view(*entry);
                assert(decls.subrange(0, i + 1).drop_last() =~= decls.subrange(0, i as int));
                assert(decls.subrange(0, i + 1).last() == entry@);
            }
            let found: bool = match &entry.body {
                AtomBody::Function(f) => f.id == *name,
                AtomBody::Variable(v) => v.id == *name && self.scope <= i,
                _ => false,
            };
            if found {
                return Some(i);
            }
        }
        None
    }

    /// Parses an operand at `pos`: a literal, or the name of a variable in
    /// sight.
    pub fn parse_operand(&self, pos: usize) -> (r: Result<(Atom, usize), ParseError>)
        ensures
            parsed_as(
                r,
                spec_operand(self@.tokens, pos as int, self@.declarations, self@.scope),
            ),
            r matches Ok((_, next)) ==> pos < next <= self@.tokens.len(),
    {
        proof {
            self.lemma_lengths();
        }
        if pos >= self.tokens.len() {
            return Err(ParseError::UnexpectedEndOfInput);
        }
        match &self.tokens[pos] {
            Token::Literal(value) => {
                let node = Atom::new(
                    AtomType::Expression,
                    AtomBody::Const(Const::new(Type::Isize, *value)),
                );
                Ok((node, pos + 1))
            },
            Token::Identifier(name) => match self.resolve(name) {
                None => Err(ParseError::UnresolvedIdentifier),
                Some(index) => {
                    let entry: &Atom = &self.decls[index];
                    proof {
                        lemma_atom_view(*entry);
                    }
                    match &entry.body {
                        AtomBody::Variable(v) => {
                            let node = Atom::new(
                                AtomType::Variable,
                                AtomBody::Variable(Variable::new(v.id.clone(), v.vtype)),
                            );
                            Ok((node, pos + 1))
                        },
                        _ => Err(ParseError::ParseExpectedToken),
                    }
                },
            },
            _ => Err(ParseError::ParseExpectedToken),
        }
    }

    /// Parses at `pos` an expression whose operators all bind at least as
    /// tightly as `level`.
    pub fn parse_binary(&self, pos: usize, level: u8) -> (r: Result<(Atom, usize), ParseError>)
        ensures
            parsed_as(
                r,
                spec_binary(
                    self@.tokens,
                    pos as int,
                    self@.declarations,
                    self@.scope,
                    level as nat,
                ),
            ),
            r matches Ok((_, next)) ==> pos < next <= self@.tokens.len(),
        decreases self@.tokens.len() - pos, 5 - level,
    {
        proof {
            self.lemma_lengths();
        }
        if level >= 5 {
            return self.parse_operand(pos);
        }
        let (lhs, mid) = match self.parse_binary(pos, level + 1) {
            Ok(found) => found,
            Err(e) => {
                return Err(e);
            },
        };
        match self.operator_at(mid, level) {
            None => Ok((lhs, mid)),
            Some(operator) => {
                let (rhs, end) = match self.parse_binary(mid + 1, level) {
                    Ok(found) => found,
                    Err(e) => {
                        return Err(e);
                    },
                };
                let node = Atom::new(
                    AtomType::Expression,
                    AtomBody::BinaryOp(Box::new(BinaryOp::new(operator, lhs, rhs))),
                );
                Ok((node, end))
            },
        }
    }

    /// Parses an expression at `pos`. The result holds the expression and
    /// the position behind it.
    pub fn parse_expression(&self, pos: usize) -> (r: Result<(Atom, usize), ParseError>)
        ensures
            parsed_as(
                r,
                spec_expression(self@.tokens, pos as int, self@.declarations, self@.scope),
            ),
            r matches Ok((_, next)) ==> pos < next <= self@.tokens.len(),
    {
        self.parse_binary(pos, 0)
    }

    /// Parses at `pos` an expression and the `;` behind it.
    pub fn parse_expression_statement(&self, pos: usize) -> (r: Result<
        (Atom, usize),
        ParseError,
    >)
        ensures
            parsed_as(
                r,
                spec_expression_statement(
                    self@.tokens,
                    pos as int,
                    self@.declarations,
                    self@.scope,
                ),
            ),
            r matches Ok((_, next)) ==> pos < next <= self@.tokens.len(),
    {
        proof {
            self.lemma_lengths();
        }
        let (expr, mid) = match self.parse_expression(pos) {
            Ok(found) => found,
            Err(e) => {
                return Err(e);
            },
        };
        match self.expect(mid, &Token::Semicolon) {
            Ok(()) => Ok((expr, mid + 1)),
            Err(e) => Err(e),
        }
    }

    /// Parses at `pos` a list of formal parameters in parentheses. The
    /// result holds the parameters, each an `Arg`, and the position behind
    /// the `)`.
    pub fn parse_args(&self, pos: usize) -> (r: Result<(Vec<Atom>, usize), ParseError>)
        ensures
            parsed_list_as(r, spec_args(self@.tokens, pos as int)),
            r matches Ok((atoms, next)) ==> pos < next <= self@.tokens.len() && forall|k: int|
                0 <= k < atoms@.len() ==> (#[trigger] atoms@[k]).body is Arg,
    {
        proof {
            self.lemma_lengths();
        }
        if let Err(e) = self.expect(pos, &Token::OpenParanthesis) {
            return Err(e);
        }
        let ghost tokens = self@.tokens;
        let mut res: Vec<Atom> = Vec::new();
        let mut cur: usize = pos + 1;
        proof {
            assert(atoms_view(res@) =~= Seq::empty());
            lemma_prepend_nothing(spec_args_from(tokens, cur as int));
        }
        loop
            invariant
                tokens == self@.tokens,
                tokens.len() <= usize::MAX,
                pos < cur <= tokens.len(),
                forall|k: int| 0 <= k < res@.len() ==> (#[trigger] res@[k]).body is Arg,
                spec_args(tokens, pos as int) == prepend(
                    atoms_view(res@),
                    spec_args_from(tokens, cur as int),
                ),
            decreases tokens.len() - cur,
        {
            if cur >= self.tokens.len() {
                return Err(ParseError::UnexpectedEndOfInput);
            }
            match &self.tokens[cur] {
                Token::CloseParanthesis => {
                    assert(atoms_view(res@) + Seq::<AtomView>::empty() =~= atoms_view(res@));
                    return Ok((res, cur + 1));
                },
                Token::Comma => {
                    cur += 1;
                },
                Token::Identifier(name) => {
                    if let Err(e) = self.expect(cur + 1, &Token::Colon) {
                        return Err(e);
                    }
                    let vtype: Type = match self.type_at(cur + 2) {
                        Ok(found) => found,
                        Err(e) => {
                            return Err(e);
                        },
                    };
                    let node = Atom::new(
                        AtomType::Arg,
                        AtomBody::Arg(Arg::new(name.clone(), vtype)),
                    );
                    proof {
                        lemma_prepend_push(
                            atoms_view(res@),
                            node@,
                            spec_args_from(tokens, cur + 3),
                        );
                        assert(atoms_view(res@.push(node)) =~= atoms_view(res@).push(node@));
                    }
                    res.push(node);
                    cur += 3;
                },
                _ => {
                    return Err(ParseError::ParseExpectedToken);
                },
            }
        }
    }

    /// Parses at `pos` the arguments of a call, in parentheses. The result
    /// holds the arguments and the position behind the `)`.
    pub fn parse_input(&self, pos: usize) -> (r: Result<(Vec<Atom>, usize), ParseError>)
        ensures
            parsed_list_as(
                r,
                spec_input(self@.tokens, pos as int, self@.declarations, self@.scope),
            ),
            r matches Ok((_, next)) ==> pos < next <= self@.tokens.len(),
    {
        proof {
            self.lemma_lengths();
        }
        if let Err(e) = self.expect(pos, &Token::OpenParanthesis) {
            return Err(e);
        }
        let ghost tokens = self@.tokens;
        let ghost decls = self@.declarations;
        let ghost scope = self@.scope;
        let mut res: Vec<Atom> = Vec::new();
        let mut cur: usize = pos + 1;
        proof {
            assert(atoms_view(res@) =~= Seq::empty());
            lemma_prepend_nothing(spec_input_from(tokens, cur as int, decls, scope));
        }
        loop
            invariant
                tokens == self@.tokens,
                decls == self@.declarations,
                scope == self@.scope,
                tokens.len() <= usize::MAX,
                pos < cur <= tokens.len(),
                spec_input(tokens, pos as int, decls, scope) == prepend(
                    atoms_view(res@),
                    spec_input_from(tokens, cur as int, decls, scope),
                ),
            decreases tokens.len() - cur,
        {
            if cur >= self.tokens.len() {
                return Err(ParseError::UnexpectedEndOfInput);
            }
            match &self.tokens[cur] {
                Token::CloseParanthesis => {
                    assert(atoms_view(res@) + Seq::<AtomView>::empty() =~= atoms_view(res@));
                    return Ok((res, cur + 1));
                },
                Token::Comma => {
                    cur += 1;
                },
                _ => {
                    let (node, next) = match self.parse_expression(cur) {
                        Ok(found) => found,
                        Err(e) => {
                            return Err(e);
                        },
                    };
                    proof {
                        lemma_prepend_push(
                            atoms_view(res@),
                            node@,
                            spec_input_from(tokens, next as int, decls, scope),
                        );
                        assert(atoms_view(res@.push(node)) =~= atoms_view(res@).push(node@));
                    }
                    res.push(node);
                    cur = next;
                },
            }
        }
    }

    /// Declares a variable: puts it at the end of the declarations.
    fn declare(&mut self, id: String, vtype: Type)
        ensures
            final(self)@ == (ParserView {
                tokens: old(self)@.tokens,
                declarations: old(self)@.declarations.push(variable_atom(id@, vtype)),
                scope: old(self)@.scope,
            }),
    {
        let node = Atom::new(AtomType::Variable, AtomBody::Variable(Variable::new(id, vtype)));
        proof {
            assert(atoms_view(self.decls@.push(node)) =~= atoms_view(self.decls@).push(node@));
        }
        self.decls.push(node);
    }

    /// Takes back every declaration from index `len` on, and sets the
    /// beginning of the function under way to `scope`.
    fn forget(&mut self, len: usize, scope: usize)
        requires
            len <= old(self)@.declarations.len(),
        ensures
            final(self)@ == (ParserView {
                tokens: old(self)@.tokens,
                declarations: old(self)@.declarations.subrange(0, len as int),
                scope: scope as nat,
            }),
    {
        proof {
            assert(atoms_view(self.decls@.subrange(0, len as int)) =~= atoms_view(
                self.decls@,
            ).subrange(0, len as int));
        }
        self.decls.truncate(len);
        self.scope = scope;
    }

    /// Parses at `pos` what stands behind `let`: `name : type ;` or
    /// `name : type = expression ;`. The variable is declared once the whole
    /// statement is read. The result holds the statement and the position
    /// behind its `;`.
    pub fn parse_decordef(&mut self, pos: usize) -> (r: Result<(Atom, usize), ParseError>)
        ensures
            parsed_with(
                r,
                old(self)@,
                final(self)@,
                spec_decordef(
                    old(self)@.tokens,
                    pos as int,
                    old(self)@.declarations,
                    old(self)@.scope,
                ),
                old(self)@.scope,
            ),
            r matches Ok((_, next)) ==> pos < next <= old(self)@.tokens.len(),
            extends(final(self)@.declarations, old(self)@.declarations),
            old(self)@.wf() ==> final(self)@.wf(),
            old(self)@.wf() ==> (r matches Ok((atom, _)) ==> resolved_in(
                atom@,
                final(self)@.declarations,
            )),
    {
        proof {
            self.lemma_lengths();
            if self@.wf() {
                lemma_decordef_resolved(self@.tokens, pos as int, self@.declarations, self@.scope);
            }
            assert(self@.declarations.subrange(0, self@.declarations.len() as int)
                =~= self@.declarations);
        }
        let name: String = match self.name_at(pos) {
            Ok(found) => found,
            Err(e) => {
                return Err(e);
            },
        };
        if let Err(e) = self.expect(pos + 1, &Token::Colon) {
            return Err(e);
        }
        let vtype: Type = match self.type_at(pos + 2) {
            Ok(found) => found,
            Err(e) => {
                return Err(e);
            },
        };
        if pos + 3 >= self.tokens.len() {
            return Err(ParseError::UnexpectedEndOfInput);
        }
        let ghost before = self@.declarations;
        if same_token(&self.tokens[pos + 3], &Token::Semicolon) {
            let node = Atom::new(
                AtomType::VariableDec,
                AtomBody::VariableDec(VariableDec::new(name.clone(), vtype)),
            );
            self.declare(name, vtype);
            proof {
                assert(self@.declarations.subrange(0, before.len() as int) =~= before);
            }
            Ok((node, pos + 4))
        } else if same_token(&self.tokens[pos + 3], &Token::Operator(Operator::Assign)) {
            let (rhs, end) = match self.parse_expression_statement(pos + 4) {
                Ok(found) => found,
                Err(e) => {
                    return Err(e);
                },
            };
            let index: usize = self.decls.len();
            let assign = Atom::new(
                AtomType::Assignment,
                AtomBody::Assignment(Box::new(Assignment::new(RefAtom::new(index), rhs))),
            );
            let node = Atom::new(
                AtomType::VariableDef,
                AtomBody::VariableDef(Box::new(VariableDef::new(RefAtom::new(index), assign))),
            );
            self.declare(name, vtype);
            proof {
                assert(self@.declarations.subrange(0, before.len() as int) =~= before);
            }
            Ok((node, end))
        } else {
            Err(ParseError::ParseExpectedToken)
        }
    }

    /// Parses one statement at `pos`, with its `;`: a `let`, a `return`, an
    /// assignment to a variable in sight, or a call of a function declared
    /// before. A name that no declaration in sight has made is an
    /// `UnresolvedIdentifier`. The result holds the statement and the
    /// position behind it.
    pub fn parse_statement(&mut self, pos: usize) -> (r: Result<(Atom, usize), ParseError>)
        ensures
            parsed_with(
                r,
                old(self)@,
                final(self)@,
                spec_statement(
                    old(self)@.tokens,
                    pos as int,
                    old(self)@.declarations,
                    old(self)@.scope,
                ),
                old(self)@.scope,
            ),
            r matches Ok((_, next)) ==> pos < next <= old(self)@.tokens.len(),
            extends(final(self)@.declarations, old(self)@.declarations),
            old(self)@.wf() ==> final(self)@.wf(),
            old(self)@.wf() ==> (r matches Ok((atom, _)) ==> resolved_in(
                atom@,
                final(self)@.declarations,
            )),
    {
        proof {
            self.lemma_lengths();
            if self@.wf() {
                lemma_statement_resolved(self@.tokens, pos as int, self@.declarations, self@.scope);
            }
            assert(self@.declarations.subrange(0, self@.declarations.len() as int)
                =~= self@.declarations);
        }
        proof {
            reveal(spec_statement);
        }
        if pos >= self.tokens.len() {
            return Err(ParseError::UnexpectedEndOfInput);
        }
        match &self.tokens[pos] {
            Token::Keyword(Keyword::Let) => self.parse_decordef(pos + 1),
            Token::Keyword(Keyword::Return) => {
                let (expr, end) = match self.parse_expression_statement(pos + 1) {
                    Ok(found) => found,
                    Err(e) => {
                        return Err(e);
                    },
                };
                let node = Atom::new(
                    AtomType::Return,
                    AtomBody::Return(Box::new(Return::new(expr))),
                );
                Ok((node, end))
            },
            Token::Identifier(name) => {
                let index: usize = match self.resolve(name) {
                    Some(found) => found,
                    None => {
                        return Err(ParseError::UnresolvedIdentifier);
                    },
                };
                let entry: &Atom = &self.decls[index];
                proof {
                    lemma_atom_view(*entry);
                }
                match &entry.body {
                    AtomBody::Variable(_) => {
                        if let Err(e) = self.expect(pos + 1, &Token::Operator(Operator::Assign)) {
                            return Err(e);
                        }
                        let (rhs, end) = match self.parse_expression_statement(pos + 2) {
                            Ok(found) => found,
                            Err(e) => {
                                return Err(e);
                            },
                        };
                        let node = Atom::new(
                            AtomType::Assignment,
                            AtomBody::Assignment(
                                Box::new(Assignment::new(RefAtom::new(index), rhs)),
                            ),
                        );
                        Ok((node, end))
                    },
                    AtomBody::Function(_) => {
                        let (input, mid) = match self.parse_input(pos + 1) {
                            Ok(found) => found,
                            Err(e) => {
                                return Err(e);
                            },
                        };
                        if let Err(e) = self.expect(mid, &Token::Semicolon) {
                            return Err(e);
                        }
                        let node = Atom::new(
                            AtomType::FunctionCall,
                            AtomBody::FunctionCall(FunctionCall::new(RefAtom::new(index), input)),
                        );
                        Ok((node, mid + 1))
                    },
                    _ => Err(ParseError::ParseExpectedToken),
                }
            },
            _ => Err(ParseError::ParseExpectedToken),
        }
    }

    /// Parses at `pos` a block of statements in braces. Each statement is
    /// read with the declarations that the statements before it have made.
    /// If one of them does not parse, neither does the block, and the
    /// declarations that the block has made are taken back. The result holds
    /// the statements and the position behind the `}`.
    pub fn parse_statements(&mut self, pos: usize) -> (r: Result<(Vec<Atom>, usize), ParseError>)
        ensures
            parsed_list_with(
                r,
                old(self)@,
                final(self)@,
                spec_statements(
                    old(self)@.tokens,
                    pos as int,
                    old(self)@.declarations,
                    old(self)@.scope,
                ),
            ),
            r matches Ok((_, next)) ==> pos < next <= old(self)@.tokens.len(),
            extends(final(self)@.declarations, old(self)@.declarations),
            old(self)@.wf() ==> final(self)@.wf(),
            old(self)@.wf() ==> (r matches Ok((atoms, _)) ==> all_resolved_in(
                atoms_view(atoms@),
                final(self)@.declarations,
            )),
    {
        proof {
            self.lemma_lengths();
            assert(self@.declarations.subrange(0, self@.declarations.len() as int)
                =~= self@.declarations);
        }
        if let Err(e) = self.expect(pos, &Token::OpenBrace) {
            return Err(e);
        }
        let ghost before = self@;
        let saved: usize = self.decls.len();
        let mut res: Vec<Atom> = Vec::new();
        let mut cur: usize = pos + 1;
        proof {
            assert(atoms_view(res@) =~= Seq::empty());
            lemma_prepend_statements_nothing(
                spec_statements_from(before.tokens, cur as int, before.declarations, before.scope),
            );
        }
        loop
            invariant
                before == old(self)@,
                before.tokens == self@.tokens,
                before.scope == self@.scope,
                before.tokens.len() <= usize::MAX,
                saved == before.declarations.len(),
                extends(self@.declarations, before.declarations),
                pos < cur <= before.tokens.len(),
                spec_statements(before.tokens, pos as int, before.declarations, before.scope)
                    == prepend_statements(
                    atoms_view(res@),
                    spec_statements_from(
                        before.tokens,
                        cur as int,
                        self@.declarations,
                        before.scope,
                    ),
                ),
            decreases before.tokens.len() - cur,
        {
            if cur >= self.tokens.len() {
                self.forget(saved, self.scope);
                proof {
                    assert(self@.declarations.subrange(0, saved as int) =~= self@.declarations);
                }
                return Err(ParseError::UnexpectedEndOfInput);
            }
            if same_token(&self.tokens[cur], &Token::CloseBrace) {
                proof {
                    assert(atoms_view(res@) + Seq::<AtomView>::empty() =~= atoms_view(res@));
                    if before.wf() {
                        lemma_statements_resolved(
                            before.tokens,
                            pos + 1,
                            before.declarations,
                            before.scope,
                        );
                    }
                }
                return Ok((res, cur + 1));
            }
            let ghost outer = self@.declarations;
            match self.parse_statement(cur) {
                Ok((node, next)) => {
                    proof {
                        lemma_prepend_statements_push(
                            atoms_view(res@),
                            node@,
                            spec_statements_from(
                                before.tokens,
                                next as int,
                                self@.declarations,
                                before.scope,
                            ),
                        );
                        assert(atoms_view(res@.push(node)) =~= atoms_view(res@).push(node@));
                        assert(self@.declarations.subrange(0, saved as int)
                            =~= outer.subrange(0, saved as int));
                    }
                    res.push(node);
                    cur = next;
                },
                Err(e) => {
                    self.forget(saved, self.scope);
                    proof {
                        assert(self@.declarations.subrange(0, saved as int)
                            =~= self@.declarations);
                    }
                    return Err(e);
                },
            }
        }
    }

    /// Declares the formal parameters `arguments` as variables, in order.
    fn declare_arguments(&mut self, arguments: &Vec<Atom>)
        requires
            forall|k: int| 0 <= k < arguments@.len() ==> (#[trigger] arguments@[k]).body is Arg,
        ensures
            final(self)@ == (ParserView {
                tokens: old(self)@.tokens,
                declarations: old(self)@.declarations + variables_of(atoms_view(arguments@)),
                scope: old(self)@.scope,
            }),
    {
        let ghost before = self@;
        let ghost all = variables_of(atoms_view(arguments@));
        let mut k: usize = 0;
        proof {
            assert(before.declarations + all.subrange(0, 0) =~= before.declarations);
        }
        while k < arguments.len()
            invariant
                k <= arguments.len(),
                all == variables_of(atoms_view(arguments@)),
                forall|j: int|
                    0 <= j < arguments@.len() ==> (#[trigger] arguments@[j]).body is Arg,
                self@ == (ParserView {
                    tokens: before.tokens,
                    declarations: before.declarations + all.subrange(0, k as int),
                    scope: before.scope,
                }),
            decreases arguments.len() - k,
        {
            let argument: &Atom = &arguments[k];
            proof {
                lemma_atom_view(*argument);
            }
            if let AtomBody::Arg(a) = &argument.body {
                proof {
                    assert(all[k as int] == variable_of(argument@));
                    assert(before.declarations + all.subrange(0, k + 1) =~= (before.declarations
                        + all.subrange(0, k as int)).push(variable_atom(a.id@, a.vtype)));
                }
                self.declare(a.id.clone(), a.vtype);
            }
            k += 1;
        }
        proof {
            assert(all.subrange(0, k as int) =~= all);
        }
    }

    /// Parses at `pos` what stands behind `fn`: a name, the formal
    /// parameters, `->`, the return type and the body. The body sees the
    /// functions declared before and the function's own parameters and
    /// variables; the function itself is declared only behind its body. If
    /// any piece is missing, nothing is declared. The result holds the
    /// function and the position behind its `}`.
    pub fn parse_function(&mut self, pos: usize) -> (r: Result<(Atom, usize), ParseError>)
        ensures
            parsed_with(
                r,
                old(self)@,
                final(self)@,
                spec_function(old(self)@.tokens, pos as int, old(self)@.declarations),
                final(self)@.declarations.len(),
            ),
            r matches Ok((_, next)) ==> pos < next <= old(self)@.tokens.len(),
            extends(final(self)@.declarations, old(self)@.declarations),
            old(self)@.wf() ==> final(self)@.wf(),
            old(self)@.wf() ==> (r matches Ok((atom, _)) ==> resolved_in(
                atom@,
                final(self)@.declarations.drop_last(),
            )),
    {
        proof {
            self.lemma_lengths();
            if self@.wf() {
                lemma_function_resolved(self@.tokens, pos as int, self@.declarations);
            }
            assert(self@.declarations.subrange(0, self@.declarations.len() as int)
                =~= self@.declarations);
        }
        let ghost before = self@;
        let id: String = match self.name_at(pos) {
            Ok(found) => found,
            Err(e) => {
                return Err(e);
            },
        };
        let (arguments, mid) = match self.parse_args(pos + 1) {
            Ok(found) => found,
            Err(e) => {
                return Err(e);
            },
        };
        if let Err(e) = self.expect(mid, &Token::Arrow) {
            return Err(e);
        }
        let return_type: Type = match self.type_at(mid + 1) {
            Ok(found) => found,
            Err(e) => {
                return Err(e);
            },
        };
        let saved: usize = self.decls.len();
        let saved_scope: usize = self.scope;
        self.scope = saved;
        self.declare_arguments(&arguments);
        let (statements, end) = match self.parse_statements(mid + 2) {
            Ok(found) => found,
            Err(e) => {
                self.forget(saved, saved_scope);
                proof {
                    assert(self@.declarations =~= before.declarations);
                }
                return Err(e);
            },
        };
        let ghost inner = self@.declarations;
        let function = Rc::new(Function::new(id, arguments, return_type, statements));
        let entry = Atom::new(AtomType::BoxFunction, AtomBody::Function(function.clone()));
        let node = Atom::new(AtomType::BoxFunction, AtomBody::Function(function));
        proof {
            assert(atoms_view(self.decls@.push(entry)) =~= atoms_view(self.decls@).push(entry@));
            assert(inner.push(entry@).subrange(0, before.declarations.len() as int)
                =~= inner.subrange(0, before.declarations.len() as int));
            assert(inner.subrange(0, before.declarations.len() as int) =~= before.declarations);
        }
        self.decls.push(entry);
        self.scope = self.decls.len();
        Ok((node, end))
    }

    /// Parses the next top-level item at `pos`. Where no token is left the
    /// item is a `Nil` node, and nothing is declared. Where `fn` stands it
    /// is the function that follows, which is then declared. Anything else
    /// does not parse. The result holds the item and the position behind it.
    pub fn parse_next(&mut self, pos: usize) -> (r: Result<(Atom, usize), ParseError>)
        ensures
            parsed_with(
                r,
                old(self)@,
                final(self)@,
                spec_next(old(self)@.tokens, pos as int, old(self)@.declarations),
                if pos < old(self)@.tokens.len() {
                    final(self)@.declarations.len()
                } else {
                    old(self)@.scope
                },
            ),
            r matches Ok((_, next)) ==> pos <= next,
            extends(final(self)@.declarations, old(self)@.declarations),
            old(self)@.wf() ==> final(self)@.wf(),
            old(self)@.wf() ==> (r matches Ok((atom, _)) ==> resolved_in(
                atom@,
                final(self)@.declarations,
            )),
    {
        proof {
            self.lemma_lengths();
            if self@.wf() {
                lemma_next_resolved(self@.tokens, pos as int, self@.declarations);
            }
            assert(self@.declarations.subrange(0, self@.declarations.len() as int)
                =~= self@.declarations);
        }
        if pos >= self.tokens.len() {
            return Ok((Atom::new(AtomType::Nil, AtomBody::Nil), pos));
        }
        if same_token(&self.tokens[pos], &Token::Keyword(Keyword::Fn)) {
            self.parse_function(pos + 1)
        } else {
            Err(ParseError::ParseExpectedToken)
        }
    }
}

} // verus!
