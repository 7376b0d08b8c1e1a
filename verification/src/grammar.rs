//! The grammar, as functions on sequences of tokens. Each says, for a
//! position in the tokens and the declarations made so far, what one construct
//! parses to and where it ends, or why it does not parse.

use crate::atoms::AtomType;
use crate::atoms::AtomView;
use crate::atoms::BodyView;
use crate::lexer::Keyword;
use crate::lexer::Operator;
use crate::lexer::TokenView;
use crate::lexer::Type;
use vstd::prelude::*;

verus! {

/// Why a construct does not parse.
#[derive(Debug, PartialEq, Eq, Clone, Copy, Structural)]
pub enum ParseError {
    /// The next token is not one that the grammar allows at this place.
    ParseExpectedToken,
    /// A name is used that no declaration in sight has made.
    UnresolvedIdentifier,
    /// The tokens end in the middle of a construct.
    UnexpectedEndOfInput,
}

/// The end of the top-level items.
pub open spec fn nil_atom() -> AtomView {
    AtomView { atype: AtomType::Nil, body: BodyView::Nil }
}

/// An integer literal; it has the signed pointer-sized type.
pub open spec fn const_atom(value: isize) -> AtomView {
    AtomView { atype: AtomType::Expression, body: BodyView::Const { ctype: Type::Isize, value } }
}

/// A variable, as a declaration in the list and as a resolved reference in an
/// expression.
pub open spec fn variable_atom(id: Seq<char>, vtype: Type) -> AtomView {
    AtomView { atype: AtomType::Variable, body: BodyView::Variable { id, vtype } }
}

/// A binary operator applied to two operands.
pub open spec fn binary_atom(operator: Operator, lhs: AtomView, rhs: AtomView) -> AtomView {
    AtomView {
        atype: AtomType::Expression,
        body: BodyView::BinaryOp { operator, lhs: Box::new(lhs), rhs: Box::new(rhs) },
    }
}

/// A formal parameter.
pub open spec fn arg_atom(id: Seq<char>, vtype: Type) -> AtomView {
    AtomView { atype: AtomType::Arg, body: BodyView::Arg { id, vtype } }
}

/// A `let` without an initializer.
pub open spec fn declaration_atom(id: Seq<char>, vtype: Type) -> AtomView {
    AtomView { atype: AtomType::VariableDec, body: BodyView::VariableDec { id, vtype } }
}

/// An assignment to the variable that declaration `lhs` made.
pub open spec fn assignment_atom(lhs: int, rhs: AtomView) -> AtomView {
    AtomView {
        atype: AtomType::Assignment,
        body: BodyView::Assignment { lhs: lhs as nat, rhs: Box::new(rhs) },
    }
}

/// A `let` with an initializer: declaration `dec` and the assignment of the
/// initial value to it.
pub open spec fn definition_atom(dec: int, rhs: AtomView) -> AtomView {
    AtomView {
        atype: AtomType::VariableDef,
        body: BodyView::VariableDef {
            dec: dec as nat,
            assign: Box::new(assignment_atom(dec, rhs)),
        },
    }
}

/// A `return` statement.
pub open spec fn return_atom(expr: AtomView) -> AtomView {
    AtomView { atype: AtomType::Return, body: BodyView::Return { expr: Box::new(expr) } }
}

/// A call of the function that declaration `id` made.
pub open spec fn call_atom(id: int, input: Seq<AtomView>) -> AtomView {
    AtomView {
        atype: AtomType::FunctionCall,
        body: BodyView::FunctionCall { id: id as nat, input },
    }
}

/// A function.
pub open spec fn function_atom(
    id: Seq<char>,
    arguments: Seq<AtomView>,
    return_type: Type,
    statements: Seq<AtomView>,
) -> AtomView {
    AtomView {
        atype: AtomType::BoxFunction,
        body: BodyView::Function { id, arguments, return_type, statements },
    }
}

/// Whether the declaration `entry`, which stands at `index` in the list,
/// declares `name` for code whose own function began at `scope`: a function
/// is in sight everywhere after it, a variable only inside the function that
/// declared it.
pub open spec fn declares(entry: AtomView, index: int, scope: nat, name: Seq<char>) -> bool {
    match entry.body {
        BodyView::Function { id, .. } => id == name,
        BodyView::Variable { id, .. } => id == name && scope <= index,
        _ => false,
    }
}

/// The index of the declaration that `name` resolves to: the latest one in
/// sight that declares it.
pub open spec fn resolve(decls: Seq<AtomView>, scope: nat, name: Seq<char>) -> Option<int>
    decreases decls.len(),
{
    if decls.len() == 0 {
        None
    } else if declares(decls.last(), decls.len() - 1, scope, name) {
        Some(decls.len() - 1)
    } else {
        resolve(decls.drop_last(), scope, name)
    }
}

/// What is wrong at `pos` if the token `wanted` has to stand there: nothing,
/// if it does.
pub open spec fn mismatch(tokens: Seq<TokenView>, pos: int, wanted: TokenView) -> Option<
    ParseError,
> {
    if !(0 <= pos < tokens.len()) {
        Some(ParseError::UnexpectedEndOfInput)
    } else if tokens[pos] == wanted {
        None
    } else {
        Some(ParseError::ParseExpectedToken)
    }
}

/// The identifier at `pos`.
pub open spec fn name_at(tokens: Seq<TokenView>, pos: int) -> Result<Seq<char>, ParseError> {
    if !(0 <= pos < tokens.len()) {
        Err(ParseError::UnexpectedEndOfInput)
    } else {
        match tokens[pos] {
            TokenView::Identifier(name) => Ok(name),
            _ => Err(ParseError::ParseExpectedToken),
        }
    }
}

/// The type keyword at `pos`.
pub open spec fn type_at(tokens: Seq<TokenView>, pos: int) -> Result<Type, ParseError> {
    if !(0 <= pos < tokens.len()) {
        Err(ParseError::UnexpectedEndOfInput)
    } else {
        match tokens[pos] {
            TokenView::Keyword(Keyword::Type(t)) => Ok(t),
            _ => Err(ParseError::ParseExpectedToken),
        }
    }
}

/// How tightly a binary operator binds: equality least, then the relational
/// operators, the shifts, the additive and the multiplicative operators.
/// Assignment and member access are no binary operators of an expression.
pub open spec fn operator_level(operator: Operator) -> Option<nat> {
    match operator {
        Operator::Equal => Some(0),
        Operator::LT | Operator::GT | Operator::LE | Operator::GE => Some(1),
        Operator::LShift | Operator::RShift => Some(2),
        Operator::Add | Operator::Sub => Some(3),
        Operator::Mul | Operator::Div => Some(4),
        Operator::Assign | Operator::Dot => None,
    }
}

/// The level above every operator: that of a single operand.
pub open spec fn operand_level() -> nat {
    5
}

/// The binary operator of level `level` at `pos`, if one stands there.
pub open spec fn operator_at(tokens: Seq<TokenView>, pos: int, level: nat) -> Option<Operator> {
    if !(0 <= pos < tokens.len()) {
        None
    } else {
        match tokens[pos] {
            TokenView::Operator(operator) => if operator_level(operator) == Some(level) {
                Some(operator)
            } else {
                None
            },
            _ => None,
        }
    }
}

/// An operand: a literal, or the name of a variable in sight.
pub open spec fn spec_operand(
    tokens: Seq<TokenView>,
    pos: int,
    decls: Seq<AtomView>,
    scope: nat,
) -> Result<(AtomView, int), ParseError> {
    if !(0 <= pos < tokens.len()) {
        Err(ParseError::UnexpectedEndOfInput)
    } else {
        match tokens[pos] {
            TokenView::Literal(value) => Ok((const_atom(value), pos + 1)),
            TokenView::Identifier(name) => match resolve(decls, scope, name) {
                None => Err(ParseError::UnresolvedIdentifier),
                Some(index) => match decls[index].body {
                    BodyView::Variable { id, vtype } => Ok((variable_atom(id, vtype), pos + 1)),
                    _ => Err(ParseError::ParseExpectedToken),
                },
            },
            _ => Err(ParseError::ParseExpectedToken),
        }
    }
}

/// An expression whose operators all bind at least as tightly as `level`:
/// an expression of the next level, and, if an operator of this level
/// follows it, that operator applied to it and to the expression of this
/// level behind the operator. So operators of one level nest to the right.
///
/// The left operand always ends behind `pos`; the test `pos < mid` is there
/// for the sake of termination.
pub open spec fn spec_binary(
    tokens: Seq<TokenView>,
    pos: int,
    decls: Seq<AtomView>,
    scope: nat,
    level: nat,
) -> Result<(AtomView, int), ParseError>
    decreases tokens.len() - pos, operand_level() - level,
{
    if level >= operand_level() {
        spec_operand(tokens, pos, decls, scope)
    } else {
        match spec_binary(tokens, pos, decls, scope, level + 1) {
            Err(e) => Err(e),
            Ok((lhs, mid)) => match operator_at(tokens, mid, level) {
                None => Ok((lhs, mid)),
                Some(operator) => if pos < mid {
                    match spec_binary(tokens, mid + 1, decls, scope, level) {
                        Err(e) => Err(e),
                        Ok((rhs, end)) => Ok((binary_atom(operator, lhs, rhs), end)),
                    }
                } else {
                    Ok((lhs, mid))
                },
            },
        }
    }
}

/// An expression: literals and variables joined by binary operators, with
/// multiplication and division binding tightest, then addition and
/// subtraction, the shifts, the relational operators, and equality.
pub open spec fn spec_expression(
    tokens: Seq<TokenView>,
    pos: int,
    decls: Seq<AtomView>,
    scope: nat,
) -> Result<(AtomView, int), ParseError> {
    spec_binary(tokens, pos, decls, scope, 0)
}

/// The rest of a list of formal parameters, up to and with its `)`: commas
/// are passed over, and each `name : type` is one parameter.
pub open spec fn spec_args_from(tokens: Seq<TokenView>, pos: int) -> Result<
    (Seq<AtomView>, int),
    ParseError,
>
    decreases tokens.len() - pos,
{
    if !(0 <= pos < tokens.len()) {
        Err(ParseError::UnexpectedEndOfInput)
    } else {
        match tokens[pos] {
            TokenView::CloseParanthesis => Ok((Seq::empty(), pos + 1)),
            TokenView::Comma => spec_args_from(tokens, pos + 1),
            TokenView::Identifier(name) => match mismatch(tokens, pos + 1, TokenView::Colon) {
                Some(e) => Err(e),
                None => match type_at(tokens, pos + 2) {
                    Err(e) => Err(e),
                    Ok(vtype) => match spec_args_from(tokens, pos + 3) {
                        Err(e) => Err(e),
                        Ok((rest, end)) => Ok((seq![arg_atom(name, vtype)] + rest, end)),
                    },
                },
            },
            _ => Err(ParseError::ParseExpectedToken),
        }
    }
}

/// A list of formal parameters in parentheses.
pub open spec fn spec_args(tokens: Seq<TokenView>, pos: int) -> Result<
    (Seq<AtomView>, int),
    ParseError,
> {
    match mismatch(tokens, pos, TokenView::OpenParanthesis) {
        Some(e) => Err(e),
        None => spec_args_from(tokens, pos + 1),
    }
}

/// The rest of the arguments of a call, up to and with its `)`: commas are
/// passed over, and anything else has to be an expression.
///
/// An expression always ends behind `pos` and inside the tokens; the test
/// on `mid` is there for the sake of termination.
pub open spec fn spec_input_from(
    tokens: Seq<TokenView>,
    pos: int,
    decls: Seq<AtomView>,
    scope: nat,
) -> Result<(Seq<AtomView>, int), ParseError>
    decreases tokens.len() - pos,
{
    if !(0 <= pos < tokens.len()) {
        Err(ParseError::UnexpectedEndOfInput)
    } else {
        match tokens[pos] {
            TokenView::CloseParanthesis => Ok((Seq::empty(), pos + 1)),
            TokenView::Comma => spec_input_from(tokens, pos + 1, decls, scope),
            _ => match spec_expression(tokens, pos, decls, scope) {
                Err(e) => Err(e),
                Ok((argument, mid)) => if pos < mid <= tokens.len() {
                    match spec_input_from(tokens, mid, decls, scope) {
                        Err(e) => Err(e),
                        Ok((rest, end)) => Ok((seq![argument] + rest, end)),
                    }
                } else {
                    Err(ParseError::ParseExpectedToken)
                },
            },
        }
    }
}

/// The arguments of a call, in parentheses.
pub open spec fn spec_input(
    tokens: Seq<TokenView>,
    pos: int,
    decls: Seq<AtomView>,
    scope: nat,
) -> Result<(Seq<AtomView>, int), ParseError> {
    match mismatch(tokens, pos, TokenView::OpenParanthesis) {
        Some(e) => Err(e),
        None => spec_input_from(tokens, pos + 1, decls, scope),
    }
}

/// An expression and the `;` that ends a statement.
pub open spec fn spec_expression_statement(
    tokens: Seq<TokenView>,
    pos: int,
    decls: Seq<AtomView>,
    scope: nat,
) -> Result<(AtomView, int), ParseError> {
    match spec_expression(tokens, pos, decls, scope) {
        Err(e) => Err(e),
        Ok((expr, mid)) => match mismatch(tokens, mid, TokenView::Semicolon) {
            Some(e) => Err(e),
            None => Ok((expr, mid + 1)),
        },
    }
}

/// What stands behind `let`: `name : type ;` declares a variable, and
/// `name : type = expression ;` declares it and assigns its first value. The
/// initializer is read before the variable is declared, so it cannot name
/// the variable itself. The result holds the statement, the position behind
/// it, and the declarations with the new variable at their end.
pub open spec fn spec_decordef(
    tokens: Seq<TokenView>,
    pos: int,
    decls: Seq<AtomView>,
    scope: nat,
) -> Result<(AtomView, int, Seq<AtomView>), ParseError> {
    match name_at(tokens, pos) {
        Err(e) => Err(e),
        Ok(name) => match mismatch(tokens, pos + 1, TokenView::Colon) {
            Some(e) => Err(e),
            None => match type_at(tokens, pos + 2) {
                Err(e) => Err(e),
                Ok(vtype) => if !(pos + 3 < tokens.len()) {
                    Err(ParseError::UnexpectedEndOfInput)
                } else {
                    match tokens[pos + 3] {
                        TokenView::Semicolon => Ok(
                            (
                                declaration_atom(name, vtype),
                                pos + 4,
                                decls.push(variable_atom(name, vtype)),
                            ),
                        ),
                        TokenView::Operator(Operator::Assign) => match spec_expression_statement(
                            tokens,
                            pos + 4,
                            decls,
                            scope,
                        ) {
                            Err(e) => Err(e),
                            Ok((rhs, end)) => Ok(
                                (
                                    definition_atom(decls.len() as int, rhs),
                                    end,
                                    decls.push(variable_atom(name, vtype)),
                                ),
                            ),
                        },
                        _ => Err(ParseError::ParseExpectedToken),
                    }
                },
            },
        },
    }
}

/// One statement with its `;`: a `let`, a `return`, an assignment to a
/// variable in sight, or a call of a function declared before.
#[verifier::opaque]
pub open spec fn spec_statement(
    tokens: Seq<TokenView>,
    pos: int,
    decls: Seq<AtomView>,
    scope: nat,
) -> Result<(AtomView, int, Seq<AtomView>), ParseError> {
    if !(0 <= pos < tokens.len()) {
        Err(ParseError::UnexpectedEndOfInput)
    } else {
        match tokens[pos] {
            TokenView::Keyword(Keyword::Let) => spec_decordef(tokens, pos + 1, decls, scope),
            TokenView::Keyword(Keyword::Return) => match spec_expression_statement(
                tokens,
                pos + 1,
                decls,
                scope,
            ) {
                Err(e) => Err(e),
                Ok((expr, end)) => Ok((return_atom(expr), end, decls)),
            },
            TokenView::Identifier(name) => match resolve(decls, scope, name) {
                None => Err(ParseError::UnresolvedIdentifier),
                Some(index) => match decls[index].body {
                    BodyView::Variable { .. } => match mismatch(
                        tokens,
                        pos + 1,
                        TokenView::Operator(Operator::Assign),
                    ) {
                        Some(e) => Err(e),
                        None => match spec_expression_statement(tokens, pos + 2, decls, scope) {
                            Err(e) => Err(e),
                            Ok((rhs, end)) => Ok((assignment_atom(index, rhs), end, decls)),
                        },
                    },
                    BodyView::Function { .. } => match spec_input(tokens, pos + 1, decls, scope) {
                        Err(e) => Err(e),
                        Ok((input, mid)) => match mismatch(tokens, mid, TokenView::Semicolon) {
                            Some(e) => Err(e),
                            None => Ok((call_atom(index, input), mid + 1, decls)),
                        },
                    },
                    _ => Err(ParseError::ParseExpectedToken),
                },
            },
            _ => Err(ParseError::ParseExpectedToken),
        }
    }
}

/// The rest of a block, up to and with its `}`. Each statement is read with
/// the declarations that the statements before it have made.
///
/// A statement always ends behind `pos` and inside the tokens; the test on
/// `mid` is there for the sake of termination.
pub open spec fn spec_statements_from(
    tokens: Seq<TokenView>,
    pos: int,
    decls: Seq<AtomView>,
    scope: nat,
) -> Result<(Seq<AtomView>, int, Seq<AtomView>), ParseError>
    decreases tokens.len() - pos,
{
    if !(0 <= pos < tokens.len()) {
        Err(ParseError::UnexpectedEndOfInput)
    } else if tokens[pos] == TokenView::CloseBrace {
        Ok((Seq::empty(), pos + 1, decls))
    } else {
        match spec_statement(tokens, pos, decls, scope) {
            Err(e) => Err(e),
            Ok((statement, mid, inner)) => if pos < mid <= tokens.len() {
                match spec_statements_from(tokens, mid, inner, scope) {
                    Err(e) => Err(e),
                    Ok((rest, end, last)) => Ok((seq![statement] + rest, end, last)),
                }
            } else {
                Err(ParseError::ParseExpectedToken)
            },
        }
    }
}

/// A block of statements in braces.
pub open spec fn spec_statements(
    tokens: Seq<TokenView>,
    pos: int,
    decls: Seq<AtomView>,
    scope: nat,
) -> Result<(Seq<AtomView>, int, Seq<AtomView>), ParseError> {
    match mismatch(tokens, pos, TokenView::OpenBrace) {
        Some(e) => Err(e),
        None => spec_statements_from(tokens, pos + 1, decls, scope),
    }
}

/// The variable that a formal parameter declares.
pub open spec fn variable_of(argument: AtomView) -> AtomView {
    match argument.body {
        BodyView::Arg { id, vtype } => variable_atom(id, vtype),
        _ => argument,
    }
}

/// The variables that a list of formal parameters declares, in order.
pub open spec fn variables_of(arguments: Seq<AtomView>) -> Seq<AtomView> {
    arguments.map_values(|argument: AtomView| variable_of(argument))
}

/// What stands behind `fn`: a name, the formal parameters, `->`, the return
/// type and the body. The body sees the functions declared before and, as
/// variables, the function's own parameters. The function itself is declared
/// only behind its body, so the body cannot call it. The result holds the
/// function, the position behind it, and the declarations with those of the
/// function and the function itself at their end.
pub open spec fn spec_function(tokens: Seq<TokenView>, pos: int, decls: Seq<AtomView>) -> Result<
    (AtomView, int, Seq<AtomView>),
    ParseError,
> {
    match name_at(tokens, pos) {
        Err(e) => Err(e),
        Ok(name) => match spec_args(tokens, pos + 1) {
            Err(e) => Err(e),
            Ok((arguments, mid)) => match mismatch(tokens, mid, TokenView::Arrow) {
                Some(e) => Err(e),
                None => match type_at(tokens, mid + 1) {
                    Err(e) => Err(e),
                    Ok(return_type) => match spec_statements(
                        tokens,
                        mid + 2,
                        decls + variables_of(arguments),
                        decls.len(),
                    ) {
                        Err(e) => Err(e),
                        Ok((statements, end, inner)) => {
                            let function = function_atom(name, arguments, return_type, statements);
                            Ok((function, end, inner.push(function)))
                        },
                    },
                },
            },
        },
    }
}

/// The next top-level item: nothing, where the tokens end; a function, where
/// `fn` stands.
pub open spec fn spec_next(tokens: Seq<TokenView>, pos: int, decls: Seq<AtomView>) -> Result<
    (AtomView, int, Seq<AtomView>),
    ParseError,
> {
    if !(0 <= pos < tokens.len()) {
        Ok((nil_atom(), pos, decls))
    } else if tokens[pos] == TokenView::Keyword(Keyword::Fn) {
        spec_function(tokens, pos + 1, decls)
    } else {
        Err(ParseError::ParseExpectedToken)
    }
}

/// Whether the declarations `later` are the declarations `earlier` with
/// others behind them.
pub open spec fn extends(later: Seq<AtomView>, earlier: Seq<AtomView>) -> bool {
    earlier.len() <= later.len() && later.subrange(0, earlier.len() as int) == earlier
}

/// The outcome `rest` of parsing the rest of a list, with the nodes `front`
/// put in front of its nodes.
pub open spec fn prepend(
    front: Seq<AtomView>,
    rest: Result<(Seq<AtomView>, int), ParseError>,
) -> Result<(Seq<AtomView>, int), ParseError> {
    match rest {
        Ok((trees, end)) => Ok((front + trees, end)),
        Err(e) => Err(e),
    }
}

/// The outcome `rest` of parsing the rest of a block, with the statements
/// `front` put in front of its statements.
pub open spec fn prepend_statements(
    front: Seq<AtomView>,
    rest: Result<(Seq<AtomView>, int, Seq<AtomView>), ParseError>,
) -> Result<(Seq<AtomView>, int, Seq<AtomView>), ParseError> {
    match rest {
        Ok((trees, end, decls)) => Ok((front + trees, end, decls)),
        Err(e) => Err(e),
    }
}

/// Putting a node in front of a list and then others in front of that is
/// putting all of them in front at once.
pub proof fn lemma_prepend_push(
    front: Seq<AtomView>,
    node: AtomView,
    rest: Result<(Seq<AtomView>, int), ParseError>,
)
    ensures
        prepend(front, prepend(seq![node], rest)) == prepend(front.push(node), rest),
{
    match rest {
        Ok((trees, end)) => {
            assert(front + (seq![node] + trees) =~= front.push(node) + trees);
        },
        Err(_) => {},
    }
}

/// Putting nothing in front of a list leaves it as it is.
pub proof fn lemma_prepend_nothing(rest: Result<(Seq<AtomView>, int), ParseError>)
    ensures
        prepend(Seq::empty(), rest) == rest,
{
    match rest {
        Ok((trees, end)) => {
            assert(Seq::<AtomView>::empty() + trees =~= trees);
        },
        Err(_) => {},
    }
}

/// The same as `lemma_prepend_push`, for the statements of a block.
pub proof fn lemma_prepend_statements_push(
    front: Seq<AtomView>,
    node: AtomView,
    rest: Result<(Seq<AtomView>, int, Seq<AtomView>), ParseError>,
)
    ensures
        prepend_statements(front, prepend_statements(seq![node], rest)) == prepend_statements(
            front.push(node),
            rest,
        ),
{
    match rest {
        Ok((trees, end, decls)) => {
            assert(front + (seq![node] + trees) =~= front.push(node) + trees);
        },
        Err(_) => {},
    }
}

/// The same as `lemma_prepend_nothing`, for the statements of a block.
pub proof fn lemma_prepend_statements_nothing(
    rest: Result<(Seq<AtomView>, int, Seq<AtomView>), ParseError>,
)
    ensures
        prepend_statements(Seq::empty(), rest) == rest,
{
    match rest {
        Ok((trees, end, decls)) => {
            assert(Seq::<AtomView>::empty() + trees =~= trees);
        },
        Err(_) => {},
    }
}

/// A name resolves to the latest declaration in sight that declares it, and
/// to none where no declaration in sight does.
pub proof fn lemma_resolve_latest(decls: Seq<AtomView>, scope: nat, name: Seq<char>)
    ensures
        match resolve(decls, scope, name) {
            Some(index) => 0 <= index < decls.len() && declares(decls[index], index, scope, name)
                && forall|later: int|
                index < later < decls.len() ==> !declares(
                    #[trigger] decls[later],
                    later,
                    scope,
                    name,
                ),
            None => forall|index: int|
                0 <= index < decls.len() ==> !declares(#[trigger] decls[index], index, scope, name),
        },
    decreases decls.len(),
{
    if decls.len() > 0 && !declares(decls.last(), decls.len() - 1, scope, name) {
        let shorter = decls.drop_last();
        lemma_resolve_latest(shorter, scope, name);
        assert forall|index: int| 0 <= index < shorter.len() implies shorter[index]
            == decls[index] by {}
        match resolve(shorter, scope, name) {
            Some(found) => {
                assert forall|later: int| found < later < decls.len() implies !declares(
                    #[trigger] decls[later],
                    later,
                    scope,
                    name,
                ) by {
                    if later < shorter.len() {
                        assert(shorter[later] == decls[later]);
                    }
                }
            },
            None => {
                assert forall|index: int| 0 <= index < decls.len() implies !declares(
                    #[trigger] decls[index],
                    index,
                    scope,
                    name,
                ) by {
                    if index < shorter.len() {
                        assert(shorter[index] == decls[index]);
                    }
                }
            },
        }
    }
}

/// An expression of any level ends behind the place where it begins, and
/// inside the tokens.
pub proof fn lemma_binary_advances(
    tokens: Seq<TokenView>,
    pos: int,
    decls: Seq<AtomView>,
    scope: nat,
    level: nat,
)
    ensures
        spec_binary(tokens, pos, decls, scope, level) matches Ok((_, end)) ==> pos < end
            <= tokens.len(),
    decreases tokens.len() - pos, operand_level() - level,
{
    if level < operand_level() {
        lemma_binary_advances(tokens, pos, decls, scope, level + 1);
        match spec_binary(tokens, pos, decls, scope, level + 1) {
            Ok((_, mid)) => {
                if operator_at(tokens, mid, level) is Some {
                    lemma_binary_advances(tokens, mid + 1, decls, scope, level);
                }
            },
            Err(_) => {},
        }
    }
}

/// The arguments of a call end behind the place where they begin, and
/// inside the tokens.
pub proof fn lemma_input_advances(
    tokens: Seq<TokenView>,
    pos: int,
    decls: Seq<AtomView>,
    scope: nat,
)
    ensures
        spec_input_from(tokens, pos, decls, scope) matches Ok((_, end)) ==> pos < end
            <= tokens.len(),
    decreases tokens.len() - pos,
{
    if 0 <= pos < tokens.len() {
        match tokens[pos] {
            TokenView::CloseParanthesis => {},
            TokenView::Comma => {
                lemma_input_advances(tokens, pos + 1, decls, scope);
            },
            _ => {
                lemma_binary_advances(tokens, pos, decls, scope, 0);
                match spec_expression(tokens, pos, decls, scope) {
                    Ok((_, mid)) => {
                        lemma_input_advances(tokens, mid, decls, scope);
                    },
                    Err(_) => {},
                }
            },
        }
    }
}

/// A statement ends behind the place where it begins, and inside the
/// tokens; and it takes no declaration away.
pub proof fn lemma_statement_advances(
    tokens: Seq<TokenView>,
    pos: int,
    decls: Seq<AtomView>,
    scope: nat,
)
    ensures
        spec_statement(tokens, pos, decls, scope) matches Ok((_, end, inner)) ==> pos < end
            <= tokens.len() && decls.len() <= inner.len() && inner.subrange(
            0,
            decls.len() as int,
        ) == decls,
{
    reveal(spec_statement);
    lemma_binary_advances(tokens, pos + 1, decls, scope, 0);
    lemma_binary_advances(tokens, pos + 2, decls, scope, 0);
    lemma_binary_advances(tokens, pos + 5, decls, scope, 0);
    lemma_input_advances(tokens, pos + 2, decls, scope);
    assert(decls.subrange(0, decls.len() as int) =~= decls);
    assert forall|node: AtomView| (#[trigger] decls.push(node)).subrange(0, decls.len() as int)
        == decls by {
        assert(decls.push(node).subrange(0, decls.len() as int) =~= decls);
    }
}

/// The place and the declarations that a block has come to when `count` of
/// its statements are read, counting from the statement at `pos`; nothing,
/// where one of them does not parse or the block ends before.
pub open spec fn block_reaches(
    tokens: Seq<TokenView>,
    pos: int,
    decls: Seq<AtomView>,
    scope: nat,
    count: nat,
) -> Option<(int, Seq<AtomView>)>
    decreases count,
{
    if count == 0 {
        Some((pos, decls))
    } else if !(0 <= pos < tokens.len()) || tokens[pos] == TokenView::CloseBrace {
        None
    } else {
        match spec_statement(tokens, pos, decls, scope) {
            Ok((_, mid, inner)) => block_reaches(tokens, mid, inner, scope, (count - 1) as nat),
            Err(_) => None,
        }
    }
}

/// A failure propagates at once: where a statement of a block does not
/// parse, the block does not parse, for the same reason.
pub proof fn lemma_failure_propagates(
    tokens: Seq<TokenView>,
    pos: int,
    decls: Seq<AtomView>,
    scope: nat,
    count: nat,
)
    requires
        block_reaches(tokens, pos, decls, scope, count) matches Some((place, inner)) && 0 <= place
            < tokens.len() && tokens[place] != TokenView::CloseBrace && spec_statement(
            tokens,
            place,
            inner,
            scope,
        ) is Err,
    ensures
        block_reaches(tokens, pos, decls, scope, count) matches Some((place, inner))
            && spec_statements_from(tokens, pos, decls, scope) matches Err(e) && spec_statement(
            tokens,
            place,
            inner,
            scope,
        ) == Err::<(AtomView, int, Seq<AtomView>), ParseError>(e),
    decreases count,
{
    if count > 0 {
        lemma_statement_advances(tokens, pos, decls, scope);
        match spec_statement(tokens, pos, decls, scope) {
            Ok((_, mid, inner)) => {
                lemma_failure_propagates(tokens, mid, inner, scope, (count - 1) as nat);
            },
            Err(_) => {},
        }
    }
}

/// Declare before use, for one statement: a statement that begins with a
/// name that no declaration in sight has made does not parse, and the
/// reason is `UnresolvedIdentifier`.
pub proof fn lemma_undeclared_use_fails(
    tokens: Seq<TokenView>,
    pos: int,
    decls: Seq<AtomView>,
    scope: nat,
    name: Seq<char>,
)
    requires
        0 <= pos < tokens.len(),
        tokens[pos] == TokenView::Identifier(name),
        forall|index: int|
            0 <= index < decls.len() ==> !declares(#[trigger] decls[index], index, scope, name),
    ensures
        spec_statement(tokens, pos, decls, scope) == Err::<
            (AtomView, int, Seq<AtomView>),
            ParseError,
        >(ParseError::UnresolvedIdentifier),
        spec_operand(tokens, pos, decls, scope) == Err::<(AtomView, int), ParseError>(
            ParseError::UnresolvedIdentifier,
        ),
{
    reveal(spec_statement);
    lemma_resolve_latest(decls, scope, name);
}

/// Declare before use, for a block: where the statements of a block parse
/// up to one that begins with a name that no declaration in sight has made,
/// neither one made before the block nor one made by the statements before
/// it, the block does not parse, and the reason is `UnresolvedIdentifier`.
pub proof fn lemma_block_with_undeclared_use_fails(
    tokens: Seq<TokenView>,
    pos: int,
    decls: Seq<AtomView>,
    scope: nat,
    count: nat,
    name: Seq<char>,
)
    requires
        mismatch(tokens, pos, TokenView::OpenBrace) is None,
        block_reaches(tokens, pos + 1, decls, scope, count) matches Some((place, inner)) && 0
            <= place < tokens.len() && tokens[place] == TokenView::Identifier(name) && forall|
            index: int,
        |
            0 <= index < inner.len() ==> !declares(#[trigger] inner[index], index, scope, name),
    ensures
        spec_statements(tokens, pos, decls, scope) == Err::<
            (Seq<AtomView>, int, Seq<AtomView>),
            ParseError,
        >(ParseError::UnresolvedIdentifier),
{
    let (place, inner) = block_reaches(tokens, pos + 1, decls, scope, count)->0;
    lemma_undeclared_use_fails(tokens, place, inner, scope, name);
    lemma_failure_propagates(tokens, pos + 1, decls, scope, count);
}

/// A `let` declares its variable: where what stands behind `let` parses,
/// the declarations are the ones before with the new variable at their end,
/// and inside the function under way the name resolves to it from then on.
pub proof fn lemma_let_declares(tokens: Seq<TokenView>, pos: int, decls: Seq<AtomView>, scope: nat)
    requires
        scope <= decls.len(),
        spec_decordef(tokens, pos, decls, scope) is Ok,
    ensures
        name_at(tokens, pos) matches Ok(name) && type_at(tokens, pos + 2) matches Ok(vtype)
            && spec_decordef(tokens, pos, decls, scope) matches Ok((_, _, inner)) && inner
            == decls.push(variable_atom(name, vtype)) && resolve(inner, scope, name) == Some(
            decls.len() as int,
        ),
{
}

/// Use after declaration: an assignment to a name parses once a variable of
/// that name is the latest declaration, if the expression and the `;` behind
/// it parse; the assignment refers to that declaration.
pub proof fn lemma_declared_assignment_parses(
    tokens: Seq<TokenView>,
    pos: int,
    decls: Seq<AtomView>,
    scope: nat,
    name: Seq<char>,
    vtype: Type,
)
    requires
        scope <= decls.len(),
        0 <= pos < tokens.len(),
        tokens[pos] == TokenView::Identifier(name),
        mismatch(tokens, pos + 1, TokenView::Operator(Operator::Assign)) is None,
        spec_expression_statement(
            tokens,
            pos + 2,
            decls.push(variable_atom(name, vtype)),
            scope,
        ) is Ok,
    ensures
        ({
            let inner = decls.push(variable_atom(name, vtype));
            let (rhs, end) = spec_expression_statement(tokens, pos + 2, inner, scope)->Ok_0;
            spec_statement(tokens, pos, inner, scope) == Ok::<
                (AtomView, int, Seq<AtomView>),
                ParseError,
            >((assignment_atom(decls.len() as int, rhs), end, inner))
        }),
{
    reveal(spec_statement);
}

/// Declare, then use: the block `{ let name : type ; name = expression ; }`
/// parses to the declaration and the assignment to it, whenever the
/// expression parses with the new variable in sight.
pub proof fn lemma_declare_then_assign_parses(
    tokens: Seq<TokenView>,
    pos: int,
    decls: Seq<AtomView>,
    scope: nat,
    name: Seq<char>,
    vtype: Type,
)
    requires
        scope <= decls.len(),
        0 <= pos,
        pos + 8 < tokens.len(),
        tokens[pos] == TokenView::OpenBrace,
        tokens[pos + 1] == TokenView::Keyword(Keyword::Let),
        tokens[pos + 2] == TokenView::Identifier(name),
        tokens[pos + 3] == TokenView::Colon,
        tokens[pos + 4] == TokenView::Keyword(Keyword::Type(vtype)),
        tokens[pos + 5] == TokenView::Semicolon,
        tokens[pos + 6] == TokenView::Identifier(name),
        tokens[pos + 7] == TokenView::Operator(Operator::Assign),
        spec_expression_statement(
            tokens,
            pos + 8,
            decls.push(variable_atom(name, vtype)),
            scope,
        ) matches Ok((_, end)) && mismatch(tokens, end, TokenView::CloseBrace) is None,
    ensures
        ({
            let inner = decls.push(variable_atom(name, vtype));
            let (rhs, end) = spec_expression_statement(tokens, pos + 8, inner, scope)->Ok_0;
            spec_statements(tokens, pos, decls, scope) == Ok::<
                (Seq<AtomView>, int, Seq<AtomView>),
                ParseError,
            >(
                (
                    seq![
                        declaration_atom(name, vtype),
                        assignment_atom(decls.len() as int, rhs),
                    ],
                    end + 1,
                    inner,
                ),
            )
        }),
{
    reveal(spec_statement);
    let inner = decls.push(variable_atom(name, vtype));
    let (rhs, end) = spec_expression_statement(tokens, pos + 8, inner, scope)->Ok_0;
    lemma_binary_advances(tokens, pos + 8, inner, scope, 0);
    assert(spec_statement(tokens, pos + 1, decls, scope) == Ok::<
        (AtomView, int, Seq<AtomView>),
        ParseError,
    >((declaration_atom(name, vtype), pos + 6, inner)));
    lemma_declared_assignment_parses(tokens, pos + 6, decls, scope, name, vtype);
    assert(spec_statements_from(tokens, end, inner, scope) == Ok::<
        (Seq<AtomView>, int, Seq<AtomView>),
        ParseError,
    >((Seq::empty(), end + 1, inner)));
    assert(seq![assignment_atom(decls.len() as int, rhs)] + Seq::<AtomView>::empty()
        =~= seq![assignment_atom(decls.len() as int, rhs)]);
    assert(spec_statements_from(tokens, pos + 6, inner, scope) == Ok::<
        (Seq<AtomView>, int, Seq<AtomView>),
        ParseError,
    >((seq![assignment_atom(decls.len() as int, rhs)], end + 1, inner)));
    assert(seq![declaration_atom(name, vtype)] + seq![assignment_atom(decls.len() as int, rhs)]
        =~= seq![declaration_atom(name, vtype), assignment_atom(decls.len() as int, rhs)]);
    assert(spec_statements_from(tokens, pos + 1, decls, scope) == Ok::<
        (Seq<AtomView>, int, Seq<AtomView>),
        ParseError,
    >(
        (
            seq![declaration_atom(name, vtype), assignment_atom(decls.len() as int, rhs)],
            end + 1,
            inner,
        ),
    ));
}

} // verus!
