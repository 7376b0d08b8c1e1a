//! References point backwards: every reference in a parsed tree names a
//! declaration that was complete before the node that holds the reference,
//! and one of the kind that the node needs.

use crate::atoms::AtomView;
use crate::atoms::BodyView;
use crate::grammar::extends;
use crate::grammar::lemma_binary_advances;
use crate::grammar::lemma_resolve_latest;
use crate::grammar::lemma_statement_advances;
use crate::grammar::operand_level;
use crate::grammar::operator_at;
use crate::grammar::spec_args;
use crate::grammar::spec_args_from;
use crate::grammar::spec_binary;
use crate::grammar::spec_decordef;
use crate::grammar::spec_expression;
use crate::grammar::spec_function;
use crate::grammar::spec_input_from;
use crate::grammar::spec_next;
use crate::grammar::spec_statement;
use crate::grammar::spec_statements;
use crate::grammar::spec_statements_from;
use crate::grammar::variables_of;
use crate::lexer::TokenView;
use vstd::prelude::*;

verus! {

/// Whether `index` names a variable among `decls`.
pub open spec fn names_variable(decls: Seq<AtomView>, index: nat) -> bool {
    index < decls.len() && decls[index as int].body is Variable
}

/// Whether `index` names a function among `decls`.
pub open spec fn names_function(decls: Seq<AtomView>, index: nat) -> bool {
    index < decls.len() && decls[index as int].body is Function
}

/// Whether every reference in `tree` names one of the declarations `decls`,
/// and one of the right kind: an assignment and a definition name a
/// variable, a call names a function.
pub open spec fn resolved_in(tree: AtomView, decls: Seq<AtomView>) -> bool
    decreases tree,
{
    match tree.body {
        BodyView::Program { start, .. } => start < decls.len(),
        BodyView::Function { arguments, statements, .. } => {
            &&& forall|i: int|
                0 <= i < arguments.len() ==> resolved_in(#[trigger] arguments[i], decls)
            &&& forall|i: int|
                0 <= i < statements.len() ==> resolved_in(#[trigger] statements[i], decls)
        },
        BodyView::Return { expr } => resolved_in(*expr, decls),
        BodyView::Statement { body, .. } => body < decls.len(),
        BodyView::Assignment { lhs, rhs } => names_variable(decls, lhs) && resolved_in(
            *rhs,
            decls,
        ),
        BodyView::BinaryOp { lhs, rhs, .. } => resolved_in(*lhs, decls) && resolved_in(
            *rhs,
            decls,
        ),
        BodyView::Expression { body, .. } => body < decls.len(),
        BodyView::VariableDef { dec, assign } => names_variable(decls, dec) && resolved_in(
            *assign,
            decls,
        ),
        BodyView::FunctionCall { id, input } => {
            &&& names_function(decls, id)
            &&& forall|i: int| 0 <= i < input.len() ==> resolved_in(#[trigger] input[i], decls)
        },
        BodyView::RefAtom { atom } => atom < decls.len(),
        BodyView::Const { .. } | BodyView::Variable { .. } | BodyView::Arg { .. }
        | BodyView::VariableDec { .. } | BodyView::Nil => true,
    }
}

/// Whether every node of `trees` is resolved in `decls`.
pub open spec fn all_resolved_in(trees: Seq<AtomView>, decls: Seq<AtomView>) -> bool {
    forall|i: int| 0 <= i < trees.len() ==> resolved_in(#[trigger] trees[i], decls)
}

/// Whether each declaration refers only to declarations before it.
pub open spec fn backward(decls: Seq<AtomView>) -> bool {
    forall|i: int|
        0 <= i < decls.len() ==> resolved_in(#[trigger] decls[i], decls.subrange(0, i))
}

/// A reference stays resolved when declarations are added.
pub proof fn lemma_resolved_stays(tree: AtomView, earlier: Seq<AtomView>, later: Seq<AtomView>)
    requires
        resolved_in(tree, earlier),
        extends(later, earlier),
    ensures
        resolved_in(tree, later),
    decreases tree,
{
    assert forall|i: int| 0 <= i < earlier.len() implies later[i] == earlier[i] by {
        assert(later.subrange(0, earlier.len() as int)[i] == later[i]);
    }
    match tree.body {
        BodyView::Function { arguments, statements, .. } => {
            assert forall|i: int| 0 <= i < arguments.len() implies resolved_in(
                #[trigger] arguments[i],
                later,
            ) by {
                lemma_resolved_stays(arguments[i], earlier, later);
            }
            assert forall|i: int| 0 <= i < statements.len() implies resolved_in(
                #[trigger] statements[i],
                later,
            ) by {
                lemma_resolved_stays(statements[i], earlier, later);
            }
        },
        BodyView::Return { expr } => {
            lemma_resolved_stays(*expr, earlier, later);
        },
        BodyView::Assignment { lhs, rhs } => {
            lemma_resolved_stays(*rhs, earlier, later);
        },
        BodyView::BinaryOp { lhs, rhs, .. } => {
            lemma_resolved_stays(*lhs, earlier, later);
            lemma_resolved_stays(*rhs, earlier, later);
        },
        BodyView::VariableDef { dec, assign } => {
            lemma_resolved_stays(*assign, earlier, later);
        },
        BodyView::FunctionCall { id, input } => {
            assert forall|i: int| 0 <= i < input.len() implies resolved_in(
                #[trigger] input[i],
                later,
            ) by {
                lemma_resolved_stays(input[i], earlier, later);
            }
        },
        _ => {},
    }
}

/// An expression holds no reference that could dangle: it is resolved in
/// any declarations.
pub proof fn lemma_expression_resolved(
    tokens: Seq<TokenView>,
    pos: int,
    decls: Seq<AtomView>,
    scope: nat,
    level: nat,
    any: Seq<AtomView>,
)
    ensures
        spec_binary(tokens, pos, decls, scope, level) matches Ok((tree, _)) ==> resolved_in(
            tree,
            any,
        ),
    decreases tokens.len() - pos, operand_level() - level,
{
    if level < operand_level() {
        lemma_expression_resolved(tokens, pos, decls, scope, level + 1, any);
        lemma_binary_advances(tokens, pos, decls, scope, level + 1);
        match spec_binary(tokens, pos, decls, scope, level + 1) {
            Ok((_, mid)) => {
                if operator_at(tokens, mid, level) is Some {
                    lemma_expression_resolved(tokens, mid + 1, decls, scope, level, any);
                }
            },
            Err(_) => {},
        }
    }
}

/// The arguments of a call hold no reference that could dangle.
pub proof fn lemma_input_resolved(
    tokens: Seq<TokenView>,
    pos: int,
    decls: Seq<AtomView>,
    scope: nat,
    any: Seq<AtomView>,
)
    ensures
        spec_input_from(tokens, pos, decls, scope) matches Ok((trees, _)) ==> all_resolved_in(
            trees,
            any,
        ),
    decreases tokens.len() - pos,
{
    if 0 <= pos < tokens.len() {
        match tokens[pos] {
            TokenView::CloseParanthesis => {},
            TokenView::Comma => {
                lemma_input_resolved(tokens, pos + 1, decls, scope, any);
            },
            _ => {
                lemma_expression_resolved(tokens, pos, decls, scope, 0, any);
                match spec_expression(tokens, pos, decls, scope) {
                    Ok((argument, mid)) => {
                        if pos < mid <= tokens.len() {
                            lemma_input_resolved(tokens, mid, decls, scope, any);
                            match spec_input_from(tokens, mid, decls, scope) {
                                Ok((rest, _)) => {
                                    let trees = seq![argument] + rest;
                                    assert forall|i: int| 0 <= i < trees.len() implies resolved_in(
                                        #[trigger] trees[i],
                                        any,
                                    ) by {
                                        if i > 0 {
                                            assert(trees[i] == rest[i - 1]);
                                        }
                                    }
                                },
                                Err(_) => {},
                            }
                        }
                    },
                    Err(_) => {},
                }
            },
        }
    }
}

/// Formal parameters hold no reference.
pub proof fn lemma_args_resolved(tokens: Seq<TokenView>, pos: int, any: Seq<AtomView>)
    ensures
        spec_args_from(tokens, pos) matches Ok((trees, _)) ==> all_resolved_in(trees, any)
            && all_resolved_in(variables_of(trees), any),
    decreases tokens.len() - pos,
{
    if 0 <= pos < tokens.len() {
        match tokens[pos] {
            TokenView::Comma => {
                lemma_args_resolved(tokens, pos + 1, any);
            },
            TokenView::Identifier(name) => {
                match spec_args_from(tokens, pos) {
                    Ok((trees, _)) => {
                        lemma_args_resolved(tokens, pos + 3, any);
                        let rest = spec_args_from(tokens, pos + 3)->Ok_0.0;
                        assert forall|i: int| 0 <= i < trees.len() implies resolved_in(
                            #[trigger] trees[i],
                            any,
                        ) && resolved_in(#[trigger] variables_of(trees)[i], any) by {
                            if i > 0 {
                                assert(trees[i] == rest[i - 1]);
                                assert(variables_of(trees)[i] == variables_of(rest)[i - 1]);
                            }
                        }
                    },
                    Err(_) => {},
                }
            },
            _ => {},
        }
    }
}

/// What stands behind `let` refers only to the variable that it declares,
/// which is complete when the statement is.
pub proof fn lemma_decordef_resolved(
    tokens: Seq<TokenView>,
    pos: int,
    decls: Seq<AtomView>,
    scope: nat,
)
    requires
        backward(decls),
    ensures
        spec_decordef(tokens, pos, decls, scope) matches Ok((tree, _, inner)) ==> resolved_in(
            tree,
            inner,
        ) && backward(inner) && extends(inner, decls),
{
    reveal_with_fuel(resolved_in, 3);
    match spec_decordef(tokens, pos, decls, scope) {
        Ok((tree, _, inner)) => {
            lemma_expression_resolved(tokens, pos + 4, decls, scope, 0, inner);
            assert(inner.subrange(0, decls.len() as int) =~= decls);
            assert forall|i: int| 0 <= i < inner.len() implies resolved_in(
                #[trigger] inner[i],
                inner.subrange(0, i),
            ) by {
                if i < decls.len() {
                    assert(inner.subrange(0, i) =~= decls.subrange(0, i));
                }
            }
        },
        Err(_) => {},
    }
}

/// A statement refers only to declarations that are complete when the
/// statement is: it is resolved in the declarations behind it, and those
/// still refer backwards.
pub proof fn lemma_statement_resolved(
    tokens: Seq<TokenView>,
    pos: int,
    decls: Seq<AtomView>,
    scope: nat,
)
    requires
        backward(decls),
    ensures
        spec_statement(tokens, pos, decls, scope) matches Ok((tree, _, inner)) ==> resolved_in(
            tree,
            inner,
        ) && backward(inner) && extends(inner, decls),
{
    reveal(spec_statement);
    reveal_with_fuel(resolved_in, 3);
    lemma_statement_advances(tokens, pos, decls, scope);
    match spec_statement(tokens, pos, decls, scope) {
        Ok((tree, _, inner)) => {
            lemma_expression_resolved(tokens, pos + 1, decls, scope, 0, inner);
            lemma_expression_resolved(tokens, pos + 2, decls, scope, 0, inner);
            lemma_expression_resolved(tokens, pos + 5, decls, scope, 0, inner);
            lemma_input_resolved(tokens, pos + 2, decls, scope, inner);
            if tokens[pos] is Identifier {
                lemma_resolve_latest(decls, scope, tokens[pos]->Identifier_0);
            }
            assert forall|i: int| 0 <= i < inner.len() implies resolved_in(
                #[trigger] inner[i],
                inner.subrange(0, i),
            ) by {
                if i < decls.len() {
                    assert(inner.subrange(0, decls.len() as int)[i] == inner[i]);
                    assert(inner.subrange(0, i) =~= decls.subrange(0, i));
                }
            }
        },
        Err(_) => {},
    }
}

/// The statements of a block refer only to declarations that are complete
/// when the block is.
pub proof fn lemma_statements_resolved(
    tokens: Seq<TokenView>,
    pos: int,
    decls: Seq<AtomView>,
    scope: nat,
)
    requires
        backward(decls),
    ensures
        spec_statements_from(tokens, pos, decls, scope) matches Ok((trees, _, last))
            ==> all_resolved_in(trees, last) && backward(last) && extends(last, decls),
    decreases tokens.len() - pos,
{
    if 0 <= pos < tokens.len() {
        if tokens[pos] == TokenView::CloseBrace {
            assert(decls.subrange(0, decls.len() as int) =~= decls);
        } else {
            lemma_statement_resolved(tokens, pos, decls, scope);
            match spec_statement(tokens, pos, decls, scope) {
                Ok((statement, mid, inner)) => {
                    if pos < mid <= tokens.len() {
                        lemma_statements_resolved(tokens, mid, inner, scope);
                        match spec_statements_from(tokens, mid, inner, scope) {
                            Ok((rest, _, last)) => {
                                let trees = seq![statement] + rest;
                                assert(last.subrange(0, decls.len() as int) =~= inner.subrange(
                                    0,
                                    decls.len() as int,
                                ));
                                assert forall|i: int| 0 <= i < trees.len() implies resolved_in(
                                    #[trigger] trees[i],
                                    last,
                                ) by {
                                    if i > 0 {
                                        assert(trees[i] == rest[i - 1]);
                                    } else {
                                        lemma_resolved_stays(statement, inner, last);
                                    }
                                }
                            },
                            Err(_) => {},
                        }
                    }
                },
                Err(_) => {},
            }
        }
    }
}

/// A function refers only to declarations made before it is declared
/// itself, and it is the last declaration once it is parsed.
pub proof fn lemma_function_resolved(tokens: Seq<TokenView>, pos: int, decls: Seq<AtomView>)
    requires
        backward(decls),
    ensures
        spec_function(tokens, pos, decls) matches Ok((function, _, inner)) ==> inner.len() > 0
            && inner.last() == function && resolved_in(function, inner.drop_last()) && backward(
            inner,
        ) && extends(inner, decls),
{
    match spec_function(tokens, pos, decls) {
        Ok((function, _, inner)) => {
            let (arguments, mid) = spec_args(tokens, pos + 1)->Ok_0;
            let outer = decls + variables_of(arguments);
            let body = inner.drop_last();
            lemma_args_resolved(tokens, pos + 2, decls);
            assert forall|i: int| 0 <= i < outer.len() implies resolved_in(
                #[trigger] outer[i],
                outer.subrange(0, i),
            ) by {
                if i < decls.len() {
                    assert(outer.subrange(0, i) =~= decls.subrange(0, i));
                } else {
                    lemma_args_resolved(tokens, pos + 2, outer.subrange(0, i));
                    assert(outer[i] == variables_of(arguments)[i - decls.len()]);
                }
            }
            lemma_statements_resolved(tokens, mid + 3, outer, decls.len());
            lemma_args_resolved(tokens, pos + 2, body);
            assert(body =~= spec_statements(tokens, mid + 2, outer, decls.len())->Ok_0.2);
            assert(inner.subrange(0, decls.len() as int) =~= decls) by {
                assert(body.subrange(0, outer.len() as int) == outer);
                assert forall|i: int| 0 <= i < decls.len() implies inner[i] == decls[i] by {
                    assert(body.subrange(0, outer.len() as int)[i] == body[i]);
                }
            }
            assert forall|i: int| 0 <= i < inner.len() implies resolved_in(
                #[trigger] inner[i],
                inner.subrange(0, i),
            ) by {
                if i < body.len() {
                    assert(inner.subrange(0, i) =~= body.subrange(0, i));
                } else {
                    assert(inner.subrange(0, i) =~= body);
                }
            }
        },
        Err(_) => {},
    }
}

/// No forward reference: parsing a top-level item keeps the declarations
/// referring backwards, and the item refers only to them.
pub proof fn lemma_next_resolved(tokens: Seq<TokenView>, pos: int, decls: Seq<AtomView>)
    requires
        backward(decls),
    ensures
        spec_next(tokens, pos, decls) matches Ok((item, _, inner)) ==> resolved_in(item, inner)
            && backward(inner) && extends(inner, decls),
{
    assert(decls.subrange(0, decls.len() as int) =~= decls);
    if 0 <= pos < tokens.len() {
        lemma_function_resolved(tokens, pos + 1, decls);
        match spec_next(tokens, pos, decls) {
            Ok((item, _, inner)) => {
                assert(extends(inner, inner.drop_last())) by {
                    assert(inner.subrange(0, inner.len() - 1) =~= inner.drop_last());
                }
                lemma_resolved_stays(item, inner.drop_last(), inner);
            },
            Err(_) => {},
        }
    }
}

} // verus!
