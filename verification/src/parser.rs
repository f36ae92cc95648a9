//! The parser, in two parts. The spec-level parser `p_program` and its
//! layers state, for every token stream, the exact AST of a recursive
//! descent with operator-precedence layers from `or` down to primaries
//! (or the exact first error); the `or` layer reads the `||` token, and
//! every binary layer folds left-associatively. The executable side of
//! this module holds the verified token cursor (`Parser` with
//! `token_next` / `token_accept` / `token_expect`) that such a descent
//! drives; an executable descent proved equal to the spec layers is not
//! part of this module.
use crate::syntax_tree::{NodeM, NodeTypeM, OpType};
use crate::tokenizer::{Token, TokenType};
use vstd::prelude::*;

verus! {

/// What the parser was looking for when it stopped.
#[derive(Clone, Copy, Debug, PartialEq, Eq, Structural)]
pub enum Expected {
    TokenKind(TokenType),
    FunctionArgument,
    Expression,
    DictKey,
    Symbol,
    VariableName,
}

/// A parse failure: what was expected, and the text and position of the
/// token actually seen.
#[derive(Debug)]
pub struct ParseError {
    pub expected: Expected,
    pub text: String,
    pub line: usize,
    pub col: usize,
}

/// Spec-level parse failure.
pub struct ParseErrM {
    pub expected: Expected,
    pub text: Seq<char>,
    pub line: int,
    pub col: int,
}

/// The spec image of an exec parse error.
pub open spec fn err_m(e: ParseError) -> ParseErrM {
    ParseErrM { expected: e.expected, text: e.text@, line: e.line as int, col: e.col as int }
}

/// A token stream fit for parsing: produced-by-the-lexer shape, with the
/// one `Eof` token at the end and nowhere else.
pub open spec fn wf_tokens(toks: Seq<Token>) -> bool {
    &&& toks.len() >= 1
    &&& toks[toks.len() - 1].type_ == TokenType::Eof
    &&& forall|k: int| 0 <= k < toks.len() - 1 ==> (#[trigger] toks[k].type_) != TokenType::Eof
}

/// The tag of the token at `i` (out of range reads as `Empty`; under
/// `wf_tokens` the cursor never leaves the stream).
pub open spec fn tk(toks: Seq<Token>, i: int) -> TokenType {
    if 0 <= i < toks.len() {
        toks[i].type_
    } else {
        TokenType::Empty
    }
}

/// The lexeme of the token at `i`.
pub open spec fn txt(toks: Seq<Token>, i: int) -> Seq<char> {
    if 0 <= i < toks.len() {
        toks[i].text@
    } else {
        Seq::empty()
    }
}

/// The numeric payload of the token at `i`.
pub open spec fn tnum(toks: Seq<Token>, i: int) -> u32 {
    if 0 <= i < toks.len() {
        toks[i].num
    } else {
        0
    }
}

/// The cursor after consuming the token at `i`: it saturates on the last
/// token, exactly as the exec cursor does when the stream is exhausted.
pub open spec fn nx(toks: Seq<Token>, i: int) -> int {
    if i + 1 < toks.len() {
        i + 1
    } else {
        i
    }
}

/// The error raised at the token at `i`.
pub open spec fn perr(toks: Seq<Token>, i: int, expected: Expected) -> ParseErrM {
    if 0 <= i < toks.len() {
        ParseErrM {
            expected,
            text: toks[i].text@,
            line: toks[i].line as int,
            col: toks[i].col as int,
        }
    } else {
        ParseErrM { expected, text: Seq::empty(), line: 0, col: 0 }
    }
}

/// Result of one parsing layer: the node built and the cursor after it.
pub type PR = Result<(NodeM, int), ParseErrM>;

/// Result of a layer that yields a list of nodes.
pub type PRs = Result<(Seq<NodeM>, int), ParseErrM>;

/// The termination measure of the parsing layers: how many tokens lie at
/// or after the cursor.
pub open spec fn pmeasure(toks: Seq<Token>, i: int) -> int {
    if toks.len() - i >= 0 {
        toks.len() - i
    } else {
        0
    }
}

/// Position clamp, for termination only: every layer consumes at least one
/// token on success, and the clamp makes that structural.
pub open spec fn bump(i: int, j: int) -> int {
    if j < i + 1 {
        i + 1
    } else {
        j
    }
}

/// Clamp a layer's resulting position past its starting position
/// (termination only; the true position is always past it already).
pub open spec fn clamp_pr(i: int, r: PR) -> PR {
    match r {
        Ok((n, j)) => Ok((n, bump(i, j))),
        Err(e) => Err(e),
    }
}

/// The quotes stripped off a string lexeme.
pub open spec fn trim_quotes(s: Seq<char>) -> Seq<char> {
    if s.len() >= 2 {
        s.subrange(1, s.len() - 1)
    } else {
        Seq::empty()
    }
}

/// An operator node with two children.
pub open spec fn op2(op: OpType, a: NodeM, b: NodeM) -> NodeM {
    NodeM { kind: NodeTypeM::Op(op), body: seq![a, b] }
}

/// An operator node with one child.
pub open spec fn op1(op: OpType, a: NodeM) -> NodeM {
    NodeM { kind: NodeTypeM::Op(op), body: seq![a] }
}

/// A node with the given children.
pub open spec fn nodem(kind: NodeTypeM, body: Seq<NodeM>) -> NodeM {
    NodeM { kind, body }
}

/// Primary expressions: literals, symbols, parenthesized conditions,
/// array and dict literals, and function literals (spotted by their
/// `fn` / `function` keyword).
pub open spec fn p_factor(toks: Seq<Token>, i: int) -> PR
    decreases pmeasure(toks, i), 4int,
{
    clamp_pr(
        i,
        if tk(toks, i) == TokenType::Sym {
            if txt(toks, i) == "fn"@ || txt(toks, i) == "function"@ {
                p_fun(toks, i)
            } else {
                Ok((nodem(NodeTypeM::Symbol(txt(toks, i)), Seq::empty()), nx(toks, i)))
            }
        } else if tk(toks, i) == TokenType::Num {
            Ok((nodem(NodeTypeM::Number(tnum(toks, i)), Seq::empty()), nx(toks, i)))
        } else if tk(toks, i) == TokenType::Str {
            Ok((nodem(NodeTypeM::Str(trim_quotes(txt(toks, i))), Seq::empty()), nx(toks, i)))
        } else if tk(toks, i) == TokenType::LPar {
            match p_condition(toks, bump(i, nx(toks, i))) {
                Ok((n, j)) => if tk(toks, j) == TokenType::RPar {
                    Ok((n, nx(toks, j)))
                } else {
                    Err(perr(toks, j, Expected::TokenKind(TokenType::RPar)))
                },
                Err(e) => Err(e),
            }
        } else if tk(toks, i) == TokenType::LBr {
            let j = bump(i, nx(toks, i));
            if tk(toks, j) == TokenType::RBr {
                Ok((nodem(NodeTypeM::Array, Seq::empty()), nx(toks, j)))
            } else {
                match p_list(toks, j) {
                    Ok((elems, k)) => if tk(toks, k) == TokenType::RBr {
                        Ok((nodem(NodeTypeM::Array, elems), nx(toks, k)))
                    } else {
                        Err(perr(toks, k, Expected::TokenKind(TokenType::RBr)))
                    },
                    Err(e) => Err(e),
                }
            }
        } else if tk(toks, i) == TokenType::LBlock {
            let j = bump(i, nx(toks, i));
            if tk(toks, j) == TokenType::RBlock {
                Ok((nodem(NodeTypeM::Dict, Seq::empty()), nx(toks, j)))
            } else {
                match p_dict(toks, j) {
                    Ok((kvs, k)) => if tk(toks, k) == TokenType::RBlock {
                        Ok((nodem(NodeTypeM::Dict, kvs), nx(toks, k)))
                    } else {
                        Err(perr(toks, k, Expected::TokenKind(TokenType::RBlock)))
                    },
                    Err(e) => Err(e),
                }
            }
        } else {
            Err(perr(toks, i, Expected::Expression))
        },
    )
}

/// A function literal: `fn (args...) body`. The node holds the argument
/// block and the body block.
pub open spec fn p_fun(toks: Seq<Token>, i: int) -> PR
    decreases pmeasure(toks, i), 2int,
{
    clamp_pr(i, p_fun_raw(toks, i))
}

pub open spec fn p_fun_raw(toks: Seq<Token>, i: int) -> PR
    decreases pmeasure(toks, i), 1int,
{
    {
            let j = bump(i, nx(toks, i));  // past the `fn` keyword
            if tk(toks, j) != TokenType::LPar {
                Err(perr(toks, j, Expected::TokenKind(TokenType::LPar)))
            } else {
                let k = bump(j, nx(toks, j));
                let args: PRs = if tk(toks, k) == TokenType::RPar {
                    Ok((Seq::empty(), k))
                } else {
                    p_fun_args(toks, k)
                };
                match args {
                    Ok((ans, m)) => if tk(toks, m) != TokenType::RPar {
                        Err(perr(toks, m, Expected::TokenKind(TokenType::RPar)))
                    } else {
                        match p_block(toks, bump(i, bump(m, nx(toks, m)))) {
                            Ok((body, q)) => Ok(
                                (
                                    nodem(
                                        NodeTypeM::Function,
                                        seq![
                                            nodem(NodeTypeM::Block, ans),
                                            nodem(NodeTypeM::Block, body),
                                        ],
                                    ),
                                    q,
                                ),
                            ),
                            Err(e) => Err(e),
                        }
                    },
                    Err(e) => Err(e),
                }
            }
    }
}

/// Formal arguments: symbols separated by commas.
pub open spec fn p_fun_args(toks: Seq<Token>, i: int) -> PRs
    decreases pmeasure(toks, i), 0int,
{
    if tk(toks, i) == TokenType::Sym {
        let arg = nodem(NodeTypeM::Symbol(txt(toks, i)), Seq::empty());
        let j = nx(toks, i);
        if tk(toks, j) == TokenType::Comma {
            match p_fun_args(toks, bump(i, nx(toks, j))) {
                Ok((rest, k)) => Ok((seq![arg] + rest, k)),
                Err(e) => Err(e),
            }
        } else {
            Ok((seq![arg], j))
        }
    } else {
        Err(perr(toks, i, Expected::FunctionArgument))
    }
}

/// Comma-separated conditions (array elements, call arguments).
pub open spec fn p_list(toks: Seq<Token>, i: int) -> PRs
    decreases pmeasure(toks, i), 22int,
{
    match p_condition(toks, i) {
        Ok((n, j)) => p_list_rest(toks, bump(i, j), seq![n]),
        Err(e) => Err(e),
    }
}

pub open spec fn p_list_rest(toks: Seq<Token>, i: int, acc: Seq<NodeM>) -> PRs
    decreases pmeasure(toks, i), 0int,
{
    if tk(toks, i) == TokenType::Comma {
        match p_condition(toks, bump(i, nx(toks, i))) {
            Ok((n, j)) => p_list_rest(toks, bump(i, j), acc.push(n)),
            Err(e) => Err(e),
        }
    } else {
        Ok((acc, i))
    }
}

/// One `key: value` pair of a dict literal; the key is a symbol, string
/// or number.
pub open spec fn p_pair(toks: Seq<Token>, i: int) -> PRs
    decreases pmeasure(toks, i), 22int,
{
    let key: Result<NodeM, ParseErrM> = if tk(toks, i) == TokenType::Num {
        Ok(nodem(NodeTypeM::Number(tnum(toks, i)), Seq::empty()))
    } else if tk(toks, i) == TokenType::Sym {
        Ok(nodem(NodeTypeM::Symbol(txt(toks, i)), Seq::empty()))
    } else if tk(toks, i) == TokenType::Str {
        Ok(nodem(NodeTypeM::Str(trim_quotes(txt(toks, i))), Seq::empty()))
    } else {
        Err(perr(toks, i, Expected::DictKey))
    };
    match key {
        Ok(kn) => {
            let j = bump(i, nx(toks, i));
            if tk(toks, j) != TokenType::Colon {
                Err(perr(toks, j, Expected::TokenKind(TokenType::Colon)))
            } else {
                match p_condition(toks, bump(j, nx(toks, j))) {
                    Ok((vn, k)) => Ok((seq![kn, vn], k)),
                    Err(e) => Err(e),
                }
            }
        },
        Err(e) => Err(e),
    }
}

/// Dict pairs separated by commas, flattened key, value, key, value.
pub open spec fn p_dict(toks: Seq<Token>, i: int) -> PRs
    decreases pmeasure(toks, i), 24int,
{
    match p_pair(toks, i) {
        Ok((kv, j)) => p_dict_rest(toks, bump(i, j), kv),
        Err(e) => Err(e),
    }
}

pub open spec fn p_dict_rest(toks: Seq<Token>, i: int, acc: Seq<NodeM>) -> PRs
    decreases pmeasure(toks, i), 0int,
{
    if tk(toks, i) == TokenType::Comma {
        match p_pair(toks, bump(i, nx(toks, i))) {
            Ok((kv, j)) => p_dict_rest(toks, bump(i, j), acc + kv),
            Err(e) => Err(e),
        }
    } else {
        Ok((acc, i))
    }
}

/// A factor followed by `[index]` and `.member` accessors. The key stands
/// first in the node, the object second.
pub open spec fn p_accessor(toks: Seq<Token>, i: int) -> PR
    decreases pmeasure(toks, i), 6int,
{
    clamp_pr(
        i,
        match p_factor(toks, i) {
            Ok((n, j)) => p_accessor_rest(toks, bump(i, j), n),
            Err(e) => Err(e),
        },
    )
}

pub open spec fn p_accessor_rest(toks: Seq<Token>, i: int, obj: NodeM) -> PR
    decreases pmeasure(toks, i), 0int,
{
    if tk(toks, i) == TokenType::LBr {
        match p_condition(toks, bump(i, nx(toks, i))) {
            Ok((idx, j)) => if tk(toks, j) == TokenType::RBr {
                p_accessor_rest(
                    toks,
                    bump(i, nx(toks, j)),
                    nodem(NodeTypeM::Index, seq![idx, obj]),
                )
            } else {
                Err(perr(toks, j, Expected::TokenKind(TokenType::RBr)))
            },
            Err(e) => Err(e),
        }
    } else if tk(toks, i) == TokenType::Dot {
        let j = nx(toks, i);
        if tk(toks, j) == TokenType::Sym {
            p_accessor_rest(
                toks,
                bump(i, nx(toks, j)),
                nodem(
                    NodeTypeM::Member,
                    seq![nodem(NodeTypeM::Symbol(txt(toks, j)), Seq::empty()), obj],
                ),
            )
        } else {
            Err(perr(toks, j, Expected::Symbol))
        }
    } else {
        Ok((obj, i))
    }
}

/// An accessor followed by `(args)` calls and further `.member` accesses.
/// A call node holds the target and a block of arguments.
pub open spec fn p_call(toks: Seq<Token>, i: int) -> PR
    decreases pmeasure(toks, i), 8int,
{
    clamp_pr(
        i,
        match p_accessor(toks, i) {
            Ok((n, j)) => p_call_rest(toks, bump(i, j), n),
            Err(e) => Err(e),
        },
    )
}

pub open spec fn p_call_rest(toks: Seq<Token>, i: int, target: NodeM) -> PR
    decreases pmeasure(toks, i), 0int,
{
    if tk(toks, i) == TokenType::LPar {
        let j = bump(i, nx(toks, i));
        let args: PRs = if tk(toks, j) == TokenType::RPar {
            Ok((Seq::empty(), j))
        } else {
            p_list(toks, j)
        };
        match args {
            Ok((ans, k)) => if tk(toks, k) == TokenType::RPar {
                p_call_rest(
                    toks,
                    bump(i, nx(toks, k)),
                    nodem(NodeTypeM::Call, seq![target, nodem(NodeTypeM::Block, ans)]),
                )
            } else {
                Err(perr(toks, k, Expected::TokenKind(TokenType::RPar)))
            },
            Err(e) => Err(e),
        }
    } else if tk(toks, i) == TokenType::Dot {
        let j = nx(toks, i);
        if tk(toks, j) == TokenType::Sym {
            p_call_rest(
                toks,
                bump(i, nx(toks, j)),
                nodem(
                    NodeTypeM::Member,
                    seq![nodem(NodeTypeM::Symbol(txt(toks, j)), Seq::empty()), target],
                ),
            )
        } else {
            Err(perr(toks, j, Expected::Symbol))
        }
    } else {
        Ok((target, i))
    }
}

/// Unary `+`, `-`, `!`, applied right to left before calls.
pub open spec fn p_unary(toks: Seq<Token>, i: int) -> PR
    decreases pmeasure(toks, i), 10int,
{
    clamp_pr(i, p_unary_raw(toks, i))
}

/// The operator read by the unary layer at `i`, if any.
pub open spec fn unary_op(toks: Seq<Token>, i: int) -> Option<OpType> {
    if tk(toks, i) == TokenType::OpPlus {
        Some(OpType::OpPlus)
    } else if tk(toks, i) == TokenType::OpMinus {
        Some(OpType::OpMinus)
    } else if tk(toks, i) == TokenType::OpNot {
        Some(OpType::OpNot)
    } else {
        None
    }
}

pub open spec fn p_unary_raw(toks: Seq<Token>, i: int) -> PR
    decreases pmeasure(toks, i), 9int,
{
    match unary_op(toks, i) {
        Some(o) => match p_unary(toks, bump(i, nx(toks, i))) {
            Ok((n, j)) => Ok((op1(o, n), j)),
            Err(e) => Err(e),
        },
        None => p_call(toks, i),
    }
}

/// The multiplicative layer: `*`, `/`, `%`, folded left-associatively.
pub open spec fn p_term(toks: Seq<Token>, i: int) -> PR
    decreases pmeasure(toks, i), 12int,
{
    clamp_pr(
        i,
        match p_unary(toks, i) {
            Ok((n, j)) => p_term_rest(toks, bump(i, j), n),
            Err(e) => Err(e),
        },
    )
}

/// The operator read by the multiplicative layer at `i`, if any.
pub open spec fn term_op(toks: Seq<Token>, i: int) -> Option<OpType> {
    if tk(toks, i) == TokenType::OpMul {
        Some(OpType::OpMul)
    } else if tk(toks, i) == TokenType::OpDiv {
        Some(OpType::OpDiv)
    } else if tk(toks, i) == TokenType::OpMod {
        Some(OpType::OpMod)
    } else {
        None
    }
}

pub open spec fn p_term_rest(toks: Seq<Token>, i: int, left: NodeM) -> PR
    decreases pmeasure(toks, i), 0int,
{
    match term_op(toks, i) {
        Some(o) => match p_unary(toks, bump(i, nx(toks, i))) {
            Ok((r, j)) => p_term_rest(toks, bump(i, j), op2(o, left, r)),
            Err(e) => Err(e),
        },
        None => Ok((left, i)),
    }
}

/// The additive layer: `+`, `-`, folded left-associatively.
pub open spec fn p_expression(toks: Seq<Token>, i: int) -> PR
    decreases pmeasure(toks, i), 14int,
{
    clamp_pr(
        i,
        match p_term(toks, i) {
            Ok((n, j)) => p_expression_rest(toks, bump(i, j), n),
            Err(e) => Err(e),
        },
    )
}

/// The operator read by the additive layer at `i`, if any.
pub open spec fn expression_op(toks: Seq<Token>, i: int) -> Option<OpType> {
    if tk(toks, i) == TokenType::OpPlus {
        Some(OpType::OpPlus)
    } else if tk(toks, i) == TokenType::OpMinus {
        Some(OpType::OpMinus)
    } else {
        None
    }
}

pub open spec fn p_expression_rest(toks: Seq<Token>, i: int, left: NodeM) -> PR
    decreases pmeasure(toks, i), 0int,
{
    match expression_op(toks, i) {
        Some(o) => match p_term(toks, bump(i, nx(toks, i))) {
            Ok((r, j)) => p_expression_rest(toks, bump(i, j), op2(o, left, r)),
            Err(e) => Err(e),
        },
        None => Ok((left, i)),
    }
}

/// The comparison layer; chains fold left-associatively, so `a < b < c`
/// parses as `Lt(Lt(a, b), c)`.
pub open spec fn p_condition_cmp(toks: Seq<Token>, i: int) -> PR
    decreases pmeasure(toks, i), 16int,
{
    clamp_pr(
        i,
        match p_expression(toks, i) {
            Ok((n, j)) => p_condition_cmp_rest(toks, bump(i, j), n),
            Err(e) => Err(e),
        },
    )
}

/// The operator read by the comparison layer at `i`, if any.
pub open spec fn cmp_op(toks: Seq<Token>, i: int) -> Option<OpType> {
    if tk(toks, i) == TokenType::OpLs {
        Some(OpType::OpLs)
    } else if tk(toks, i) == TokenType::OpGt {
        Some(OpType::OpGt)
    } else if tk(toks, i) == TokenType::OpGtEq {
        Some(OpType::OpGtEq)
    } else if tk(toks, i) == TokenType::OpLsEq {
        Some(OpType::OpLsEq)
    } else if tk(toks, i) == TokenType::OpEq {
        Some(OpType::OpEq)
    } else if tk(toks, i) == TokenType::OpNotEq {
        Some(OpType::OpNotEq)
    } else {
        None
    }
}

pub open spec fn p_condition_cmp_rest(toks: Seq<Token>, i: int, left: NodeM) -> PR
    decreases pmeasure(toks, i), 0int,
{
    match cmp_op(toks, i) {
        Some(o) => match p_expression(toks, bump(i, nx(toks, i))) {
            Ok((r, j)) => p_condition_cmp_rest(toks, bump(i, j), op2(o, left, r)),
            Err(e) => Err(e),
        },
        None => Ok((left, i)),
    }
}

/// The `&&` layer.
pub open spec fn p_condition_and(toks: Seq<Token>, i: int) -> PR
    decreases pmeasure(toks, i), 18int,
{
    clamp_pr(
        i,
        match p_condition_cmp(toks, i) {
            Ok((n, j)) => p_condition_and_rest(toks, bump(i, j), n),
            Err(e) => Err(e),
        },
    )
}

pub open spec fn p_condition_and_rest(toks: Seq<Token>, i: int, left: NodeM) -> PR
    decreases pmeasure(toks, i), 0int,
{
    match and_op(toks, i) {
        Some(o) => match p_condition_cmp(toks, bump(i, nx(toks, i))) {
            Ok((r, j)) => p_condition_and_rest(toks, bump(i, j), op2(o, left, r)),
            Err(e) => Err(e),
        },
        None => Ok((left, i)),
    }
}

/// The `||` layer: the loosest-binding operator.
pub open spec fn p_condition(toks: Seq<Token>, i: int) -> PR
    decreases pmeasure(toks, i), 20int,
{
    clamp_pr(
        i,
        match p_condition_and(toks, i) {
            Ok((n, j)) => p_condition_rest(toks, bump(i, j), n),
            Err(e) => Err(e),
        },
    )
}

pub open spec fn p_condition_rest(toks: Seq<Token>, i: int, left: NodeM) -> PR
    decreases pmeasure(toks, i), 0int,
{
    match or_op(toks, i) {
        Some(o) => match p_condition_and(toks, bump(i, nx(toks, i))) {
            Ok((r, j)) => p_condition_rest(toks, bump(i, j), op2(o, left, r)),
            Err(e) => Err(e),
        },
        None => Ok((left, i)),
    }
}

/// The operator read by the `&&` layer at `i`, if any.
pub open spec fn and_op(toks: Seq<Token>, i: int) -> Option<OpType> {
    if tk(toks, i) == TokenType::OpAnd {
        Some(OpType::OpAnd)
    } else {
        None
    }
}

/// The operator read by the `||` layer at `i`, if any.
pub open spec fn or_op(toks: Seq<Token>, i: int) -> Option<OpType> {
    if tk(toks, i) == TokenType::OpOr {
        Some(OpType::OpOr)
    } else {
        None
    }
}

/// `lhs = rhs;` becomes an assignment node; a bare `expr;` stays the
/// expression itself. Both end at a `;`.
pub open spec fn p_assignment(toks: Seq<Token>, i: int) -> PR
    decreases pmeasure(toks, i), 22int,
{
    clamp_pr(
        i,
        match p_condition(toks, i) {
            Ok((lhs, j)) => {
                if tk(toks, j) == TokenType::Assign {
                    match p_condition(toks, bump(i, bump(j, nx(toks, j)))) {
                        Ok((rhs, k)) => if tk(toks, k) == TokenType::End {
                            Ok((nodem(NodeTypeM::Assign, seq![lhs, rhs]), nx(toks, k)))
                        } else {
                            Err(perr(toks, k, Expected::TokenKind(TokenType::End)))
                        },
                        Err(e) => Err(e),
                    }
                } else if tk(toks, j) == TokenType::End {
                    Ok((lhs, nx(toks, j)))
                } else {
                    Err(perr(toks, j, Expected::TokenKind(TokenType::End)))
                }
            },
            Err(e) => Err(e),
        },
    )
}

/// One statement: `var`, `if`/`else`, `while`, `return`, or an
/// assignment/expression statement.
pub open spec fn p_statement(toks: Seq<Token>, i: int) -> PR
    decreases pmeasure(toks, i), 24int,
{
    clamp_pr(
        i,
        if tk(toks, i) != TokenType::Sym {
            p_assignment(toks, i)
        } else if txt(toks, i) == "var"@ {
            let j = bump(i, nx(toks, i));
            if tk(toks, j) != TokenType::Sym {
                Err(perr(toks, j, Expected::VariableName))
            } else {
                let name = txt(toks, j);
                let k = bump(j, nx(toks, j));
                if tk(toks, k) != TokenType::Assign {
                    Err(perr(toks, k, Expected::TokenKind(TokenType::Assign)))
                } else {
                    match p_condition(toks, bump(k, nx(toks, k))) {
                        Ok((rhs, m)) => if tk(toks, m) == TokenType::End {
                            Ok(
                                (
                                    nodem(
                                        NodeTypeM::StmtVar,
                                        seq![
                                            nodem(NodeTypeM::Symbol(name), Seq::empty()),
                                            rhs,
                                        ],
                                    ),
                                    nx(toks, m),
                                ),
                            )
                        } else {
                            Err(perr(toks, m, Expected::TokenKind(TokenType::End)))
                        },
                        Err(e) => Err(e),
                    }
                }
            }
        } else if txt(toks, i) == "if"@ {
            let j = bump(i, nx(toks, i));
            if tk(toks, j) != TokenType::LPar {
                Err(perr(toks, j, Expected::TokenKind(TokenType::LPar)))
            } else {
                match p_condition(toks, bump(j, nx(toks, j))) {
                    Ok((cond, k)) => if tk(toks, k) != TokenType::RPar {
                        Err(perr(toks, k, Expected::TokenKind(TokenType::RPar)))
                    } else {
                        match p_block(toks, bump(i, bump(k, nx(toks, k)))) {
                            Ok((thens, m)) => {
                                if tk(toks, m) == TokenType::Sym && txt(toks, m) == "else"@ {
                                    match p_block(toks, bump(i, bump(m, nx(toks, m)))) {
                                        Ok((elses, q)) => Ok(
                                            (
                                                nodem(
                                                    NodeTypeM::StmtIfElse,
                                                    seq![
                                                        cond,
                                                        nodem(NodeTypeM::Block, thens),
                                                        nodem(NodeTypeM::Block, elses),
                                                    ],
                                                ),
                                                q,
                                            ),
                                        ),
                                        Err(e) => Err(e),
                                    }
                                } else {
                                    Ok(
                                        (
                                            nodem(
                                                NodeTypeM::StmtIf,
                                                seq![cond, nodem(NodeTypeM::Block, thens)],
                                            ),
                                            m,
                                        ),
                                    )
                                }
                            },
                            Err(e) => Err(e),
                        }
                    },
                    Err(e) => Err(e),
                }
            }
        } else if txt(toks, i) == "while"@ {
            let j = bump(i, nx(toks, i));
            if tk(toks, j) != TokenType::LPar {
                Err(perr(toks, j, Expected::TokenKind(TokenType::LPar)))
            } else {
                match p_condition(toks, bump(j, nx(toks, j))) {
                    Ok((cond, k)) => if tk(toks, k) != TokenType::RPar {
                        Err(perr(toks, k, Expected::TokenKind(TokenType::RPar)))
                    } else {
                        match p_block(toks, bump(i, bump(k, nx(toks, k)))) {
                            Ok((body, m)) => Ok(
                                (
                                    nodem(
                                        NodeTypeM::StmtWhile,
                                        seq![cond, nodem(NodeTypeM::Block, body)],
                                    ),
                                    m,
                                ),
                            ),
                            Err(e) => Err(e),
                        }
                    },
                    Err(e) => Err(e),
                }
            }
        } else if txt(toks, i) == "return"@ {
            match p_condition(toks, bump(i, nx(toks, i))) {
                Ok((v, j)) => if tk(toks, j) == TokenType::End {
                    Ok((nodem(NodeTypeM::StmtReturn, seq![v]), nx(toks, j)))
                } else {
                    Err(perr(toks, j, Expected::TokenKind(TokenType::End)))
                },
                Err(e) => Err(e),
            }
        } else {
            p_assignment(toks, i)
        },
    )
}

/// A block: either `{ ... }` holding statements (flattened: blocks do not
/// nest in the AST and do not open scopes), or a single statement.
pub open spec fn p_block(toks: Seq<Token>, i: int) -> PRs
    decreases pmeasure(toks, i), 26int,
{
    if tk(toks, i) == TokenType::LBlock {
        p_block_items(toks, bump(i, nx(toks, i)))
    } else {
        match p_statement(toks, i) {
            Ok((n, j)) => Ok((seq![n], j)),
            Err(e) => Err(e),
        }
    }
}

/// The statements of a `{ ... }` block, up to its closing brace.
pub open spec fn p_block_items(toks: Seq<Token>, i: int) -> PRs
    decreases pmeasure(toks, i), 28int,
{
    if tk(toks, i) == TokenType::RBlock {
        Ok((Seq::empty(), nx(toks, i)))
    } else if i < 0 || i >= toks.len() {
        Err(perr(toks, i, Expected::Expression))
    } else {
        match p_block(toks, i) {
            Ok((ns, j)) => match p_block_items(toks, bump(i, j)) {
                Ok((rest, k)) => Ok((ns + rest, k)),
                Err(e) => Err(e),
            },
            Err(e) => Err(e),
        }
    }
}

/// The statements of a whole program, up to `Eof`.
pub open spec fn p_program_items(toks: Seq<Token>, i: int) -> PRs
    decreases pmeasure(toks, i), 28int,
{
    if tk(toks, i) == TokenType::Eof {
        Ok((Seq::empty(), nx(toks, i)))
    } else if i < 0 || i >= toks.len() {
        Err(perr(toks, i, Expected::Expression))
    } else {
        match p_block(toks, i) {
            Ok((ns, j)) => match p_program_items(toks, bump(i, j)) {
                Ok((rest, k)) => Ok((ns + rest, k)),
                Err(e) => Err(e),
            },
            Err(e) => Err(e),
        }
    }
}

/// The AST of a whole token stream: a block node holding its statements.
pub open spec fn p_program(toks: Seq<Token>) -> Result<NodeM, ParseErrM> {
    match p_program_items(toks, 0) {
        Ok((ns, _j)) => Ok(nodem(NodeTypeM::Block, ns)),
        Err(e) => Err(e),
    }
}

impl Clone for Token {
    /// An exact copy of the token.
    fn clone(&self) -> (r: Token)
        ensures
            r == *self,
    {
        Token {
            type_: self.type_,
            text: self.text.clone(),
            line: self.line,
            col: self.col,
            num: self.num,
        }
    }
}

/// The parser: the token stream and a read cursor over it.
pub struct Parser {
    pub toks: Vec<Token>,
    pub pos: usize,
}

impl Parser {
    /// The stream is lexer-shaped and the cursor is on a token.
    pub open spec fn wf(&self) -> bool {
        wf_tokens(self.toks@) && self.pos < self.toks@.len()
    }

    /// A parser over a copy of the given tokens, cursor at the start.
    pub fn new(tokens: &Vec<Token>) -> (p: Parser)
        ensures
            p.toks@ == tokens@,
            p.pos == 0,
    {
        let mut toks: Vec<Token> = Vec::new();
        let mut k: usize = 0;
        while k < tokens.len()
            invariant
                0 <= k <= tokens@.len(),
                toks@ =~= tokens@.subrange(0, k as int),
            decreases tokens@.len() - k,
        {
            toks.push(tokens[k].clone());
            proof {
                assert(toks@ =~= tokens@.subrange(0, k + 1 as int));
            }
            k = k + 1;
        }
        proof {
            assert(toks@ =~= tokens@);
        }
        Parser { toks, pos: 0 }
    }

    /// The current token's tag.
    pub fn tcur(&self) -> (t: TokenType)
        requires
            self.pos < self.toks@.len(),
        ensures
            t == tk(self.toks@, self.pos as int),
    {
        self.toks[self.pos].type_
    }

    /// Advance the cursor; it saturates on the last token.
    pub fn token_next(&mut self)
        requires
            old(self).pos < old(self).toks@.len(),
        ensures
            final(self).toks == old(self).toks,
            final(self).pos == nx(old(self).toks@, old(self).pos as int),
            final(self).pos < final(self).toks@.len(),
    {
        let n = self.toks.len();
        if self.pos < n - 1 {
            self.pos = self.pos + 1;
        }
    }

    /// Whether the current token has the given tag; consume it if so.
    pub fn token_accept(&mut self, t: TokenType) -> (r: bool)
        requires
            old(self).pos < old(self).toks@.len(),
        ensures
            final(self).toks == old(self).toks,
            final(self).pos < final(self).toks@.len(),
            r == (tk(old(self).toks@, old(self).pos as int) == t),
            final(self).pos == if r {
                nx(old(self).toks@, old(self).pos as int)
            } else {
                old(self).pos as int
            },
    {
        let accepted = self.toks[self.pos].type_ == t;
        if accepted {
            self.token_next();
        }
        accepted
    }

    /// Demand the given tag; consume it or report what was expected.
    pub fn token_expect(&mut self, t: TokenType) -> (r: Result<(), ParseError>)
        requires
            old(self).pos < old(self).toks@.len(),
        ensures
            final(self).toks == old(self).toks,
            final(self).pos < final(self).toks@.len(),
            match r {
                Ok(()) => tk(old(self).toks@, old(self).pos as int) == t && final(self).pos == nx(
                    old(self).toks@,
                    old(self).pos as int,
                ),
                Err(e) => tk(old(self).toks@, old(self).pos as int) != t && final(self).pos == old(
                    self,
                ).pos && err_m(e) == perr(
                    old(self).toks@,
                    old(self).pos as int,
                    Expected::TokenKind(t),
                ),
            },
    {
        if self.token_accept(t) {
            Ok(())
        } else {
            Err(self.perr_at(Expected::TokenKind(t)))
        }
    }

    /// The error reporting the current token.
    pub fn perr_at(&self, expected: Expected) -> (e: ParseError)
        requires
            self.pos < self.toks@.len(),
        ensures
            err_m(e) == perr(self.toks@, self.pos as int, expected),
    {
        let t = &self.toks[self.pos];
        ParseError { expected, text: t.text.clone(), line: t.line, col: t.col }
    }

    /// Whether the current token is the symbol `kw`.
    pub fn at_keyword(&self, kw: &str) -> (r: bool)
        requires
            self.pos < self.toks@.len(),
        ensures
            r == (tk(self.toks@, self.pos as int) == TokenType::Sym && txt(
                self.toks@,
                self.pos as int,
            ) == kw@),
    {
        let t = &self.toks[self.pos];
        t.type_ == TokenType::Sym && t.text == String::from_str(kw)
    }

    /// The current `Str` token's lexeme with its quotes stripped.
    pub fn strip_quotes(&self) -> (r: String)
        requires
            self.pos < self.toks@.len(),
        ensures
            r@ == trim_quotes(txt(self.toks@, self.pos as int)),
    {
        let s = &self.toks[self.pos].text;
        let n = s.as_str().unicode_len();
        if n >= 2 {
            String::from_str(s.as_str().substring_char(1, n - 1))
        } else {
            String::new()
        }
    }

}

} // verus!
