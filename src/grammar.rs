use vstd::prelude::*;

use crate::ast::AstView;
use crate::text::decimal;
use crate::token::{TokenType, TokenView};

verus! {

// The syntax of the language, over a sequence of tokens. Each production reads
// from a position `p` and gives what it parsed and how many tokens that took, or
// the message of the first place where the tokens do not fit the grammar.

/// Tokens left from position `p` on.
pub open spec fn left(ts: Seq<TokenView>, p: nat) -> nat {
    if p < ts.len() {
        (ts.len() - p) as nat
    } else {
        0
    }
}

pub open spec fn has_type(ts: Seq<TokenView>, p: nat, t: TokenType) -> bool {
    p < ts.len() && ts[p as int].token_type == t
}

pub open spec fn has_keyword(ts: Seq<TokenView>, p: nat, w: Seq<char>) -> bool {
    has_type(ts, p, TokenType::Keyword) && ts[p as int].value == w
}

pub open spec fn has_operator(ts: Seq<TokenView>, p: nat, w: Seq<char>) -> bool {
    has_type(ts, p, TokenType::Operator) && ts[p as int].value == w
}

/// Whether a token exists at `p` and is not of category `t`.
pub open spec fn has_other_than(ts: Seq<TokenView>, p: nat, t: TokenType) -> bool {
    p < ts.len() && ts[p as int].token_type != t
}

/// Number of newline tokens from `p` on.
pub open spec fn newline_run(ts: Seq<TokenView>, p: nat) -> nat
    decreases left(ts, p),
{
    if has_type(ts, p, TokenType::Newline) {
        1 + newline_run(ts, p + 1)
    } else {
        0
    }
}

/// `r` with `k` more tokens taken.
pub open spec fn after(k: nat, r: Result<(AstView, nat), Seq<char>>) -> Result<
    (AstView, nat),
    Seq<char>,
> {
    match r {
        Ok((e, n)) => Ok((e, k + n)),
        Err(m) => Err(m),
    }
}

/// The name of a token category, as messages spell it.
pub open spec fn category_text(t: TokenType) -> Seq<char> {
    match t {
        TokenType::Keyword => "Keyword"@,
        TokenType::Identifier => "Identifier"@,
        TokenType::Number => "Number"@,
        TokenType::String => "String"@,
        TokenType::Operator => "Operator"@,
        TokenType::LBrace => "LBrace"@,
        TokenType::RBrace => "RBrace"@,
        TokenType::LParen => "LParen"@,
        TokenType::RParen => "RParen"@,
        TokenType::LBracket => "LBracket"@,
        TokenType::RBracket => "RBracket"@,
        TokenType::Comma => "Comma"@,
        TokenType::Colon => "Colon"@,
        TokenType::Newline => "Newline"@,
        TokenType::EOF => "EOF"@,
    }
}

/// The message where a token of category `t` was expected at `p`: the category
/// found there and its line, or the end of the tokens.
pub open spec fn expect_message(ts: Seq<TokenView>, p: nat, t: TokenType) -> Seq<char> {
    if p < ts.len() {
        "Expected "@ + category_text(t) + ", found "@ + category_text(ts[p as int].token_type)
            + " at line "@ + decimal(ts[p as int].line)
    } else {
        "Expected "@ + category_text(t) + ", found EOF"@
    }
}

/// The message where the keyword `w` was expected at `p`.
pub open spec fn keyword_message(ts: Seq<TokenView>, p: nat, w: Seq<char>) -> Seq<char> {
    if p < ts.len() {
        "Expected keyword '"@ + w + "', found '"@ + ts[p as int].value + "' at line "@ + decimal(
            ts[p as int].line,
        )
    } else {
        "Expected keyword '"@ + w + "', found EOF"@
    }
}

/// The message for a primary expression that cannot start at `p`, a token that is
/// there.
pub open spec fn primary_message(t: TokenView) -> Seq<char> {
    if t.token_type == TokenType::Keyword {
        "Unexpected keyword '"@ + t.value + "' in expression at line "@ + decimal(t.line)
    } else {
        "Unexpected token "@ + category_text(t.token_type) + " '"@ + t.value
            + "' in expression at line "@ + decimal(t.line)
    }
}

/// The message where the operator `w` was expected at `p`.
pub open spec fn operator_message(ts: Seq<TokenView>, p: nat, w: Seq<char>) -> Seq<char> {
    if p < ts.len() {
        "Expected '"@ + w + "', found '"@ + ts[p as int].value + "' at line "@ + decimal(
            ts[p as int].line,
        )
    } else {
        "Expected '"@ + w + "', found EOF"@
    }
}

pub open spec fn call_on_non_name_message() -> Seq<char> {
    "Cannot call function on non-identifier"@
}

pub open spec fn invalid_target_message() -> Seq<char> {
    "Invalid left-hand side in assignment"@
}

/// The operators of each binary precedence level, from the loosest (0: `wa`) to the
/// tightest (4: `*`, `/`, `%`).
pub open spec fn is_level_operator(t: TokenView, level: nat) -> bool {
    if level == 0 {
        t.token_type == TokenType::Keyword && t.value == "wa"@
    } else if level == 1 {
        t.token_type == TokenType::Keyword && t.value == "ra"@
    } else if level == 2 {
        t.token_type == TokenType::Operator && (t.value == "=="@ || t.value == "!="@ || t.value
            == ">"@ || t.value == "<"@ || t.value == ">="@ || t.value == "<="@)
    } else if level == 3 {
        t.token_type == TokenType::Operator && (t.value == "+"@ || t.value == "-"@)
    } else {
        t.token_type == TokenType::Operator && (t.value == "*"@ || t.value == "/"@ || t.value
            == "%"@)
    }
}

pub open spec fn binary_rank(level: nat) -> int {
    if level <= 4 {
        14 - 2 * level
    } else {
        6
    }
}

/// Literals, names with their call and index suffixes, list and dictionary literals,
/// and parenthesised expressions.
pub open spec fn primary(ts: Seq<TokenView>, p: nat) -> Result<(AstView, nat), Seq<char>>
    decreases left(ts, p), 1int,
{
    if p >= ts.len() {
        Err("Unexpected end of input in expression"@)
    } else {
        let t = ts[p as int];
        if t.token_type == TokenType::Number {
            Ok((AstView::Number(t.value), 1))
        } else if t.token_type == TokenType::String {
            Ok((AstView::String(t.value), 1))
        } else if t.token_type == TokenType::Keyword {
            if t.value == "sahi"@ {
                Ok((AstView::Boolean(true), 1))
            } else if t.value == "galat"@ {
                Ok((AstView::Boolean(false), 1))
            } else {
                Err(primary_message(t))
            }
        } else if t.token_type == TokenType::Identifier {
            after(1, postfix(ts, AstView::Identifier(t.value), p + 1))
        } else if t.token_type == TokenType::LBracket {
            after(1, list_literal(ts, p + 1))
        } else if t.token_type == TokenType::LBrace {
            after(1, dict_literal(ts, p + 1))
        } else if t.token_type == TokenType::LParen {
            match expression(ts, p + 1) {
                Ok((e, n)) => if has_type(ts, p + 1 + n, TokenType::RParen) {
                    Ok((e, n + 2))
                } else {
                    Err(expect_message(ts, p + 1 + n, TokenType::RParen))
                },
                Err(m) => Err(m),
            }
        } else {
            Err(primary_message(t))
        }
    }
}

/// Call and index suffixes after `node`; a call only directly on a name.
pub open spec fn postfix(ts: Seq<TokenView>, node: AstView, p: nat) -> Result<
    (AstView, nat),
    Seq<char>,
>
    decreases left(ts, p), 16int,
{
    if has_type(ts, p, TokenType::LParen) {
        match node {
            AstView::Identifier(name) => match call_args(ts, p + 1) {
                Ok((args, n)) => if has_type(ts, p + 1 + n, TokenType::RParen) {
                    after(
                        n + 2,
                        postfix(ts, AstView::FunctionCall { name, arguments: args }, p + 2 + n),
                    )
                } else {
                    Err(expect_message(ts, p + 1 + n, TokenType::RParen))
                },
                Err(m) => Err(m),
            },
            _ => Err(call_on_non_name_message()),
        }
    } else if has_type(ts, p, TokenType::LBracket) {
        match expression(ts, p + 1) {
            Ok((i, n)) => if has_type(ts, p + 1 + n, TokenType::RBracket) {
                after(
                    n + 2,
                    postfix(
                        ts,
                        AstView::IndexAccess { object: Box::new(node), index: Box::new(i) },
                        p + 2 + n,
                    ),
                )
            } else {
                Err(expect_message(ts, p + 1 + n, TokenType::RBracket))
            },
            Err(m) => Err(m),
        }
    } else {
        Ok((node, 0))
    }
}

/// The arguments of a call, up to its closing parenthesis.
pub open spec fn call_args(ts: Seq<TokenView>, p: nat) -> Result<(Seq<AstView>, nat), Seq<char>>
    decreases left(ts, p), 17int,
{
    if has_other_than(ts, p, TokenType::RParen) {
        arg_list(ts, p)
    } else {
        Ok((Seq::empty(), 0))
    }
}

/// Comma-separated expressions.
pub open spec fn arg_list(ts: Seq<TokenView>, p: nat) -> Result<(Seq<AstView>, nat), Seq<char>>
    decreases left(ts, p), 16int,
{
    match expression(ts, p) {
        Err(m) => Err(m),
        Ok((e, n)) => if has_type(ts, p + n, TokenType::Comma) {
            match arg_list(ts, p + n + 1) {
                Ok((es, m)) => Ok((seq![e] + es, n + 1 + m)),
                Err(m) => Err(m),
            }
        } else {
            Ok((seq![e], n))
        },
    }
}

/// A list literal after its `[`.
pub open spec fn list_literal(ts: Seq<TokenView>, p: nat) -> Result<(AstView, nat), Seq<char>>
    decreases left(ts, p), 17int,
{
    let k = newline_run(ts, p);
    if has_other_than(ts, p + k, TokenType::RBracket) {
        match list_items(ts, p + k) {
            Ok((es, n)) => if has_type(ts, p + k + n, TokenType::RBracket) {
                Ok((AstView::ListLiteral(es), k + n + 1))
            } else {
                Err(expect_message(ts, p + k + n, TokenType::RBracket))
            },
            Err(m) => Err(m),
        }
    } else if has_type(ts, p + k, TokenType::RBracket) {
        Ok((AstView::ListLiteral(Seq::empty()), k + 1))
    } else {
        Err(expect_message(ts, p + k, TokenType::RBracket))
    }
}

/// The elements of a list literal: expressions separated by commas, newlines allowed
/// around them.
pub open spec fn list_items(ts: Seq<TokenView>, p: nat) -> Result<(Seq<AstView>, nat), Seq<char>>
    decreases left(ts, p), 16int,
{
    match expression(ts, p) {
        Err(m) => Err(m),
        Ok((e, n)) => {
            let k = newline_run(ts, p + n);
            if has_type(ts, p + n + k, TokenType::Comma) {
                let c = n + k + 1 + newline_run(ts, p + n + k + 1);
                match list_items(ts, p + c) {
                    Ok((es, m)) => Ok((seq![e] + es, c + m)),
                    Err(m) => Err(m),
                }
            } else {
                Ok((seq![e], n + k))
            }
        },
    }
}

/// A dictionary literal after its `{`.
pub open spec fn dict_literal(ts: Seq<TokenView>, p: nat) -> Result<(AstView, nat), Seq<char>>
    decreases left(ts, p), 17int,
{
    let k = newline_run(ts, p);
    if has_other_than(ts, p + k, TokenType::RBrace) {
        match dict_items(ts, p + k) {
            Ok((ps, n)) => if has_type(ts, p + k + n, TokenType::RBrace) {
                Ok((AstView::DictionaryLiteral(ps), k + n + 1))
            } else {
                Err(expect_message(ts, p + k + n, TokenType::RBrace))
            },
            Err(m) => Err(m),
        }
    } else if has_type(ts, p + k, TokenType::RBrace) {
        Ok((AstView::DictionaryLiteral(Seq::empty()), k + 1))
    } else {
        Err(expect_message(ts, p + k, TokenType::RBrace))
    }
}

/// The entries of a dictionary literal: `"key": expression`, separated by commas.
pub open spec fn dict_items(ts: Seq<TokenView>, p: nat) -> Result<
    (Seq<(Seq<char>, AstView)>, nat),
    Seq<char>,
>
    decreases left(ts, p), 16int,
{
    if !has_type(ts, p, TokenType::String) {
        Err(expect_message(ts, p, TokenType::String))
    } else if !has_type(ts, p + 1, TokenType::Colon) {
        Err(expect_message(ts, p + 1, TokenType::Colon))
    } else {
        let key = ts[p as int].value;
        let k1 = newline_run(ts, p + 2);
        match expression(ts, p + 2 + k1) {
            Err(m) => Err(m),
            Ok((v, n)) => {
                let c = 2 + k1 + n;
                let k2 = newline_run(ts, p + c);
                if has_type(ts, p + c + k2, TokenType::Comma) {
                    let d = c + k2 + 1 + newline_run(ts, p + c + k2 + 1);
                    match dict_items(ts, p + d) {
                        Ok((ps, m)) => Ok((seq![(key, v)] + ps, d + m)),
                        Err(m) => Err(m),
                    }
                } else {
                    Ok((seq![(key, v)], c + k2))
                }
            },
        }
    }
}

/// Prefix `-` and `hoina`, applied to a unary operand.
pub open spec fn unary(ts: Seq<TokenView>, p: nat) -> Result<(AstView, nat), Seq<char>>
    decreases left(ts, p), 2int,
{
    if has_keyword(ts, p, "hoina"@) || has_operator(ts, p, "-"@) {
        match unary(ts, p + 1) {
            Ok((e, n)) => Ok(
                (AstView::UnaryOp { operator: ts[p as int].value, operand: Box::new(e) }, n + 1),
            ),
            Err(m) => Err(m),
        }
    } else if p < ts.len() {
        primary(ts, p)
    } else {
        Err("Unexpected end of input"@)
    }
}

/// An expression of binary precedence level `level` or tighter.
pub open spec fn binary(ts: Seq<TokenView>, p: nat, level: nat) -> Result<(AstView, nat), Seq<char>>
    decreases left(ts, p), binary_rank(level),
{
    let first = if level >= 4 {
        unary(ts, p)
    } else {
        binary(ts, p, level + 1)
    };
    match first {
        Ok((l, n)) => after(n, binary_rest(ts, l, p + n, level)),
        Err(m) => Err(m),
    }
}

/// Left-associative operators of level `level` that follow the operand `lhs`.
pub open spec fn binary_rest(ts: Seq<TokenView>, lhs: AstView, p: nat, level: nat) -> Result<
    (AstView, nat),
    Seq<char>,
>
    decreases left(ts, p), binary_rank(level) - 1,
{
    if p < ts.len() && is_level_operator(ts[p as int], level) {
        let operand = if level >= 4 {
            unary(ts, p + 1)
        } else {
            binary(ts, p + 1, level + 1)
        };
        match operand {
            Ok((r, n)) => after(
                n + 1,
                binary_rest(
                    ts,
                    AstView::BinaryOp {
                        left: Box::new(lhs),
                        operator: ts[p as int].value,
                        right: Box::new(r),
                    },
                    p + 1 + n,
                    level,
                ),
            ),
            Err(m) => Err(m),
        }
    } else {
        Ok((lhs, 0))
    }
}

/// A whole expression: the loosest binary level.
pub open spec fn expression(ts: Seq<TokenView>, p: nat) -> Result<(AstView, nat), Seq<char>>
    decreases left(ts, p), 15int,
{
    binary(ts, p, 0)
}

/// A block: `{`, statements separated by newlines, `}`.
pub open spec fn block(ts: Seq<TokenView>, p: nat) -> Result<(Seq<AstView>, nat), Seq<char>>
    decreases left(ts, p), 26int,
{
    if has_type(ts, p, TokenType::LBrace) {
        match block_items(ts, p + 1) {
            Ok((ss, n)) => if has_type(ts, p + 1 + n, TokenType::RBrace) {
                Ok((ss, n + 2))
            } else {
                Err(expect_message(ts, p + 1 + n, TokenType::RBrace))
            },
            Err(m) => Err(m),
        }
    } else {
        Err(expect_message(ts, p, TokenType::LBrace))
    }
}

/// Statements and blank lines up to a `}` or the end of the tokens.
pub open spec fn block_items(ts: Seq<TokenView>, p: nat) -> Result<(Seq<AstView>, nat), Seq<char>>
    decreases left(ts, p), 31int,
{
    if p >= ts.len() || ts[p as int].token_type == TokenType::RBrace {
        Ok((Seq::empty(), 0))
    } else if ts[p as int].token_type == TokenType::Newline {
        match block_items(ts, p + 1) {
            Ok((ss, n)) => Ok((ss, n + 1)),
            Err(m) => Err(m),
        }
    } else {
        match statement(ts, p) {
            // a statement always spans at least one token, so the empty message
            // below is never given
            Ok((st, n)) => if n > 0 {
                match block_items(ts, p + n) {
                    Ok((ss, m)) => Ok((seq![st] + ss, n + m)),
                    Err(m) => Err(m),
                }
            } else {
                Err(Seq::empty())
            },
            Err(m) => Err(m),
        }
    }
}

/// Statements and blank lines up to an end-of-input token or the end of the tokens.
pub open spec fn program_items(ts: Seq<TokenView>, p: nat) -> Result<Seq<AstView>, Seq<char>>
    decreases left(ts, p), 31int,
{
    if p >= ts.len() || ts[p as int].token_type == TokenType::EOF {
        Ok(Seq::empty())
    } else if ts[p as int].token_type == TokenType::Newline {
        program_items(ts, p + 1)
    } else {
        match statement(ts, p) {
            // a statement always spans at least one token, so the empty message
            // below is never given
            Ok((st, n)) => if n > 0 {
                match program_items(ts, p + n) {
                    Ok(ss) => Ok(seq![st] + ss),
                    Err(m) => Err(m),
                }
            } else {
                Err(Seq::empty())
            },
            Err(m) => Err(m),
        }
    }
}

/// The program that a token sequence spells, from position `p` on.
pub open spec fn program(ts: Seq<TokenView>, p: nat) -> Result<AstView, Seq<char>> {
    match program_items(ts, p) {
        Ok(ss) => Ok(AstView::Program(ss)),
        Err(m) => Err(m),
    }
}

/// One statement, chosen by its first token; a keyword that starts no statement
/// starts an expression statement.
pub open spec fn statement(ts: Seq<TokenView>, p: nat) -> Result<(AstView, nat), Seq<char>>
    decreases left(ts, p), 30int,
{
    if p >= ts.len() {
        Err("Unexpected end of input"@)
    } else {
        let t = ts[p as int];
        if t.token_type == TokenType::Keyword {
            if t.value == "maanau"@ {
                var_declaration(ts, p)
            } else if t.value == "yedi"@ {
                if_statement(ts, p)
            } else if t.value == "jaba"@ {
                while_loop(ts, p)
            } else if t.value == "pratyek"@ {
                for_each_loop(ts, p)
            } else if t.value == "kaam"@ {
                function_declaration(ts, p)
            } else if t.value == "pathau"@ {
                return_statement(ts, p)
            } else if t.value == "bhan"@ {
                print_statement(ts, p)
            } else if t.value == "rok"@ {
                Ok((AstView::Break, 1))
            } else if t.value == "jane"@ {
                Ok((AstView::Continue, 1))
            } else if t.value == "aayaat"@ {
                import_statement(ts, p)
            } else {
                expression(ts, p)
            }
        } else if t.token_type == TokenType::Identifier {
            if has_operator(ts, p + 1, "="@) {
                assignment(ts, p)
            } else if has_type(ts, p + 1, TokenType::LBracket) {
                index_assignment_or_expression(ts, p)
            } else {
                expression(ts, p)
            }
        } else {
            expression(ts, p)
        }
    }
}

/// `maanau name [: type] = expression`.
pub open spec fn var_declaration(ts: Seq<TokenView>, p: nat) -> Result<(AstView, nat), Seq<char>>
    decreases left(ts, p), 25int,
{
    if !has_keyword(ts, p, "maanau"@) {
        Err(keyword_message(ts, p, "maanau"@))
    } else if !has_type(ts, p + 1, TokenType::Identifier) {
        Err(expect_message(ts, p + 1, TokenType::Identifier))
    } else {
        let name = ts[p + 1int].value;
        let hinted = has_type(ts, p + 2, TokenType::Colon);
        let k: nat = if hinted {
            2
        } else {
            0
        };
        if hinted && !has_type(ts, p + 3, TokenType::Identifier) {
            Err(expect_message(ts, p + 3, TokenType::Identifier))
        } else if !has_operator(ts, p + 2 + k, "="@) {
            Err(operator_message(ts, p + 2 + k, "="@))
        } else {
            match expression(ts, p + 3 + k) {
                Ok((e, n)) => Ok(
                    (
                        AstView::VarDeclaration {
                            name,
                            type_hint: if hinted {
                                Some(ts[p + 3int].value)
                            } else {
                                None
                            },
                            value: Box::new(e),
                        },
                        3 + k + n,
                    ),
                ),
                Err(m) => Err(m),
            }
        }
    }
}

/// `name = expression`.
pub open spec fn assignment(ts: Seq<TokenView>, p: nat) -> Result<(AstView, nat), Seq<char>>
    decreases left(ts, p), 25int,
{
    if !has_type(ts, p, TokenType::Identifier) {
        Err(expect_message(ts, p, TokenType::Identifier))
    } else if !has_operator(ts, p + 1, "="@) {
        Err(operator_message(ts, p + 1, "="@))
    } else {
        match expression(ts, p + 2) {
            Ok((e, n)) => Ok(
                (AstView::Assignment { name: ts[p as int].value, value: Box::new(e) }, 2 + n),
            ),
            Err(m) => Err(m),
        }
    }
}

/// An expression, turned into an indexed assignment where `=` follows an index access.
pub open spec fn index_assignment_or_expression(ts: Seq<TokenView>, p: nat) -> Result<
    (AstView, nat),
    Seq<char>,
>
    decreases left(ts, p), 25int,
{
    match expression(ts, p) {
        Err(m) => Err(m),
        Ok((e, n)) => if has_operator(ts, p + n, "="@) {
            match e {
                AstView::IndexAccess { object, index } => match expression(ts, p + n + 1) {
                    Ok((v, m)) => Ok(
                        (AstView::IndexAssignment { object, index, value: Box::new(v) }, n + 1 + m),
                    ),
                    Err(m) => Err(m),
                },
                _ => Err(invalid_target_message()),
            }
        } else {
            Ok((e, n))
        },
    }
}

/// `yedi condition bhane { ... } [natra { ... }]`.
pub open spec fn if_statement(ts: Seq<TokenView>, p: nat) -> Result<(AstView, nat), Seq<char>>
    decreases left(ts, p), 25int,
{
    if !has_keyword(ts, p, "yedi"@) {
        Err(keyword_message(ts, p, "yedi"@))
    } else {
        match expression(ts, p + 1) {
            Err(m) => Err(m),
            Ok((c, n)) => if !has_keyword(ts, p + 1 + n, "bhane"@) {
                Err(keyword_message(ts, p + 1 + n, "bhane"@))
            } else {
                match block(ts, p + 2 + n) {
                    Err(m) => Err(m),
                    Ok((th, m)) => {
                        let q = p + 2 + n + m;
                        if has_keyword(ts, q, "natra"@) {
                            match block(ts, q + 1) {
                                Ok((el, k)) => Ok(
                                    (
                                        AstView::IfStatement {
                                            condition: Box::new(c),
                                            then_block: th,
                                            else_block: Some(el),
                                        },
                                        3 + n + m + k,
                                    ),
                                ),
                                Err(m) => Err(m),
                            }
                        } else {
                            Ok(
                                (
                                    AstView::IfStatement {
                                        condition: Box::new(c),
                                        then_block: th,
                                        else_block: None,
                                    },
                                    2 + n + m,
                                ),
                            )
                        }
                    },
                }
            },
        }
    }
}

/// `jaba samma condition { ... }`.
pub open spec fn while_loop(ts: Seq<TokenView>, p: nat) -> Result<(AstView, nat), Seq<char>>
    decreases left(ts, p), 25int,
{
    if !has_keyword(ts, p, "jaba"@) {
        Err(keyword_message(ts, p, "jaba"@))
    } else if !has_keyword(ts, p + 1, "samma"@) {
        Err(keyword_message(ts, p + 1, "samma"@))
    } else {
        match expression(ts, p + 2) {
            Err(m) => Err(m),
            Ok((c, n)) => match block(ts, p + 2 + n) {
                Ok((b, m)) => Ok(
                    (AstView::WhileLoop { condition: Box::new(c), body: b }, 2 + n + m),
                ),
                Err(m) => Err(m),
            },
        }
    }
}

/// `pratyek name ma iterable { ... }`.
pub open spec fn for_each_loop(ts: Seq<TokenView>, p: nat) -> Result<(AstView, nat), Seq<char>>
    decreases left(ts, p), 25int,
{
    if !has_keyword(ts, p, "pratyek"@) {
        Err(keyword_message(ts, p, "pratyek"@))
    } else if !has_type(ts, p + 1, TokenType::Identifier) {
        Err(expect_message(ts, p + 1, TokenType::Identifier))
    } else if !has_keyword(ts, p + 2, "ma"@) {
        Err(keyword_message(ts, p + 2, "ma"@))
    } else {
        match expression(ts, p + 3) {
            Err(m) => Err(m),
            Ok((it, n)) => match block(ts, p + 3 + n) {
                Ok((b, m)) => Ok(
                    (
                        AstView::ForEachLoop {
                            variable: ts[p + 1int].value,
                            iterable: Box::new(it),
                            body: b,
                        },
                        3 + n + m,
                    ),
                ),
                Err(m) => Err(m),
            },
        }
    }
}

/// Parameter names up to the closing parenthesis.
pub open spec fn parameters(ts: Seq<TokenView>, p: nat) -> Result<(Seq<Seq<char>>, nat), Seq<char>> {
    if has_other_than(ts, p, TokenType::RParen) {
        parameter_list(ts, p)
    } else {
        Ok((Seq::empty(), 0))
    }
}

/// Comma-separated names.
pub open spec fn parameter_list(ts: Seq<TokenView>, p: nat) -> Result<
    (Seq<Seq<char>>, nat),
    Seq<char>,
>
    decreases left(ts, p),
{
    if has_type(ts, p, TokenType::Identifier) {
        if has_type(ts, p + 1, TokenType::Comma) {
            match parameter_list(ts, p + 2) {
                Ok((ns, n)) => Ok((seq![ts[p as int].value] + ns, n + 2)),
                Err(m) => Err(m),
            }
        } else {
            Ok((seq![ts[p as int].value], 1))
        }
    } else {
        Err(expect_message(ts, p, TokenType::Identifier))
    }
}

/// `kaam name(parameters)`: the name, the parameter names and the tokens taken.
pub open spec fn function_signature(ts: Seq<TokenView>, p: nat) -> Result<
    (Seq<char>, Seq<Seq<char>>, nat),
    Seq<char>,
> {
    if !has_keyword(ts, p, "kaam"@) {
        Err(keyword_message(ts, p, "kaam"@))
    } else if !has_type(ts, p + 1, TokenType::Identifier) {
        Err(expect_message(ts, p + 1, TokenType::Identifier))
    } else if !has_type(ts, p + 2, TokenType::LParen) {
        Err(expect_message(ts, p + 2, TokenType::LParen))
    } else {
        match parameters(ts, p + 3) {
            Err(m) => Err(m),
            Ok((ps, n)) => if !has_type(ts, p + 3 + n, TokenType::RParen) {
                Err(expect_message(ts, p + 3 + n, TokenType::RParen))
            } else {
                Ok((ts[p + 1int].value, ps, 4 + n))
            },
        }
    }
}

/// `kaam name(parameters) { ... }`.
pub open spec fn function_declaration(ts: Seq<TokenView>, p: nat) -> Result<
    (AstView, nat),
    Seq<char>,
>
    decreases left(ts, p), 25int,
{
    match function_signature(ts, p) {
        Err(m) => Err(m),
        Ok((name, ps, n)) => match block(ts, p + n) {
            Ok((b, m)) => Ok(
                (AstView::FunctionDeclaration { name, parameters: ps, body: b }, n + m),
            ),
            Err(m) => Err(m),
        },
    }
}

/// `pathau expression`.
pub open spec fn return_statement(ts: Seq<TokenView>, p: nat) -> Result<(AstView, nat), Seq<char>>
    decreases left(ts, p), 25int,
{
    if has_keyword(ts, p, "pathau"@) {
        match expression(ts, p + 1) {
            Ok((e, n)) => Ok((AstView::Return(Box::new(e)), 1 + n)),
            Err(m) => Err(m),
        }
    } else {
        Err(keyword_message(ts, p, "pathau"@))
    }
}

/// `bhan expression`.
pub open spec fn print_statement(ts: Seq<TokenView>, p: nat) -> Result<(AstView, nat), Seq<char>>
    decreases left(ts, p), 25int,
{
    if has_keyword(ts, p, "bhan"@) {
        match expression(ts, p + 1) {
            Ok((e, n)) => Ok((AstView::Print(Box::new(e)), 1 + n)),
            Err(m) => Err(m),
        }
    } else {
        Err(keyword_message(ts, p, "bhan"@))
    }
}

/// `aayaat "file"`.
pub open spec fn import_statement(ts: Seq<TokenView>, p: nat) -> Result<(AstView, nat), Seq<char>> {
    if !has_keyword(ts, p, "aayaat"@) {
        Err(keyword_message(ts, p, "aayaat"@))
    } else if !has_type(ts, p + 1, TokenType::String) {
        Err(expect_message(ts, p + 1, TokenType::String))
    } else {
        Ok((AstView::Import { filename: ts[p + 1int].value }, 2))
    }
}

} // verus!
