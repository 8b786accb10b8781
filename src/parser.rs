use vstd::prelude::*;

use crate::ast::{
    lemma_names_view_push, lemma_nodes_view_push, lemma_pairs_view_push, names_view, node_view,
    nodes_view, pairs_view, ASTNode, AstView,
};
use crate::grammar::{
    category_text, expect_message, function_signature, keyword_message, operator_message,
    after, arg_list, assignment, binary, binary_rank, binary_rest, block, block_items, call_args,
    dict_items, dict_literal, expression, for_each_loop, function_declaration, has_keyword,
    has_operator, has_other_than, has_type, if_statement, import_statement,
    index_assignment_or_expression, is_level_operator, left,
    list_items, list_literal, newline_run, parameter_list, parameters, postfix, primary, program,
    print_statement, program_items, return_statement, statement, unary, var_declaration,
    while_loop,
};
use crate::lexer::{tokens_of, Lexer};
use crate::text::{push_decimal, text_is};
use crate::token::{token_views, Token, TokenType, TokenView};

verus! {

/// `r` with the items `acc` put in front and `k` more tokens taken.
pub open spec fn seq_after<A>(acc: Seq<A>, k: nat, r: Result<(Seq<A>, nat), Seq<char>>) -> Result<
    (Seq<A>, nat),
    Seq<char>,
> {
    match r {
        Ok((xs, n)) => Ok((acc + xs, k + n)),
        Err(m) => Err(m),
    }
}

proof fn lemma_seq_after<A>(a: Seq<A>, k: nat, b: Seq<A>, j: nat, r: Result<(Seq<A>, nat), Seq<char>>)
    ensures
        seq_after(a, k, seq_after(b, j, r)) == seq_after(a + b, k + j, r),
{
    if let Ok((xs, n)) = r {
        assert(a + (b + xs) =~= (a + b) + xs);
    }
}

proof fn lemma_seq_after_empty<A>(r: Result<(Seq<A>, nat), Seq<char>>)
    ensures
        seq_after(Seq::empty(), 0, r) == r,
{
    if let Ok((xs, n)) = r {
        assert(Seq::<A>::empty() + xs =~= xs);
    }
}

/// How a parse of one node relates to the grammar: `Ok` exactly where the grammar
/// gives a tree, with that tree and the tokens it took, else `Err` with the
/// grammar's message.
pub open spec fn node_outcome(
    r: Result<ASTNode, String>,
    expected: Result<(AstView, nat), Seq<char>>,
    from: nat,
    to: nat,
) -> bool {
    match r {
        Ok(n) => from <= to && expected == Ok::<(AstView, nat), Seq<char>>((n@, (to - from) as nat)),
        Err(m) => expected == Err::<(AstView, nat), Seq<char>>(m@),
    }
}

/// As `node_outcome`, for a list of nodes.
pub open spec fn nodes_outcome(
    r: Result<Vec<Box<ASTNode>>, String>,
    expected: Result<(Seq<AstView>, nat), Seq<char>>,
    from: nat,
    to: nat,
) -> bool {
    match r {
        Ok(ns) => from <= to && expected == Ok::<(Seq<AstView>, nat), Seq<char>>(
            (nodes_view(ns@), (to - from) as nat),
        ),
        Err(m) => expected == Err::<(Seq<AstView>, nat), Seq<char>>(m@),
    }
}

/// Turns a sequence of tokens into a syntax tree.
pub struct Parser {
    tokens: Vec<Token>,
    pos: usize,
}

fn category_name(t: TokenType) -> (r: String)
    ensures
        r@ == category_text(t),
{
    match t {
        TokenType::Keyword => String::from_str("Keyword"),
        TokenType::Identifier => String::from_str("Identifier"),
        TokenType::Number => String::from_str("Number"),
        TokenType::String => String::from_str("String"),
        TokenType::Operator => String::from_str("Operator"),
        TokenType::LBrace => String::from_str("LBrace"),
        TokenType::RBrace => String::from_str("RBrace"),
        TokenType::LParen => String::from_str("LParen"),
        TokenType::RParen => String::from_str("RParen"),
        TokenType::LBracket => String::from_str("LBracket"),
        TokenType::RBracket => String::from_str("RBracket"),
        TokenType::Comma => String::from_str("Comma"),
        TokenType::Colon => String::from_str("Colon"),
        TokenType::Newline => String::from_str("Newline"),
        TokenType::EOF => String::from_str("EOF"),
    }
}

impl Parser {
    /// The tokens being parsed.
    pub closed spec fn tokens_view(&self) -> Seq<TokenView> {
        token_views(self.tokens@)
    }

    /// Index of the next token to read.
    pub closed spec fn position(&self) -> nat {
        self.pos as nat
    }

    pub closed spec fn wf(&self) -> bool {
        self.pos <= self.tokens.len()
    }

    closed spec fn remaining(&self) -> nat {
        left(self.tokens_view(), self.pos as nat)
    }

    pub fn new(tokens: Vec<Token>) -> (r: Parser)
        ensures
            r.wf(),
            r.tokens_view() == token_views(tokens@),
            r.position() == 0,
    {
        Parser { tokens, pos: 0 }
    }

    fn advance(&mut self)
        requires
            old(self).pos < old(self).tokens.len(),
        ensures
            final(self).pos == old(self).pos + 1,
            final(self).tokens == old(self).tokens,
    {
        self.pos = self.pos + 1;
    }

    /// Whether the current token is of category `t`.
    fn current_is(&self, t: TokenType) -> (r: bool)
        ensures
            r == has_type(self.tokens_view(), self.pos as nat, t),
    {
        self.pos < self.tokens.len() && self.tokens[self.pos].token_type == t
    }

    /// Whether a current token exists and is not of category `t`.
    fn current_is_not(&self, t: TokenType) -> (r: bool)
        ensures
            r == has_other_than(self.tokens_view(), self.pos as nat, t),
    {
        self.pos < self.tokens.len() && self.tokens[self.pos].token_type != t
    }

    /// Whether the token after the current one is of category `t`.
    fn next_is(&self, t: TokenType) -> (r: bool)
        ensures
            r == has_type(self.tokens_view(), (self.pos + 1) as nat, t),
            r ==> self.pos + 1 < self.tokens.len(),
    {
        self.pos < self.tokens.len() && self.pos + 1 < self.tokens.len() && self.tokens[self.pos
            + 1].token_type == t
    }

    /// Whether the current token is the keyword `w`.
    fn current_is_keyword(&self, w: &str) -> (r: bool)
        ensures
            r == has_keyword(self.tokens_view(), self.pos as nat, w@),
    {
        self.current_is(TokenType::Keyword) && text_is(&self.tokens[self.pos].value, w)
    }

    /// Whether the current token is the operator `w`.
    fn current_is_operator(&self, w: &str) -> (r: bool)
        ensures
            r == has_operator(self.tokens_view(), self.pos as nat, w@),
    {
        self.current_is(TokenType::Operator) && text_is(&self.tokens[self.pos].value, w)
    }

    /// Whether the token after the current one is the operator `w`.
    fn next_is_operator(&self, w: &str) -> (r: bool)
        ensures
            r == has_operator(self.tokens_view(), (self.pos + 1) as nat, w@),
    {
        self.next_is(TokenType::Operator) && text_is(&self.tokens[self.pos + 1].value, w)
    }

    /// The text of the current token.
    fn current_value(&self) -> (r: String)
        requires
            self.pos < self.tokens.len(),
        ensures
            r@ == self.tokens_view()[self.pos as int].value,
    {
        self.tokens[self.pos].value.clone()
    }

    /// The text of the current token, whose category is `t`, and moves past it.
    fn expect(&mut self, t: TokenType) -> (r: Result<String, String>)
        requires
            old(self).wf(),
        ensures
            final(self).wf(),
            final(self).tokens == old(self).tokens,
            has_type(old(self).tokens_view(), old(self).pos as nat, t) ==> r is Ok && r->Ok_0@
                == old(self).tokens_view()[old(self).pos as int].value && final(self).pos
                == old(self).pos + 1,
            !has_type(old(self).tokens_view(), old(self).pos as nat, t) ==> r is Err && r->Err_0@
                == expect_message(old(self).tokens_view(), old(self).pos as nat, t),
    {
        if self.pos < self.tokens.len() {
            let found = self.tokens[self.pos].token_type;
            if found == t {
                let v = self.current_value();
                self.advance();
                Ok(v)
            } else {
                let mut m = String::from_str("Expected ");
                m.append(category_name(t).as_str());
                m.append(", found ");
                m.append(category_name(found).as_str());
                m.append(" at line ");
                push_decimal(&mut m, self.tokens[self.pos].line);
                Err(m)
            }
        } else {
            let mut m = String::from_str("Expected ");
            m.append(category_name(t).as_str());
            m.append(", found EOF");
            Err(m)
        }
    }

    /// Moves past the current token, which is the keyword `w`.
    fn expect_keyword(&mut self, w: &str) -> (r: Result<(), String>)
        requires
            old(self).wf(),
        ensures
            final(self).wf(),
            final(self).tokens == old(self).tokens,
            has_keyword(old(self).tokens_view(), old(self).pos as nat, w@) ==> r is Ok
                && final(self).pos == old(self).pos + 1,
            !has_keyword(old(self).tokens_view(), old(self).pos as nat, w@) ==> r is Err
                && r->Err_0@ == keyword_message(old(self).tokens_view(), old(self).pos as nat, w@),
    {
        if self.current_is_keyword(w) {
            self.advance();
            Ok(())
        } else if self.pos < self.tokens.len() {
            let mut m = String::from_str("Expected keyword '");
            m.append(w);
            m.append("', found '");
            m.append(self.tokens[self.pos].value.as_str());
            m.append("' at line ");
            push_decimal(&mut m, self.tokens[self.pos].line);
            Err(m)
        } else {
            let mut m = String::from_str("Expected keyword '");
            m.append(w);
            m.append("', found EOF");
            Err(m)
        }
    }

    /// Moves past the current token, which is the operator `w`.
    fn expect_operator(&mut self, w: &str) -> (r: Result<(), String>)
        requires
            old(self).wf(),
        ensures
            final(self).wf(),
            final(self).tokens == old(self).tokens,
            has_operator(old(self).tokens_view(), old(self).pos as nat, w@) ==> r is Ok
                && final(self).pos == old(self).pos + 1,
            !has_operator(old(self).tokens_view(), old(self).pos as nat, w@) ==> r is Err
                && r->Err_0@ == operator_message(old(self).tokens_view(), old(self).pos as nat, w@),
    {
        if self.current_is_operator(w) {
            self.advance();
            Ok(())
        } else if self.pos < self.tokens.len() {
            let mut m = String::from_str("Expected '");
            m.append(w);
            m.append("', found '");
            m.append(self.tokens[self.pos].value.as_str());
            m.append("' at line ");
            push_decimal(&mut m, self.tokens[self.pos].line);
            Err(m)
        } else {
            let mut m = String::from_str("Expected '");
            m.append(w);
            m.append("', found EOF");
            Err(m)
        }
    }

    /// Moves past consecutive newline tokens.
    fn skip_newlines(&mut self)
        requires
            old(self).wf(),
        ensures
            final(self).wf(),
            final(self).tokens == old(self).tokens,
            final(self).pos == old(self).pos + newline_run(old(self).tokens_view(), old(self).pos as nat),
    {
        let ghost ts = self.tokens_view();
        let ghost start = self.pos as nat;
        while self.current_is(TokenType::Newline)
            invariant
                self.wf(),
                self.tokens == old(self).tokens,
                ts == self.tokens_view(),
                start == old(self).pos,
                start <= self.pos,
                start + newline_run(ts, start) == self.pos + newline_run(ts, self.pos as nat),
            decreases self.tokens.len() - self.pos,
        {
            self.advance();
        }
    }
}


impl Parser {
    /// Whether the current token is an operator of binary precedence level `level`.
    fn at_level_operator(&self, level: usize) -> (r: bool)
        requires
            self.wf(),
        ensures
            r == (self.pos < self.tokens.len() && is_level_operator(
                self.tokens_view()[self.pos as int],
                level as nat,
            )),
    {
        if self.pos >= self.tokens.len() {
            false
        } else if level == 0 {
            self.current_is_keyword("wa")
        } else if level == 1 {
            self.current_is_keyword("ra")
        } else if level == 2 {
            self.current_is_operator("==") || self.current_is_operator("!=")
                || self.current_is_operator(">") || self.current_is_operator("<")
                || self.current_is_operator(">=") || self.current_is_operator("<=")
        } else if level == 3 {
            self.current_is_operator("+") || self.current_is_operator("-")
        } else {
            self.current_is_operator("*") || self.current_is_operator("/")
                || self.current_is_operator("%")
        }
    }

    /// Parses an expression.
    fn parse_expression(&mut self) -> (r: Result<ASTNode, String>)
        requires
            old(self).wf(),
        ensures
            final(self).wf(),
            final(self).tokens == old(self).tokens,
            node_outcome(
                r,
                expression(old(self).tokens_view(), old(self).pos as nat),
                old(self).pos as nat,
                final(self).pos as nat,
            ),
            r is Ok ==> final(self).pos > old(self).pos,
        decreases old(self).remaining(), 15int,
    {
        self.parse_binary_level(0)
    }

    /// Parses an expression of binary precedence level `level` (0: `wa`, 1: `ra`,
    /// 2: comparisons, 3: `+ -`, 4: `* / %`) or tighter; operators of one level
    /// associate to the left.
    #[verifier::rlimit(100)]
    fn parse_binary_level(&mut self, level: usize) -> (r: Result<ASTNode, String>)
        requires
            old(self).wf(),
            level <= 4,
        ensures
            final(self).wf(),
            final(self).tokens == old(self).tokens,
            node_outcome(
                r,
                binary(old(self).tokens_view(), old(self).pos as nat, level as nat),
                old(self).pos as nat,
                final(self).pos as nat,
            ),
            r is Ok ==> final(self).pos > old(self).pos,
        decreases old(self).remaining(), binary_rank(level as nat),
    {
        let ghost ts = self.tokens_view();
        let ghost start = self.pos as nat;
        let first = if level >= 4 {
            self.parse_unary()
        } else {
            self.parse_binary_level(level + 1)
        };
        let mut lhs = match first {
            Ok(n) => n,
            Err(e) => {
                return Err(e);
            },
        };
        while self.at_level_operator(level)
            invariant
                self.wf(),
                self.tokens == old(self).tokens,
                ts == self.tokens_view(),
                start == old(self).pos,
                level <= 4,
                start < self.pos,
                binary(ts, start, level as nat) == after(
                    (self.pos - start) as nat,
                    binary_rest(ts, lhs@, self.pos as nat, level as nat),
                ),
            decreases self.tokens.len() - self.pos,
        {
            let ghost p = self.pos as nat;
            let ghost l = lhs@;
            let op = self.current_value();
            self.advance();
            let rhs = if level >= 4 {
                self.parse_unary()
            } else {
                self.parse_binary_level(level + 1)
            };
            match rhs {
                Ok(r) => {
                    lhs = ASTNode::BinaryOp { left: Box::new(lhs), operator: op, right: Box::new(r) };
                },
                Err(e) => {
                    return Err(e);
                },
            }
        }
        Ok(lhs)
    }

    /// Parses prefix `-` and `hoina` applied to a unary operand, or a primary.
    fn parse_unary(&mut self) -> (r: Result<ASTNode, String>)
        requires
            old(self).wf(),
        ensures
            final(self).wf(),
            final(self).tokens == old(self).tokens,
            node_outcome(
                r,
                unary(old(self).tokens_view(), old(self).pos as nat),
                old(self).pos as nat,
                final(self).pos as nat,
            ),
            r is Ok ==> final(self).pos > old(self).pos,
        decreases old(self).remaining(), 2int,
    {
        let ghost ts = self.tokens_view();
        let ghost p = self.pos as nat;
        if self.current_is_keyword("hoina") || self.current_is_operator("-") {
            let operator = self.current_value();
            self.advance();
            match self.parse_unary() {
                Ok(operand) => {
                    let r = ASTNode::UnaryOp { operator, operand: Box::new(operand) };
                    assert(unary(ts, p + 1) == Ok::<(AstView, nat), Seq<char>>((operand@, (self.pos - p - 1) as nat)));
                    assert(unary(ts, p) == Ok::<(AstView, nat), Seq<char>>((r@, (self.pos - p) as nat)));
                    Ok(r)
                },
                Err(e) => Err(e),
            }
        } else if self.pos < self.tokens.len() {
            assert(unary(ts, p) == primary(ts, p));
            self.parse_primary()
        } else {
            assert(self.tokens_view().len() == self.tokens.len());
            Err(String::from_str("Unexpected end of input"))
        }
    }

    /// Parses a literal, a name with its call and index suffixes, a list or
    /// dictionary literal, or a parenthesised expression.
    fn parse_primary(&mut self) -> (r: Result<ASTNode, String>)
        requires
            old(self).wf(),
        ensures
            final(self).wf(),
            final(self).tokens == old(self).tokens,
            node_outcome(
                r,
                primary(old(self).tokens_view(), old(self).pos as nat),
                old(self).pos as nat,
                final(self).pos as nat,
            ),
            r is Ok ==> final(self).pos > old(self).pos,
        decreases old(self).remaining(), 1int,
    {
        if self.pos >= self.tokens.len() {
            return Err(String::from_str("Unexpected end of input in expression"));
        }
        let t = self.tokens[self.pos].token_type;
        if t == TokenType::Number {
            let value = self.current_value();
            self.advance();
            Ok(ASTNode::Number(value))
        } else if t == TokenType::String {
            let value = self.current_value();
            self.advance();
            Ok(ASTNode::String(value))
        } else if t == TokenType::Keyword {
            if self.current_is_keyword("sahi") {
                self.advance();
                Ok(ASTNode::Boolean(true))
            } else if self.current_is_keyword("galat") {
                self.advance();
                Ok(ASTNode::Boolean(false))
            } else {
                let mut m = String::from_str("Unexpected keyword '");
                m.append(self.tokens[self.pos].value.as_str());
                m.append("' in expression at line ");
                push_decimal(&mut m, self.tokens[self.pos].line);
                Err(m)
            }
        } else if t == TokenType::Identifier {
            let name = self.current_value();
            self.advance();
            self.parse_postfix(ASTNode::Identifier(name))
        } else if t == TokenType::LBracket {
            self.advance();
            self.parse_list_literal()
        } else if t == TokenType::LBrace {
            self.advance();
            self.parse_dict_literal()
        } else if t == TokenType::LParen {
            self.advance();
            let expr = match self.parse_expression() {
                Ok(e) => e,
                Err(e) => {
                    return Err(e);
                },
            };
            match self.expect(TokenType::RParen) {
                Ok(_) => Ok(expr),
                Err(e) => Err(e),
            }
        } else {
            let mut m = String::from_str("Unexpected token ");
            m.append(category_name(t).as_str());
            m.append(" '");
            m.append(self.tokens[self.pos].value.as_str());
            m.append("' in expression at line ");
            push_decimal(&mut m, self.tokens[self.pos].line);
            Err(m)
        }
    }

    /// Parses call and index suffixes after `node`; a call is only allowed directly
    /// on a name.
    #[verifier::rlimit(100)]
    fn parse_postfix(&mut self, node: ASTNode) -> (r: Result<ASTNode, String>)
        requires
            old(self).wf(),
        ensures
            final(self).wf(),
            final(self).tokens == old(self).tokens,
            node_outcome(
                r,
                postfix(old(self).tokens_view(), node@, old(self).pos as nat),
                old(self).pos as nat,
                final(self).pos as nat,
            ),
        decreases old(self).remaining(), 16int,
    {
        let ghost ts = self.tokens_view();
        let ghost start = self.pos as nat;
        let mut result = node;
        while self.current_is(TokenType::LParen) || self.current_is(TokenType::LBracket)
            invariant
                self.wf(),
                self.tokens == old(self).tokens,
                ts == self.tokens_view(),
                start == old(self).pos,
                start <= self.pos,
                postfix(ts, node@, start) == after(
                    (self.pos - start) as nat,
                    postfix(ts, result@, self.pos as nat),
                ),
            decreases self.tokens.len() - self.pos,
        {
            if self.current_is(TokenType::LParen) {
                let name = match &result {
                    ASTNode::Identifier(n) => n.clone(),
                    _ => {
                        return Err(String::from_str("Cannot call function on non-identifier"));
                    },
                };
                self.advance();
                let arguments = match self.parse_call_args() {
                    Ok(a) => a,
                    Err(e) => {
                        return Err(e);
                    },
                };
                match self.expect(TokenType::RParen) {
                    Ok(_) => {},
                    Err(e) => {
                        return Err(e);
                    },
                }
                result = ASTNode::FunctionCall { name, arguments };
            } else {
                self.advance();
                let index = match self.parse_expression() {
                    Ok(i) => i,
                    Err(e) => {
                        return Err(e);
                    },
                };
                match self.expect(TokenType::RBracket) {
                    Ok(_) => {},
                    Err(e) => {
                        return Err(e);
                    },
                }
                result = ASTNode::IndexAccess { object: Box::new(result), index: Box::new(index) };
            }
        }
        Ok(result)
    }
}


impl Parser {
    /// Parses the arguments of a call, up to its closing parenthesis.
    fn parse_call_args(&mut self) -> (r: Result<Vec<Box<ASTNode>>, String>)
        requires
            old(self).wf(),
        ensures
            final(self).wf(),
            final(self).tokens == old(self).tokens,
            nodes_outcome(
                r,
                call_args(old(self).tokens_view(), old(self).pos as nat),
                old(self).pos as nat,
                final(self).pos as nat,
            ),
        decreases old(self).remaining(), 17int,
    {
        if self.current_is_not(TokenType::RParen) {
            self.parse_arg_list()
        } else {
            let none: Vec<Box<ASTNode>> = Vec::new();
            assert(nodes_view(none@) =~= Seq::<AstView>::empty());
            Ok(none)
        }
    }

    /// Parses comma-separated expressions.
    #[verifier::rlimit(100)]
    fn parse_arg_list(&mut self) -> (r: Result<Vec<Box<ASTNode>>, String>)
        requires
            old(self).wf(),
        ensures
            final(self).wf(),
            final(self).tokens == old(self).tokens,
            nodes_outcome(
                r,
                arg_list(old(self).tokens_view(), old(self).pos as nat),
                old(self).pos as nat,
                final(self).pos as nat,
            ),
        decreases old(self).remaining(), 16int,
    {
        let ghost ts = self.tokens_view();
        let ghost start = self.pos as nat;
        let mut arguments: Vec<Box<ASTNode>> = Vec::new();
        proof {
            lemma_seq_after_empty(arg_list(ts, start));
        }
        loop
            invariant_except_break
                arg_list(ts, start) == seq_after(
                    nodes_view(arguments@),
                    (self.pos - start) as nat,
                    arg_list(ts, self.pos as nat),
                ),
            invariant
                self.wf(),
                self.tokens == old(self).tokens,
                ts == self.tokens_view(),
                start == old(self).pos,
                start <= self.pos,
            ensures
                arg_list(ts, start) == Ok::<_, Seq<char>>((nodes_view(arguments@), (self.pos - start) as nat)),
            decreases self.tokens.len() - self.pos,
        {
            let ghost p = self.pos as nat;
            let ghost before = arguments@;
            let arg = match self.parse_expression() {
                Ok(a) => a,
                Err(e) => {
                    return Err(e);
                },
            };
            let ghost e = arg@;
            let b = Box::new(arg);
            arguments.push(b);
            proof {
                lemma_nodes_view_push(before, b);
            }
            assert(nodes_view(before) + seq![e] =~= nodes_view(arguments@));
            if self.current_is(TokenType::Comma) {
                self.advance();
                assert(arg_list(ts, p) == seq_after(
                    seq![e],
                    (self.pos - p) as nat,
                    arg_list(ts, self.pos as nat),
                ));
                proof {
                    lemma_seq_after(
                        nodes_view(before),
                        (p - start) as nat,
                        seq![e],
                        (self.pos - p) as nat,
                        arg_list(ts, self.pos as nat),
                    );
                }
            } else {
                assert(expression(ts, p) == Ok::<(AstView, nat), Seq<char>>((e, (self.pos - p) as nat)));
                assert(arg_list(ts, p) == Ok::<(Seq<AstView>, nat), Seq<char>>((seq![e], (self.pos - p) as nat)));
                assert(nodes_view(before) + seq![e] =~= nodes_view(arguments@));
                break;
            }
        }
        Ok(arguments)
    }

    /// Parses a list literal after its `[`.
    fn parse_list_literal(&mut self) -> (r: Result<ASTNode, String>)
        requires
            old(self).wf(),
        ensures
            final(self).wf(),
            final(self).tokens == old(self).tokens,
            node_outcome(
                r,
                list_literal(old(self).tokens_view(), old(self).pos as nat),
                old(self).pos as nat,
                final(self).pos as nat,
            ),
        decreases old(self).remaining(), 17int,
    {
        self.skip_newlines();
        let elements = if self.current_is_not(TokenType::RBracket) {
            match self.parse_list_items() {
                Ok(es) => es,
                Err(e) => {
                    return Err(e);
                },
            }
        } else {
            let none: Vec<Box<ASTNode>> = Vec::new();
            assert(nodes_view(none@) =~= Seq::<AstView>::empty());
            none
        };
        match self.expect(TokenType::RBracket) {
            Ok(_) => Ok(ASTNode::ListLiteral(elements)),
            Err(e) => Err(e),
        }
    }

    /// Parses the elements of a list literal: expressions separated by commas,
    /// newlines allowed around them.
    #[verifier::rlimit(100)]
    fn parse_list_items(&mut self) -> (r: Result<Vec<Box<ASTNode>>, String>)
        requires
            old(self).wf(),
        ensures
            final(self).wf(),
            final(self).tokens == old(self).tokens,
            nodes_outcome(
                r,
                list_items(old(self).tokens_view(), old(self).pos as nat),
                old(self).pos as nat,
                final(self).pos as nat,
            ),
        decreases old(self).remaining(), 16int,
    {
        let ghost ts = self.tokens_view();
        let ghost start = self.pos as nat;
        let mut elements: Vec<Box<ASTNode>> = Vec::new();
        proof {
            lemma_seq_after_empty(list_items(ts, start));
        }
        loop
            invariant_except_break
                list_items(ts, start) == seq_after(
                    nodes_view(elements@),
                    (self.pos - start) as nat,
                    list_items(ts, self.pos as nat),
                ),
            invariant
                self.wf(),
                self.tokens == old(self).tokens,
                ts == self.tokens_view(),
                start == old(self).pos,
                start <= self.pos,
            ensures
                list_items(ts, start) == Ok::<_, Seq<char>>((nodes_view(elements@), (self.pos - start) as nat)),
            decreases self.tokens.len() - self.pos,
        {
            let ghost p = self.pos as nat;
            let ghost before = elements@;
            let element = match self.parse_expression() {
                Ok(e) => e,
                Err(e) => {
                    return Err(e);
                },
            };
            let ghost e = element@;
            assert(expression(ts, p) == Ok::<(AstView, nat), Seq<char>>((e, (self.pos - p) as nat)));
            let b = Box::new(element);
            elements.push(b);
            proof {
                lemma_nodes_view_push(before, b);
            }
            assert(nodes_view(before) + seq![e] =~= nodes_view(elements@));
            self.skip_newlines();
            if self.current_is(TokenType::Comma) {
                self.advance();
                self.skip_newlines();
                assert(list_items(ts, p) == seq_after(
                    seq![e],
                    (self.pos - p) as nat,
                    list_items(ts, self.pos as nat),
                ));
                proof {
                    lemma_seq_after(
                        nodes_view(before),
                        (p - start) as nat,
                        seq![e],
                        (self.pos - p) as nat,
                        list_items(ts, self.pos as nat),
                    );
                }
            } else {
                assert(list_items(ts, p) == Ok::<(Seq<AstView>, nat), Seq<char>>((seq![e], (self.pos - p) as nat)));
                assert(nodes_view(before) + seq![e] =~= nodes_view(elements@));
                break;
            }
        }
        Ok(elements)
    }

    /// Parses a dictionary literal after its `{`.
    fn parse_dict_literal(&mut self) -> (r: Result<ASTNode, String>)
        requires
            old(self).wf(),
        ensures
            final(self).wf(),
            final(self).tokens == old(self).tokens,
            node_outcome(
                r,
                dict_literal(old(self).tokens_view(), old(self).pos as nat),
                old(self).pos as nat,
                final(self).pos as nat,
            ),
        decreases old(self).remaining(), 17int,
    {
        self.skip_newlines();
        let pairs = if self.current_is_not(TokenType::RBrace) {
            match self.parse_dict_items() {
                Ok(ps) => ps,
                Err(e) => {
                    return Err(e);
                },
            }
        } else {
            let none: Vec<(String, Box<ASTNode>)> = Vec::new();
            assert(pairs_view(none@) =~= Seq::<(Seq<char>, AstView)>::empty());
            none
        };
        match self.expect(TokenType::RBrace) {
            Ok(_) => Ok(ASTNode::DictionaryLiteral(pairs)),
            Err(e) => Err(e),
        }
    }

    /// Parses the entries of a dictionary literal: `"key": expression`, separated by
    /// commas, newlines allowed around them.
    #[verifier::rlimit(100)]
    fn parse_dict_items(&mut self) -> (r: Result<Vec<(String, Box<ASTNode>)>, String>)
        requires
            old(self).wf(),
        ensures
            final(self).wf(),
            final(self).tokens == old(self).tokens,
            match r {
                Ok(ps) => old(self).pos <= final(self).pos && dict_items(
                    old(self).tokens_view(),
                    old(self).pos as nat,
                ) == Ok::<(Seq<(Seq<char>, AstView)>, nat), Seq<char>>(
                    (pairs_view(ps@), (final(self).pos - old(self).pos) as nat),
                ),
                Err(m) => dict_items(old(self).tokens_view(), old(self).pos as nat) == Err::<
                    (Seq<(Seq<char>, AstView)>, nat),
                    Seq<char>,
                >(m@),
            },
        decreases old(self).remaining(), 16int,
    {
        let ghost ts = self.tokens_view();
        let ghost start = self.pos as nat;
        let mut pairs: Vec<(String, Box<ASTNode>)> = Vec::new();
        proof {
            lemma_seq_after_empty(dict_items(ts, start));
        }
        loop
            invariant_except_break
                dict_items(ts, start) == seq_after(
                    pairs_view(pairs@),
                    (self.pos - start) as nat,
                    dict_items(ts, self.pos as nat),
                ),
            invariant
                self.wf(),
                self.tokens == old(self).tokens,
                ts == self.tokens_view(),
                start == old(self).pos,
                start <= self.pos,
            ensures
                dict_items(ts, start) == Ok::<_, Seq<char>>((pairs_view(pairs@), (self.pos - start) as nat)),
            decreases self.tokens.len() - self.pos,
        {
            let ghost p = self.pos as nat;
            let ghost before = pairs@;
            let key = match self.expect(TokenType::String) {
                Ok(k) => k,
                Err(e) => {
                    return Err(e);
                },
            };
            match self.expect(TokenType::Colon) {
                Ok(_) => {},
                Err(e) => {
                    return Err(e);
                },
            }
            self.skip_newlines();
            let ghost q = self.pos as nat;
            let value = match self.parse_expression() {
                Ok(v) => v,
                Err(e) => {
                    return Err(e);
                },
            };
            let ghost entry = (key@, value@);
            assert(expression(ts, q) == Ok::<(AstView, nat), Seq<char>>((value@, (self.pos - q) as nat)));
            let pair = (key, Box::new(value));
            pairs.push(pair);
            proof {
                lemma_pairs_view_push(before, pair);
            }
            assert(pairs_view(before) + seq![entry] =~= pairs_view(pairs@));
            self.skip_newlines();
            if self.current_is(TokenType::Comma) {
                self.advance();
                self.skip_newlines();
                assert(dict_items(ts, p) == seq_after(
                    seq![entry],
                    (self.pos - p) as nat,
                    dict_items(ts, self.pos as nat),
                ));
                proof {
                    lemma_seq_after(
                        pairs_view(before),
                        (p - start) as nat,
                        seq![entry],
                        (self.pos - p) as nat,
                        dict_items(ts, self.pos as nat),
                    );
                }
            } else {
                assert(dict_items(ts, p) == Ok::<(Seq<(Seq<char>, AstView)>, nat), Seq<char>>(
                    (seq![entry], (self.pos - p) as nat),
                ));
                assert(pairs_view(before) + seq![entry] =~= pairs_view(pairs@));
                break;
            }
        }
        Ok(pairs)
    }
}


impl Parser {
    /// Parses one statement, chosen by its first token; a keyword that starts no
    /// statement starts an expression statement.
    #[verifier::rlimit(100)]
    fn parse_statement(&mut self) -> (r: Result<ASTNode, String>)
        requires
            old(self).wf(),
        ensures
            final(self).wf(),
            final(self).tokens == old(self).tokens,
            node_outcome(
                r,
                statement(old(self).tokens_view(), old(self).pos as nat),
                old(self).pos as nat,
                final(self).pos as nat,
            ),
            r is Ok ==> final(self).pos > old(self).pos,
        decreases old(self).remaining(), 30int,
    {
        if self.pos >= self.tokens.len() {
            assert(self.tokens_view().len() == self.tokens.len());
            return Err(String::from_str("Unexpected end of input"));
        }
        let t = self.tokens[self.pos].token_type;
        if t == TokenType::Keyword {
            if self.current_is_keyword("maanau") {
                self.parse_var_declaration()
            } else if self.current_is_keyword("yedi") {
                self.parse_if_statement()
            } else if self.current_is_keyword("jaba") {
                self.parse_while_loop()
            } else if self.current_is_keyword("pratyek") {
                self.parse_for_each_loop()
            } else if self.current_is_keyword("kaam") {
                self.parse_function_declaration()
            } else if self.current_is_keyword("pathau") {
                self.parse_return_statement()
            } else if self.current_is_keyword("bhan") {
                self.parse_print_statement()
            } else if self.current_is_keyword("rok") {
                self.parse_break_statement()
            } else if self.current_is_keyword("jane") {
                self.parse_continue_statement()
            } else if self.current_is_keyword("aayaat") {
                self.parse_import_statement()
            } else {
                self.parse_expression()
            }
        } else if t == TokenType::Identifier {
            if self.next_is_operator("=") {
                self.parse_assignment()
            } else if self.next_is(TokenType::LBracket) {
                self.parse_index_assignment_or_expression()
            } else {
                self.parse_expression()
            }
        } else {
            self.parse_expression()
        }
    }

    /// Parses `maanau name [: type] = expression`.
    fn parse_var_declaration(&mut self) -> (r: Result<ASTNode, String>)
        requires
            old(self).wf(),
        ensures
            final(self).wf(),
            final(self).tokens == old(self).tokens,
            node_outcome(
                r,
                var_declaration(old(self).tokens_view(), old(self).pos as nat),
                old(self).pos as nat,
                final(self).pos as nat,
            ),
            r is Ok ==> final(self).pos > old(self).pos,
        decreases old(self).remaining(), 25int,
    {
        match self.expect_keyword("maanau") {
            Ok(_) => {},
            Err(e) => {
                return Err(e);
            },
        }
        let name = match self.expect(TokenType::Identifier) {
            Ok(n) => n,
            Err(e) => {
                return Err(e);
            },
        };
        let mut type_hint: Option<String> = None;
        if self.current_is(TokenType::Colon) {
            self.advance();
            match self.expect(TokenType::Identifier) {
                Ok(t) => {
                    type_hint = Some(t);
                },
                Err(e) => {
                    return Err(e);
                },
            }
        }
        match self.expect_operator("=") {
            Ok(_) => {},
            Err(e) => {
                return Err(e);
            },
        }
        match self.parse_expression() {
            Ok(value) => Ok(ASTNode::VarDeclaration { name, type_hint, value: Box::new(value) }),
            Err(e) => Err(e),
        }
    }

    /// Parses `name = expression`.
    fn parse_assignment(&mut self) -> (r: Result<ASTNode, String>)
        requires
            old(self).wf(),
        ensures
            final(self).wf(),
            final(self).tokens == old(self).tokens,
            node_outcome(
                r,
                assignment(old(self).tokens_view(), old(self).pos as nat),
                old(self).pos as nat,
                final(self).pos as nat,
            ),
            r is Ok ==> final(self).pos > old(self).pos,
        decreases old(self).remaining(), 25int,
    {
        let name = match self.expect(TokenType::Identifier) {
            Ok(n) => n,
            Err(e) => {
                return Err(e);
            },
        };
        match self.expect_operator("=") {
            Ok(_) => {},
            Err(e) => {
                return Err(e);
            },
        }
        match self.parse_expression() {
            Ok(value) => Ok(ASTNode::Assignment { name, value: Box::new(value) }),
            Err(e) => Err(e),
        }
    }

    /// Parses an expression; where `=` follows an index access, an indexed assignment.
    fn parse_index_assignment_or_expression(&mut self) -> (r: Result<ASTNode, String>)
        requires
            old(self).wf(),
        ensures
            final(self).wf(),
            final(self).tokens == old(self).tokens,
            node_outcome(
                r,
                index_assignment_or_expression(old(self).tokens_view(), old(self).pos as nat),
                old(self).pos as nat,
                final(self).pos as nat,
            ),
            r is Ok ==> final(self).pos > old(self).pos,
        decreases old(self).remaining(), 25int,
    {
        let expr = match self.parse_expression() {
            Ok(e) => e,
            Err(e) => {
                return Err(e);
            },
        };
        if self.current_is_operator("=") {
            match expr {
                ASTNode::IndexAccess { object, index } => {
                    self.advance();
                    match self.parse_expression() {
                        Ok(value) => Ok(ASTNode::IndexAssignment { object, index, value: Box::new(value) }),
                        Err(e) => Err(e),
                    }
                },
                _ => Err(String::from_str("Invalid left-hand side in assignment")),
            }
        } else {
            Ok(expr)
        }
    }

    /// Parses `yedi condition bhane { ... } [natra { ... }]`.
    #[verifier::rlimit(100)]
    fn parse_if_statement(&mut self) -> (r: Result<ASTNode, String>)
        requires
            old(self).wf(),
        ensures
            final(self).wf(),
            final(self).tokens == old(self).tokens,
            node_outcome(
                r,
                if_statement(old(self).tokens_view(), old(self).pos as nat),
                old(self).pos as nat,
                final(self).pos as nat,
            ),
            r is Ok ==> final(self).pos > old(self).pos,
        decreases old(self).remaining(), 25int,
    {
        match self.expect_keyword("yedi") {
            Ok(_) => {},
            Err(e) => {
                return Err(e);
            },
        }
        let condition = match self.parse_expression() {
            Ok(c) => c,
            Err(e) => {
                return Err(e);
            },
        };
        match self.expect_keyword("bhane") {
            Ok(_) => {},
            Err(e) => {
                return Err(e);
            },
        }
        let then_block = match self.parse_block() {
            Ok(b) => b,
            Err(e) => {
                return Err(e);
            },
        };
        let else_block = if self.current_is_keyword("natra") {
            self.advance();
            match self.parse_block() {
                Ok(b) => Some(b),
                Err(e) => {
                    return Err(e);
                },
            }
        } else {
            None
        };
        Ok(ASTNode::IfStatement { condition: Box::new(condition), then_block, else_block })
    }

    /// Parses `jaba samma condition { ... }`.
    #[verifier::rlimit(100)]
    fn parse_while_loop(&mut self) -> (r: Result<ASTNode, String>)
        requires
            old(self).wf(),
        ensures
            final(self).wf(),
            final(self).tokens == old(self).tokens,
            node_outcome(
                r,
                while_loop(old(self).tokens_view(), old(self).pos as nat),
                old(self).pos as nat,
                final(self).pos as nat,
            ),
            r is Ok ==> final(self).pos > old(self).pos,
        decreases old(self).remaining(), 25int,
    {
        match self.expect_keyword("jaba") {
            Ok(_) => {},
            Err(e) => {
                return Err(e);
            },
        }
        match self.expect_keyword("samma") {
            Ok(_) => {},
            Err(e) => {
                return Err(e);
            },
        }
        let condition = match self.parse_expression() {
            Ok(c) => c,
            Err(e) => {
                return Err(e);
            },
        };
        match self.parse_block() {
            Ok(body) => Ok(ASTNode::WhileLoop { condition: Box::new(condition), body }),
            Err(e) => Err(e),
        }
    }

    /// Parses `pratyek name ma iterable { ... }`.
    #[verifier::rlimit(100)]
    #[verifier::rlimit(100)]
    fn parse_for_each_loop(&mut self) -> (r: Result<ASTNode, String>)
        requires
            old(self).wf(),
        ensures
            final(self).wf(),
            final(self).tokens == old(self).tokens,
            node_outcome(
                r,
                for_each_loop(old(self).tokens_view(), old(self).pos as nat),
                old(self).pos as nat,
                final(self).pos as nat,
            ),
            r is Ok ==> final(self).pos > old(self).pos,
        decreases old(self).remaining(), 25int,
    {
        match self.expect_keyword("pratyek") {
            Ok(_) => {},
            Err(e) => {
                return Err(e);
            },
        }
        let variable = match self.expect(TokenType::Identifier) {
            Ok(v) => v,
            Err(e) => {
                return Err(e);
            },
        };
        match self.expect_keyword("ma") {
            Ok(_) => {},
            Err(e) => {
                return Err(e);
            },
        }
        let iterable = match self.parse_expression() {
            Ok(i) => i,
            Err(e) => {
                return Err(e);
            },
        };
        match self.parse_block() {
            Ok(body) => Ok(ASTNode::ForEachLoop { variable, iterable: Box::new(iterable), body }),
            Err(e) => Err(e),
        }
    }

    /// Parses `kaam name(parameters) { ... }`.
    #[verifier::rlimit(100)]
    fn parse_function_declaration(&mut self) -> (r: Result<ASTNode, String>)
        requires
            old(self).wf(),
        ensures
            final(self).wf(),
            final(self).tokens == old(self).tokens,
            node_outcome(
                r,
                function_declaration(old(self).tokens_view(), old(self).pos as nat),
                old(self).pos as nat,
                final(self).pos as nat,
            ),
            r is Ok ==> final(self).pos > old(self).pos,
        decreases old(self).remaining(), 25int,
    {
        let ghost ts = self.tokens_view();
        let ghost p = self.pos as nat;
        let (name, parameters) = match self.parse_function_signature() {
            Ok(sig) => sig,
            Err(e) => {
                return Err(e);
            },
        };
        let ghost q = self.pos as nat;
        match self.parse_block() {
            Ok(body) => {
                assert(block(ts, q) == Ok::<(Seq<AstView>, nat), Seq<char>>(
                    (nodes_view(body@), (self.pos - q) as nat),
                ));
                Ok(ASTNode::FunctionDeclaration { name, parameters, body })
            },
            Err(e) => Err(e),
        }
    }

    /// Parses `kaam name(parameters)`, the head of a function declaration.
    fn parse_function_signature(&mut self) -> (r: Result<(String, Vec<String>), String>)
        requires
            old(self).wf(),
        ensures
            final(self).wf(),
            final(self).tokens == old(self).tokens,
            match r {
                Ok((name, ps)) => old(self).pos < final(self).pos && function_signature(
                    old(self).tokens_view(),
                    old(self).pos as nat,
                ) == Ok::<(Seq<char>, Seq<Seq<char>>, nat), Seq<char>>(
                    (name@, names_view(ps@), (final(self).pos - old(self).pos) as nat),
                ),
                Err(m) => function_signature(old(self).tokens_view(), old(self).pos as nat)
                    == Err::<(Seq<char>, Seq<Seq<char>>, nat), Seq<char>>(m@),
            },
    {
        match self.expect_keyword("kaam") {
            Ok(_) => {},
            Err(e) => {
                return Err(e);
            },
        }
        let name = match self.expect(TokenType::Identifier) {
            Ok(n) => n,
            Err(e) => {
                return Err(e);
            },
        };
        match self.expect(TokenType::LParen) {
            Ok(_) => {},
            Err(e) => {
                return Err(e);
            },
        }
        let parameters = match self.parse_parameters() {
            Ok(ps) => ps,
            Err(e) => {
                return Err(e);
            },
        };
        match self.expect(TokenType::RParen) {
            Ok(_) => Ok((name, parameters)),
            Err(e) => Err(e),
        }
    }

    /// Parses `pathau expression`.
    fn parse_return_statement(&mut self) -> (r: Result<ASTNode, String>)
        requires
            old(self).wf(),
        ensures
            final(self).wf(),
            final(self).tokens == old(self).tokens,
            node_outcome(
                r,
                return_statement(old(self).tokens_view(), old(self).pos as nat),
                old(self).pos as nat,
                final(self).pos as nat,
            ),
            r is Ok ==> final(self).pos > old(self).pos,
        decreases old(self).remaining(), 25int,
    {
        match self.expect_keyword("pathau") {
            Ok(_) => {},
            Err(e) => {
                return Err(e);
            },
        }
        match self.parse_expression() {
            Ok(e) => Ok(ASTNode::Return(Box::new(e))),
            Err(e) => Err(e),
        }
    }

    /// Parses `bhan expression`.
    fn parse_print_statement(&mut self) -> (r: Result<ASTNode, String>)
        requires
            old(self).wf(),
        ensures
            final(self).wf(),
            final(self).tokens == old(self).tokens,
            node_outcome(
                r,
                print_statement(old(self).tokens_view(), old(self).pos as nat),
                old(self).pos as nat,
                final(self).pos as nat,
            ),
            r is Ok ==> final(self).pos > old(self).pos,
        decreases old(self).remaining(), 25int,
    {
        match self.expect_keyword("bhan") {
            Ok(_) => {},
            Err(e) => {
                return Err(e);
            },
        }
        match self.parse_expression() {
            Ok(e) => Ok(ASTNode::Print(Box::new(e))),
            Err(e) => Err(e),
        }
    }

    /// Parses `rok`.
    fn parse_break_statement(&mut self) -> (r: Result<ASTNode, String>)
        requires
            old(self).wf(),
        ensures
            final(self).wf(),
            final(self).tokens == old(self).tokens,
            node_outcome(
                r,
                if has_keyword(old(self).tokens_view(), old(self).pos as nat, "rok"@) { Ok((AstView::Break, 1)) } else { Err(keyword_message(old(self).tokens_view(), old(self).pos as nat, "rok"@)) },
                old(self).pos as nat,
                final(self).pos as nat,
            ),
            r is Ok ==> final(self).pos > old(self).pos,
        decreases old(self).remaining(), 25int,
    {
        match self.expect_keyword("rok") {
            Ok(_) => Ok(ASTNode::Break),
            Err(e) => Err(e),
        }
    }

    /// Parses `jane`.
    fn parse_continue_statement(&mut self) -> (r: Result<ASTNode, String>)
        requires
            old(self).wf(),
        ensures
            final(self).wf(),
            final(self).tokens == old(self).tokens,
            node_outcome(
                r,
                if has_keyword(old(self).tokens_view(), old(self).pos as nat, "jane"@) { Ok((AstView::Continue, 1)) } else { Err(keyword_message(old(self).tokens_view(), old(self).pos as nat, "jane"@)) },
                old(self).pos as nat,
                final(self).pos as nat,
            ),
            r is Ok ==> final(self).pos > old(self).pos,
        decreases old(self).remaining(), 25int,
    {
        match self.expect_keyword("jane") {
            Ok(_) => Ok(ASTNode::Continue),
            Err(e) => Err(e),
        }
    }

    /// Parses `aayaat "file"`.
    fn parse_import_statement(&mut self) -> (r: Result<ASTNode, String>)
        requires
            old(self).wf(),
        ensures
            final(self).wf(),
            final(self).tokens == old(self).tokens,
            node_outcome(
                r,
                import_statement(old(self).tokens_view(), old(self).pos as nat),
                old(self).pos as nat,
                final(self).pos as nat,
            ),
            r is Ok ==> final(self).pos > old(self).pos,
        decreases old(self).remaining(), 25int,
    {
        match self.expect_keyword("aayaat") {
            Ok(_) => {},
            Err(e) => {
                return Err(e);
            },
        }
        match self.expect(TokenType::String) {
            Ok(filename) => Ok(ASTNode::Import { filename }),
            Err(e) => Err(e),
        }
    }

    /// Parses a block: `{`, statements separated by newlines, `}`.
    #[verifier::rlimit(100)]
    fn parse_block(&mut self) -> (r: Result<Vec<Box<ASTNode>>, String>)
        requires
            old(self).wf(),
        ensures
            final(self).wf(),
            final(self).tokens == old(self).tokens,
            nodes_outcome(
                r,
                block(old(self).tokens_view(), old(self).pos as nat),
                old(self).pos as nat,
                final(self).pos as nat,
            ),
        decreases old(self).remaining(), 26int,
    {
        match self.expect(TokenType::LBrace) {
            Ok(_) => {},
            Err(e) => {
                return Err(e);
            },
        }
        let statements = match self.parse_block_items() {
            Ok(ss) => ss,
            Err(e) => {
                return Err(e);
            },
        };
        match self.expect(TokenType::RBrace) {
            Ok(_) => Ok(statements),
            Err(e) => Err(e),
        }
    }

    /// Parses statements and blank lines up to a `}` or the end of the tokens.
    #[verifier::rlimit(100)]
    fn parse_block_items(&mut self) -> (r: Result<Vec<Box<ASTNode>>, String>)
        requires
            old(self).wf(),
        ensures
            final(self).wf(),
            final(self).tokens == old(self).tokens,
            nodes_outcome(
                r,
                block_items(old(self).tokens_view(), old(self).pos as nat),
                old(self).pos as nat,
                final(self).pos as nat,
            ),
        decreases old(self).remaining(), 31int,
    {
        let ghost ts = self.tokens_view();
        let ghost start = self.pos as nat;
        let mut statements: Vec<Box<ASTNode>> = Vec::new();
        proof {
            lemma_seq_after_empty(block_items(ts, start));
        }
        while self.current_is_not(TokenType::RBrace)
            invariant
                self.wf(),
                self.tokens == old(self).tokens,
                ts == self.tokens_view(),
                start == old(self).pos,
                start <= self.pos,
                block_items(ts, start) == seq_after(
                    nodes_view(statements@),
                    (self.pos - start) as nat,
                    block_items(ts, self.pos as nat),
                ),
            decreases self.tokens.len() - self.pos,
        {
            let ghost p = self.pos as nat;
            let ghost before = statements@;
            if self.current_is(TokenType::Newline) {
                self.advance();
                proof {
                    lemma_seq_after(
                        nodes_view(before),
                        (p - start) as nat,
                        Seq::empty(),
                        1,
                        block_items(ts, self.pos as nat),
                    );
                    assert(nodes_view(before) + Seq::empty() =~= nodes_view(before));
                }
            } else {
                let st = match self.parse_statement() {
                    Ok(st) => st,
                    Err(e) => {
                        return Err(e);
                    },
                };
                let ghost v = st@;
                let b = Box::new(st);
                statements.push(b);
                assert(block_items(ts, p) == seq_after(
                    seq![v],
                    (self.pos - p) as nat,
                    block_items(ts, self.pos as nat),
                ));
                proof {
                    lemma_nodes_view_push(before, b);
                    assert(nodes_view(before) + seq![v] =~= nodes_view(statements@));
                    lemma_seq_after(
                        nodes_view(before),
                        (p - start) as nat,
                        seq![v],
                        (self.pos - p) as nat,
                        block_items(ts, self.pos as nat),
                    );
                }
            }
        }
        proof {
            assert(self.tokens_view().len() == self.tokens.len());
            assert(nodes_view(statements@) + Seq::empty() =~= nodes_view(statements@));
        }
        Ok(statements)
    }

    /// Parses the parameter names of a function, up to the closing parenthesis.
    #[verifier::rlimit(100)]
    fn parse_parameters(&mut self) -> (r: Result<Vec<String>, String>)
        requires
            old(self).wf(),
        ensures
            final(self).wf(),
            final(self).tokens == old(self).tokens,
            match r {
                Ok(ns) => old(self).pos <= final(self).pos && parameters(
                    old(self).tokens_view(),
                    old(self).pos as nat,
                ) == Ok::<(Seq<Seq<char>>, nat), Seq<char>>(
                    (names_view(ns@), (final(self).pos - old(self).pos) as nat),
                ),
                Err(m) => parameters(old(self).tokens_view(), old(self).pos as nat) == Err::<
                    (Seq<Seq<char>>, nat),
                    Seq<char>,
                >(m@),
            },
    {
        let ghost ts = self.tokens_view();
        let ghost start = self.pos as nat;
        let mut names: Vec<String> = Vec::new();
        assert(names_view(names@) =~= Seq::<Seq<char>>::empty());
        if self.current_is_not(TokenType::RParen) {
            proof {
                lemma_seq_after_empty(parameter_list(ts, start));
            }
            loop
                invariant_except_break
                    parameter_list(ts, start) == seq_after(
                        names_view(names@),
                        (self.pos - start) as nat,
                        parameter_list(ts, self.pos as nat),
                    ),
                invariant
                    self.wf(),
                    self.tokens == old(self).tokens,
                    ts == self.tokens_view(),
                    start == old(self).pos,
                    start <= self.pos,
                    has_other_than(ts, start, TokenType::RParen),
                ensures
                    parameter_list(ts, start) == Ok::<_, Seq<char>>((names_view(names@), (self.pos - start) as nat),
                    ),
                decreases self.tokens.len() - self.pos,
            {
                let ghost p = self.pos as nat;
                let ghost before = names@;
                let name = match self.expect(TokenType::Identifier) {
                    Ok(n) => n,
                    Err(e) => {
                        return Err(e);
                    },
                };
                let ghost v = name@;
                assert(ts[p as int].value == v);
                names.push(name);
                proof {
                    lemma_names_view_push(before, name);
                }
                assert(names_view(before) + seq![v] =~= names_view(names@));
                if self.current_is(TokenType::Comma) {
                    self.advance();
                    assert(parameter_list(ts, p) == seq_after(
                        seq![v],
                        2,
                        parameter_list(ts, self.pos as nat),
                    ));
                    proof {
                        lemma_seq_after(
                            names_view(before),
                            (p - start) as nat,
                            seq![v],
                            2,
                            parameter_list(ts, self.pos as nat),
                        );
                    }
                } else {
                    assert(parameter_list(ts, p) == Ok::<(Seq<Seq<char>>, nat), Seq<char>>((seq![v], 1)));
                    assert(names_view(before) + seq![v] =~= names_view(names@));
                    break;
                }
            }
        }
        Ok(names)
    }

    /// Parses the whole rest of the tokens as a program: statements separated by
    /// newlines, up to an end-of-input token.
    #[verifier::rlimit(100)]
    pub fn parse(&mut self) -> (r: Result<ASTNode, String>)
        requires
            old(self).wf(),
        ensures
            final(self).wf(),
            match r {
                Ok(n) => program(old(self).tokens_view(), old(self).position()) == Ok::<
                    AstView,
                    Seq<char>,
                >(n@),
                Err(m) => program(old(self).tokens_view(), old(self).position()) == Err::<
                    AstView,
                    Seq<char>,
                >(m@),
            },
    {
        let ghost ts = self.tokens_view();
        let ghost start = self.pos as nat;
        let mut statements: Vec<Box<ASTNode>> = Vec::new();
        assert(nodes_view(statements@) =~= Seq::<AstView>::empty());
        proof {
            if let Ok(ss) = program_items(ts, start) {
                assert(Seq::<AstView>::empty() + ss =~= ss);
            }
        }
        while self.current_is_not(TokenType::EOF)
            invariant
                self.wf(),
                self.tokens == old(self).tokens,
                ts == self.tokens_view(),
                start == old(self).pos,
                program_items(ts, start) == items_after(
                    nodes_view(statements@),
                    program_items(ts, self.pos as nat),
                ),
            decreases self.tokens.len() - self.pos,
        {
            let ghost p = self.pos as nat;
            let ghost before = statements@;
            if self.current_is(TokenType::Newline) {
                self.advance();
                assert(program_items(ts, p) == program_items(ts, self.pos as nat));
            } else {
                let st = match self.parse_statement() {
                    Ok(st) => st,
                    Err(e) => {
                        assert(program_items(ts, p) == Err::<Seq<AstView>, Seq<char>>(e@));
                        return Err(e);
                    },
                };
                let ghost v = st@;
                assert(program_items(ts, p) == items_after(
                    seq![v],
                    program_items(ts, self.pos as nat),
                ));
                let b = Box::new(st);
                statements.push(b);
                proof {
                    lemma_nodes_view_push(before, b);
                    if let Ok(ss) = program_items(ts, self.pos as nat) {
                        assert(nodes_view(before) + (seq![v] + ss) =~= nodes_view(statements@)
                            + ss);
                    }
                }
            }
        }
        proof {
            assert(self.tokens_view().len() == self.tokens.len());
            assert(nodes_view(statements@) + Seq::empty() =~= nodes_view(statements@));
        }
        Ok(ASTNode::Program(statements))
    }
}

/// `r` with the statements `acc` put in front.
pub open spec fn items_after(acc: Seq<AstView>, r: Result<Seq<AstView>, Seq<char>>) -> Result<
    Seq<AstView>,
    Seq<char>,
> {
    match r {
        Ok(ss) => Ok(acc + ss),
        Err(m) => Err(m),
    }
}


/// Lexes and parses a whole source text: the program it spells, or the message of the
/// first lexical or syntax error.
pub fn parse_source(source: String) -> (r: Result<ASTNode, String>)
    requires
        source@.len() < usize::MAX,
    ensures
        match tokens_of(source@) {
            Err(m) => r is Err && r->Err_0@ == m,
            Ok(ts) => match program(ts, 0) {
                Ok(p) => r is Ok && r->Ok_0@ == p,
                Err(m) => r is Err && r->Err_0@ == m,
            },
        },
{
    let mut lexer = Lexer::new(source);
    let tokens = match lexer.tokenize() {
        Ok(ts) => ts,
        Err(e) => {
            return Err(e);
        },
    };
    let mut parser = Parser::new(tokens);
    parser.parse()
}

} // verus!
