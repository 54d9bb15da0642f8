//! Recursive-descent parser for the grammar
//!
//! ```text
//! P -> F
//! F -> int id ( ) { S }
//! S -> return E ;
//! E -> int_literal
//! ```
//!
//! One procedure per production, each consuming the tokens of its
//! production and advancing a shared cursor; the first failure anywhere
//! short-circuits and is propagated unchanged.

use vstd::prelude::*;

verus! {

use crate::lexer::{Token, TokenModel, TokenType};

/// The syntax category of a tree node.
#[derive(Debug, PartialEq, Eq, Structural, Clone, Copy)]
pub enum NodeType {
    Program,
    Function,
    Statement,
    Expression,
}

/// One node of the syntax tree: its category, its children in grammar
/// order, and a reconstructed source-like string.
#[derive(Debug, PartialEq)]
pub struct Node {
    pub node_type: NodeType,
    pub children: Vec<Node>,
    pub value: String,
}

/// A syntax tree, rooted at the node the parse produced.
#[derive(Debug, PartialEq)]
pub struct AST {
    root: Node,
}

impl AST {
    /// The root node of the tree.
    pub closed spec fn spec_root(&self) -> Node {
        self.root
    }

    /// A tree with the given root.
    pub fn new(root: Node) -> (t: AST)
        ensures
            t.spec_root() == root,
    {
        AST { root }
    }
}

/// The value string of a statement node whose expression literal is
/// `lit`.
pub open spec fn statement_value(lit: Seq<char>) -> Seq<char> {
    "return "@ + lit + ";"@
}

/// The value string of a function (and program) node whose statement
/// returns the literal `lit`; the identifier is always rendered as the
/// placeholder `id`.
pub open spec fn function_value(lit: Seq<char>) -> Seq<char> {
    "int id() { "@ + statement_value(lit) + " }"@
}

/// An expression leaf holding the literal `lit`.
pub open spec fn wf_expression_node(n: Node, lit: Seq<char>) -> bool {
    &&& n.node_type == NodeType::Expression
    &&& n.children@.len() == 0
    &&& n.value@ == lit
}

/// A statement node with exactly one child, the expression leaf.
pub open spec fn wf_statement_node(n: Node, lit: Seq<char>) -> bool {
    &&& n.node_type == NodeType::Statement
    &&& n.children@.len() == 1
    &&& n.value@ == statement_value(lit)
    &&& wf_expression_node(n.children@[0], lit)
}

/// A function node with exactly one child, the statement.
pub open spec fn wf_function_node(n: Node, lit: Seq<char>) -> bool {
    &&& n.node_type == NodeType::Function
    &&& n.children@.len() == 1
    &&& n.value@ == function_value(lit)
    &&& wf_statement_node(n.children@[0], lit)
}

/// A program node with exactly one child, the function; it carries the
/// function's value.
pub open spec fn wf_program_node(n: Node, lit: Seq<char>) -> bool {
    &&& n.node_type == NodeType::Program
    &&& n.children@.len() == 1
    &&& n.value@ == function_value(lit)
    &&& wf_function_node(n.children@[0], lit)
}

/// The error reported when the parser is handed no tokens at all.
pub open spec fn msg_no_tokens() -> Seq<char> {
    "No tokens to parse"@
}

/// The error reported when the first token is not the `int` keyword.
pub open spec fn msg_expected_int() -> Seq<char> {
    "Expected int"@
}

/// The error reported when an expression finds no numeric literal.
pub open spec fn msg_expected_int_literal() -> Seq<char> {
    "Expected int literal"@
}

/// The error reported when a statement misses `return` or `;`.
pub open spec fn msg_expected_statement() -> Seq<char> {
    "Expected proper statement;"@
}

/// The error reported when a function misses one of its fixed tokens.
pub open spec fn msg_expected_function() -> Seq<char> {
    "Expected proper function;"@
}

/// The token under the cursor exists and has the given kind.
pub open spec fn at_kind(toks: Seq<TokenModel>, pos: int, kind: TokenType) -> bool {
    0 <= pos < toks.len() && toks[pos].kind == kind
}

/// The cursor after an unconditional advance: one step forward, unless
/// the tokens are exhausted.
pub open spec fn advanced(toks: Seq<TokenModel>, pos: int) -> int {
    if 0 <= pos < toks.len() {
        pos + 1
    } else {
        pos
    }
}

/// The cursor after an expectation: advanced only when the expected
/// kind is under it.
pub open spec fn skip_expected(toks: Seq<TokenModel>, pos: int, kind: TokenType) -> int {
    if at_kind(toks, pos, kind) {
        pos + 1
    } else {
        pos
    }
}

/// The expression production: one numeric literal, whose text it
/// yields, or an immediate failure.
pub open spec fn spec_parse_expression(toks: Seq<TokenModel>, pos: int) -> Result<
    (Seq<char>, int),
    Seq<char>,
> {
    if at_kind(toks, pos, TokenType::NIDENT) {
        Ok((toks[pos].text, pos + 1))
    } else {
        Err(msg_expected_int_literal())
    }
}

/// The statement production: `return`, an expression, `;`. The two
/// keyword positions are consumed whatever is found there; a failed
/// expectation is reported only after the whole production was checked,
/// while an expression failure propagates unchanged.
pub open spec fn spec_parse_statement(toks: Seq<TokenModel>, pos: int) -> Result<
    (Seq<char>, int),
    Seq<char>,
> {
    let has_return = at_kind(toks, pos, TokenType::RETURN);
    let p1 = advanced(toks, pos);
    match spec_parse_expression(toks, p1) {
        Err(e) => Err(e),
        Ok((lit, p2)) => {
            let has_semicolon = at_kind(toks, p2, TokenType::SEMICOLON);
            let p3 = advanced(toks, p2);
            if has_return && has_semicolon {
                Ok((lit, p3))
            } else {
                Err(msg_expected_statement())
            }
        },
    }
}

/// The function production: `int`, an identifier, `(`, `)`, `{`, a
/// statement, `}`. A failed expectation leaves the cursor in place and
/// is reported only after the whole production was checked; a statement
/// failure propagates unchanged.
pub open spec fn spec_parse_function(toks: Seq<TokenModel>, pos: int) -> Result<
    (Seq<char>, int),
    Seq<char>,
> {
    let ok_int = at_kind(toks, pos, TokenType::INT);
    let p1 = skip_expected(toks, pos, TokenType::INT);
    let ok_ident = at_kind(toks, p1, TokenType::IDENT);
    let p2 = skip_expected(toks, p1, TokenType::IDENT);
    let ok_lparen = at_kind(toks, p2, TokenType::LPAREN);
    let p3 = skip_expected(toks, p2, TokenType::LPAREN);
    let ok_rparen = at_kind(toks, p3, TokenType::RPAREN);
    let p4 = skip_expected(toks, p3, TokenType::RPAREN);
    let ok_lbrace = at_kind(toks, p4, TokenType::LBRACE);
    let p5 = skip_expected(toks, p4, TokenType::LBRACE);
    match spec_parse_statement(toks, p5) {
        Err(e) => Err(e),
        Ok((lit, p6)) => {
            let ok_rbrace = at_kind(toks, p6, TokenType::RBRACE);
            let p7 = skip_expected(toks, p6, TokenType::RBRACE);
            if ok_int && ok_ident && ok_lparen && ok_rparen && ok_lbrace && ok_rbrace {
                Ok((lit, p7))
            } else {
                Err(msg_expected_function())
            }
        },
    }
}

/// The whole parse, from the cursor position: the expression literal of
/// the accepted program, or the first error. Tokens after the accepted
/// program are ignored.
pub open spec fn spec_parse_at(toks: Seq<TokenModel>, pos: int) -> Result<Seq<char>, Seq<char>> {
    if !(0 <= pos < toks.len()) {
        Err(msg_no_tokens())
    } else if toks[pos].kind != TokenType::INT {
        Err(msg_expected_int())
    } else {
        match spec_parse_function(toks, pos) {
            Ok((lit, p)) => Ok(lit),
            Err(e) => Err(e),
        }
    }
}

/// The whole parse of a token sequence.
pub open spec fn spec_parse(toks: Seq<TokenModel>) -> Result<Seq<char>, Seq<char>> {
    spec_parse_at(toks, 0)
}

/// The parser: the token sequence and a read cursor over it.
pub struct Parser {
    tokens: Vec<Token>,
    pos: usize,
}

impl Parser {
    /// The cursor never runs past the end of the tokens.
    pub closed spec fn wf(&self) -> bool {
        self.pos <= self.tokens@.len()
    }

    /// The token sequence, as token models.
    pub closed spec fn spec_tokens(&self) -> Seq<TokenModel> {
        self.tokens@.map_values(|t: Token| t@)
    }

    /// The read cursor: the index of the current token; the sequence is
    /// exhausted when it equals the length.
    pub closed spec fn spec_pos(&self) -> int {
        self.pos as int
    }

    /// A parser whose cursor is at the first token.
    pub fn new(tokens: Vec<Token>) -> (p: Parser)
        ensures
            p.wf(),
            p.spec_tokens() == tokens@.map_values(|t: Token| t@),
            p.spec_pos() == 0,
    {
        Parser { tokens, pos: 0 }
    }

    /// Advances the cursor by one token, unless the sequence is
    /// exhausted.
    fn next_token(&mut self)
        requires
            old(self).wf(),
        ensures
            final(self).wf(),
            final(self).spec_tokens() == old(self).spec_tokens(),
            final(self).spec_pos() == advanced(old(self).spec_tokens(), old(self).spec_pos()),
    {
        if self.pos < self.tokens.len() {
            self.pos = self.pos + 1;
        }
    }

    /// Whether the token under the cursor exists and has the given
    /// kind.
    fn is_expected_type(&self, token_type: TokenType) -> (r: bool)
        requires
            self.wf(),
        ensures
            r == at_kind(self.spec_tokens(), self.spec_pos(), token_type),
    {
        if self.pos < self.tokens.len() {
            self.tokens[self.pos].token_type == token_type
        } else {
            false
        }
    }

    // P -> F
    /// Parses a whole program: fails on an empty sequence or when the
    /// first token is not `int`, else wraps the function as the single
    /// child of a `Program` node carrying the function's value. The
    /// result is exactly what `spec_parse_at` says, for every input.
    pub fn parse(&mut self) -> (r: Result<AST, String>)
        requires
            old(self).wf(),
        ensures
            final(self).wf(),
            final(self).spec_tokens() == old(self).spec_tokens(),
            match spec_parse_at(old(self).spec_tokens(), old(self).spec_pos()) {
                Ok(lit) => r is Ok && wf_program_node(r->Ok_0.spec_root(), lit),
                Err(m) => r is Err && r->Err_0@ == m,
            },
    {
        if self.pos >= self.tokens.len() {
            return Err("No tokens to parse".to_owned());
        }
        if !self.is_expected_type(TokenType::INT) {
            return Err("Expected int".to_owned());
        }
        let function = self.parse_function();
        match function {
            Err(e) => Err(e),
            Ok(function) => {
                let value = function.root.value.clone();
                Ok(
                    AST {
                        root: Node {
                            node_type: NodeType::Program,
                            children: vec![function.root],
                            value,
                        },
                    },
                )
            },
        }
    }

    // F -> int id ( ) { S }
    /// Parses one function: the fixed token sequence around exactly one
    /// statement. The identifier's text is not substituted into the
    /// node's value; it is always rendered as the placeholder `id`.
    fn parse_function(&mut self) -> (r: Result<AST, String>)
        requires
            old(self).wf(),
        ensures
            final(self).wf(),
            final(self).spec_tokens() == old(self).spec_tokens(),
            match spec_parse_function(old(self).spec_tokens(), old(self).spec_pos()) {
                Ok((lit, p)) => {
                    &&& r is Ok
                    &&& wf_function_node(r->Ok_0.spec_root(), lit)
                    &&& final(self).spec_pos() == p
                },
                Err(m) => r is Err && r->Err_0@ == m,
            },
    {
        let mut valid = true;
        if self.is_expected_type(TokenType::INT) {
            self.next_token();
        } else {
            valid = false;
        }
        if self.is_expected_type(TokenType::IDENT) {
            self.next_token();
        } else {
            valid = false;
        }
        if self.is_expected_type(TokenType::LPAREN) {
            self.next_token();
        } else {
            valid = false;
        }
        if self.is_expected_type(TokenType::RPAREN) {
            self.next_token();
        } else {
            valid = false;
        }
        if self.is_expected_type(TokenType::LBRACE) {
            self.next_token();
        } else {
            valid = false;
        }
        let statement = match self.parse_statement() {
            Err(e) => return Err(e),
            Ok(statement) => statement,
        };
        if self.is_expected_type(TokenType::RBRACE) {
            self.next_token();
        } else {
            valid = false;
        }
        if valid {
            let statement_val = statement.root.value.clone();
            let mut value = "int id() { ".to_owned();
            value.append(statement_val.as_str());
            value.append(" }");
            Ok(
                AST {
                    root: Node {
                        node_type: NodeType::Function,
                        children: vec![statement.root],
                        value,
                    },
                },
            )
        } else {
            Err("Expected proper function;".to_owned())
        }
    }

    // S -> return E ;
    /// Parses one statement: `return`, an expression, `;`. The keyword
    /// positions are consumed whatever stands there; an expression
    /// failure propagates unchanged.
    fn parse_statement(&mut self) -> (r: Result<AST, String>)
        requires
            old(self).wf(),
        ensures
            final(self).wf(),
            final(self).spec_tokens() == old(self).spec_tokens(),
            match spec_parse_statement(old(self).spec_tokens(), old(self).spec_pos()) {
                Ok((lit, p)) => {
                    &&& r is Ok
                    &&& wf_statement_node(r->Ok_0.spec_root(), lit)
                    &&& final(self).spec_pos() == p
                },
                Err(m) => r is Err && r->Err_0@ == m,
            },
    {
        let mut valid = true;
        if !self.is_expected_type(TokenType::RETURN) {
            valid = false;
        }
        self.next_token();
        let expression = match self.parse_expression() {
            Err(e) => return Err(e),
            Ok(expression) => expression,
        };
        if !self.is_expected_type(TokenType::SEMICOLON) {
            valid = false;
        }
        self.next_token();
        if valid {
            let literal = expression.root.value.clone();
            let mut value = "return ".to_owned();
            value.append(literal.as_str());
            value.append(";");
            Ok(
                AST {
                    root: Node {
                        node_type: NodeType::Statement,
                        children: vec![expression.root],
                        value,
                    },
                },
            )
        } else {
            Err("Expected proper statement;".to_owned())
        }
    }

    // E -> int_literal
    /// Parses one expression: exactly one numeric literal, yielded as a
    /// leaf node; any other token is an immediate failure that consumes
    /// nothing.
    fn parse_expression(&mut self) -> (r: Result<AST, String>)
        requires
            old(self).wf(),
        ensures
            final(self).wf(),
            final(self).spec_tokens() == old(self).spec_tokens(),
            match spec_parse_expression(old(self).spec_tokens(), old(self).spec_pos()) {
                Ok((lit, p)) => {
                    &&& r is Ok
                    &&& wf_expression_node(r->Ok_0.spec_root(), lit)
                    &&& final(self).spec_pos() == p
                },
                Err(m) => {
                    &&& r is Err
                    &&& r->Err_0@ == m
                    &&& final(self).spec_pos() == old(self).spec_pos()
                },
            },
    {
        if !self.is_expected_type(TokenType::NIDENT) {
            return Err("Expected int literal".to_owned());
        }
        let value = self.tokens[self.pos].literal.clone();
        self.next_token();
        Ok(AST { root: Node { node_type: NodeType::Expression, children: Vec::new(), value } })
    }
}

/// The kinds of the only token shape a parse accepts, in order: the
/// fixed tokens of `int id ( ) { return lit ; }`.
pub open spec fn accepted_shape(toks: Seq<TokenModel>) -> bool {
    &&& toks.len() >= 9
    &&& toks[0].kind == TokenType::INT
    &&& toks[1].kind == TokenType::IDENT
    &&& toks[2].kind == TokenType::LPAREN
    &&& toks[3].kind == TokenType::RPAREN
    &&& toks[4].kind == TokenType::LBRACE
    &&& toks[5].kind == TokenType::RETURN
    &&& toks[6].kind == TokenType::NIDENT
    &&& toks[7].kind == TokenType::SEMICOLON
    &&& toks[8].kind == TokenType::RBRACE
}

/// A parse succeeds exactly on token sequences that start with the
/// accepted shape (anything after its nine tokens is ignored), and then
/// yields the literal of the seventh token.
pub proof fn lemma_parse_success_shape(toks: Seq<TokenModel>)
    ensures
        spec_parse(toks) is Ok <==> accepted_shape(toks),
        accepted_shape(toks) ==> spec_parse(toks) == Ok::<Seq<char>, Seq<char>>(toks[6].text),
{
}

/// A token sequence of the accepted shape except for the semicolon —
/// the statement's closing token missing, with the brace in its place —
/// is rejected with the statement error.
pub proof fn lemma_parse_missing_semicolon(toks: Seq<TokenModel>)
    requires
        toks.len() == 8,
        toks[0].kind == TokenType::INT,
        toks[1].kind == TokenType::IDENT,
        toks[2].kind == TokenType::LPAREN,
        toks[3].kind == TokenType::RPAREN,
        toks[4].kind == TokenType::LBRACE,
        toks[5].kind == TokenType::RETURN,
        toks[6].kind == TokenType::NIDENT,
        toks[7].kind == TokenType::RBRACE,
    ensures
        spec_parse(toks) == Err::<Seq<char>, Seq<char>>(msg_expected_statement()),
{
}

/// An empty token sequence is rejected outright, and an empty input
/// lexes to no tokens at all.
pub proof fn lemma_parse_empty()
    ensures
        spec_parse(Seq::<TokenModel>::empty()) == Err::<Seq<char>, Seq<char>>(msg_no_tokens()),
        crate::lexer::spec_lex(Seq::<char>::empty()) == Seq::<TokenModel>::empty(),
{
}

} // verus!
