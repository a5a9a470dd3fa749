use vstd::prelude::*;
use crate::ast::{Ast, Binary, Call, Function, Identifier, Node, Number, Return, Str, Var, views_of};
use crate::grammar::{
    addition, addition_rest, args, body, call, fn_decl, grouping, kind_at, meets, multiplication,
    multiplication_rest, params, param_list, primary, program, return_stmt, skip_newlines,
    statement, tok_at, var_decl, Expectation, ParseErrorKind, PErr, PNode,
};
use crate::lexer::{same_text, token_views, Tok, Token, TOT};

verus! {

/// The first grammar violation: what it is, the index of the token where it was found
/// (the number of tokens where the input ended first), and the 1-based line and column
/// of that place in the source.
#[derive(PartialEq, Eq, Structural, Clone, Copy, Debug)]
pub struct ParseError {
    pub kind: ParseErrorKind,
    pub index: usize,
    pub line: usize,
    pub column: usize,
}

/// The source position of the place `i` in `ts`: where token `i` starts; at the end of
/// input, where the last token starts; line 1, column 1 where there are no tokens.
pub open spec fn position_at(ts: Seq<Tok>, i: int) -> (int, int) {
    if 0 <= i < ts.len() {
        (ts[i].2, ts[i].3)
    } else if ts.len() > 0 {
        (ts.last().2, ts.last().3)
    } else {
        (1, 1)
    }
}

impl ParseError {
    /// The error's line and column are those of its place in `ts`.
    pub open spec fn placed_in(&self, ts: Seq<Tok>) -> bool {
        (self.line as int, self.column as int) == position_at(ts, self.index as int)
    }
}

pub open spec fn placed<T>(r: Result<T, ParseError>, ts: Seq<Tok>) -> bool {
    r is Err ==> r->Err_0.placed_in(ts)
}

impl View for ParseError {
    type V = PErr;

    open spec fn view(&self) -> PErr {
        (self.kind, self.index as nat)
    }
}

pub open spec fn node_outcome(r: Result<(Ast, usize), ParseError>) -> PNode {
    match r {
        Ok((a, j)) => Ok((a@, j as nat)),
        Err(e) => Err(e@),
    }
}

/// On success the parse moved past `i`, and stayed within the `n` tokens.
pub open spec fn moved_past(r: Result<(Ast, usize), ParseError>, i: usize, n: nat) -> bool {
    r is Ok ==> i < r->Ok_0.1 <= n
}

pub open spec fn param_views(ps: Seq<String>) -> Seq<Seq<char>> {
    ps.map_values(|p: String| p@)
}

proof fn lemma_views_push(v: Seq<Ast>, a: Ast)
    ensures
        views_of(v.push(a)) == views_of(v).push(a@),
{
    assert(v.push(a).drop_last() =~= v);
}

proof fn lemma_params_push(v: Seq<String>, p: String)
    ensures
        param_views(v.push(p)) == param_views(v).push(p@),
{
    assert(param_views(v.push(p)) =~= param_views(v).push(p@));
}

/// A recursive-descent parser over a token sequence.
pub struct Parser {
    tokens: Vec<Token>,
    index: usize,
}

impl Parser {
    /// The tokens being parsed.
    pub closed spec fn tokens(&self) -> Seq<Tok> {
        token_views(self.tokens@)
    }

    /// The index of the next token to parse.
    pub closed spec fn pos(&self) -> nat {
        self.index as nat
    }

    pub closed spec fn wf(&self) -> bool {
        self.index <= self.tokens@.len()
    }

    pub fn new(tokens: Vec<Token>) -> (r: Self)
        ensures
            r.wf(),
            r.tokens() == token_views(tokens@),
            r.pos() == 0,
    {
        Parser { tokens, index: 0 }
    }

    fn is_at_end(&self, i: usize) -> (r: bool)
        ensures
            r == (i >= self.tokens@.len()),
    {
        i >= self.tokens.len()
    }

    fn kind_is(&self, i: usize, tot: TOT) -> (r: bool)
        ensures
            r == kind_at(self.tokens(), i as nat, tot),
            r ==> i < self.tokens@.len(),
    {
        i < self.tokens.len() && self.tokens[i].tot == tot
    }

    fn match_token(&self, i: usize, tot: TOT, text: &str) -> (r: bool)
        ensures
            r == tok_at(self.tokens(), i as nat, tot, text@),
            r ==> i < self.tokens@.len(),
    {
        i < self.tokens.len() && self.tokens[i].tot == tot && same_text(&self.tokens[i].value, text)
    }

    fn error_at(&self, kind: ParseErrorKind, index: usize) -> (e: ParseError)
        ensures
            e@ == (kind, index as nat),
            e.placed_in(self.tokens()),
    {
        let n = self.tokens.len();
        if index < n {
            let t = &self.tokens[index];
            ParseError { kind, index, line: t.line, column: t.column }
        } else if n > 0 {
            let t = &self.tokens[n - 1];
            ParseError { kind, index, line: t.line, column: t.column }
        } else {
            ParseError { kind, index, line: 1, column: 1 }
        }
    }

    fn expect(&self, i: usize, e: Expectation) -> (r: Result<usize, ParseError>)
        ensures
            placed(r, self.tokens()),
            match r {
                Ok(j) => meets(self.tokens(), i as nat, e) && j == i + 1,
                Err(err) => !meets(self.tokens(), i as nat, e) && err@ == (
                    ParseErrorKind::Expected(e),
                    i as nat,
                ),
            },
    {
        let ok = match e {
            Expectation::Identifier => self.kind_is(i, TOT::IDENTIFIER),
            Expectation::Assign => self.match_token(i, TOT::OPERATOR, "="),
            Expectation::OpenParen => self.match_token(i, TOT::DELIMITER, "("),
            Expectation::CloseParen => self.match_token(i, TOT::DELIMITER, ")"),
            Expectation::OpenBrace => self.match_token(i, TOT::DELIMITER, "{"),
        };
        let n = self.tokens.len();
        if ok {
            assert(i < n);
            Ok(i + 1)
        } else {
            Err(self.error_at(ParseErrorKind::Expected(e), i))
        }
    }

    /// The index of the first token at or after `i` that is not a newline.
    fn consume_newlines(&self, i: usize) -> (j: usize)
        requires
            i <= self.tokens@.len(),
        ensures
            i <= j <= self.tokens@.len(),
            j == skip_newlines(self.tokens(), i as nat),
    {
        let n = self.tokens.len();
        let mut j = i;
        while self.kind_is(j, TOT::NEWLINE)
            invariant
                n == self.tokens@.len(),
                i <= j <= self.tokens@.len(),
                skip_newlines(self.tokens(), i as nat) == skip_newlines(self.tokens(), j as nat),
            decreases self.tokens@.len() - j,
        {
            j = j + 1;
        }
        j
    }

    fn parse_statement(&self, i: usize) -> (r: Result<(Ast, usize), ParseError>)
        requires
            i <= self.tokens@.len(),
        ensures
            placed(r, self.tokens()),
            node_outcome(r) == statement(self.tokens(), i as nat),
            moved_past(r, i, self.tokens@.len()),
        decreases self.tokens@.len() - i, 6nat,
    {
        let n = self.tokens.len();
        let mut j = i;
        while self.kind_is(j, TOT::NEWLINE)
            invariant
                n == self.tokens@.len(),
                i <= j <= n,
                statement(self.tokens(), i as nat) == statement(self.tokens(), j as nat),
            decreases n - j,
        {
            j = j + 1;
        }
        if self.is_at_end(j) {
            return Err(self.error_at(ParseErrorKind::UnexpectedEnd, j));
        }
        let tok = &self.tokens[j];
        if tok.tot == TOT::COMMENT {
            Err(self.error_at(ParseErrorKind::UnexpectedToken, j))
        } else if tok.tot == TOT::KEYWORD {
            if same_text(&tok.value, "var") {
                self.parse_var_declaration(j + 1)
            } else if same_text(&tok.value, "fn") {
                self.parse_function(j + 1)
            } else if same_text(&tok.value, "return") {
                self.parse_return(j + 1)
            } else {
                Err(self.error_at(ParseErrorKind::UnknownKeyword, j))
            }
        } else {
            self.parse_expression(j)
        }
    }

    fn parse_var_declaration(&self, i: usize) -> (r: Result<(Ast, usize), ParseError>)
        requires
            i <= self.tokens@.len(),
        ensures
            placed(r, self.tokens()),
            node_outcome(r) == var_decl(self.tokens(), i as nat),
            moved_past(r, i, self.tokens@.len()),
        decreases self.tokens@.len() - i, 5nat,
    {
        let j = match self.expect(i, Expectation::Identifier) {
            Ok(j) => j,
            Err(e) => return Err(e),
        };
        let k = match self.expect(j, Expectation::Assign) {
            Ok(k) => k,
            Err(e) => return Err(e),
        };
        match self.parse_expression(k) {
            Ok((value, m)) => {
                let name = self.tokens[i].value.clone();
                Ok((Ast::Var(Var { name, value: Box::new(value) }), m))
            },
            Err(e) => Err(e),
        }
    }

    fn parse_return(&self, i: usize) -> (r: Result<(Ast, usize), ParseError>)
        requires
            i <= self.tokens@.len(),
        ensures
            placed(r, self.tokens()),
            node_outcome(r) == return_stmt(self.tokens(), i as nat),
            moved_past(r, i, self.tokens@.len()),
        decreases self.tokens@.len() - i, 5nat,
    {
        let n = self.tokens.len();
        let mut j = i;
        while self.kind_is(j, TOT::NEWLINE)
            invariant
                n == self.tokens@.len(),
                i <= j <= n,
                return_stmt(self.tokens(), i as nat) == return_stmt(self.tokens(), j as nat),
            decreases n - j,
        {
            j = j + 1;
        }
        match self.parse_expression(j) {
            Ok((value, m)) => Ok((Ast::Return(Return { value: Some(Box::new(value)) }), m)),
            Err(e) => Err(e),
        }
    }

    /// The parameter list after `(`, up to and including `)`.
    fn parse_params(&self, i: usize) -> (r: Result<(Vec<String>, usize), ParseError>)
        requires
            i <= self.tokens@.len(),
        ensures
            placed(r, self.tokens()),
            match r {
                Ok((ps, j)) => params(self.tokens(), i as nat) == Ok::<_, PErr>(
                    (param_views(ps@), j as nat),
                ) && i < j <= self.tokens@.len(),
                Err(e) => params(self.tokens(), i as nat) == Err::<(Seq<Seq<char>>, nat), _>(e@),
            },
    {
        let mut ps: Vec<String> = Vec::new();
        assert(param_views(ps@) =~= seq![]);
        let n = self.tokens.len();
        if self.match_token(i, TOT::DELIMITER, ")") {
            return Ok((ps, i + 1));
        }
        let mut j = i;
        loop
            invariant
                n == self.tokens@.len(),
                i <= j <= n,
                params(self.tokens(), i as nat) == param_list(self.tokens(), j as nat, param_views(ps@)),
            decreases n - j,
        {
            match self.expect(j, Expectation::Identifier) {
                Ok(_) => {},
                Err(e) => return Err(e),
            }
            let name = self.tokens[j].value.clone();
            proof {
                lemma_params_push(ps@, name);
            }
            ps.push(name);
            if self.match_token(j + 1, TOT::DELIMITER, ",") {
                j = j + 2;
            } else {
                match self.expect(j + 1, Expectation::CloseParen) {
                    Ok(k) => return Ok((ps, k)),
                    Err(e) => return Err(e),
                }
            }
        }
    }

    fn parse_function(&self, i: usize) -> (r: Result<(Ast, usize), ParseError>)
        requires
            i <= self.tokens@.len(),
        ensures
            placed(r, self.tokens()),
            node_outcome(r) == fn_decl(self.tokens(), i as nat),
            moved_past(r, i, self.tokens@.len()),
        decreases self.tokens@.len() - i, 5nat,
    {
        let n = self.tokens.len();
        let j = match self.expect(i, Expectation::Identifier) {
            Ok(j) => j,
            Err(e) => return Err(e),
        };
        let j = match self.expect(j, Expectation::OpenParen) {
            Ok(j) => j,
            Err(e) => return Err(e),
        };
        let (ps, j) = match self.parse_params(j) {
            Ok(p) => p,
            Err(e) => return Err(e),
        };
        let k = self.consume_newlines(j);
        let k = match self.expect(k, Expectation::OpenBrace) {
            Ok(k) => k,
            Err(e) => return Err(e),
        };
        let name = self.tokens[i].value.clone();
        let mut stmts: Vec<Ast> = Vec::new();
        let mut m = k;
        loop
            invariant
                n == self.tokens@.len(),
                i < k <= m <= n,
                fn_decl(self.tokens(), i as nat) == match body(self.tokens(), m as nat, views_of(stmts@)) {
                    Ok((b, e)) => Ok((Node::Function { name: name@, params: param_views(ps@), body: b }, e)),
                    Err(e) => Err(e),
                },
            decreases n - m,
        {
            if self.is_at_end(m) {
                return Err(self.error_at(ParseErrorKind::UnclosedFunction, m));
            }
            if self.kind_is(m, TOT::NEWLINE) {
                m = m + 1;
            } else if self.match_token(m, TOT::DELIMITER, "}") {
                let f = Function { name, params: ps, body: stmts };
                return Ok((Ast::Function(f), m + 1));
            } else {
                match self.parse_statement(m) {
                    Ok((a, e)) => {
                        proof {
                            lemma_views_push(stmts@, a);
                        }
                        stmts.push(a);
                        m = e;
                    },
                    Err(e) => return Err(e),
                }
            }
        }
    }

    fn parse_expression(&self, i: usize) -> (r: Result<(Ast, usize), ParseError>)
        requires
            i <= self.tokens@.len(),
        ensures
            placed(r, self.tokens()),
            node_outcome(r) == addition(self.tokens(), i as nat),
            moved_past(r, i, self.tokens@.len()),
        decreases self.tokens@.len() - i, 4nat,
    {
        let (mut left, mut j) = match self.parse_multiplication(i) {
            Ok(p) => p,
            Err(e) => return Err(e),
        };
        let n = self.tokens.len();
        loop
            invariant
                n == self.tokens@.len(),
                i < j <= n,
                addition(self.tokens(), i as nat) == addition_rest(self.tokens(), j as nat, left@),
            decreases n - j,
        {
            if self.match_token(j, TOT::OPERATOR, "+") || self.match_token(j, TOT::OPERATOR, "-") {
                let op = self.tokens[j].value.clone();
                match self.parse_multiplication(j + 1) {
                    Ok((right, k)) => {
                        left = Ast::Binary(Binary { op, left: Box::new(left), right: Box::new(right) });
                        j = k;
                    },
                    Err(e) => return Err(e),
                }
            } else {
                return Ok((left, j));
            }
        }
    }

    fn parse_multiplication(&self, i: usize) -> (r: Result<(Ast, usize), ParseError>)
        requires
            i <= self.tokens@.len(),
        ensures
            placed(r, self.tokens()),
            node_outcome(r) == multiplication(self.tokens(), i as nat),
            moved_past(r, i, self.tokens@.len()),
        decreases self.tokens@.len() - i, 3nat,
    {
        let (mut left, mut j) = match self.parse_primary(i) {
            Ok(p) => p,
            Err(e) => return Err(e),
        };
        let n = self.tokens.len();
        loop
            invariant
                n == self.tokens@.len(),
                i < j <= n,
                multiplication(self.tokens(), i as nat) == multiplication_rest(self.tokens(), j as nat, left@),
            decreases n - j,
        {
            if self.match_token(j, TOT::OPERATOR, "*") || self.match_token(j, TOT::OPERATOR, "/") {
                let op = self.tokens[j].value.clone();
                match self.parse_primary(j + 1) {
                    Ok((right, k)) => {
                        left = Ast::Binary(Binary { op, left: Box::new(left), right: Box::new(right) });
                        j = k;
                    },
                    Err(e) => return Err(e),
                }
            } else {
                return Ok((left, j));
            }
        }
    }

    fn parse_grouping(&self, i: usize) -> (r: Result<(Ast, usize), ParseError>)
        requires
            i <= self.tokens@.len(),
        ensures
            placed(r, self.tokens()),
            node_outcome(r) == grouping(self.tokens(), i as nat),
            moved_past(r, i, self.tokens@.len()),
        decreases self.tokens@.len() - i, 1nat,
    {
        let j = match self.expect(i, Expectation::OpenParen) {
            Ok(j) => j,
            Err(e) => return Err(e),
        };
        let (expr, k) = match self.parse_expression(j) {
            Ok(p) => p,
            Err(e) => return Err(e),
        };
        match self.expect(k, Expectation::CloseParen) {
            Ok(m) => Ok((expr, m)),
            Err(e) => Err(e),
        }
    }

    fn parse_primary(&self, i: usize) -> (r: Result<(Ast, usize), ParseError>)
        requires
            i <= self.tokens@.len(),
        ensures
            placed(r, self.tokens()),
            node_outcome(r) == primary(self.tokens(), i as nat),
            moved_past(r, i, self.tokens@.len()),
        decreases self.tokens@.len() - i, 2nat,
    {
        let n = self.tokens.len();
        let mut j = i;
        while self.kind_is(j, TOT::COMMENT)
            invariant
                n == self.tokens@.len(),
                i <= j <= n,
                primary(self.tokens(), i as nat) == primary(self.tokens(), j as nat),
            decreases n - j,
        {
            j = j + 1;
        }
        if self.is_at_end(j) {
            return Err(self.error_at(ParseErrorKind::UnexpectedEnd, j));
        }
        let tok = &self.tokens[j];
        match tok.tot {
            TOT::NEWLINE => self.parse_statement(j + 1),
            TOT::NUMBER => Ok((Ast::Number(Number { value: tok.value.clone() }), j + 1)),
            TOT::STRING => Ok((Ast::Str(Str { value: tok.value.clone() }), j + 1)),
            TOT::IDENTIFIER => {
                if self.match_token(j + 1, TOT::DELIMITER, "(") {
                    self.parse_function_call(j)
                } else {
                    Ok((Ast::Identifier(Identifier { name: tok.value.clone() }), j + 1))
                }
            },
            TOT::DELIMITER => {
                if same_text(&tok.value, "(") {
                    self.parse_grouping(j)
                } else {
                    Err(self.error_at(ParseErrorKind::UnexpectedToken, j))
                }
            },
            _ => Err(self.error_at(ParseErrorKind::UnexpectedToken, j)),
        }
    }

    fn parse_function_call(&self, i: usize) -> (r: Result<(Ast, usize), ParseError>)
        requires
            i <= self.tokens@.len(),
        ensures
            placed(r, self.tokens()),
            node_outcome(r) == call(self.tokens(), i as nat),
            moved_past(r, i, self.tokens@.len()),
        decreases self.tokens@.len() - i, 1nat,
    {
        let n = self.tokens.len();
        let j = match self.expect(i, Expectation::Identifier) {
            Ok(j) => j,
            Err(e) => return Err(e),
        };
        let j = match self.expect(j, Expectation::OpenParen) {
            Ok(j) => j,
            Err(e) => return Err(e),
        };
        let callee = self.tokens[i].value.clone();
        let mut arguments: Vec<Ast> = Vec::new();
        if self.match_token(j, TOT::DELIMITER, ")") {
            assert(views_of(arguments@) =~= seq![]);
            return Ok((Ast::Call(Call { callee, args: arguments }), j + 1));
        }
        let mut k = j;
        loop
            invariant
                n == self.tokens@.len(),
                i < j <= k <= n,
                call(self.tokens(), i as nat) == match args(self.tokens(), k as nat, views_of(arguments@)) {
                    Ok((a, e)) => Ok((Node::Call { callee: callee@, args: a }, e)),
                    Err(e) => Err(e),
                },
            decreases n - k,
        {
            match self.parse_expression(k) {
                Ok((a, e)) => {
                    proof {
                        lemma_views_push(arguments@, a);
                    }
                    arguments.push(a);
                    if self.match_token(e, TOT::DELIMITER, ",") {
                        k = e + 1;
                    } else {
                        match self.expect(e, Expectation::CloseParen) {
                            Ok(m) => return Ok((Ast::Call(Call { callee, args: arguments }), m)),
                            Err(err) => return Err(err),
                        }
                    }
                },
                Err(e) => return Err(e),
            }
        }
    }

    /// Parses the remaining tokens into top-level statements, in source order; fails on
    /// the first grammar violation.
    pub fn parse(&mut self) -> (r: Result<Vec<Ast>, ParseError>)
        requires
            old(self).wf(),
        ensures
            placed(r, old(self).tokens()),
            final(self).wf(),
            final(self).tokens() == old(self).tokens(),
            match r {
                Ok(v) => program(old(self).tokens(), old(self).pos(), seq![]) == Ok::<_, PErr>(
                    views_of(v@),
                ),
                Err(e) => program(old(self).tokens(), old(self).pos(), seq![]) == Err::<
                    Seq<Node>,
                    _,
                >(e@),
            },
    {
        let n = self.tokens.len();
        let mut statements: Vec<Ast> = Vec::new();
        assert(views_of(statements@) =~= seq![]);
        let ghost i0 = self.index as nat;
        loop
            invariant
                n == self.tokens@.len(),
                self.wf(),
                self.tokens() == old(self).tokens(),
                i0 == old(self).pos(),
                program(self.tokens(), i0, seq![]) == program(
                    self.tokens(),
                    self.index as nat,
                    views_of(statements@),
                ),
            decreases n - self.index,
        {
            if self.is_at_end(self.index) {
                return Ok(statements);
            }
            if self.kind_is(self.index, TOT::NEWLINE) {
                self.index = self.index + 1;
            } else {
                match self.parse_statement(self.index) {
                    Ok((a, e)) => {
                        proof {
                            lemma_views_push(statements@, a);
                        }
                        statements.push(a);
                        self.index = e;
                    },
                    Err(e) => return Err(e),
                }
            }
        }
    }
}

} // verus!
