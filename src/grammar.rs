use vstd::prelude::*;
use crate::ast::Node;
use crate::lexer::{Tok, TOT};

verus! {

// The grammar as spec functions over token views. Each rule takes the index of its first
// token and yields a node with the index just past it, or the first violation. Where a
// rule goes on after a sub-rule, it does so only if the sub-rule moved forward; every
// successful rule consumes a token, so the other branch is never taken, and the guard
// makes the recursion's progress evident.

/// What the parser wanted to see at the place where it failed.
#[derive(PartialEq, Eq, Structural, Clone, Copy, Debug)]
pub enum Expectation {
    Identifier,
    Assign,
    OpenParen,
    CloseParen,
    OpenBrace,
}

#[derive(PartialEq, Eq, Structural, Clone, Copy, Debug)]
pub enum ParseErrorKind {
    /// The token at the error's position, or the end of input, is not the one required.
    Expected(Expectation),
    /// The input ended where a statement or an expression was required.
    UnexpectedEnd,
    /// A statement starts with a keyword other than `var`, `fn` or `return`.
    UnknownKeyword,
    /// The token at the error's position cannot start an expression, or is a comment
    /// where a statement begins.
    UnexpectedToken,
    /// The input ended inside a function body.
    UnclosedFunction,
}

/// A parse error as a value: its kind and the index of the token where it was found.
pub type PErr = (ParseErrorKind, nat);

/// A parsed node and the index of the first token after it.
pub type PNode = Result<(Node, nat), PErr>;

pub type PNodes = Result<(Seq<Node>, nat), PErr>;

pub open spec fn kind_at(ts: Seq<Tok>, i: nat, tot: TOT) -> bool {
    i < ts.len() && ts[i as int].1 == tot
}

pub open spec fn tok_at(ts: Seq<Tok>, i: nat, tot: TOT, text: Seq<char>) -> bool {
    kind_at(ts, i, tot) && ts[i as int].0 == text
}

pub open spec fn meets(ts: Seq<Tok>, i: nat, e: Expectation) -> bool {
    match e {
        Expectation::Identifier => kind_at(ts, i, TOT::IDENTIFIER),
        Expectation::Assign => tok_at(ts, i, TOT::OPERATOR, "="@),
        Expectation::OpenParen => tok_at(ts, i, TOT::DELIMITER, "("@),
        Expectation::CloseParen => tok_at(ts, i, TOT::DELIMITER, ")"@),
        Expectation::OpenBrace => tok_at(ts, i, TOT::DELIMITER, "{"@),
    }
}

pub open spec fn skip_newlines(ts: Seq<Tok>, i: nat) -> nat
    decreases ts.len() - i,
{
    if kind_at(ts, i, TOT::NEWLINE) {
        skip_newlines(ts, i + 1)
    } else {
        i
    }
}

/// `program := (NEWLINE* statement)*`, from token `i`, after the statements `acc`.
pub open spec fn program(ts: Seq<Tok>, i: nat, acc: Seq<Node>) -> Result<Seq<Node>, PErr>
    decreases ts.len() - i,
{
    if i >= ts.len() {
        Ok(acc)
    } else if kind_at(ts, i, TOT::NEWLINE) {
        program(ts, i + 1, acc)
    } else {
        match statement(ts, i) {
            Ok((n, j)) => if i < j <= ts.len() {
                program(ts, j, acc.push(n))
            } else {
                Ok(acc)
            },
            Err(e) => Err(e),
        }
    }
}

/// The top-level statements of the token sequence `ts`, or the first violation.
pub open spec fn parse_tokens(ts: Seq<Tok>) -> Result<Seq<Node>, PErr> {
    program(ts, 0, seq![])
}

/// `statement := NEWLINE* (var_decl | fn_decl | return_stmt | expression)`; a comment
/// where a statement begins is not skipped, and is an error.
pub open spec fn statement(ts: Seq<Tok>, i: nat) -> PNode
    decreases ts.len() - i, 6nat,
{
    if i >= ts.len() {
        Err((ParseErrorKind::UnexpectedEnd, i))
    } else if kind_at(ts, i, TOT::NEWLINE) {
        statement(ts, i + 1)
    } else if kind_at(ts, i, TOT::COMMENT) {
        Err((ParseErrorKind::UnexpectedToken, i))
    } else if kind_at(ts, i, TOT::KEYWORD) {
        if ts[i as int].0 == "var"@ {
            var_decl(ts, i + 1)
        } else if ts[i as int].0 == "fn"@ {
            fn_decl(ts, i + 1)
        } else if ts[i as int].0 == "return"@ {
            return_stmt(ts, i + 1)
        } else {
            Err((ParseErrorKind::UnknownKeyword, i))
        }
    } else {
        addition(ts, i)
    }
}

/// `IDENTIFIER '=' expression`, after `var`.
pub open spec fn var_decl(ts: Seq<Tok>, i: nat) -> PNode
    decreases ts.len() - i, 5nat,
{
    if !meets(ts, i, Expectation::Identifier) {
        Err((ParseErrorKind::Expected(Expectation::Identifier), i))
    } else if !meets(ts, i + 1, Expectation::Assign) {
        Err((ParseErrorKind::Expected(Expectation::Assign), i + 1))
    } else {
        match addition(ts, i + 2) {
            Ok((e, j)) => Ok((Node::Var { name: ts[i as int].0, value: Box::new(e) }, j)),
            Err(e) => Err(e),
        }
    }
}

/// `NEWLINE* expression`, after `return`.
pub open spec fn return_stmt(ts: Seq<Tok>, i: nat) -> PNode
    decreases ts.len() - i, 5nat,
{
    if kind_at(ts, i, TOT::NEWLINE) {
        return_stmt(ts, i + 1)
    } else {
        match addition(ts, i) {
            Ok((e, j)) => Ok((Node::Return { value: Some(Box::new(e)) }, j)),
            Err(e) => Err(e),
        }
    }
}

/// `IDENTIFIER (',' IDENTIFIER)* ')'`, after the parameters `acc`.
pub open spec fn param_list(ts: Seq<Tok>, i: nat, acc: Seq<Seq<char>>) -> Result<
    (Seq<Seq<char>>, nat),
    PErr,
>
    decreases ts.len() - i,
{
    if !meets(ts, i, Expectation::Identifier) {
        Err((ParseErrorKind::Expected(Expectation::Identifier), i))
    } else if tok_at(ts, i + 1, TOT::DELIMITER, ","@) {
        param_list(ts, i + 2, acc.push(ts[i as int].0))
    } else if meets(ts, i + 1, Expectation::CloseParen) {
        Ok((acc.push(ts[i as int].0), i + 2))
    } else {
        Err((ParseErrorKind::Expected(Expectation::CloseParen), i + 1))
    }
}

/// `(IDENTIFIER (',' IDENTIFIER)*)? ')'`
pub open spec fn params(ts: Seq<Tok>, i: nat) -> Result<(Seq<Seq<char>>, nat), PErr> {
    if meets(ts, i, Expectation::CloseParen) {
        Ok((seq![], i + 1))
    } else {
        param_list(ts, i, seq![])
    }
}

/// `IDENTIFIER '(' params ')' NEWLINE* '{' body`, after `fn`.
pub open spec fn fn_decl(ts: Seq<Tok>, i: nat) -> PNode
    decreases ts.len() - i, 5nat,
{
    if !meets(ts, i, Expectation::Identifier) {
        Err((ParseErrorKind::Expected(Expectation::Identifier), i))
    } else if !meets(ts, i + 1, Expectation::OpenParen) {
        Err((ParseErrorKind::Expected(Expectation::OpenParen), i + 1))
    } else {
        match params(ts, i + 2) {
            Ok((ps, j)) => {
                let k = skip_newlines(ts, j);
                if !meets(ts, k, Expectation::OpenBrace) {
                    Err((ParseErrorKind::Expected(Expectation::OpenBrace), k))
                } else if i < k {
                    match body(ts, k + 1, seq![]) {
                        Ok((b, m)) => Ok(
                            (Node::Function { name: ts[i as int].0, params: ps, body: b }, m),
                        ),
                        Err(e) => Err(e),
                    }
                } else {
                    Err((ParseErrorKind::Expected(Expectation::OpenBrace), k))
                }
            },
            Err(e) => Err(e),
        }
    }
}

/// `(NEWLINE* statement)* NEWLINE* '}'`, after the statements `acc`.
pub open spec fn body(ts: Seq<Tok>, i: nat, acc: Seq<Node>) -> PNodes
    decreases ts.len() - i, 7nat,
{
    if i >= ts.len() {
        Err((ParseErrorKind::UnclosedFunction, i))
    } else if kind_at(ts, i, TOT::NEWLINE) {
        body(ts, i + 1, acc)
    } else if tok_at(ts, i, TOT::DELIMITER, "}"@) {
        Ok((acc, i + 1))
    } else {
        match statement(ts, i) {
            Ok((n, j)) => if i < j <= ts.len() {
                body(ts, j, acc.push(n))
            } else {
                Err((ParseErrorKind::UnclosedFunction, i))
            },
            Err(e) => Err(e),
        }
    }
}

pub open spec fn is_additive(ts: Seq<Tok>, i: nat) -> bool {
    tok_at(ts, i, TOT::OPERATOR, "+"@) || tok_at(ts, i, TOT::OPERATOR, "-"@)
}

pub open spec fn is_multiplicative(ts: Seq<Tok>, i: nat) -> bool {
    tok_at(ts, i, TOT::OPERATOR, "*"@) || tok_at(ts, i, TOT::OPERATOR, "/"@)
}

/// `expression := multiplication (('+'|'-') multiplication)*`
pub open spec fn addition(ts: Seq<Tok>, i: nat) -> PNode
    decreases ts.len() - i, 4nat,
{
    match multiplication(ts, i) {
        Ok((l, j)) => if i < j <= ts.len() {
            addition_rest(ts, j, l)
        } else {
            Ok((l, j))
        },
        Err(e) => Err(e),
    }
}

/// The additive operators that follow the operand `left`, grouped to the left.
pub open spec fn addition_rest(ts: Seq<Tok>, i: nat, left: Node) -> PNode
    decreases ts.len() - i, 4nat,
{
    if is_additive(ts, i) {
        match multiplication(ts, i + 1) {
            Ok((r, j)) => if i < j <= ts.len() {
                addition_rest(
                    ts,
                    j,
                    Node::Binary { op: ts[i as int].0, left: Box::new(left), right: Box::new(r) },
                )
            } else {
                Ok((left, i))
            },
            Err(e) => Err(e),
        }
    } else {
        Ok((left, i))
    }
}

/// `multiplication := primary (('*'|'/') primary)*`
pub open spec fn multiplication(ts: Seq<Tok>, i: nat) -> PNode
    decreases ts.len() - i, 3nat,
{
    match primary(ts, i) {
        Ok((l, j)) => if i < j <= ts.len() {
            multiplication_rest(ts, j, l)
        } else {
            Ok((l, j))
        },
        Err(e) => Err(e),
    }
}

/// The multiplicative operators that follow the operand `left`, grouped to the left.
pub open spec fn multiplication_rest(ts: Seq<Tok>, i: nat, left: Node) -> PNode
    decreases ts.len() - i, 3nat,
{
    if is_multiplicative(ts, i) {
        match primary(ts, i + 1) {
            Ok((r, j)) => if i < j <= ts.len() {
                multiplication_rest(
                    ts,
                    j,
                    Node::Binary { op: ts[i as int].0, left: Box::new(left), right: Box::new(r) },
                )
            } else {
                Ok((left, i))
            },
            Err(e) => Err(e),
        }
    } else {
        Ok((left, i))
    }
}

/// `primary := COMMENT* (NUMBER | STRING | call | IDENTIFIER | '(' expression ')')`;
/// a newline here starts a new statement.
pub open spec fn primary(ts: Seq<Tok>, i: nat) -> PNode
    decreases ts.len() - i, 2nat,
{
    if i >= ts.len() {
        Err((ParseErrorKind::UnexpectedEnd, i))
    } else {
        let t = ts[i as int];
        match t.1 {
            TOT::COMMENT => primary(ts, i + 1),
            TOT::NEWLINE => statement(ts, i + 1),
            TOT::NUMBER => Ok((Node::Number { value: t.0 }, i + 1)),
            TOT::STRING => Ok((Node::Str { value: t.0 }, i + 1)),
            TOT::IDENTIFIER => if meets(ts, i + 1, Expectation::OpenParen) {
                call(ts, i)
            } else {
                Ok((Node::Identifier { name: t.0 }, i + 1))
            },
            TOT::DELIMITER => if t.0 == "("@ {
                grouping(ts, i)
            } else {
                Err((ParseErrorKind::UnexpectedToken, i))
            },
            _ => Err((ParseErrorKind::UnexpectedToken, i)),
        }
    }
}

/// `'(' expression ')'`
pub open spec fn grouping(ts: Seq<Tok>, i: nat) -> PNode
    decreases ts.len() - i, 1nat,
{
    if !meets(ts, i, Expectation::OpenParen) {
        Err((ParseErrorKind::Expected(Expectation::OpenParen), i))
    } else {
        match addition(ts, i + 1) {
            Ok((e, j)) => if meets(ts, j, Expectation::CloseParen) {
                Ok((e, j + 1))
            } else {
                Err((ParseErrorKind::Expected(Expectation::CloseParen), j))
            },
            Err(e) => Err(e),
        }
    }
}

/// `IDENTIFIER '(' (expression (',' expression)*)? ')'`, at the identifier.
pub open spec fn call(ts: Seq<Tok>, i: nat) -> PNode
    decreases ts.len() - i, 1nat,
{
    if !meets(ts, i, Expectation::Identifier) {
        Err((ParseErrorKind::Expected(Expectation::Identifier), i))
    } else if !meets(ts, i + 1, Expectation::OpenParen) {
        Err((ParseErrorKind::Expected(Expectation::OpenParen), i + 1))
    } else {
        let r = if meets(ts, i + 2, Expectation::CloseParen) {
            Ok((seq![], i + 3))
        } else {
            args(ts, i + 2, seq![])
        };
        match r {
            Ok((a, j)) => Ok((Node::Call { callee: ts[i as int].0, args: a }, j)),
            Err(e) => Err(e),
        }
    }
}

/// `expression (',' expression)* ')'`, after the arguments `acc`.
pub open spec fn args(ts: Seq<Tok>, i: nat, acc: Seq<Node>) -> PNodes
    decreases ts.len() - i, 5nat,
{
    match addition(ts, i) {
        Ok((e, j)) => if tok_at(ts, j, TOT::DELIMITER, ","@) {
            if i <= j {
                args(ts, j + 1, acc.push(e))
            } else {
                Ok((acc.push(e), j))
            }
        } else if meets(ts, j, Expectation::CloseParen) {
            Ok((acc.push(e), j + 1))
        } else {
            Err((ParseErrorKind::Expected(Expectation::CloseParen), j))
        },
        Err(e) => Err(e),
    }
}

/// A rule's outcome from token `i` over `n` tokens: on success it moved forward and
/// stayed within the input; a failure is placed at or after `i`, and at most at the end.
pub open spec fn advances<T>(r: Result<(T, nat), PErr>, i: nat, n: nat) -> bool {
    match r {
        Ok((_, j)) => i < j <= n,
        Err((_, p)) => i <= p <= n,
    }
}

/// As `advances`, where success may consume nothing.
pub open spec fn stays<T>(r: Result<(T, nat), PErr>, i: nat, n: nat) -> bool {
    match r {
        Ok((_, j)) => i <= j <= n,
        Err((_, p)) => i <= p <= n,
    }
}

proof fn lemma_skip_newlines(ts: Seq<Tok>, i: nat)
    requires
        i <= ts.len(),
    ensures
        i <= skip_newlines(ts, i) <= ts.len(),
    decreases ts.len() - i,
{
    if kind_at(ts, i, TOT::NEWLINE) {
        lemma_skip_newlines(ts, i + 1);
    }
}

proof fn lemma_param_list(ts: Seq<Tok>, i: nat, acc: Seq<Seq<char>>)
    requires
        i <= ts.len(),
    ensures
        advances(param_list(ts, i, acc), i, ts.len()),
    decreases ts.len() - i,
{
    if meets(ts, i, Expectation::Identifier) && tok_at(ts, i + 1, TOT::DELIMITER, ","@) {
        lemma_param_list(ts, i + 2, acc.push(ts[i as int].0));
    }
}

proof fn lemma_statement(ts: Seq<Tok>, i: nat)
    requires
        i <= ts.len(),
    ensures
        advances(statement(ts, i), i, ts.len()),
    decreases ts.len() - i, 6nat,
{
    if i < ts.len() {
        if kind_at(ts, i, TOT::NEWLINE) {
            lemma_statement(ts, i + 1);
        } else if kind_at(ts, i, TOT::KEYWORD) {
            if ts[i as int].0 == "var"@ {
                lemma_var_decl(ts, i + 1);
            } else if ts[i as int].0 == "fn"@ {
                lemma_fn_decl(ts, i + 1);
            } else if ts[i as int].0 == "return"@ {
                lemma_return_stmt(ts, i + 1);
            }
        } else {
            lemma_addition(ts, i);
        }
    }
}

proof fn lemma_var_decl(ts: Seq<Tok>, i: nat)
    requires
        i <= ts.len(),
    ensures
        advances(var_decl(ts, i), i, ts.len()),
    decreases ts.len() - i, 5nat,
{
    if meets(ts, i, Expectation::Identifier) && meets(ts, i + 1, Expectation::Assign) {
        lemma_addition(ts, i + 2);
    }
}

proof fn lemma_return_stmt(ts: Seq<Tok>, i: nat)
    requires
        i <= ts.len(),
    ensures
        advances(return_stmt(ts, i), i, ts.len()),
    decreases ts.len() - i, 5nat,
{
    if kind_at(ts, i, TOT::NEWLINE) {
        lemma_return_stmt(ts, i + 1);
    } else {
        lemma_addition(ts, i);
    }
}

proof fn lemma_fn_decl(ts: Seq<Tok>, i: nat)
    requires
        i <= ts.len(),
    ensures
        advances(fn_decl(ts, i), i, ts.len()),
    decreases ts.len() - i, 5nat,
{
    if meets(ts, i, Expectation::Identifier) && meets(ts, i + 1, Expectation::OpenParen) {
        if !meets(ts, i + 2, Expectation::CloseParen) {
            lemma_param_list(ts, i + 2, seq![]);
        }
        if let Ok((ps, j)) = params(ts, i + 2) {
            lemma_skip_newlines(ts, j);
            let k = skip_newlines(ts, j);
            if meets(ts, k, Expectation::OpenBrace) {
                lemma_body(ts, k + 1, seq![]);
            }
        }
    }
}

proof fn lemma_body(ts: Seq<Tok>, i: nat, acc: Seq<Node>)
    requires
        i <= ts.len(),
    ensures
        advances(body(ts, i, acc), i, ts.len()),
    decreases ts.len() - i, 7nat,
{
    if i < ts.len() {
        if kind_at(ts, i, TOT::NEWLINE) {
            lemma_body(ts, i + 1, acc);
        } else if !tok_at(ts, i, TOT::DELIMITER, "}"@) {
            lemma_statement(ts, i);
            if let Ok((n, j)) = statement(ts, i) {
                lemma_body(ts, j, acc.push(n));
            }
        }
    }
}

proof fn lemma_addition(ts: Seq<Tok>, i: nat)
    requires
        i <= ts.len(),
    ensures
        advances(addition(ts, i), i, ts.len()),
    decreases ts.len() - i, 4nat,
{
    lemma_multiplication(ts, i);
    if let Ok((l, j)) = multiplication(ts, i) {
        lemma_addition_rest(ts, j, l);
    }
}

proof fn lemma_addition_rest(ts: Seq<Tok>, i: nat, left: Node)
    requires
        i <= ts.len(),
    ensures
        stays(addition_rest(ts, i, left), i, ts.len()),
    decreases ts.len() - i, 4nat,
{
    if is_additive(ts, i) {
        lemma_multiplication(ts, i + 1);
        if let Ok((r, j)) = multiplication(ts, i + 1) {
            lemma_addition_rest(
                ts,
                j,
                Node::Binary { op: ts[i as int].0, left: Box::new(left), right: Box::new(r) },
            );
        }
    }
}

proof fn lemma_multiplication(ts: Seq<Tok>, i: nat)
    requires
        i <= ts.len(),
    ensures
        advances(multiplication(ts, i), i, ts.len()),
    decreases ts.len() - i, 3nat,
{
    lemma_primary(ts, i);
    if let Ok((l, j)) = primary(ts, i) {
        lemma_multiplication_rest(ts, j, l);
    }
}

proof fn lemma_multiplication_rest(ts: Seq<Tok>, i: nat, left: Node)
    requires
        i <= ts.len(),
    ensures
        stays(multiplication_rest(ts, i, left), i, ts.len()),
    decreases ts.len() - i, 3nat,
{
    if is_multiplicative(ts, i) {
        lemma_primary(ts, i + 1);
        if let Ok((r, j)) = primary(ts, i + 1) {
            lemma_multiplication_rest(
                ts,
                j,
                Node::Binary { op: ts[i as int].0, left: Box::new(left), right: Box::new(r) },
            );
        }
    }
}

proof fn lemma_primary(ts: Seq<Tok>, i: nat)
    requires
        i <= ts.len(),
    ensures
        advances(primary(ts, i), i, ts.len()),
    decreases ts.len() - i, 2nat,
{
    if i < ts.len() {
        let t = ts[i as int];
        match t.1 {
            TOT::COMMENT => lemma_primary(ts, i + 1),
            TOT::NEWLINE => lemma_statement(ts, i + 1),
            TOT::IDENTIFIER => if meets(ts, i + 1, Expectation::OpenParen) {
                lemma_call(ts, i);
            },
            TOT::DELIMITER => if t.0 == "("@ {
                lemma_grouping(ts, i);
            },
            _ => {},
        }
    }
}

proof fn lemma_grouping(ts: Seq<Tok>, i: nat)
    requires
        i <= ts.len(),
    ensures
        advances(grouping(ts, i), i, ts.len()),
    decreases ts.len() - i, 1nat,
{
    if meets(ts, i, Expectation::OpenParen) {
        lemma_addition(ts, i + 1);
    }
}

proof fn lemma_call(ts: Seq<Tok>, i: nat)
    requires
        i <= ts.len(),
    ensures
        advances(call(ts, i), i, ts.len()),
    decreases ts.len() - i, 1nat,
{
    if meets(ts, i, Expectation::Identifier) && meets(ts, i + 1, Expectation::OpenParen)
        && !meets(ts, i + 2, Expectation::CloseParen) {
        lemma_args(ts, i + 2, seq![]);
    }
}

proof fn lemma_args(ts: Seq<Tok>, i: nat, acc: Seq<Node>)
    requires
        i <= ts.len(),
    ensures
        advances(args(ts, i, acc), i, ts.len()),
    decreases ts.len() - i, 5nat,
{
    lemma_addition(ts, i);
    if let Ok((e, j)) = addition(ts, i) {
        if tok_at(ts, j, TOT::DELIMITER, ","@) {
            lemma_args(ts, j + 1, acc.push(e));
        }
    }
}

proof fn lemma_program(ts: Seq<Tok>, i: nat, acc: Seq<Node>)
    requires
        i <= ts.len(),
    ensures
        program(ts, i, acc) is Err ==> i <= program(ts, i, acc)->Err_0.1 <= ts.len(),
    decreases ts.len() - i,
{
    if i < ts.len() {
        if kind_at(ts, i, TOT::NEWLINE) {
            lemma_program(ts, i + 1, acc);
        } else {
            lemma_statement(ts, i);
            if let Ok((n, j)) = statement(ts, i) {
                lemma_program(ts, j, acc.push(n));
            }
        }
    }
}

/// A failed parse is placed at a token of the input, or at its end.
pub proof fn lemma_parse_error_within(ts: Seq<Tok>)
    ensures
        parse_tokens(ts) is Err ==> parse_tokens(ts)->Err_0.1 <= ts.len(),
{
    lemma_program(ts, 0, seq![]);
}

} // verus!
