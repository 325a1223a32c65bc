//! The syntax analyzer: turns the token stream into an expression tree by
//! precedence climbing.
//!
//! The grammar, with `+ -` at precedence 1 (left), `* /` at 2 (left) and `^`
//! at 3 (right):
//!
//! ```text
//! expr := atom (binop expr)*
//! atom := NUMBER | SYMBOL ['(' expr ')' | '=' expr] | '(' expr ')'
//! ```
//!
//! The spec functions below mirror the parse exactly, pulling tokens from the
//! scanner's specification; a fuel argument bounds their recursion, and every
//! executable contract holds for every sufficient fuel, so the fuel never
//! shows at the public entry point.

use vstd::prelude::*;
use vstd::string::StringExecFns;
use crate::ast::{BinaryOp, Expr, ExprModel, FunctionKind};
use crate::err::{CalcError, CalcErrorModel};
use crate::lexer::{spec_next_token, Lexer};
use crate::token::{spec_precedence_and_associativity, Associativity, Token, TokenModel};

verus! {

/// Result of one piece of the specification parse: the tree built so far with
/// the parser state after it, a failure, or exhausted fuel.
pub enum ParseStep {
    Parsed(ExprModel, int, TokenModel),
    Failed(CalcErrorModel),
    Short,
}

/// The binary node an operator token builds.
pub open spec fn binary_model(op: TokenModel, l: ExprModel, r: ExprModel) -> ExprModel {
    match op {
        TokenModel::Plus => ExprModel::Binary(BinaryOp::Add, Box::new(l), Box::new(r)),
        TokenModel::Minus => ExprModel::Binary(BinaryOp::Subtract, Box::new(l), Box::new(r)),
        TokenModel::Multiply => ExprModel::Binary(BinaryOp::Multiply, Box::new(l), Box::new(r)),
        TokenModel::Divide => ExprModel::Binary(BinaryOp::Divide, Box::new(l), Box::new(r)),
        _ => ExprModel::Binary(BinaryOp::Power, Box::new(l), Box::new(r)),
    }
}

/// Specification of `parse_expression`: one atom, then the climb over
/// operators of sufficient precedence.
pub open spec fn parse_expr_spec(
    s: Seq<char>,
    pos: int,
    cur: TokenModel,
    min_prec: int,
    fuel: nat,
) -> ParseStep
    decreases fuel, 1int,
{
    if fuel == 0 {
        ParseStep::Short
    } else {
        match parse_atom_spec(s, pos, cur, fuel) {
            ParseStep::Parsed(left, p1, c1) => climb_spec(
                s,
                p1,
                c1,
                left,
                min_prec,
                (fuel - 1) as nat,
            ),
            other => other,
        }
    }
}

/// Specification of the operator loop of `parse_expression`.
pub open spec fn climb_spec(
    s: Seq<char>,
    pos: int,
    cur: TokenModel,
    left: ExprModel,
    min_prec: int,
    fuel: nat,
) -> ParseStep
    decreases fuel, 0int,
{
    if fuel == 0 {
        ParseStep::Short
    } else {
        match spec_precedence_and_associativity(cur) {
            None => ParseStep::Parsed(left, pos, cur),
            Some((prec, assoc)) => if (prec as int) < min_prec {
                ParseStep::Parsed(left, pos, cur)
            } else {
                let nt = spec_next_token(s, pos);
                match nt.0 {
                    Err(e) => ParseStep::Failed(e),
                    Ok(c1) => {
                        let next_min = if assoc is Left {
                            prec as int + 1
                        } else {
                            prec as int
                        };
                        match parse_expr_spec(s, nt.1, c1, next_min, (fuel - 1) as nat) {
                            ParseStep::Parsed(right, p2, c2) => climb_spec(
                                s,
                                p2,
                                c2,
                                binary_model(cur, left, right),
                                min_prec,
                                (fuel - 1) as nat,
                            ),
                            other => other,
                        }
                    }
                }
            },
        }
    }
}

/// Specification of `parse_atom`.
pub open spec fn parse_atom_spec(s: Seq<char>, pos: int, cur: TokenModel, fuel: nat) -> ParseStep
    decreases fuel, 0int,
{
    if fuel == 0 {
        ParseStep::Short
    } else {
        match cur {
            TokenModel::Number(text) => {
                let nt = spec_next_token(s, pos);
                match nt.0 {
                    Err(e) => ParseStep::Failed(e),
                    Ok(c1) => ParseStep::Parsed(ExprModel::Number(text), nt.1, c1),
                }
            }
            TokenModel::Symbol(name) => {
                let nt = spec_next_token(s, pos);
                match nt.0 {
                    Err(e) => ParseStep::Failed(e),
                    Ok(c1) => if c1 is LeftParenthesis {
                        call_spec(s, nt.1, name, (fuel - 1) as nat)
                    } else if c1 is Equals {
                        assign_spec(s, nt.1, name, (fuel - 1) as nat)
                    } else {
                        ParseStep::Parsed(ExprModel::Variable(name), nt.1, c1)
                    },
                }
            }
            TokenModel::LeftParenthesis => {
                let nt = spec_next_token(s, pos);
                match nt.0 {
                    Err(e) => ParseStep::Failed(e),
                    Ok(c1) => match parse_expr_spec(s, nt.1, c1, 0, (fuel - 1) as nat) {
                        ParseStep::Parsed(inner, p2, c2) => if c2 is RightParenthesis {
                            let nt3 = spec_next_token(s, p2);
                            match nt3.0 {
                                Err(e) => ParseStep::Failed(e),
                                Ok(c3) => ParseStep::Parsed(inner, nt3.1, c3),
                            }
                        } else {
                            ParseStep::Failed(CalcErrorModel::ExpectedToken(
                                TokenModel::RightParenthesis,
                                c2,
                            ))
                        },
                        other => other,
                    },
                }
            }
            _ => ParseStep::Failed(CalcErrorModel::UnexpectedToken(cur)),
        }
    }
}

/// Specification of `parse_function_call`, entered with the parser standing
/// on the `(` that follows the function name.
pub open spec fn call_spec(s: Seq<char>, pos: int, name: Seq<char>, fuel: nat) -> ParseStep
    decreases fuel, 0int,
{
    if fuel == 0 {
        ParseStep::Short
    } else {
        let nt = spec_next_token(s, pos);
        match nt.0 {
            Err(e) => ParseStep::Failed(e),
            Ok(c1) => match parse_expr_spec(s, nt.1, c1, 0, (fuel - 1) as nat) {
                ParseStep::Parsed(arg, p2, c2) => if c2 is RightParenthesis {
                    let nt3 = spec_next_token(s, p2);
                    match nt3.0 {
                        Err(e) => ParseStep::Failed(e),
                        Ok(c3) => if name == "sin"@ {
                            ParseStep::Parsed(
                                ExprModel::Function(FunctionKind::Sine, Box::new(arg)),
                                nt3.1,
                                c3,
                            )
                        } else if name == "cos"@ {
                            ParseStep::Parsed(
                                ExprModel::Function(FunctionKind::Cosine, Box::new(arg)),
                                nt3.1,
                                c3,
                            )
                        } else if name == "sqrt"@ {
                            ParseStep::Parsed(
                                ExprModel::Function(FunctionKind::SquareRoot, Box::new(arg)),
                                nt3.1,
                                c3,
                            )
                        } else if name == "print"@ {
                            ParseStep::Parsed(ExprModel::Print(Box::new(arg)), nt3.1, c3)
                        } else {
                            ParseStep::Failed(CalcErrorModel::UnknownFunction(name))
                        },
                    }
                } else {
                    ParseStep::Failed(CalcErrorModel::ExpectedToken(
                        TokenModel::RightParenthesis,
                        c2,
                    ))
                },
                other => other,
            },
        }
    }
}

/// Specification of `parse_assignment`, entered with the parser standing on
/// the `=` that follows the variable name.
pub open spec fn assign_spec(s: Seq<char>, pos: int, name: Seq<char>, fuel: nat) -> ParseStep
    decreases fuel, 0int,
{
    if fuel == 0 {
        ParseStep::Short
    } else {
        let nt = spec_next_token(s, pos);
        match nt.0 {
            Err(e) => ParseStep::Failed(e),
            Ok(c1) => match parse_expr_spec(s, nt.1, c1, 0, (fuel - 1) as nat) {
                ParseStep::Parsed(v, p2, c2) => ParseStep::Parsed(
                    ExprModel::Assign(name, Box::new(v)),
                    p2,
                    c2,
                ),
                other => other,
            },
        }
    }
}

/// Specification of `parse`: one full expression, then the token stream must
/// be exhausted.
pub open spec fn parse_finish_spec(s: Seq<char>, pos: int, cur: TokenModel, fuel: nat) -> ParseStep {
    match parse_expr_spec(s, pos, cur, 0, fuel) {
        ParseStep::Parsed(e, p, c) => if c is EndOfFile {
            ParseStep::Parsed(e, p, c)
        } else {
            ParseStep::Failed(CalcErrorModel::TrailingInput(c))
        },
        other => other,
    }
}

/// The model of a parsing result.
pub open spec fn expr_result_model(r: Result<Expr, CalcError>) -> Result<ExprModel, CalcErrorModel> {
    match r {
        Ok(e) => Ok(e@),
        Err(e) => Err(e@),
    }
}

/// What a finished parse reports: the tree and the parser state, or the error.
pub open spec fn outcome_of(r: Result<Expr, CalcError>, p: Parser) -> ParseStep {
    match r {
        Ok(e) => ParseStep::Parsed(e@, p.lexer.position as int, p.current_token@),
        Err(e) => ParseStep::Failed(e@),
    }
}

/// How much input the parser may still consume: the characters after the
/// cursor, plus one for a lookahead token not yet at the end marker.
pub open spec fn pmeasure(p: Parser) -> int {
    p.lexer.input@.len() - p.lexer.position + if p.current_token@ is EndOfFile {
        0int
    } else {
        1int
    }
}

/// Bounds of one scanning step: the cursor never moves backwards, and it
/// strictly advances whenever a real token comes out.
pub proof fn lemma_spec_next_token_bounds(s: Seq<char>, pos: int)
    requires
        0 <= pos <= s.len(),
    ensures
        pos <= spec_next_token(s, pos).1 <= s.len(),
        (match spec_next_token(s, pos).0 {
            Ok(t) => !(t is EndOfFile) ==> spec_next_token(s, pos).1 > pos,
            Err(_) => true,
        }),
{
    crate::lexer::lemma_skip_ws_end_bounds(s, pos);
    let j = crate::lexer::skip_ws_end(s, pos);
    if j < s.len() {
        crate::lexer::lemma_number_run_end_bounds(s, j);
        crate::lexer::lemma_symbol_run_end_bounds(s, j);
        if crate::lexer::is_digit_char(s[j]) {
            assert(crate::lexer::number_run_end(s, j) == crate::lexer::number_run_end(s, j + 1));
            crate::lexer::lemma_number_run_end_bounds(s, j + 1);
        }
        if crate::lexer::is_alpha_char(s[j]) {
            assert(crate::lexer::symbol_run_end(s, j) == crate::lexer::symbol_run_end(s, j + 1));
            crate::lexer::lemma_symbol_run_end_bounds(s, j + 1);
        }
    }
}

/// The syntax analyzer: holds the scanner and a one-token lookahead.
pub struct Parser {
    /// The scanner the tokens are pulled from.
    pub lexer: Lexer,
    /// The next unconsumed token.
    pub current_token: Token,
}

impl Parser {
    /// The scanner's cursor stays inside the input.
    pub open spec fn wf(&self) -> bool {
        self.lexer.wf()
    }

    /// Creates a new parser with an initialized token stream.
    pub fn new(input: &str) -> (r: Result<Parser, CalcError>)
        ensures
            (match r {
                Ok(p) => {
                    &&& p.wf()
                    &&& p.lexer.input@ == input@
                    &&& spec_next_token(input@, 0).0 == Result::<TokenModel, CalcErrorModel>::Ok(p.current_token@)
                    &&& p.lexer.position as int == spec_next_token(input@, 0).1
                }
                Err(e) => spec_next_token(input@, 0).0 == Result::<TokenModel, CalcErrorModel>::Err(e@),
            }),
    {
        let mut lexer = Lexer::new(input);
        match lexer.next_token() {
            Ok(current_token) => Ok(Parser { lexer, current_token }),
            Err(e) => Err(e),
        }
    }

    /// Advances to the next token in the stream.
    fn advance(&mut self) -> (r: Result<(), CalcError>)
        requires
            old(self).wf(),
        ensures
            final(self).wf(),
            final(self).lexer.input == old(self).lexer.input,
            (match r {
                Ok(_) => {
                    &&& spec_next_token(old(self).lexer.input@, old(self).lexer.position as int).0
                        == Result::<TokenModel, CalcErrorModel>::Ok(final(self).current_token@)
                    &&& final(self).lexer.position as int == spec_next_token(
                        old(self).lexer.input@,
                        old(self).lexer.position as int,
                    ).1
                    &&& !(old(self).current_token@ is EndOfFile) ==> pmeasure(*final(self))
                        < pmeasure(*old(self))
                }
                Err(e) => spec_next_token(
                    old(self).lexer.input@,
                    old(self).lexer.position as int,
                ).0 == Result::<TokenModel, CalcErrorModel>::Err(e@),
            }),
    {
        proof {
            lemma_spec_next_token_bounds(self.lexer.input@, self.lexer.position as int);
        }
        match self.lexer.next_token() {
            Ok(t) => {
                self.current_token = t;
                Ok(())
            }
            Err(e) => Err(e),
        }
    }

    /// Verifies that the current token matches the expected one, then
    /// advances past it.
    fn expect_token(&mut self, expected: Token) -> (r: Result<(), CalcError>)
        requires
            old(self).wf(),
        ensures
            final(self).wf(),
            final(self).lexer.input == old(self).lexer.input,
            (match r {
                Ok(_) => {
                    &&& old(self).current_token@ == expected@
                    &&& spec_next_token(old(self).lexer.input@, old(self).lexer.position as int).0
                        == Result::<TokenModel, CalcErrorModel>::Ok(final(self).current_token@)
                    &&& final(self).lexer.position as int == spec_next_token(
                        old(self).lexer.input@,
                        old(self).lexer.position as int,
                    ).1
                    &&& !(old(self).current_token@ is EndOfFile) ==> pmeasure(*final(self))
                        < pmeasure(*old(self))
                }
                Err(e) => if old(self).current_token@ == expected@ {
                    spec_next_token(old(self).lexer.input@, old(self).lexer.position as int).0
                        == Result::<TokenModel, CalcErrorModel>::Err(e@)
                } else {
                    e@ == CalcErrorModel::ExpectedToken(expected@, old(self).current_token@)
                        && *final(self) == *old(self)
                },
            }),
    {
        if self.current_token.same_as(&expected) {
            self.advance()
        } else {
            Err(CalcError::ExpectedToken(expected, self.current_token.duplicate()))
        }
    }

    /// Ensures the input is fully consumed.
    fn expect_end(&self) -> (r: Result<(), CalcError>)
        ensures
            (match r {
                Ok(_) => self.current_token@ is EndOfFile,
                Err(e) => !(self.current_token@ is EndOfFile) && e@
                    == CalcErrorModel::TrailingInput(self.current_token@),
            }),
    {
        if self.current_token.is_eof() {
            Ok(())
        } else {
            Err(CalcError::TrailingInput(self.current_token.duplicate()))
        }
    }

    /// Builds the binary node for an operator token.
    fn create_binary_node(&self, operator: Token, left: Expr, right: Expr) -> (r: Expr)
        requires
            spec_precedence_and_associativity(operator@) is Some,
        ensures
            r@ == binary_model(operator@, left@, right@),
    {
        match operator {
            Token::Plus => Expr::Binary(BinaryOp::Add, Box::new(left), Box::new(right)),
            Token::Minus => Expr::Binary(BinaryOp::Subtract, Box::new(left), Box::new(right)),
            Token::Multiply => Expr::Binary(BinaryOp::Multiply, Box::new(left), Box::new(right)),
            Token::Divide => Expr::Binary(BinaryOp::Divide, Box::new(left), Box::new(right)),
            _ => Expr::Binary(BinaryOp::Power, Box::new(left), Box::new(right)),
        }
    }

    /// Parses one full expression; the token stream must be exhausted after
    /// it.
    pub fn parse(&mut self) -> (r: Result<Expr, CalcError>)
        requires
            old(self).wf(),
        ensures
            final(self).wf(),
            final(self).lexer.input == old(self).lexer.input,
            forall|f: nat|
                f > pmeasure(*old(self)) ==> parse_finish_spec(
                    old(self).lexer.input@,
                    old(self).lexer.position as int,
                    old(self).current_token@,
                    f,
                ) == outcome_of(r, *final(self)),
    {
        let ast = match self.parse_expression(0) {
            Ok(e) => e,
            Err(e) => {
                return Err(e);
            }
        };
        match self.expect_end() {
            Ok(_) => Ok(ast),
            Err(e) => Err(e),
        }
    }

    /// Recursive descent by precedence climbing: parses an expression all of
    /// whose operators bind at least as tightly as `min_precedence`.
    fn parse_expression(&mut self, min_precedence: u8) -> (r: Result<Expr, CalcError>)
        requires
            old(self).wf(),
        ensures
            final(self).wf(),
            final(self).lexer.input == old(self).lexer.input,
            r is Ok ==> pmeasure(*final(self)) < pmeasure(*old(self)),
            forall|f: nat|
                f > pmeasure(*old(self)) ==> parse_expr_spec(
                    old(self).lexer.input@,
                    old(self).lexer.position as int,
                    old(self).current_token@,
                    min_precedence as int,
                    f,
                ) == outcome_of(r, *final(self)),
        decreases pmeasure(*self), 3int,
    {
        let ghost s = self.lexer.input@;
        let ghost p0 = self.lexer.position as int;
        let ghost c0 = self.current_token@;
        let ghost m0 = pmeasure(*self);
        let mut left = match self.parse_atom() {
            Ok(e) => e,
            Err(e) => {
                proof {
                    assert forall|f: nat| f > m0 implies parse_expr_spec(
                        s,
                        p0,
                        c0,
                        min_precedence as int,
                        f,
                    ) == ParseStep::Failed(e@) by {
                        assert(parse_atom_spec(s, p0, c0, f) == ParseStep::Failed(e@));
                    }
                }
                return Err(e);
            }
        };
        let ghost ma = pmeasure(*self);
        let ghost p1 = self.lexer.position as int;
        let ghost c1 = self.current_token@;
        proof {
            assert forall|f: nat| f > m0 implies parse_expr_spec(
                s,
                p0,
                c0,
                min_precedence as int,
                f,
            ) == climb_spec(s, p1, c1, left@, min_precedence as int, (f - 1) as nat) by {
                assert(parse_atom_spec(s, p0, c0, f) == ParseStep::Parsed(left@, p1, c1));
            }
        }
        let ghost mut shift: nat = 0nat;
        loop
            invariant
                self.wf(),
                s == self.lexer.input@,
                self.lexer.input == old(self).lexer.input,
                p0 == old(self).lexer.position as int,
                c0 == old(self).current_token@,
                m0 == pmeasure(*old(self)),
                ma < m0,
                pmeasure(*self) + shift <= ma,
                0 <= pmeasure(*self),
                forall|f: nat|
                    f > m0 ==> parse_expr_spec(s, p0, c0, min_precedence as int, f)
                        == climb_spec(
                        s,
                        self.lexer.position as int,
                        self.current_token@,
                        left@,
                        min_precedence as int,
                        (f - 1 - shift) as nat,
                    ),
            ensures
                self.wf(),
                self.lexer.input == old(self).lexer.input,
                pmeasure(*self) < m0,
                forall|f: nat|
                    f > m0 ==> parse_expr_spec(s, p0, c0, min_precedence as int, f)
                        == ParseStep::Parsed(
                        left@,
                        self.lexer.position as int,
                        self.current_token@,
                    ),
            decreases pmeasure(*self),
        {
            let pa = self.current_token.precedence_and_associativity();
            let (prec, assoc) = match pa {
                None => {
                    proof {
                        assert forall|f: nat| f > m0 implies parse_expr_spec(
                            s,
                            p0,
                            c0,
                            min_precedence as int,
                            f,
                        ) == ParseStep::Parsed(
                            left@,
                            self.lexer.position as int,
                            self.current_token@,
                        ) by {
                            assert((f - 1 - shift) as nat >= 1);
                        }
                    }
                    break;
                }
                Some(pair) => pair,
            };
            if prec < min_precedence {
                proof {
                    assert forall|f: nat| f > m0 implies parse_expr_spec(
                        s,
                        p0,
                        c0,
                        min_precedence as int,
                        f,
                    ) == ParseStep::Parsed(
                        left@,
                        self.lexer.position as int,
                        self.current_token@,
                    ) by {
                        assert((f - 1 - shift) as nat >= 1);
                    }
                }
                break;
            }
            let ghost pb = self.lexer.position as int;
            let ghost cb = self.current_token@;
            let ghost mb = pmeasure(*self);
            let operator = self.current_token.duplicate();
            match self.advance() {
                Ok(_) => {}
                Err(e) => {
                    proof {
                        assert forall|f: nat| f > m0 implies parse_expr_spec(
                            s,
                            p0,
                            c0,
                            min_precedence as int,
                            f,
                        ) == ParseStep::Failed(e@) by {
                            assert((f - 1 - shift) as nat >= 1);
                        }
                    }
                    return Err(e);
                }
            }
            proof {
                assert(prec <= 3);
            }
            let next_min_precedence = match assoc {
                Associativity::Left => prec + 1,
                Associativity::Right => prec,
            };
            let ghost pc = self.lexer.position as int;
            let ghost cc = self.current_token@;
            let ghost mc = pmeasure(*self);
            proof {
                assert(!(cb is EndOfFile));
                assert(mc < mb);
                assert(pmeasure(*self) < m0);
            }
            let right = match self.parse_expression(next_min_precedence) {
                Ok(e) => e,
                Err(e) => {
                    proof {
                        assert forall|f: nat| f > m0 implies parse_expr_spec(
                            s,
                            p0,
                            c0,
                            min_precedence as int,
                            f,
                        ) == ParseStep::Failed(e@) by {
                            let g = (f - 1 - shift) as nat;
                            assert(g >= mb + 1);
                            assert(g - 1 >= mc + 1);
                            assert(parse_expr_spec(s, pc, cc, next_min_precedence as int, (g - 1) as nat)
                                == ParseStep::Failed(e@));
                        }
                    }
                    return Err(e);
                }
            };
            let ghost pd = self.lexer.position as int;
            let ghost cd = self.current_token@;
            let ghost gl = left@;
            let ghost gr = right@;
            left = self.create_binary_node(operator, left, right);
            proof {
                assert(left@ == binary_model(cb, gl, gr));
                assert forall|f: nat| f > m0 implies parse_expr_spec(
                    s,
                    p0,
                    c0,
                    min_precedence as int,
                    f,
                ) == climb_spec(
                    s,
                    pd,
                    cd,
                    left@,
                    min_precedence as int,
                    (f - 1 - (shift + 1)) as nat,
                ) by {
                    let g = (f - 1 - shift) as nat;
                    assert(g >= mb + 1);
                    assert(g - 1 >= mc + 1);
                    assert(parse_expr_spec(s, pc, cc, next_min_precedence as int, (g - 1) as nat)
                        == ParseStep::Parsed(gr, pd, cd));
                    assert(climb_spec(s, pb, cb, gl, min_precedence as int, g)
                        == climb_spec(s, pd, cd, binary_model(cb, gl, gr), min_precedence as int,
                            (g - 1) as nat));
                }
                shift = shift + 1;
            }
        }
        Ok(left)
    }

    /// Parses an atomic expression: a literal, a variable, an assignment, a
    /// function call, or a parenthesized expression.
    fn parse_atom(&mut self) -> (r: Result<Expr, CalcError>)
        requires
            old(self).wf(),
        ensures
            final(self).wf(),
            final(self).lexer.input == old(self).lexer.input,
            r is Ok ==> pmeasure(*final(self)) < pmeasure(*old(self)),
            forall|f: nat|
                f > pmeasure(*old(self)) ==> parse_atom_spec(
                    old(self).lexer.input@,
                    old(self).lexer.position as int,
                    old(self).current_token@,
                    f,
                ) == outcome_of(r, *final(self)),
        decreases pmeasure(*self), 2int,
    {
        let ghost s = self.lexer.input@;
        let ghost p0 = self.lexer.position as int;
        let ghost c0 = self.current_token@;
        let ghost m0 = pmeasure(*self);
        match &self.current_token {
            Token::Number(text) => {
                let t = text.clone();
                match self.advance() {
                    Ok(_) => {
                        proof {
                            assert forall|f: nat| f > m0 implies parse_atom_spec(s, p0, c0, f)
                                == ParseStep::Parsed(
                                ExprModel::Number(t@),
                                self.lexer.position as int,
                                self.current_token@,
                            ) by {}
                        }
                        Ok(Expr::Number(t))
                    }
                    Err(e) => Err(e),
                }
            }
            Token::Symbol(name) => {
                let symbol_name = name.clone();
                let ghost nm = symbol_name@;
                match self.advance() {
                    Ok(_) => {}
                    Err(e) => {
                        return Err(e);
                    }
                }
                let ghost pc = self.lexer.position as int;
                let ghost cc = self.current_token@;
                let ghost mc = pmeasure(*self);
                match &self.current_token {
                    Token::LeftParenthesis => {
                        let r = self.parse_function_call(symbol_name);
                        proof {
                            assert forall|f: nat| f > m0 implies parse_atom_spec(s, p0, c0, f)
                                == outcome_of(r, *self) by {
                                assert(call_spec(s, pc, nm, (f - 1) as nat)
                                    == outcome_of(r, *self));
                            }
                        }
                        r
                    }
                    Token::Equals => {
                        let r = self.parse_assignment(symbol_name);
                        proof {
                            assert forall|f: nat| f > m0 implies parse_atom_spec(s, p0, c0, f)
                                == outcome_of(r, *self) by {
                                assert(assign_spec(s, pc, nm, (f - 1) as nat)
                                    == outcome_of(r, *self));
                            }
                        }
                        r
                    }
                    _ => {
                        proof {
                            assert forall|f: nat| f > m0 implies parse_atom_spec(s, p0, c0, f)
                                == ParseStep::Parsed(ExprModel::Variable(nm), pc, cc) by {}
                        }
                        Ok(Expr::Variable(symbol_name))
                    }
                }
            }
            Token::LeftParenthesis => {
                match self.advance() {
                    Ok(_) => {}
                    Err(e) => {
                        return Err(e);
                    }
                }
                let ghost pc = self.lexer.position as int;
                let ghost cc = self.current_token@;
                let ghost mc = pmeasure(*self);
                let inner = match self.parse_expression(0) {
                    Ok(e) => e,
                    Err(e) => {
                        proof {
                            assert forall|f: nat| f > m0 implies parse_atom_spec(s, p0, c0, f)
                                == ParseStep::Failed(e@) by {
                                assert(parse_expr_spec(s, pc, cc, 0int, (f - 1) as nat)
                                    == ParseStep::Failed(e@));
                            }
                        }
                        return Err(e);
                    }
                };
                let ghost pd = self.lexer.position as int;
                let ghost cd = self.current_token@;
                let ghost gi = inner@;
                match self.expect_token(Token::RightParenthesis) {
                    Ok(_) => {
                        proof {
                            assert forall|f: nat| f > m0 implies parse_atom_spec(s, p0, c0, f)
                                == ParseStep::Parsed(
                                gi,
                                self.lexer.position as int,
                                self.current_token@,
                            ) by {
                                assert(parse_expr_spec(s, pc, cc, 0int, (f - 1) as nat)
                                    == ParseStep::Parsed(gi, pd, cd));
                            }
                        }
                        Ok(inner)
                    }
                    Err(e) => {
                        proof {
                            assert forall|f: nat| f > m0 implies parse_atom_spec(s, p0, c0, f)
                                == ParseStep::Failed(e@) by {
                                assert(parse_expr_spec(s, pc, cc, 0int, (f - 1) as nat)
                                    == ParseStep::Parsed(gi, pd, cd));
                            }
                        }
                        Err(e)
                    }
                }
            }
            _ => Err(CalcError::UnexpectedToken(self.current_token.duplicate())),
        }
    }

    /// Parses the parenthesized argument of a function call and builds the
    /// node the function name stands for.
    fn parse_function_call(&mut self, function_name: String) -> (r: Result<Expr, CalcError>)
        requires
            old(self).wf(),
            old(self).current_token@ is LeftParenthesis,
        ensures
            final(self).wf(),
            final(self).lexer.input == old(self).lexer.input,
            r is Ok ==> pmeasure(*final(self)) < pmeasure(*old(self)),
            forall|f: nat|
                f > pmeasure(*old(self)) ==> call_spec(
                    old(self).lexer.input@,
                    old(self).lexer.position as int,
                    function_name@,
                    f,
                ) == outcome_of(r, *final(self)),
        decreases pmeasure(*self), 1int,
    {
        let ghost s = self.lexer.input@;
        let ghost p0 = self.lexer.position as int;
        let ghost m0 = pmeasure(*self);
        let ghost nm = function_name@;
        match self.expect_token(Token::LeftParenthesis) {
            Ok(_) => {}
            Err(e) => {
                return Err(e);
            }
        }
        let ghost pc = self.lexer.position as int;
        let ghost cc = self.current_token@;
        let ghost mc = pmeasure(*self);
        let argument = match self.parse_expression(0) {
            Ok(e) => e,
            Err(e) => {
                proof {
                    assert forall|f: nat| f > m0 implies call_spec(s, p0, nm, f)
                        == ParseStep::Failed(e@) by {
                        assert(parse_expr_spec(s, pc, cc, 0int, (f - 1) as nat)
                            == ParseStep::Failed(e@));
                    }
                }
                return Err(e);
            }
        };
        let ghost pd = self.lexer.position as int;
        let ghost cd = self.current_token@;
        let ghost ga = argument@;
        match self.expect_token(Token::RightParenthesis) {
            Ok(_) => {}
            Err(e) => {
                proof {
                    assert forall|f: nat| f > m0 implies call_spec(s, p0, nm, f)
                        == ParseStep::Failed(e@) by {
                        assert(parse_expr_spec(s, pc, cc, 0int, (f - 1) as nat)
                            == ParseStep::Parsed(ga, pd, cd));
                    }
                }
                return Err(e);
            }
        }
        let ghost pe = self.lexer.position as int;
        let ghost ce = self.current_token@;
        proof {
            assert(forall|g: nat| g > mc ==> parse_expr_spec(s, pc, cc, 0int, g)
                == ParseStep::Parsed(ga, pd, cd));
        }
        if function_name == String::from_str("sin") {
            proof {
                assert forall|f: nat| f > m0 implies call_spec(s, p0, nm, f)
                    == ParseStep::Parsed(
                    ExprModel::Function(FunctionKind::Sine, Box::new(ga)),
                    pe,
                    ce,
                ) by {
                    assert(parse_expr_spec(s, pc, cc, 0int, (f - 1) as nat)
                        == ParseStep::Parsed(ga, pd, cd));
                }
            }
            Ok(Expr::Function(FunctionKind::Sine, Box::new(argument)))
        } else if function_name == String::from_str("cos") {
            proof {
                assert forall|f: nat| f > m0 implies call_spec(s, p0, nm, f)
                    == ParseStep::Parsed(
                    ExprModel::Function(FunctionKind::Cosine, Box::new(ga)),
                    pe,
                    ce,
                ) by {
                    assert(parse_expr_spec(s, pc, cc, 0int, (f - 1) as nat)
                        == ParseStep::Parsed(ga, pd, cd));
                }
            }
            Ok(Expr::Function(FunctionKind::Cosine, Box::new(argument)))
        } else if function_name == String::from_str("sqrt") {
            proof {
                assert forall|f: nat| f > m0 implies call_spec(s, p0, nm, f)
                    == ParseStep::Parsed(
                    ExprModel::Function(FunctionKind::SquareRoot, Box::new(ga)),
                    pe,
                    ce,
                ) by {
                    assert(parse_expr_spec(s, pc, cc, 0int, (f - 1) as nat)
                        == ParseStep::Parsed(ga, pd, cd));
                }
            }
            Ok(Expr::Function(FunctionKind::SquareRoot, Box::new(argument)))
        } else if function_name == String::from_str("print") {
            proof {
                assert forall|f: nat| f > m0 implies call_spec(s, p0, nm, f)
                    == ParseStep::Parsed(ExprModel::Print(Box::new(ga)), pe, ce) by {
                    assert(parse_expr_spec(s, pc, cc, 0int, (f - 1) as nat)
                        == ParseStep::Parsed(ga, pd, cd));
                }
            }
            Ok(Expr::Print(Box::new(argument)))
        } else {
            proof {
                assert forall|f: nat| f > m0 implies call_spec(s, p0, nm, f)
                    == ParseStep::Failed(CalcErrorModel::UnknownFunction(nm)) by {
                    assert(parse_expr_spec(s, pc, cc, 0int, (f - 1) as nat)
                        == ParseStep::Parsed(ga, pd, cd));
                }
            }
            Err(CalcError::UnknownFunction(function_name))
        }
    }

    /// Parses the value of an assignment to the given variable name.
    fn parse_assignment(&mut self, variable_name: String) -> (r: Result<Expr, CalcError>)
        requires
            old(self).wf(),
            old(self).current_token@ is Equals,
        ensures
            final(self).wf(),
            final(self).lexer.input == old(self).lexer.input,
            r is Ok ==> pmeasure(*final(self)) < pmeasure(*old(self)),
            forall|f: nat|
                f > pmeasure(*old(self)) ==> assign_spec(
                    old(self).lexer.input@,
                    old(self).lexer.position as int,
                    variable_name@,
                    f,
                ) == outcome_of(r, *final(self)),
        decreases pmeasure(*self), 1int,
    {
        let ghost s = self.lexer.input@;
        let ghost p0 = self.lexer.position as int;
        let ghost m0 = pmeasure(*self);
        let ghost nm = variable_name@;
        match self.expect_token(Token::Equals) {
            Ok(_) => {}
            Err(e) => {
                return Err(e);
            }
        }
        let ghost pc = self.lexer.position as int;
        let ghost cc = self.current_token@;
        let ghost mc = pmeasure(*self);
        let value_expr = match self.parse_expression(0) {
            Ok(e) => e,
            Err(e) => {
                proof {
                    assert forall|f: nat| f > m0 implies assign_spec(s, p0, nm, f)
                        == ParseStep::Failed(e@) by {
                        assert(parse_expr_spec(s, pc, cc, 0int, (f - 1) as nat)
                            == ParseStep::Failed(e@));
                    }
                }
                return Err(e);
            }
        };
        let ghost pd = self.lexer.position as int;
        let ghost cd = self.current_token@;
        let ghost gv = value_expr@;
        proof {
            assert forall|f: nat| f > m0 implies assign_spec(s, p0, nm, f) == ParseStep::Parsed(
                ExprModel::Assign(nm, Box::new(gv)),
                pd,
                cd,
            ) by {
                assert(parse_expr_spec(s, pc, cc, 0int, (f - 1) as nat) == ParseStep::Parsed(
                    gv,
                    pd,
                    cd,
                ));
            }
        }
        Ok(Expr::Assign(variable_name, Box::new(value_expr)))
    }
}

/// What parsing a whole source line yields: the expression tree, or the
/// first error of scanning or parsing.
pub open spec fn parse_source_spec(s: Seq<char>) -> Result<ExprModel, CalcErrorModel> {
    let nt = spec_next_token(s, 0);
    match nt.0 {
        Err(e) => Err(e),
        Ok(c0) => match parse_finish_spec(s, nt.1, c0, (s.len() + 2) as nat) {
            ParseStep::Parsed(e, p, c) => Ok(e),
            ParseStep::Failed(e) => Err(e),
            ParseStep::Short => vstd::pervasive::arbitrary(),
        },
    }
}

/// Parses one source line into an expression tree.
pub fn parse_source(source: &str) -> (r: Result<Expr, CalcError>)
    ensures
        expr_result_model(r) == parse_source_spec(source@),
        !(parse_finish_spec_is_short(source@)),
{
    let ghost s = source@;
    let mut parser = match Parser::new(source) {
        Ok(p) => p,
        Err(e) => {
            return Err(e);
        }
    };
    proof {
        lemma_spec_next_token_bounds(s, 0);
        assert(pmeasure(parser) < s.len() + 2);
    }
    parser.parse()
}

/// Whether the specification parse of a whole source line runs out of fuel;
/// `parse_source` shows it never does.
pub open spec fn parse_finish_spec_is_short(s: Seq<char>) -> bool {
    match spec_next_token(s, 0).0 {
        Err(e) => false,
        Ok(c0) => parse_finish_spec(s, spec_next_token(s, 0).1, c0, (s.len() + 2) as nat)
            is Short,
    }
}

} // verus!
