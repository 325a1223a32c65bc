//! The scanner: converts the source text into a token stream on demand.

use vstd::prelude::*;
use vstd::string::StrSliceExecFns;
use crate::err::{CalcError, CalcErrorModel};
use crate::token::{Token, TokenModel};

verus! {

/// The characters that `char::is_whitespace` accepts: the Unicode
/// `White_Space` code points.
pub open spec fn is_whitespace_char(c: char) -> bool {
    let u = c as u32;
    u == 0x20 || (0x9 <= u && u <= 0xD) || u == 0x85 || u == 0xA0 || u == 0x1680
        || (0x2000 <= u && u <= 0x200A) || u == 0x2028 || u == 0x2029 || u == 0x202F
        || u == 0x205F || u == 0x3000
}

/// ASCII decimal digit.
pub open spec fn is_digit_char(c: char) -> bool {
    48 <= c as u32 && c as u32 <= 57
}

/// A character a numeric literal may continue with: a digit or a dot.
pub open spec fn is_number_char(c: char) -> bool {
    is_digit_char(c) || c as u32 == 46
}

/// ASCII alphabetic character.
pub open spec fn is_alpha_char(c: char) -> bool {
    (65 <= c as u32 && c as u32 <= 90) || (97 <= c as u32 && c as u32 <= 122)
}

/// First position at or after `i` that does not hold whitespace.
pub open spec fn skip_ws_end(s: Seq<char>, i: int) -> int
    decreases s.len() - i when 0 <= i <= s.len()
{
    if i < s.len() && is_whitespace_char(s[i]) {
        skip_ws_end(s, i + 1)
    } else {
        i
    }
}

/// End of the maximal run of digits and dots starting at `i`.
pub open spec fn number_run_end(s: Seq<char>, i: int) -> int
    decreases s.len() - i when 0 <= i <= s.len()
{
    if i < s.len() && is_number_char(s[i]) {
        number_run_end(s, i + 1)
    } else {
        i
    }
}

/// End of the maximal run of alphabetic characters starting at `i`.
pub open spec fn symbol_run_end(s: Seq<char>, i: int) -> int
    decreases s.len() - i when 0 <= i <= s.len()
{
    if i < s.len() && is_alpha_char(s[i]) {
        symbol_run_end(s, i + 1)
    } else {
        i
    }
}

/// Number of dots in a piece of text.
pub open spec fn dot_count(t: Seq<char>) -> nat
    decreases t.len(),
{
    if t.len() == 0 {
        0
    } else {
        dot_count(t.drop_last()) + if t.last() == '.' { 1nat } else { 0nat }
    }
}

/// A scanned digits-and-dots run is a well-formed literal exactly when it
/// holds at most one dot; the standard float parser accepts precisely those.
pub open spec fn valid_number_text(t: Seq<char>) -> bool {
    dot_count(t) <= 1
}

pub proof fn lemma_skip_ws_end_bounds(s: Seq<char>, i: int)
    requires
        0 <= i <= s.len(),
    ensures
        i <= skip_ws_end(s, i) <= s.len(),
    decreases s.len() - i,
{
    if i < s.len() && is_whitespace_char(s[i]) {
        lemma_skip_ws_end_bounds(s, i + 1);
    }
}

pub proof fn lemma_number_run_end_bounds(s: Seq<char>, i: int)
    requires
        0 <= i <= s.len(),
    ensures
        i <= number_run_end(s, i) <= s.len(),
    decreases s.len() - i,
{
    if i < s.len() && is_number_char(s[i]) {
        lemma_number_run_end_bounds(s, i + 1);
    }
}

pub proof fn lemma_symbol_run_end_bounds(s: Seq<char>, i: int)
    requires
        0 <= i <= s.len(),
    ensures
        i <= symbol_run_end(s, i) <= s.len(),
    decreases s.len() - i,
{
    if i < s.len() && is_alpha_char(s[i]) {
        lemma_symbol_run_end_bounds(s, i + 1);
    }
}

/// What one scanning step yields from position `pos`: the token or error,
/// and the position of the cursor afterwards.
pub open spec fn spec_next_token(s: Seq<char>, pos: int) -> (Result<TokenModel, CalcErrorModel>, int) {
    let j = skip_ws_end(s, pos);
    if j >= s.len() {
        (Ok(TokenModel::EndOfFile), j)
    } else {
        let c = s[j];
        if c == '(' {
            (Ok(TokenModel::LeftParenthesis), j + 1)
        } else if c == ')' {
            (Ok(TokenModel::RightParenthesis), j + 1)
        } else if c == '+' {
            (Ok(TokenModel::Plus), j + 1)
        } else if c == '-' {
            (Ok(TokenModel::Minus), j + 1)
        } else if c == '*' {
            (Ok(TokenModel::Multiply), j + 1)
        } else if c == '/' {
            (Ok(TokenModel::Divide), j + 1)
        } else if c == '^' {
            (Ok(TokenModel::Caret), j + 1)
        } else if c == '=' {
            (Ok(TokenModel::Equals), j + 1)
        } else if is_digit_char(c) {
            let k = number_run_end(s, j);
            let t = s.subrange(j, k);
            if valid_number_text(t) {
                (Ok(TokenModel::Number(t)), k)
            } else {
                (Err(CalcErrorModel::MalformedNumber(t)), k)
            }
        } else if is_alpha_char(c) {
            let k = symbol_run_end(s, j);
            (Ok(TokenModel::Symbol(s.subrange(j, k))), k)
        } else {
            (Err(CalcErrorModel::UnexpectedCharacter(c)), j)
        }
    }
}

/// Law: the scanner is idempotent at the end of the input. Once a scan from
/// some position yields the end-of-input token, every later scan yields the
/// end-of-input token again, from the same position.
pub proof fn lemma_end_of_input_is_stable(s: Seq<char>, pos: int)
    requires
        0 <= pos <= s.len(),
        spec_next_token(s, pos).0 == Result::<TokenModel, CalcErrorModel>::Ok(
            TokenModel::EndOfFile,
        ),
    ensures
        spec_next_token(s, pos).1 == s.len(),
        spec_next_token(s, spec_next_token(s, pos).1) == spec_next_token(s, pos),
{
    lemma_skip_ws_end_bounds(s, pos);
    assert(skip_ws_end(s, pos) == s.len());
    assert(skip_ws_end(s, s.len() as int) == s.len());
}

/// The model of a scanning result.
pub open spec fn token_result_model(r: Result<Token, CalcError>) -> Result<TokenModel, CalcErrorModel> {
    match r {
        Ok(t) => Ok(t@),
        Err(e) => Err(e@),
    }
}

/// Relies on String::push: appends one character at the end of the string.
#[verifier::external_body]
fn push_char(s: &mut String, c: char)
    ensures
        final(s)@ == old(s)@.push(c),
{
    s.push(c);
}

fn is_whitespace_exec(c: char) -> (r: bool)
    ensures
        r == is_whitespace_char(c),
{
    let u = c as u32;
    u == 0x20 || (0x9 <= u && u <= 0xD) || u == 0x85 || u == 0xA0 || u == 0x1680
        || (0x2000 <= u && u <= 0x200A) || u == 0x2028 || u == 0x2029 || u == 0x202F
        || u == 0x205F || u == 0x3000
}

fn is_digit_exec(c: char) -> (r: bool)
    ensures
        r == is_digit_char(c),
{
    let u = c as u32;
    48 <= u && u <= 57
}

fn is_number_exec(c: char) -> (r: bool)
    ensures
        r == is_number_char(c),
{
    let u = c as u32;
    (48 <= u && u <= 57) || u == 46
}

fn is_alpha_exec(c: char) -> (r: bool)
    ensures
        r == is_alpha_char(c),
{
    let u = c as u32;
    (65 <= u && u <= 90) || (97 <= u && u <= 122)
}

/// The scanner. Its cursor only ever moves forward; once it has yielded
/// `EndOfFile` it keeps yielding `EndOfFile`.
pub struct Lexer {
    /// Source text as a character vector.
    pub input: Vec<char>,
    /// Current reading position.
    pub position: usize,
}

impl Lexer {
    /// The cursor stays inside the input.
    pub open spec fn wf(&self) -> bool {
        self.position <= self.input.len()
    }

    /// Creates a new lexer for the given input string.
    pub fn new(input: &str) -> (r: Lexer)
        ensures
            r.input@ == input@,
            r.position == 0,
            r.wf(),
    {
        let n = input.unicode_len();
        let mut v: Vec<char> = Vec::new();
        let mut i: usize = 0;
        while i < n
            invariant
                n == input@.len(),
                i <= n,
                v@ == input@.subrange(0, i as int),
            decreases n - i,
        {
            v.push(input.get_char(i));
            i += 1;
            proof {
                assert(v@ =~= input@.subrange(0, i as int));
            }
        }
        proof {
            assert(v@ =~= input@);
        }
        Lexer { input: v, position: 0 }
    }

    /// Returns the current character without consuming it.
    pub fn current_char(&self) -> (r: Option<char>)
        ensures
            r == (if self.position < self.input@.len() {
                Some(self.input@[self.position as int])
            } else {
                Option::<char>::None
            }),
    {
        if self.position < self.input.len() {
            Some(self.input[self.position])
        } else {
            None
        }
    }

    /// Advances to the next character of the input.
    pub fn advance(&mut self)
        requires
            old(self).position < old(self).input.len(),
        ensures
            final(self).input == old(self).input,
            final(self).position == old(self).position + 1,
    {
        self.position = self.position + 1;
    }

    /// Skips the whitespace under the cursor.
    pub fn skip_whitespace(&mut self)
        requires
            old(self).wf(),
        ensures
            final(self).wf(),
            final(self).input == old(self).input,
            final(self).position == skip_ws_end(old(self).input@, old(self).position as int),
    {
        loop
            invariant
                self.wf(),
                self.input == old(self).input,
                skip_ws_end(self.input@, self.position as int)
                    == skip_ws_end(old(self).input@, old(self).position as int),
            ensures
                self.wf(),
                self.input == old(self).input,
                self.position as int
                    == skip_ws_end(old(self).input@, old(self).position as int),
            decreases self.input.len() - self.position,
        {
            match self.current_char() {
                Some(c) => {
                    if !is_whitespace_exec(c) {
                        break;
                    }
                    self.advance();
                }
                None => {
                    break;
                }
            }
        }
    }

    /// Consumes the current character and returns the given token.
    fn consume(&mut self, token: Token) -> (r: Result<Token, CalcError>)
        requires
            old(self).position < old(self).input.len(),
        ensures
            final(self).input == old(self).input,
            final(self).position == old(self).position + 1,
            r == Result::<Token, CalcError>::Ok(token),
    {
        self.advance();
        Ok(token)
    }

    /// Reads a numeric literal under the cursor.
    fn read_number(&mut self) -> (r: Result<Token, CalcError>)
        requires
            old(self).wf(),
            old(self).position < old(self).input.len(),
            is_digit_char(old(self).input@[old(self).position as int]),
        ensures
            final(self).wf(),
            final(self).input == old(self).input,
            final(self).position == number_run_end(old(self).input@, old(self).position as int),
            ({
                let t = old(self).input@.subrange(
                    old(self).position as int,
                    number_run_end(old(self).input@, old(self).position as int),
                );
                token_result_model(r) == if valid_number_text(t) {
                    Result::<TokenModel, CalcErrorModel>::Ok(TokenModel::Number(t))
                } else {
                    Result::<TokenModel, CalcErrorModel>::Err(CalcErrorModel::MalformedNumber(t))
                }
            }),
    {
        let ghost s = self.input@;
        let ghost start = self.position as int;
        let mut text = String::new();
        let mut dots: usize = 0;
        loop
            invariant
                s == old(self).input@,
                self.wf(),
                self.input == old(self).input,
                0 <= start <= self.position as int,
                text@ == s.subrange(start, self.position as int),
                dots == (if dot_count(text@) <= 2 { dot_count(text@) } else { 2nat }),
                number_run_end(s, self.position as int) == number_run_end(s, start),
            ensures
                self.wf(),
                self.input == old(self).input,
                self.position as int == number_run_end(s, start),
                text@ == s.subrange(start, self.position as int),
                dots == (if dot_count(text@) <= 2 { dot_count(text@) } else { 2nat }),
            decreases self.input.len() - self.position,
        {
            match self.current_char() {
                Some(c) => {
                    if !is_number_exec(c) {
                        break;
                    }
                    let ghost t0 = text@;
                    push_char(&mut text, c);
                    if c == '.' && dots < 2 {
                        dots += 1;
                    }
                    self.advance();
                    proof {
                        let p = self.position as int;
                        assert(0 <= start <= p - 1);
                        assert(p <= s.len());
                        assert(c == s[p - 1]);
                        assert(text@.drop_last() =~= t0);
                        assert(dot_count(text@) == dot_count(t0)
                            + if c == '.' { 1nat } else { 0nat });
                        assert forall|i: int| 0 <= i < p - start implies s.subrange(start, p)[i]
                            == s.subrange(start, p - 1).push(s[p - 1])[i] by {
                            if i < p - 1 - start {
                                assert(s.subrange(start, p)[i] == s[start + i]);
                            } else {
                                assert(i == p - 1 - start);
                            }
                        }
                        assert(s.subrange(start, p) =~= s.subrange(start, p - 1).push(s[p - 1]));
                    }
                }
                None => {
                    break;
                }
            }
        }
        if dots <= 1 {
            Ok(Token::Number(text))
        } else {
            Err(CalcError::MalformedNumber(text))
        }
    }

    /// Reads a symbol or identifier under the cursor.
    fn read_symbol(&mut self) -> (r: Result<Token, CalcError>)
        requires
            old(self).wf(),
            old(self).position < old(self).input.len(),
            is_alpha_char(old(self).input@[old(self).position as int]),
        ensures
            final(self).wf(),
            final(self).input == old(self).input,
            final(self).position == symbol_run_end(old(self).input@, old(self).position as int),
            token_result_model(r) == Result::<TokenModel, CalcErrorModel>::Ok(
                TokenModel::Symbol(old(self).input@.subrange(
                    old(self).position as int,
                    symbol_run_end(old(self).input@, old(self).position as int),
                )),
            ),
    {
        let ghost s = self.input@;
        let ghost start = self.position as int;
        let mut text = String::new();
        loop
            invariant
                s == old(self).input@,
                self.wf(),
                self.input == old(self).input,
                0 <= start <= self.position as int,
                text@ == s.subrange(start, self.position as int),
                symbol_run_end(s, self.position as int) == symbol_run_end(s, start),
            ensures
                self.wf(),
                self.input == old(self).input,
                self.position as int == symbol_run_end(s, start),
                text@ == s.subrange(start, self.position as int),
            decreases self.input.len() - self.position,
        {
            match self.current_char() {
                Some(c) => {
                    if !is_alpha_exec(c) {
                        break;
                    }
                    push_char(&mut text, c);
                    self.advance();
                    proof {
                        let p = self.position as int;
                        assert(s.subrange(start, p) =~= s.subrange(start, p - 1).push(s[p - 1]));
                    }
                }
                None => {
                    break;
                }
            }
        }
        Ok(Token::Symbol(text))
    }

    /// Reads and returns the next token from the input.
    pub fn next_token(&mut self) -> (r: Result<Token, CalcError>)
        requires
            old(self).wf(),
        ensures
            final(self).wf(),
            final(self).input == old(self).input,
            token_result_model(r) == spec_next_token(old(self).input@, old(self).position as int).0,
            final(self).position == spec_next_token(old(self).input@, old(self).position as int).1,
    {
        self.skip_whitespace();
        proof {
            lemma_skip_ws_end_bounds(old(self).input@, old(self).position as int);
        }
        match self.current_char() {
            Some(c) => {
                if c == '(' {
                    self.consume(Token::LeftParenthesis)
                } else if c == ')' {
                    self.consume(Token::RightParenthesis)
                } else if c == '+' {
                    self.consume(Token::Plus)
                } else if c == '-' {
                    self.consume(Token::Minus)
                } else if c == '*' {
                    self.consume(Token::Multiply)
                } else if c == '/' {
                    self.consume(Token::Divide)
                } else if c == '^' {
                    self.consume(Token::Caret)
                } else if c == '=' {
                    self.consume(Token::Equals)
                } else if is_digit_exec(c) {
                    proof {
                        lemma_number_run_end_bounds(self.input@, self.position as int);
                    }
                    self.read_number()
                } else if is_alpha_exec(c) {
                    proof {
                        lemma_symbol_run_end_bounds(self.input@, self.position as int);
                    }
                    self.read_symbol()
                } else {
                    Err(CalcError::UnexpectedCharacter(c))
                }
            }
            None => Ok(Token::EndOfFile),
        }
    }
}

} // verus!
