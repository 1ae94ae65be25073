//! The compiler: a single-pass Pratt parser that emits bytecode directly
//! into a chunk while it reads tokens, with no intermediate syntax tree.
//!
//! On success the emitted code is proved to be a well-formed expression
//! segment closed by a final `Return` byte: it decodes into whole
//! instructions, every `Constant` operand indexes into the constant pool,
//! and the stack never underflows when it runs.

use crate::chunk::binary_seg;
use crate::chunk::expr_seg;
use crate::chunk::lemma_expr_seg_grow;
use crate::chunk::lemma_seg_wf_concat;
use crate::chunk::seg_wf;
use crate::chunk::spec_op_byte;
use crate::chunk::spec_op_from_byte;
use crate::chunk::Chunk;
use crate::chunk::OpCode;
use crate::scanner::spec_token_end;
use crate::scanner::spec_token_kind;
use crate::scanner::spec_token_lexeme;
use crate::scanner::Scanner;
use crate::scanner::Token;
use crate::scanner::TokenType;
use crate::value::number_value_bits;
use crate::value::Value;
use crate::vm::InterpretError;
use crate::vm::InterpretResult;
use vstd::prelude::*;

verus! {

/// The parser's token window and error flags. `previous` is the token most
/// recently consumed, `current` the lookahead.
pub struct Parser {
    pub current: Token,
    pub previous: Token,
    pub had_error: bool,
    pub panic_mode: bool,
}

/// The precedence ladder, strictly ordered from `Lowest` (no precedence;
/// the level of tokens that bind nothing) up to `Primary`.
#[derive(Clone, Copy, PartialEq, Eq, Structural, Debug)]
pub enum Prec {
    Lowest,
    Assignment,
    Or,
    And,
    Equality,
    Comparison,
    Term,
    Factor,
    Unary,
    Call,
    Primary,
}

/// The numeric rank of a precedence level.
pub open spec fn spec_prec_rank(p: Prec) -> int {
    match p {
        Prec::Lowest => 0,
        Prec::Assignment => 1,
        Prec::Or => 2,
        Prec::And => 3,
        Prec::Equality => 4,
        Prec::Comparison => 5,
        Prec::Term => 6,
        Prec::Factor => 7,
        Prec::Unary => 8,
        Prec::Call => 9,
        Prec::Primary => 10,
    }
}

impl Prec {
    /// The level's numeric rank, for comparisons.
    pub fn rank(self) -> (r: u8)
        ensures
            r as int == spec_prec_rank(self),
    {
        match self {
            Prec::Lowest => 0,
            Prec::Assignment => 1,
            Prec::Or => 2,
            Prec::And => 3,
            Prec::Equality => 4,
            Prec::Comparison => 5,
            Prec::Term => 6,
            Prec::Factor => 7,
            Prec::Unary => 8,
            Prec::Call => 9,
            Prec::Primary => 10,
        }
    }

    /// The next level up; `Primary` stays `Primary`.
    pub fn next(self) -> (r: Prec)
        ensures
            spec_prec_rank(r) == if spec_prec_rank(self) < 10 {
                spec_prec_rank(self) + 1
            } else {
                10int
            },
    {
        match self {
            Prec::Lowest => Prec::Assignment,
            Prec::Assignment => Prec::Or,
            Prec::Or => Prec::And,
            Prec::And => Prec::Equality,
            Prec::Equality => Prec::Comparison,
            Prec::Comparison => Prec::Term,
            Prec::Term => Prec::Factor,
            Prec::Factor => Prec::Unary,
            Prec::Unary => Prec::Call,
            Prec::Call => Prec::Primary,
            Prec::Primary => Prec::Primary,
        }
    }
}

/// A parser action that begins an expression.
#[derive(Clone, Copy, PartialEq, Eq, Structural, Debug)]
pub enum PrefixAction {
    Grouping,
    Unary,
    Number,
    Literal,
}

/// A parser action that continues an expression after a left operand.
#[derive(Clone, Copy, PartialEq, Eq, Structural, Debug)]
pub enum InfixAction {
    Binary,
}

/// One row of the Pratt rule table: the optional prefix and infix actions of
/// a token kind, and the precedence of its infix position.
pub struct ParseRule {
    pub prefix: Option<PrefixAction>,
    pub infix: Option<InfixAction>,
    pub precedence: Prec,
}

impl ParseRule {
    pub fn new(prefix: Option<PrefixAction>, infix: Option<InfixAction>, precedence: Prec) -> (r:
        Self)
        ensures
            r.prefix == prefix,
            r.infix == infix,
            r.precedence == precedence,
    {
        ParseRule { prefix, infix, precedence }
    }
}

/// The prefix action of each token kind.
pub open spec fn spec_prefix_of(t: TokenType) -> Option<PrefixAction> {
    match t {
        TokenType::LeftParen => Some(PrefixAction::Grouping),
        TokenType::Minus => Some(PrefixAction::Unary),
        TokenType::Number => Some(PrefixAction::Number),
        TokenType::True | TokenType::False | TokenType::Nil => Some(PrefixAction::Literal),
        _ => None,
    }
}

/// The infix action of each token kind.
pub open spec fn spec_infix_of(t: TokenType) -> Option<InfixAction> {
    match t {
        TokenType::Minus | TokenType::Plus | TokenType::Slash | TokenType::Star => Some(
            InfixAction::Binary,
        ),
        _ => None,
    }
}

/// The literal-loading opcode a token kind selects.
pub open spec fn spec_literal_op(t: TokenType) -> OpCode {
    match t {
        TokenType::True => OpCode::True,
        TokenType::False => OpCode::False,
        _ => OpCode::Nil,
    }
}

/// A token kind that a single instruction loads: a number or one of the
/// three literal keywords.
pub open spec fn is_literal_kind(t: TokenType) -> bool {
    t == TokenType::Number || t == TokenType::True || t == TokenType::False || t == TokenType::Nil
}

/// The value a literal token denotes.
pub open spec fn spec_literal_value(t: TokenType, lex: Seq<char>) -> Value {
    match t {
        TokenType::Number => Value::Number(number_value_bits(lex)),
        TokenType::True => Value::Bool(true),
        TokenType::False => Value::Bool(false),
        _ => Value::Nil,
    }
}

/// The code a literal token compiles to, given the constant pool size at
/// emission.
pub open spec fn spec_literal_code(t: TokenType, pool: int) -> Seq<u8> {
    if t == TokenType::Number {
        seq![0u8, pool as u8]
    } else {
        seq![spec_op_byte(spec_literal_op(t))]
    }
}

/// The constants a literal token appends to the pool.
pub open spec fn spec_literal_consts(t: TokenType, lex: Seq<char>) -> Seq<Value> {
    if t == TokenType::Number {
        seq![Value::Number(number_value_bits(lex))]
    } else {
        Seq::<Value>::empty()
    }
}

/// The IEEE-754 double bit pattern a binary operator token computes from
/// its operands' bit patterns.
pub open spec fn spec_arith_bits(t: TokenType, x: u64, y: u64) -> u64 {
    match t {
        TokenType::Plus => crate::value::add_bits(x, y),
        TokenType::Minus => crate::value::sub_bits(x, y),
        TokenType::Star => crate::value::mul_bits(x, y),
        _ => crate::value::div_bits(x, y),
    }
}

/// The arithmetic opcode a binary operator token selects.
pub open spec fn spec_binary_op(t: TokenType) -> OpCode {
    match t {
        TokenType::Plus => OpCode::Add,
        TokenType::Minus => OpCode::Subtract,
        TokenType::Star => OpCode::Multiply,
        TokenType::Slash => OpCode::Divide,
        _ => OpCode::Unknown,
    }
}

/// The infix precedence of each token kind.
pub open spec fn spec_prec_of(t: TokenType) -> Prec {
    match t {
        TokenType::Minus | TokenType::Plus => Prec::Term,
        TokenType::Slash | TokenType::Star => Prec::Factor,
        _ => Prec::Lowest,
    }
}

/// The Pratt rule table, one row per token kind.
pub fn get_rule(t: TokenType) -> (r: ParseRule)
    ensures
        r.prefix == spec_prefix_of(t),
        r.infix == spec_infix_of(t),
        r.precedence == spec_prec_of(t),
{
    match t {
        TokenType::LeftParen => ParseRule::new(Some(PrefixAction::Grouping), None, Prec::Lowest),
        TokenType::Minus => ParseRule::new(
            Some(PrefixAction::Unary),
            Some(InfixAction::Binary),
            Prec::Term,
        ),
        TokenType::Plus => ParseRule::new(None, Some(InfixAction::Binary), Prec::Term),
        TokenType::Slash => ParseRule::new(None, Some(InfixAction::Binary), Prec::Factor),
        TokenType::Star => ParseRule::new(None, Some(InfixAction::Binary), Prec::Factor),
        TokenType::Number => ParseRule::new(Some(PrefixAction::Number), None, Prec::Lowest),
        TokenType::True => ParseRule::new(Some(PrefixAction::Literal), None, Prec::Lowest),
        TokenType::False => ParseRule::new(Some(PrefixAction::Literal), None, Prec::Lowest),
        TokenType::Nil => ParseRule::new(Some(PrefixAction::Literal), None, Prec::Lowest),
        _ => ParseRule::new(None, None, Prec::Lowest),
    }
}

/// One compile-time diagnostic: the line, where it points (`at end`, at a
/// lexeme, or nowhere for malformed-token reports), and the message.
pub struct Diagnostic {
    pub line: usize,
    pub at_end: bool,
    pub lexeme: Option<String>,
    pub message: String,
}

/// The compiler: parser state, the scanner it draws tokens from, the chunk
/// it emits into, and the first diagnostic reported.
pub struct Compiler {
    parser: Parser,
    scanner: Scanner,
    chunk: Chunk,
    diagnostic: Option<Diagnostic>,
}

impl Compiler {
    /// The emitted code bytes.
    pub closed spec fn code(&self) -> Seq<u8> {
        self.chunk.code()
    }

    /// The constant pool so far.
    pub closed spec fn consts(&self) -> Seq<Value> {
        self.chunk.constants()
    }

    /// Whether any compile error was reported.
    pub closed spec fn had_error(&self) -> bool {
        self.parser.had_error
    }

    /// Whether a diagnostic was recorded.
    pub closed spec fn has_diagnostic(&self) -> bool {
        self.diagnostic is Some
    }

    /// The kind of the lookahead token.
    pub closed spec fn cur_kind(&self) -> TokenType {
        self.parser.current.t
    }

    /// The kind of the most recently consumed token.
    pub closed spec fn prev_kind(&self) -> TokenType {
        self.parser.previous.t
    }

    /// The lexeme of the most recently consumed token.
    pub closed spec fn prev_lexeme(&self) -> Seq<char> {
        self.parser.previous.lexme@
    }

    /// The lexeme of the lookahead token.
    pub closed spec fn cur_lexeme(&self) -> Seq<char> {
        self.parser.current.lexme@
    }

    /// The line of the lookahead token.
    pub closed spec fn cur_line(&self) -> int {
        self.parser.current.line as int
    }

    /// The line of the most recently consumed token.
    pub closed spec fn prev_line(&self) -> int {
        self.parser.previous.line as int
    }

    /// Whether the parser is suppressing further diagnostics.
    pub closed spec fn panicking(&self) -> bool {
        self.parser.panic_mode
    }

    /// The recorded diagnostic.
    pub closed spec fn diag_spec(&self) -> Option<Diagnostic> {
        self.diagnostic
    }

    /// The source being compiled.
    pub closed spec fn src(&self) -> Seq<char> {
        self.scanner.src()
    }

    /// The scanner's position in the source.
    pub closed spec fn scan_pos(&self) -> int {
        self.scanner.pos()
    }

    /// Work remaining: unread characters, plus one for a buffered lookahead
    /// token. Every parsing step consumes from it.
    pub closed spec fn fuel(&self) -> int {
        self.scanner.src().len() - self.scanner.pos() + if self.parser.current.t
            == TokenType::Eof {
            0int
        } else {
            1int
        }
    }

    /// The compiler's invariant.
    pub closed spec fn wf(&self) -> bool {
        &&& self.scanner.wf()
        &&& self.scanner.line_ok()
        &&& 0 <= self.scanner.pos() <= self.scanner.src().len()
        &&& self.chunk.wf()
        &&& self.chunk.constants().len() <= 256
        &&& (self.parser.current.t == TokenType::Eof ==> self.scanner.pos()
            == self.scanner.src().len())
        &&& (self.parser.had_error ==> self.diagnostic is Some)
        &&& (self.parser.panic_mode <==> self.diagnostic is Some)
    }

    pub fn new(source: &str) -> (r: Self)
        requires
            source@.len() < usize::MAX,
        ensures
            r.wf(),
            r.code() == Seq::<u8>::empty(),
            r.consts() == Seq::<Value>::empty(),
            r.src() == source@,
            r.scan_pos() == 0,
            !r.had_error(),
            !r.panicking(),
    {
        Compiler {
            parser: Parser {
                current: Token { t: TokenType::Error, lexme: String::new(), line: 1 },
                previous: Token { t: TokenType::Error, lexme: String::new(), line: 1 },
                had_error: false,
                panic_mode: false,
            },
            scanner: Scanner::new(source),
            chunk: Chunk::new(),
            diagnostic: None,
        }
    }

    /// Moves the lookahead into `previous` and scans the next token,
    /// reporting and skipping every malformed token on the way.
    pub fn advance(&mut self)
        requires
            old(self).wf(),
        ensures
            final(self).wf(),
            evolves(*old(self), *final(self)),
            final(self).code() == old(self).code(),
            final(self).consts() == old(self).consts(),
            final(self).prev_kind() == old(self).cur_kind(),
            final(self).prev_lexeme() == old(self).cur_lexeme(),
            final(self).prev_line() == old(self).cur_line(),
            old(self).cur_kind() != TokenType::Eof ==> final(self).fuel() < old(self).fuel(),
            !final(self).had_error() ==> final(self).cur_kind() == spec_token_kind(
                old(self).src(),
                old(self).scan_pos(),
            ) && final(self).cur_lexeme() == spec_token_lexeme(old(self).src(), old(self).scan_pos())
                && final(self).scan_pos() == spec_token_end(old(self).src(), old(self).scan_pos())
                && final(self).cur_line() == 1 + crate::scanner::newlines_before(
                old(self).src(),
                spec_token_end(old(self).src(), old(self).scan_pos()),
            ),
            !old(self).had_error() && spec_token_kind(old(self).src(), old(self).scan_pos())
                != TokenType::Error ==> !final(self).had_error() && final(self).panicking() == old(self).panicking() && final(self).diag_spec() == old(self).diag_spec(),
            old(self).panicking() ==> final(self).panicking() && final(self).diag_spec() == old(self).diag_spec(),
            final(self).cur_kind() != TokenType::Error,
    {
        self.parser.previous = self.parser.current.duplicate();

        loop
            invariant_except_break
                !self.had_error() ==> self.scan_pos() == old(self).scan_pos(),
            invariant
                self.wf(),
                self.src() == old(self).src(),
                self.code() == old(self).code(),
                self.consts() == old(self).consts(),
                self.prev_kind() == old(self).cur_kind(),
                self.prev_lexeme() == old(self).cur_lexeme(),
                self.prev_line() == old(self).cur_line(),
                old(self).had_error() ==> self.had_error(),
                0 <= self.scan_pos() <= self.src().len(),
                self.scan_pos() >= old(self).scan_pos(),
                old(self).cur_kind() == TokenType::Eof ==> self.scan_pos()
                    == old(self).src().len(),
                !old(self).had_error() && spec_token_kind(old(self).src(), old(self).scan_pos())
                    != TokenType::Error ==> !self.had_error() && self.panicking() == old(self).panicking() && self.diag_spec() == old(self).diag_spec(),
                old(self).panicking() ==> self.panicking() && self.diag_spec() == old(self).diag_spec(),
            ensures
                self.wf(),
                self.src() == old(self).src(),
                self.code() == old(self).code(),
                self.consts() == old(self).consts(),
                self.prev_kind() == old(self).cur_kind(),
                old(self).had_error() ==> self.had_error(),
                self.scan_pos() >= old(self).scan_pos(),
                old(self).cur_kind() == TokenType::Eof ==> self.scan_pos()
                    == old(self).src().len(),
                self.cur_kind() != TokenType::Error,
                self.cur_kind() != TokenType::Eof ==> self.scan_pos() > old(self).scan_pos(),
                self.cur_kind() == TokenType::Eof ==> self.scan_pos() == self.src().len(),
                !old(self).had_error() && spec_token_kind(old(self).src(), old(self).scan_pos())
                    != TokenType::Error ==> !self.had_error() && self.panicking() == old(self).panicking() && self.diag_spec() == old(self).diag_spec(),
                old(self).panicking() ==> self.panicking() && self.diag_spec() == old(self).diag_spec(),
                !self.had_error() ==> self.cur_kind() == spec_token_kind(
                    old(self).src(),
                    old(self).scan_pos(),
                ) && self.cur_lexeme() == spec_token_lexeme(old(self).src(), old(self).scan_pos())
                    && self.scan_pos() == spec_token_end(old(self).src(), old(self).scan_pos())
                    && self.cur_line() == 1 + crate::scanner::newlines_before(
                    old(self).src(),
                    spec_token_end(old(self).src(), old(self).scan_pos()),
                ),
                self.prev_lexeme() == old(self).cur_lexeme(),
                self.prev_line() == old(self).cur_line(),
            decreases self.src().len() - self.scan_pos(),
        {
            let tok = self.scanner.scan_token();
            let is_err = tok.t == TokenType::Error;
            self.parser.current = tok;
            if !is_err {
                break ;
            }
            let message = self.parser.current.lexme.clone();
            self.error_at_current(message.as_str());
        }
        proof {
            lemma_whole_subrange(self.code());
            lemma_whole_subrange(self.consts());
        }
    }

    /// Reports an error at the lookahead token; while panicking, only the
    /// flags are updated.
    fn error_at_current(&mut self, message: &str)
        requires
            old(self).wf(),
        ensures
            final(self).wf(),
            final(self).had_error(),
            final(self).panicking(),
            final(self).code() == old(self).code(),
            final(self).consts() == old(self).consts(),
            final(self).src() == old(self).src(),
            final(self).scan_pos() == old(self).scan_pos(),
            final(self).fuel() == old(self).fuel(),
            final(self).cur_kind() == old(self).cur_kind(),
            final(self).cur_lexeme() == old(self).cur_lexeme(),
            final(self).prev_kind() == old(self).prev_kind(),
            final(self).cur_lexeme() == old(self).cur_lexeme(),
            final(self).prev_lexeme() == old(self).prev_lexeme(),
            final(self).cur_line() == old(self).cur_line(),
            final(self).prev_line() == old(self).prev_line(),
            old(self).panicking() ==> final(self).diag_spec() == old(self).diag_spec(),
            !old(self).panicking() ==> ({
                final(self).diag_spec() matches Some(d) && d.line as int == old(self).cur_line()
                    && d.at_end == (old(self).cur_kind() == TokenType::Eof) && d.message@
                    == message@ && (if old(self).cur_kind() == TokenType::Error {
                    d.lexeme is None
                } else {
                    d.lexeme matches Some(l) && l@ == old(self).cur_lexeme()
                })
            }),
    {
        if !self.parser.panic_mode {
            let lexeme = if self.parser.current.t == TokenType::Error {
                None
            } else {
                Some(self.parser.current.lexme.clone())
            };
            self.diagnostic = Some(
                Diagnostic {
                    line: self.parser.current.line,
                    at_end: self.parser.current.t == TokenType::Eof,
                    lexeme,
                    message: String::from_str(message),
                },
            );
        }
        self.parser.had_error = true;
        self.parser.panic_mode = true;
    }

    /// Reports an error at the token just consumed.
    fn error(&mut self, message: &str)
        requires
            old(self).wf(),
        ensures
            final(self).wf(),
            final(self).had_error(),
            final(self).panicking(),
            final(self).code() == old(self).code(),
            final(self).consts() == old(self).consts(),
            final(self).src() == old(self).src(),
            final(self).scan_pos() == old(self).scan_pos(),
            final(self).fuel() == old(self).fuel(),
            final(self).cur_kind() == old(self).cur_kind(),
            final(self).cur_lexeme() == old(self).cur_lexeme(),
            final(self).prev_kind() == old(self).prev_kind(),
            final(self).cur_lexeme() == old(self).cur_lexeme(),
            final(self).prev_lexeme() == old(self).prev_lexeme(),
            final(self).cur_line() == old(self).cur_line(),
            final(self).prev_line() == old(self).prev_line(),
            old(self).panicking() ==> final(self).diag_spec() == old(self).diag_spec(),
            !old(self).panicking() ==> ({
                final(self).diag_spec() matches Some(d) && d.line as int == old(self).prev_line()
                    && d.at_end == (old(self).prev_kind() == TokenType::Eof) && d.message@
                    == message@ && (if old(self).prev_kind() == TokenType::Error {
                    d.lexeme is None
                } else {
                    d.lexeme matches Some(l) && l@ == old(self).prev_lexeme()
                })
            }),
    {
        if !self.parser.panic_mode {
            let lexeme = if self.parser.previous.t == TokenType::Error {
                None
            } else {
                Some(self.parser.previous.lexme.clone())
            };
            self.diagnostic = Some(
                Diagnostic {
                    line: self.parser.previous.line,
                    at_end: self.parser.previous.t == TokenType::Eof,
                    lexeme,
                    message: String::from_str(message),
                },
            );
        }
        self.parser.had_error = true;
        self.parser.panic_mode = true;
    }

    /// Consumes the lookahead when it has the expected kind, otherwise
    /// reports the given message.
    fn consume(&mut self, t: TokenType, message: &str)
        requires
            old(self).wf(),
        ensures
            final(self).wf(),
            evolves(*old(self), *final(self)),
            final(self).code() == old(self).code(),
            final(self).consts() == old(self).consts(),
            old(self).cur_kind() != t ==> final(self).had_error(),
            old(self).cur_kind() == t && !old(self).had_error() && spec_token_kind(
                old(self).src(),
                old(self).scan_pos(),
            ) != TokenType::Error ==> !final(self).had_error() && final(self).panicking() == old(self).panicking() && final(self).diag_spec() == old(self).diag_spec(),
            old(self).panicking() ==> final(self).panicking() && final(self).diag_spec() == old(self).diag_spec(),
            old(self).cur_kind() != t ==> final(self).cur_kind() == old(self).cur_kind(),
            old(self).cur_kind() != t && !old(self).panicking() ==> ({
                final(self).diag_spec() matches Some(d) && d.line as int == old(self).cur_line()
                    && d.at_end == (old(self).cur_kind() == TokenType::Eof) && d.message@
                    == message@ && (if old(self).cur_kind() == TokenType::Error {
                    d.lexeme is None
                } else {
                    d.lexeme matches Some(l) && l@ == old(self).cur_lexeme()
                })
            }),
    {
        if self.parser.current.t == t {
            self.advance();
            return ;
        }
        self.error_at_current(message);
        proof {
            lemma_whole_subrange(self.code());
            lemma_whole_subrange(self.consts());
        }
    }

    /// Appends one byte to the chunk, on the line of the token just
    /// consumed.
    fn emit_byte(&mut self, byte: u8)
        requires
            old(self).wf(),
        ensures
            final(self).wf(),
            evolves(*old(self), *final(self)),
            final(self).code() == old(self).code().push(byte),
            final(self).consts() == old(self).consts(),
            final(self).had_error() == old(self).had_error(),
            final(self).panicking() == old(self).panicking(),
            final(self).diag_spec() == old(self).diag_spec(),
            final(self).fuel() == old(self).fuel(),
            final(self).cur_kind() == old(self).cur_kind(),
            final(self).cur_lexeme() == old(self).cur_lexeme(),
            final(self).prev_kind() == old(self).prev_kind(),
            final(self).cur_lexeme() == old(self).cur_lexeme(),
    {
        let line = self.parser.previous.line;
        self.chunk.write(byte, line);
        proof {
            assert(self.code().subrange(0, old(self).code().len() as int) =~= old(self).code());
            assert(self.consts().subrange(0, old(self).consts().len() as int) =~= old(self).consts());
        }
    }

    /// Appends two bytes.
    fn emit_bytes(&mut self, byte1: u8, byte2: u8)
        requires
            old(self).wf(),
        ensures
            final(self).wf(),
            evolves(*old(self), *final(self)),
            final(self).code() == old(self).code().push(byte1).push(byte2),
            final(self).consts() == old(self).consts(),
            final(self).had_error() == old(self).had_error(),
            final(self).panicking() == old(self).panicking(),
            final(self).diag_spec() == old(self).diag_spec(),
            final(self).fuel() == old(self).fuel(),
            final(self).cur_kind() == old(self).cur_kind(),
            final(self).cur_lexeme() == old(self).cur_lexeme(),
            final(self).prev_kind() == old(self).prev_kind(),
            final(self).cur_lexeme() == old(self).cur_lexeme(),
    {
        self.emit_byte(byte1);
        self.emit_byte(byte2);
        proof {
            assert(self.code().subrange(0, old(self).code().len() as int) =~= old(self).code());
            lemma_whole_subrange(self.consts());
        }
    }

    /// Emits the final `Return`.
    fn emit_return(&mut self)
        requires
            old(self).wf(),
        ensures
            final(self).wf(),
            evolves(*old(self), *final(self)),
            final(self).code() == old(self).code().push(spec_op_byte(OpCode::Return)),
            final(self).consts() == old(self).consts(),
            final(self).had_error() == old(self).had_error(),
            final(self).panicking() == old(self).panicking(),
            final(self).diag_spec() == old(self).diag_spec(),
    {
        self.emit_byte(OpCode::Return.to_byte());
    }

    /// Adds a value to the constant pool and returns its index, refusing an
    /// index that does not fit in the one operand byte.
    fn make_constant(&mut self, value: Value) -> (r: u8)
        requires
            old(self).wf(),
        ensures
            final(self).wf(),
            evolves(*old(self), *final(self)),
            final(self).code() == old(self).code(),
            final(self).fuel() == old(self).fuel(),
            final(self).cur_kind() == old(self).cur_kind(),
            final(self).cur_lexeme() == old(self).cur_lexeme(),
            final(self).prev_kind() == old(self).prev_kind(),
            old(self).consts().len() <= 255 ==> final(self).consts() == old(self).consts().push(
                value,
            ) && r as int == old(self).consts().len() && final(self).had_error() == old(self).had_error() && final(self).panicking() == old(self).panicking() && final(self).diag_spec() == old(self).diag_spec(),
            old(self).consts().len() > 255 ==> final(self).consts() == old(self).consts() && r == 0
                && final(self).had_error(),
            old(self).panicking() ==> final(self).panicking() && final(self).diag_spec() == old(self).diag_spec(),
            old(self).consts().len() > 255 && !old(self).panicking() ==> ({
                final(self).diag_spec() matches Some(d) && d.message@
                    == "Too many constants in one chunk."@
            }),
    {
        let count = self.chunk.constants_count();
        if count > 255 {
            self.error("Too many constants in one chunk.");
            proof {
                lemma_whole_subrange(self.code());
                lemma_whole_subrange(self.consts());
            }
            return 0;
        }
        let constant = self.chunk.add_constant(value);
        proof {
            lemma_whole_subrange(self.code());
            assert(self.consts().subrange(0, old(self).consts().len() as int) =~= old(self).consts());
        }
        constant as u8
    }

    /// Emits a `Constant` instruction loading the given value.
    fn emit_constant(&mut self, value: Value)
        requires
            old(self).wf(),
        ensures
            final(self).wf(),
            evolves(*old(self), *final(self)),
            final(self).code().len() == old(self).code().len() + 2,
            final(self).fuel() == old(self).fuel(),
            final(self).cur_kind() == old(self).cur_kind(),
            final(self).cur_lexeme() == old(self).cur_lexeme(),
            final(self).prev_kind() == old(self).prev_kind(),
            old(self).consts().len() <= 255 ==> final(self).consts() == old(self).consts().push(
                value,
            ) && final(self).code() == old(self).code().push(0).push(
                old(self).consts().len() as u8,
            ) && final(self).had_error() == old(self).had_error(),
            old(self).consts().len() > 255 ==> final(self).consts() == old(self).consts()
                && (final(self)).code() == old(self).code().push(0).push(0)
                && final(self).had_error(),
            old(self).panicking() ==> final(self).panicking() && final(self).diag_spec() == old(self).diag_spec(),
            old(self).consts().len() <= 255 ==> final(self).panicking() == old(self).panicking()
                && final(self).diag_spec() == old(self).diag_spec(),
            expr_seg(
                final(self).code(),
                final(self).consts().len() as int,
                old(self).code().len() as int,
                final(self).code().len() as int,
            ),
    {
        let constant = self.make_constant(value);
        let ghost mid = *self;
        self.emit_bytes(OpCode::Constant.to_byte(), constant);
        proof {
            let c = self.code();
            let n = self.consts().len() as int;
            let a = old(self).code().len() as int;
            assert(c[a] == 0);
            assert((c[a + 1] as int) < n);
            assert forall|d: int| d >= 0 implies #[trigger] seg_wf(c, n, a, a + 2, d, d + 1) by {
                assert(seg_wf(c, n, a + 2, a + 2, d + 1, d + 1));
                assert(spec_op_from_byte(c[a]) == OpCode::Constant);
            }
        }
    }

    /// Compiles a `true`, `false` or `nil` literal just consumed.
    fn literal(&mut self)
        requires
            old(self).wf(),
            spec_prefix_of(old(self).prev_kind()) == Some(PrefixAction::Literal),
        ensures
            final(self).wf(),
            evolves(*old(self), *final(self)),
            final(self).fuel() == old(self).fuel(),
            final(self).cur_kind() == old(self).cur_kind(),
            final(self).cur_lexeme() == old(self).cur_lexeme(),
            final(self).code() == old(self).code().push(
                spec_op_byte(spec_literal_op(old(self).prev_kind())),
            ),
            final(self).consts() == old(self).consts(),
            final(self).had_error() == old(self).had_error(),
            final(self).panicking() == old(self).panicking(),
            final(self).diag_spec() == old(self).diag_spec(),
            expr_seg(
                final(self).code(),
                final(self).consts().len() as int,
                old(self).code().len() as int,
                final(self).code().len() as int,
            ),
    {
        let op = match self.parser.previous.t {
            TokenType::True => OpCode::True,
            TokenType::False => OpCode::False,
            _ => OpCode::Nil,
        };
        self.emit_byte(op.to_byte());
        proof {
            let cf = self.code();
            let nf = self.consts().len() as int;
            let l0 = old(self).code().len() as int;
            assert forall|d: int| d >= 0 implies #[trigger] seg_wf(cf, nf, l0, l0 + 1, d, d + 1)
                by {
                assert(seg_wf(cf, nf, l0 + 1, l0 + 1, d + 1, d + 1));
                assert(spec_op_from_byte(cf[l0]) == spec_op_from_byte(spec_op_byte(op)));
            }
        }
    }

    /// Compiles a number literal: the lexeme just consumed is parsed as a
    /// double and loaded from the constant pool.
    fn number(&mut self)
        requires
            old(self).wf(),
        ensures
            final(self).wf(),
            evolves(*old(self), *final(self)),
            final(self).fuel() == old(self).fuel(),
            final(self).cur_kind() == old(self).cur_kind(),
            final(self).cur_lexeme() == old(self).cur_lexeme(),
            old(self).consts().len() <= 255 ==> final(self).consts() == old(self).consts().push(
                Value::Number(number_value_bits(old(self).prev_lexeme())),
            ) && final(self).code() == old(self).code().push(0).push(
                old(self).consts().len() as u8,
            ) && final(self).had_error() == old(self).had_error() && final(self).panicking()
                == old(self).panicking() && final(self).diag_spec() == old(self).diag_spec(),
            old(self).panicking() ==> final(self).panicking() && final(self).diag_spec() == old(self).diag_spec(),
            expr_seg(
                final(self).code(),
                final(self).consts().len() as int,
                old(self).code().len() as int,
                final(self).code().len() as int,
            ),
    {
        let bits = crate::value::num_from_lexeme(self.parser.previous.lexme.as_str());
        self.emit_constant(Value::Number(bits));
    }

    /// Parses at the given level: one prefix expression, then every infix
    /// operator that binds at least as tightly as `precedence`.
    fn parse_precedence(&mut self, precedence: Prec)
        requires
            old(self).wf(),
            spec_prec_rank(precedence) >= 1,
        ensures
            final(self).wf(),
            evolves(*old(self), *final(self)),
            spec_prefix_of(old(self).cur_kind()) is None ==> final(self).had_error(),
            !final(self).had_error() ==> expr_seg(
                final(self).code(),
                final(self).consts().len() as int,
                old(self).code().len() as int,
                final(self).code().len() as int,
            ),
            ({
                let s = old(self).src();
                let p0 = old(self).scan_pos();
                let hyp = {
                    &&& !old(self).had_error()
                    &&& is_literal_kind(old(self).cur_kind())
                    &&& old(self).consts().len() <= 255
                    &&& spec_token_kind(s, p0) != TokenType::Error
                    &&& spec_prec_rank(spec_prec_of(spec_token_kind(s, p0))) < spec_prec_rank(
                        precedence,
                    )
                };
                hyp ==> {
                    &&& !final(self).had_error()
                    &&& final(self).code() == old(self).code() + spec_literal_code(
                        old(self).cur_kind(),
                        old(self).consts().len() as int,
                    )
                    &&& final(self).consts() == old(self).consts() + spec_literal_consts(
                        old(self).cur_kind(),
                        old(self).cur_lexeme(),
                    )
                    &&& final(self).cur_kind() == spec_token_kind(s, p0)
                    &&& final(self).cur_lexeme() == spec_token_lexeme(s, p0)
                    &&& final(self).scan_pos() == spec_token_end(s, p0)
                    &&& final(self).panicking() == old(self).panicking()
                    &&& final(self).diag_spec() == old(self).diag_spec()
                }
            }),
            old(self).panicking() ==> final(self).panicking() && final(self).diag_spec() == old(self).diag_spec(),
            ({
                let hyp2 = {
                    &&& !old(self).had_error()
                    &&& !old(self).panicking()
                    &&& old(self).cur_kind() != TokenType::Error
                    &&& spec_prefix_of(old(self).cur_kind()) is None
                    &&& spec_token_kind(old(self).src(), old(self).scan_pos())
                        != TokenType::Error
                };
                hyp2 ==> ({
                    &&& final(self).had_error()
                    &&& final(self).panicking()
                    &&& final(self).cur_kind() == spec_token_kind(
                        old(self).src(),
                        old(self).scan_pos(),
                    )
                    &&& final(self).scan_pos() == spec_token_end(
                        old(self).src(),
                        old(self).scan_pos(),
                    )
                    &&& final(self).diag_spec() matches Some(d) && d.message@
                        == "Expect expression."@ && d.line as int == old(self).cur_line()
                        && d.at_end == (old(self).cur_kind() == TokenType::Eof) && (d.lexeme
                        matches Some(l) && l@ == old(self).cur_lexeme())
                })
            }),
            ({
                let s = old(self).src();
                let p0 = old(self).scan_pos();
                let k1 = spec_token_kind(s, p0);
                let p1 = spec_token_end(s, p0);
                let k2 = spec_token_kind(s, p1);
                let p2 = spec_token_end(s, p1);
                let k3 = spec_token_kind(s, p2);
                let hyp = {
                    &&& !old(self).had_error()
                    &&& is_literal_kind(old(self).cur_kind())
                    &&& old(self).consts().len() + 2 <= 256
                    &&& spec_infix_of(k1) is Some
                    &&& spec_prec_rank(spec_prec_of(k1)) >= spec_prec_rank(precedence)
                    &&& is_literal_kind(k2)
                    &&& k3 != TokenType::Error
                    &&& spec_prec_rank(spec_prec_of(k3)) < spec_prec_rank(precedence)
                    &&& spec_prec_rank(spec_prec_of(k3)) < spec_prec_rank(spec_prec_of(k1)) + 1
                };
                hyp ==> {
                    &&& !final(self).had_error()
                    &&& final(self).code() == old(self).code() + spec_literal_code(
                        old(self).cur_kind(),
                        old(self).consts().len() as int,
                    ) + spec_literal_code(
                        k2,
                        old(self).consts().len() + spec_literal_consts(
                            old(self).cur_kind(),
                            old(self).cur_lexeme(),
                        ).len() as int,
                    ) + seq![spec_op_byte(spec_binary_op(k1))]
                    &&& final(self).consts() == old(self).consts() + spec_literal_consts(
                        old(self).cur_kind(),
                        old(self).cur_lexeme(),
                    ) + spec_literal_consts(k2, spec_token_lexeme(s, p1))
                    &&& final(self).cur_kind() == k3
                    &&& final(self).cur_lexeme() == spec_token_lexeme(s, p2)
                    &&& final(self).scan_pos() == spec_token_end(s, p2)
                    &&& final(self).panicking() == old(self).panicking()
                    &&& final(self).diag_spec() == old(self).diag_spec()
                }
            }),
            ({
                let s = old(self).src();
                let p0 = old(self).scan_pos();
                let k1 = spec_token_kind(s, p0);
                let p1 = spec_token_end(s, p0);
                let k2 = spec_token_kind(s, p1);
                let hyp = {
                    &&& !old(self).had_error()
                    &&& old(self).cur_kind() == TokenType::Minus
                    &&& is_literal_kind(k1)
                    &&& old(self).consts().len() <= 255
                    &&& k2 != TokenType::Error
                    &&& spec_prec_rank(spec_prec_of(k2)) < 8
                    &&& spec_prec_rank(spec_prec_of(k2)) < spec_prec_rank(precedence)
                };
                hyp ==> {
                    &&& !final(self).had_error()
                    &&& final(self).code() == old(self).code() + spec_literal_code(
                        k1,
                        old(self).consts().len() as int,
                    ) + seq![spec_op_byte(OpCode::Negate)]
                    &&& final(self).consts() == old(self).consts() + spec_literal_consts(
                        k1,
                        spec_token_lexeme(s, p0),
                    )
                    &&& final(self).cur_kind() == k2
                    &&& final(self).scan_pos() == spec_token_end(s, p1)
                }
            }),
            ({
                let s = old(self).src();
                let p0 = old(self).scan_pos();
                let k1 = spec_token_kind(s, p0);
                let p1 = spec_token_end(s, p0);
                let k2 = spec_token_kind(s, p1);
                let p2 = spec_token_end(s, p1);
                let k3 = spec_token_kind(s, p2);
                let hyp = {
                    &&& !old(self).had_error()
                    &&& !old(self).panicking()
                    &&& is_literal_kind(old(self).cur_kind())
                    &&& old(self).consts().len() <= 255
                    &&& spec_infix_of(k1) is Some
                    &&& spec_prec_rank(spec_prec_of(k1)) >= spec_prec_rank(precedence)
                    &&& spec_prefix_of(k2) is None
                    &&& k2 != TokenType::Error
                    &&& k3 != TokenType::Error
                    &&& spec_prec_rank(spec_prec_of(k3)) < spec_prec_rank(precedence)
                };
                hyp ==> ({
                    &&& final(self).had_error()
                    &&& final(self).diag_spec() matches Some(d) && d.message@
                        == "Expect expression."@ && d.line as int == 1
                        + crate::scanner::newlines_before(s, p2) && d.at_end == (k2
                        == TokenType::Eof) && (d.lexeme matches Some(l) && l@
                        == spec_token_lexeme(s, p1))
                })
            }),
            ({
                let s = old(self).src();
                let p0 = old(self).scan_pos();
                let t1 = spec_token_kind(s, p0);
                let e1 = spec_token_end(s, p0);
                let t2 = spec_token_kind(s, e1);
                let e2 = spec_token_end(s, e1);
                let t3 = spec_token_kind(s, e2);
                let e3 = spec_token_end(s, e2);
                let t4 = spec_token_kind(s, e3);
                let hyp = {
                    &&& !old(self).had_error()
                    &&& !old(self).panicking()
                    &&& old(self).cur_kind() == TokenType::LeftParen
                    &&& old(self).consts().len() + 2 <= 256
                    &&& is_literal_kind(t1)
                    &&& spec_infix_of(t2) is Some
                    &&& is_literal_kind(t3)
                    &&& t4 != TokenType::Error
                    &&& t4 != TokenType::RightParen
                    &&& spec_prec_rank(spec_prec_of(t4)) == 0
                };
                hyp ==> ({
                    &&& final(self).had_error()
                    &&& final(self).diag_spec() matches Some(d) && d.message@
                        == "Expect ')' after expression."@ && d.at_end == (t4 == TokenType::Eof)
                        && (d.lexeme matches Some(l) && l@ == spec_token_lexeme(s, e3))
                })
            }),
        decreases old(self).fuel(), 0int,
    {
        self.advance();
        let prefix_rule = get_rule(self.parser.previous.t).prefix;
        match prefix_rule {
            Some(PrefixAction::Grouping) => {
                let ghost a1 = *self;
                self.grouping();
                proof {
                    lemma_evolves_trans(*old(self), a1, *self);
                    let sg = old(self).src();
                    let pg = old(self).scan_pos();
                    if !old(self).had_error() && !old(self).panicking() && old(self).cur_kind()
                        == TokenType::LeftParen && old(self).consts().len() + 2 <= 256
                        && is_literal_kind(spec_token_kind(sg, pg)) && spec_infix_of(
                        spec_token_kind(sg, spec_token_end(sg, pg)),
                    ) is Some && is_literal_kind(
                        spec_token_kind(sg, spec_token_end(sg, spec_token_end(sg, pg))),
                    ) {
                        assert(!a1.had_error());
                        assert(!a1.panicking());
                        assert(a1.cur_kind() == spec_token_kind(sg, pg));
                    }
                }
            },
            Some(PrefixAction::Unary) => {
                let ghost a1 = *self;
                self.unary();
                proof {
                    lemma_evolves_trans(*old(self), a1, *self);
                    let sg = old(self).src();
                    let pg = old(self).scan_pos();
                    if !old(self).had_error() && old(self).cur_kind() == TokenType::Minus
                        && is_literal_kind(spec_token_kind(sg, pg)) && old(self).consts().len()
                        <= 255 && spec_token_kind(sg, spec_token_end(sg, pg)) != TokenType::Error
                        && spec_prec_rank(
                        spec_prec_of(spec_token_kind(sg, spec_token_end(sg, pg))),
                    ) < 8 {
                        assert(!a1.had_error());
                        assert(a1.cur_kind() == spec_token_kind(sg, pg));
                        assert(self.code() == old(self).code() + spec_literal_code(
                            spec_token_kind(sg, pg),
                            old(self).consts().len() as int,
                        ) + seq![spec_op_byte(OpCode::Negate)]);
                        assert(self.consts() == old(self).consts() + spec_literal_consts(
                            spec_token_kind(sg, pg),
                            spec_token_lexeme(sg, pg),
                        ));
                        assert(self.cur_kind() == spec_token_kind(sg, spec_token_end(sg, pg)));
                        assert(self.scan_pos() == spec_token_end(sg, spec_token_end(sg, pg)));
                    }
                }
            },
            Some(PrefixAction::Number) => {
                let ghost a1 = *self;
                self.number();
                proof {
                    lemma_evolves_trans(*old(self), a1, *self);
                    if a1.consts().len() <= 255 {
                        assert(self.code() =~= a1.code() + seq![
                            0u8,
                            a1.consts().len() as u8,
                        ]);
                        assert(self.consts() =~= a1.consts() + seq![
                            Value::Number(number_value_bits(a1.prev_lexeme())),
                        ]);
                    }
                }
            },
            Some(PrefixAction::Literal) => {
                let ghost a1 = *self;
                self.literal();
                proof {
                    lemma_evolves_trans(*old(self), a1, *self);
                    assert(self.code() =~= a1.code() + seq![
                        spec_op_byte(spec_literal_op(a1.prev_kind())),
                    ]);
                    assert(self.consts() =~= a1.consts() + Seq::<Value>::empty());
                }
            },
            None => {
                let ghost a1 = *self;
                self.error("Expect expression.");
                proof {
                    lemma_whole_subrange(self.code());
                    lemma_whole_subrange(self.consts());
                    if !old(self).had_error() && !old(self).panicking() && old(self).cur_kind()
                        != TokenType::Error && spec_token_kind(
                        old(self).src(),
                        old(self).scan_pos(),
                    ) != TokenType::Error {
                        assert(!a1.panicking());
                        assert(a1.prev_line() == old(self).cur_line());
                        assert(self.diag_spec() is Some);
                        assert(self.diag_spec()->0.line as int == old(self).cur_line());
                    }
                }
                return ;
            },
        }

        let ghost e = *self;
        let ghost s = old(self).src();
        let ghost p0 = old(self).scan_pos();
        let ghost k1 = spec_token_kind(s, p0);
        let ghost p1 = spec_token_end(s, p0);
        let ghost k2 = spec_token_kind(s, p1);
        let ghost p2 = spec_token_end(s, p1);
        let ghost k3 = spec_token_kind(s, p2);
        let ghost pair_hyp = {
            &&& !old(self).had_error()
            &&& is_literal_kind(old(self).cur_kind())
            &&& old(self).consts().len() + 2 <= 256
            &&& spec_infix_of(k1) is Some
            &&& spec_prec_rank(spec_prec_of(k1)) >= spec_prec_rank(precedence)
            &&& is_literal_kind(k2)
            &&& k3 != TokenType::Error
            &&& spec_prec_rank(spec_prec_of(k3)) < spec_prec_rank(precedence)
            &&& spec_prec_rank(spec_prec_of(k3)) < spec_prec_rank(spec_prec_of(k1)) + 1
        };
        let ghost lit1_code = spec_literal_code(
            old(self).cur_kind(),
            old(self).consts().len() as int,
        );
        let ghost lit1_consts = spec_literal_consts(old(self).cur_kind(), old(self).cur_lexeme());
        let ghost lit2_code = spec_literal_code(
            k2,
            old(self).consts().len() + lit1_consts.len() as int,
        );
        let ghost lit2_consts = spec_literal_consts(k2, spec_token_lexeme(s, p1));
        let ghost err_hyp = {
            &&& !old(self).had_error()
            &&& !old(self).panicking()
            &&& is_literal_kind(old(self).cur_kind())
            &&& old(self).consts().len() <= 255
            &&& spec_infix_of(k1) is Some
            &&& spec_prec_rank(spec_prec_of(k1)) >= spec_prec_rank(precedence)
            &&& spec_prefix_of(k2) is None
            &&& k2 != TokenType::Error
            &&& k3 != TokenType::Error
            &&& spec_prec_rank(spec_prec_of(k3)) < spec_prec_rank(precedence)
        };
        while precedence.rank() <= get_rule(self.parser.current.t).precedence.rank()
            invariant
                spec_prec_rank(precedence) >= 1,
                s == old(self).src(),
                p0 == old(self).scan_pos(),
                k1 == spec_token_kind(s, p0),
                p1 == spec_token_end(s, p0),
                k2 == spec_token_kind(s, p1),
                p2 == spec_token_end(s, p1),
                k3 == spec_token_kind(s, p2),
                pair_hyp == ({
                    &&& !old(self).had_error()
                    &&& is_literal_kind(old(self).cur_kind())
                    &&& old(self).consts().len() + 2 <= 256
                    &&& spec_infix_of(k1) is Some
                    &&& spec_prec_rank(spec_prec_of(k1)) >= spec_prec_rank(precedence)
                    &&& is_literal_kind(k2)
                    &&& k3 != TokenType::Error
                    &&& spec_prec_rank(spec_prec_of(k3)) < spec_prec_rank(precedence)
                    &&& spec_prec_rank(spec_prec_of(k3)) < spec_prec_rank(spec_prec_of(k1)) + 1
                }),
                lit1_code == spec_literal_code(
                    old(self).cur_kind(),
                    old(self).consts().len() as int,
                ),
                lit1_consts == spec_literal_consts(old(self).cur_kind(), old(self).cur_lexeme()),
                lit2_code == spec_literal_code(
                    k2,
                    old(self).consts().len() + lit1_consts.len() as int,
                ),
                lit2_consts == spec_literal_consts(k2, spec_token_lexeme(s, p1)),
                pair_hyp ==> {
                    &&& !e.had_error()
                    &&& e.code() == old(self).code() + lit1_code
                    &&& e.consts() == old(self).consts() + lit1_consts
                    &&& e.cur_kind() == k1
                    &&& e.scan_pos() == p1
                    &&& e.src() == s
                    &&& e.panicking() == old(self).panicking()
                    &&& e.diag_spec() == old(self).diag_spec()
                },
                err_hyp == ({
                    &&& !old(self).had_error()
                    &&& !old(self).panicking()
                    &&& is_literal_kind(old(self).cur_kind())
                    &&& old(self).consts().len() <= 255
                    &&& spec_infix_of(k1) is Some
                    &&& spec_prec_rank(spec_prec_of(k1)) >= spec_prec_rank(precedence)
                    &&& spec_prefix_of(k2) is None
                    &&& k2 != TokenType::Error
                    &&& k3 != TokenType::Error
                    &&& spec_prec_rank(spec_prec_of(k3)) < spec_prec_rank(precedence)
                }),
                err_hyp ==> {
                    &&& !e.had_error()
                    &&& !e.panicking()
                    &&& e.cur_kind() == k1
                    &&& e.scan_pos() == p1
                    &&& e.src() == s
                },
                err_hyp ==> (*self == e || {
                    &&& self.had_error()
                    &&& self.cur_kind() == k3
                    &&& (self.diag_spec() matches Some(d) && d.message@
                        == "Expect expression."@ && d.line as int == 1
                        + crate::scanner::newlines_before(s, p2) && d.at_end == (k2
                        == TokenType::Eof) && (d.lexeme matches Some(l) && l@
                        == spec_token_lexeme(s, p1)))
                }),
                pair_hyp ==> (*self == e || {
                    &&& !self.had_error()
                    &&& self.code() == old(self).code() + lit1_code + lit2_code + seq![
                        spec_op_byte(spec_binary_op(k1)),
                    ]
                    &&& self.consts() == old(self).consts() + lit1_consts + lit2_consts
                    &&& self.cur_kind() == k3
                    &&& self.cur_lexeme() == spec_token_lexeme(s, p2)
                    &&& self.scan_pos() == spec_token_end(s, p2)
                    &&& self.panicking() == old(self).panicking()
                    &&& self.diag_spec() == old(self).diag_spec()
                }),
                self.wf(),
                evolves(*old(self), *self),
                self.fuel() < old(self).fuel(),
                !self.had_error() ==> expr_seg(
                    self.code(),
                    self.consts().len() as int,
                    old(self).code().len() as int,
                    self.code().len() as int,
                ),
                spec_prec_rank(spec_prec_of(e.cur_kind())) < spec_prec_rank(precedence)
                    ==> *self == e,
                old(self).panicking() ==> self.panicking() && self.diag_spec() == old(self).diag_spec(),
            decreases self.fuel(),
        {
            let ghost it0 = *self;
            self.advance();
            let infix = get_rule(self.parser.previous.t).infix;
            match infix {
                Some(InfixAction::Binary) => {
                    let ghost mid = *self;
                    self.binary();
                    proof {
                        lemma_evolves_trans(it0, mid, *self);
                        lemma_evolves_trans(*old(self), it0, *self);
                        if pair_hyp && it0 == e {
                            assert(mid.cur_kind() == k2);
                            assert(mid.consts().len() == old(self).consts().len()
                                + lit1_consts.len());
                            assert(self.code() =~= old(self).code() + lit1_code + lit2_code
                                + seq![spec_op_byte(spec_binary_op(k1))]);
                            assert(self.consts() =~= old(self).consts() + lit1_consts
                                + lit2_consts);
                            assert(self.cur_kind() == k3);
                            assert(self.scan_pos() == spec_token_end(s, p2));
                        }
                        if !self.had_error() {
                            let cf = self.code();
                            let nf = self.consts().len() as int;
                            let l0 = old(self).code().len() as int;
                            let li = it0.code().len() as int;
                            let lf = cf.len() as int;
                            lemma_expr_seg_grow(
                                it0.code(),
                                cf,
                                it0.consts().len() as int,
                                nf,
                                l0,
                                li,
                            );
                            assert forall|d: int| d >= 0 implies #[trigger] seg_wf(
                                cf,
                                nf,
                                l0,
                                lf,
                                d,
                                d + 1,
                            ) by {
                                assert(seg_wf(cf, nf, l0, li, d, d + 1));
                                assert(seg_wf(cf, nf, li, lf, d + 1, d + 1));
                                lemma_seg_wf_concat(cf, nf, l0, li, lf, d, d + 1, d + 1);
                            }
                        }
                    }
                },
                None => {
                    // The loop only continues past tokens with an infix
                    // precedence, and all of those have an infix action.
                    proof {
                        assert(false);
                    }
                },
            }
        }
    }

    /// Compiles a parenthesised expression; the `(` was just consumed.
    fn grouping(&mut self)
        requires
            old(self).wf(),
        ensures
            final(self).wf(),
            evolves(*old(self), *final(self)),
            !final(self).had_error() ==> expr_seg(
                final(self).code(),
                final(self).consts().len() as int,
                old(self).code().len() as int,
                final(self).code().len() as int,
            ),
            old(self).panicking() ==> final(self).panicking() && final(self).diag_spec() == old(self).diag_spec(),
            ({
                let s = old(self).src();
                let g0 = old(self).scan_pos();
                let k1 = spec_token_kind(s, g0);
                let g1 = spec_token_end(s, g0);
                let k2 = spec_token_kind(s, g1);
                let g2 = spec_token_end(s, g1);
                let k3 = spec_token_kind(s, g2);
                let hyp = {
                    &&& !old(self).had_error()
                    &&& !old(self).panicking()
                    &&& is_literal_kind(old(self).cur_kind())
                    &&& old(self).consts().len() + 2 <= 256
                    &&& spec_infix_of(k1) is Some
                    &&& is_literal_kind(k2)
                    &&& k3 != TokenType::Error
                    &&& k3 != TokenType::RightParen
                    &&& spec_prec_rank(spec_prec_of(k3)) == 0
                };
                hyp ==> ({
                    &&& final(self).had_error()
                    &&& final(self).cur_kind() == k3
                    &&& final(self).diag_spec() matches Some(d) && d.message@
                        == "Expect ')' after expression."@ && d.at_end == (k3 == TokenType::Eof)
                        && (d.lexeme matches Some(l) && l@ == spec_token_lexeme(s, g2))
                })
            }),
        decreases old(self).fuel(), 4int,
    {
        self.expression();
        let ghost mid = *self;
        self.consume(TokenType::RightParen, "Expect ')' after expression.");
        proof {
            lemma_evolves_trans(*old(self), mid, *self);
        }
    }

    /// Compiles a unary operator application; the operator was just
    /// consumed.
    fn unary(&mut self)
        requires
            old(self).wf(),
        ensures
            final(self).wf(),
            evolves(*old(self), *final(self)),
            old(self).prev_kind() == TokenType::Minus ==> final(self).code().len() > (old(self)).code().len() && final(self).code().last() == spec_op_byte(OpCode::Negate),
            ({
                let s = old(self).src();
                let p0 = old(self).scan_pos();
                let hyp = {
                    &&& !old(self).had_error()
                    &&& old(self).prev_kind() == TokenType::Minus
                    &&& is_literal_kind(old(self).cur_kind())
                    &&& old(self).consts().len() <= 255
                    &&& spec_token_kind(s, p0) != TokenType::Error
                    &&& spec_prec_rank(spec_prec_of(spec_token_kind(s, p0))) < 8
                };
                hyp ==> {
                    &&& !final(self).had_error()
                    &&& final(self).code() == old(self).code() + spec_literal_code(
                        old(self).cur_kind(),
                        old(self).consts().len() as int,
                    ) + seq![spec_op_byte(OpCode::Negate)]
                    &&& final(self).consts() == old(self).consts() + spec_literal_consts(
                        old(self).cur_kind(),
                        old(self).cur_lexeme(),
                    )
                    &&& final(self).cur_kind() == spec_token_kind(s, p0)
                    &&& final(self).cur_lexeme() == spec_token_lexeme(s, p0)
                    &&& final(self).scan_pos() == spec_token_end(s, p0)
                    &&& final(self).panicking() == old(self).panicking()
                    &&& final(self).diag_spec() == old(self).diag_spec()
                }
            }),
            !final(self).had_error() ==> expr_seg(
                final(self).code(),
                final(self).consts().len() as int,
                old(self).code().len() as int,
                final(self).code().len() as int,
            ),
            old(self).panicking() ==> final(self).panicking() && final(self).diag_spec() == old(self).diag_spec(),
        decreases old(self).fuel(), 1int,
    {
        let operator_type = self.parser.previous.t;

        self.parse_precedence(Prec::Unary);
        let ghost mid = *self;

        match operator_type {
            TokenType::Minus => {
                self.emit_byte(OpCode::Negate.to_byte());
                proof {
                    lemma_evolves_trans(*old(self), mid, *self);
                    if !old(self).had_error() && is_literal_kind(old(self).cur_kind()) && old(
                        self,
                    ).consts().len() <= 255 && spec_token_kind(old(self).src(), old(self).scan_pos())
                        != TokenType::Error && spec_prec_rank(
                        spec_prec_of(spec_token_kind(old(self).src(), old(self).scan_pos())),
                    ) < 8 {
                        assert(mid.code() == old(self).code() + spec_literal_code(
                            old(self).cur_kind(),
                            old(self).consts().len() as int,
                        ));
                        assert(self.code() =~= old(self).code() + spec_literal_code(
                            old(self).cur_kind(),
                            old(self).consts().len() as int,
                        ) + seq![spec_op_byte(OpCode::Negate)]);
                    }
                    if !self.had_error() {
                        let cf = self.code();
                        let nf = self.consts().len() as int;
                        let l0 = old(self).code().len() as int;
                        let lm = mid.code().len() as int;
                        lemma_expr_seg_grow(mid.code(), cf, mid.consts().len() as int, nf, l0, lm);
                        assert forall|d: int| d >= 0 implies #[trigger] seg_wf(
                            cf,
                            nf,
                            l0,
                            lm + 1,
                            d,
                            d + 1,
                        ) by {
                            assert(seg_wf(cf, nf, l0, lm, d, d + 1));
                            assert(spec_op_from_byte(cf[lm]) == OpCode::Negate);
                            assert(seg_wf(cf, nf, lm + 1, lm + 1, d + 1, d + 1));
                            assert(seg_wf(cf, nf, lm, lm + 1, d + 1, d + 1));
                            lemma_seg_wf_concat(cf, nf, l0, lm, lm + 1, d, d + 1, d + 1);
                        }
                    }
                }
            },
            _ => {},
        }
    }

    /// Compiles a binary operator application: the operator was just
    /// consumed and the left operand is already compiled.
    fn binary(&mut self)
        requires
            old(self).wf(),
            spec_infix_of(old(self).prev_kind()) is Some,
        ensures
            final(self).wf(),
            evolves(*old(self), *final(self)),
            final(self).code().len() > old(self).code().len(),
            final(self).code().last() == spec_op_byte(spec_binary_op(old(self).prev_kind())),
            ({
                let hyp2 = {
                    &&& !old(self).had_error()
                    &&& !old(self).panicking()
                    &&& old(self).cur_kind() != TokenType::Error
                    &&& spec_prefix_of(old(self).cur_kind()) is None
                    &&& spec_token_kind(old(self).src(), old(self).scan_pos())
                        != TokenType::Error
                };
                hyp2 ==> ({
                    &&& final(self).had_error()
                    &&& final(self).panicking()
                    &&& final(self).cur_kind() == spec_token_kind(
                        old(self).src(),
                        old(self).scan_pos(),
                    )
                    &&& final(self).scan_pos() == spec_token_end(
                        old(self).src(),
                        old(self).scan_pos(),
                    )
                    &&& final(self).diag_spec() matches Some(d) && d.message@
                        == "Expect expression."@ && d.line as int == old(self).cur_line()
                        && d.at_end == (old(self).cur_kind() == TokenType::Eof) && (d.lexeme
                        matches Some(l) && l@ == old(self).cur_lexeme())
                })
            }),
            ({
                let s = old(self).src();
                let p0 = old(self).scan_pos();
                let hyp = {
                    &&& !old(self).had_error()
                    &&& is_literal_kind(old(self).cur_kind())
                    &&& old(self).consts().len() <= 255
                    &&& spec_token_kind(s, p0) != TokenType::Error
                    &&& spec_prec_rank(spec_prec_of(spec_token_kind(s, p0))) < spec_prec_rank(
                        spec_prec_of(old(self).prev_kind()),
                    ) + 1
                };
                hyp ==> {
                    &&& !final(self).had_error()
                    &&& final(self).code() == old(self).code() + spec_literal_code(
                        old(self).cur_kind(),
                        old(self).consts().len() as int,
                    ) + seq![spec_op_byte(spec_binary_op(old(self).prev_kind()))]
                    &&& final(self).consts() == old(self).consts() + spec_literal_consts(
                        old(self).cur_kind(),
                        old(self).cur_lexeme(),
                    )
                    &&& final(self).cur_kind() == spec_token_kind(s, p0)
                    &&& final(self).cur_lexeme() == spec_token_lexeme(s, p0)
                    &&& final(self).scan_pos() == spec_token_end(s, p0)
                    &&& final(self).panicking() == old(self).panicking()
                    &&& final(self).diag_spec() == old(self).diag_spec()
                }
            }),
            !final(self).had_error() ==> binary_seg(
                final(self).code(),
                final(self).consts().len() as int,
                old(self).code().len() as int,
                final(self).code().len() as int,
            ),
            old(self).panicking() ==> final(self).panicking() && final(self).diag_spec() == old(self).diag_spec(),
        decreases old(self).fuel(), 1int,
    {
        let operator_type = self.parser.previous.t;
        let rule = get_rule(operator_type);
        self.parse_precedence(rule.precedence.next());
        let ghost mid = *self;

        let op = match operator_type {
            TokenType::Plus => OpCode::Add,
            TokenType::Minus => OpCode::Subtract,
            TokenType::Star => OpCode::Multiply,
            TokenType::Slash => OpCode::Divide,
            _ => OpCode::Unknown,
        };
        proof {
            assert(op != OpCode::Unknown);
        }
        self.emit_byte(op.to_byte());
        proof {
            lemma_evolves_trans(*old(self), mid, *self);
            assert(self.code() =~= mid.code() + seq![spec_op_byte(spec_binary_op(operator_type))]);
            if !old(self).had_error() && is_literal_kind(old(self).cur_kind()) && old(
                self,
            ).consts().len() <= 255 && spec_token_kind(old(self).src(), old(self).scan_pos())
                != TokenType::Error && spec_prec_rank(
                spec_prec_of(spec_token_kind(old(self).src(), old(self).scan_pos())),
            ) < spec_prec_rank(spec_prec_of(old(self).prev_kind())) + 1 {
                assert(mid.code() == old(self).code() + spec_literal_code(
                    old(self).cur_kind(),
                    old(self).consts().len() as int,
                ));
                assert(self.code() =~= old(self).code() + spec_literal_code(
                    old(self).cur_kind(),
                    old(self).consts().len() as int,
                ) + seq![spec_op_byte(spec_binary_op(old(self).prev_kind()))]);
            }
            if !self.had_error() {
                let cf = self.code();
                let nf = self.consts().len() as int;
                let l0 = old(self).code().len() as int;
                let lm = mid.code().len() as int;
                lemma_expr_seg_grow(mid.code(), cf, mid.consts().len() as int, nf, l0, lm);
                assert forall|d: int| d >= 1 implies #[trigger] seg_wf(cf, nf, l0, lm + 1, d, d)
                    by {
                    assert(seg_wf(cf, nf, l0, lm, d, d + 1));
                    assert(spec_op_from_byte(cf[lm]) == spec_op_from_byte(spec_op_byte(op)));
                    assert(seg_wf(cf, nf, lm + 1, lm + 1, d, d));
                    assert(seg_wf(cf, nf, lm, lm + 1, d + 1, d));
                    lemma_seg_wf_concat(cf, nf, l0, lm, lm + 1, d, d + 1, d);
                }
            }
        }
    }

    /// Compiles one expression.
    fn expression(&mut self)
        requires
            old(self).wf(),
        ensures
            final(self).wf(),
            evolves(*old(self), *final(self)),
            spec_prefix_of(old(self).cur_kind()) is None ==> final(self).had_error(),
            !final(self).had_error() ==> expr_seg(
                final(self).code(),
                final(self).consts().len() as int,
                old(self).code().len() as int,
                final(self).code().len() as int,
            ),
            ({
                let s = old(self).src();
                let p0 = old(self).scan_pos();
                let hyp = {
                    &&& !old(self).had_error()
                    &&& is_literal_kind(old(self).cur_kind())
                    &&& old(self).consts().len() <= 255
                    &&& spec_token_kind(s, p0) != TokenType::Error
                    &&& spec_prec_rank(spec_prec_of(spec_token_kind(s, p0))) == 0
                };
                hyp ==> {
                    &&& !final(self).had_error()
                    &&& final(self).code() == old(self).code() + spec_literal_code(
                        old(self).cur_kind(),
                        old(self).consts().len() as int,
                    )
                    &&& final(self).consts() == old(self).consts() + spec_literal_consts(
                        old(self).cur_kind(),
                        old(self).cur_lexeme(),
                    )
                    &&& final(self).cur_kind() == spec_token_kind(s, p0)
                    &&& final(self).scan_pos() == spec_token_end(s, p0)
                }
            }),
            ({
                let s = old(self).src();
                let p0 = old(self).scan_pos();
                let k1 = spec_token_kind(s, p0);
                let p1 = spec_token_end(s, p0);
                let k2 = spec_token_kind(s, p1);
                let p2 = spec_token_end(s, p1);
                let k3 = spec_token_kind(s, p2);
                let hyp = {
                    &&& !old(self).had_error()
                    &&& is_literal_kind(old(self).cur_kind())
                    &&& old(self).consts().len() + 2 <= 256
                    &&& spec_infix_of(k1) is Some
                    &&& is_literal_kind(k2)
                    &&& k3 != TokenType::Error
                    &&& spec_prec_rank(spec_prec_of(k3)) == 0
                };
                hyp ==> {
                    &&& !final(self).had_error()
                    &&& final(self).code() == old(self).code() + spec_literal_code(
                        old(self).cur_kind(),
                        old(self).consts().len() as int,
                    ) + spec_literal_code(
                        k2,
                        old(self).consts().len() + spec_literal_consts(
                            old(self).cur_kind(),
                            old(self).cur_lexeme(),
                        ).len() as int,
                    ) + seq![spec_op_byte(spec_binary_op(k1))]
                    &&& final(self).consts() == old(self).consts() + spec_literal_consts(
                        old(self).cur_kind(),
                        old(self).cur_lexeme(),
                    ) + spec_literal_consts(k2, spec_token_lexeme(s, p1))
                    &&& final(self).cur_kind() == k3
                    &&& final(self).cur_lexeme() == spec_token_lexeme(s, p2)
                    &&& final(self).scan_pos() == spec_token_end(s, p2)
                    &&& final(self).panicking() == old(self).panicking()
                    &&& final(self).diag_spec() == old(self).diag_spec()
                }
            }),
            ({
                let s = old(self).src();
                let p0 = old(self).scan_pos();
                let k1 = spec_token_kind(s, p0);
                let p1 = spec_token_end(s, p0);
                let k2 = spec_token_kind(s, p1);
                let hyp = {
                    &&& !old(self).had_error()
                    &&& old(self).cur_kind() == TokenType::Minus
                    &&& is_literal_kind(k1)
                    &&& old(self).consts().len() <= 255
                    &&& k2 != TokenType::Error
                    &&& spec_prec_rank(spec_prec_of(k2)) == 0
                };
                hyp ==> {
                    &&& !final(self).had_error()
                    &&& final(self).code() == old(self).code() + spec_literal_code(
                        k1,
                        old(self).consts().len() as int,
                    ) + seq![spec_op_byte(OpCode::Negate)]
                    &&& final(self).consts() == old(self).consts() + spec_literal_consts(
                        k1,
                        spec_token_lexeme(s, p0),
                    )
                    &&& final(self).cur_kind() == k2
                    &&& final(self).scan_pos() == spec_token_end(s, p1)
                }
            }),
            old(self).panicking() ==> final(self).panicking() && final(self).diag_spec() == old(self).diag_spec(),
            ({
                let hyp2 = {
                    &&& !old(self).had_error()
                    &&& !old(self).panicking()
                    &&& old(self).cur_kind() != TokenType::Error
                    &&& spec_prefix_of(old(self).cur_kind()) is None
                    &&& spec_token_kind(old(self).src(), old(self).scan_pos())
                        != TokenType::Error
                };
                hyp2 ==> ({
                    &&& final(self).had_error()
                    &&& final(self).panicking()
                    &&& final(self).cur_kind() == spec_token_kind(
                        old(self).src(),
                        old(self).scan_pos(),
                    )
                    &&& final(self).scan_pos() == spec_token_end(
                        old(self).src(),
                        old(self).scan_pos(),
                    )
                    &&& final(self).diag_spec() matches Some(d) && d.message@
                        == "Expect expression."@ && d.line as int == old(self).cur_line()
                        && d.at_end == (old(self).cur_kind() == TokenType::Eof) && (d.lexeme
                        matches Some(l) && l@ == old(self).cur_lexeme())
                })
            }),
            ({
                let s = old(self).src();
                let p0 = old(self).scan_pos();
                let k1 = spec_token_kind(s, p0);
                let p1 = spec_token_end(s, p0);
                let k2 = spec_token_kind(s, p1);
                let p2 = spec_token_end(s, p1);
                let k3 = spec_token_kind(s, p2);
                let hyp = {
                    &&& !old(self).had_error()
                    &&& !old(self).panicking()
                    &&& is_literal_kind(old(self).cur_kind())
                    &&& old(self).consts().len() <= 255
                    &&& spec_infix_of(k1) is Some
                    &&& spec_prefix_of(k2) is None
                    &&& k2 != TokenType::Error
                    &&& k3 != TokenType::Error
                    &&& spec_prec_rank(spec_prec_of(k3)) == 0
                };
                hyp ==> ({
                    &&& final(self).had_error()
                    &&& final(self).diag_spec() matches Some(d) && d.message@
                        == "Expect expression."@ && d.line as int == 1
                        + crate::scanner::newlines_before(s, p2) && d.at_end == (k2
                        == TokenType::Eof) && (d.lexeme matches Some(l) && l@
                        == spec_token_lexeme(s, p1))
                })
            }),
            ({
                let s = old(self).src();
                let p0 = old(self).scan_pos();
                let t1 = spec_token_kind(s, p0);
                let e1 = spec_token_end(s, p0);
                let t2 = spec_token_kind(s, e1);
                let e2 = spec_token_end(s, e1);
                let t3 = spec_token_kind(s, e2);
                let e3 = spec_token_end(s, e2);
                let t4 = spec_token_kind(s, e3);
                let hyp = {
                    &&& !old(self).had_error()
                    &&& !old(self).panicking()
                    &&& old(self).cur_kind() == TokenType::LeftParen
                    &&& old(self).consts().len() + 2 <= 256
                    &&& is_literal_kind(t1)
                    &&& spec_infix_of(t2) is Some
                    &&& is_literal_kind(t3)
                    &&& t4 != TokenType::Error
                    &&& t4 != TokenType::RightParen
                    &&& spec_prec_rank(spec_prec_of(t4)) == 0
                };
                hyp ==> ({
                    &&& final(self).had_error()
                    &&& final(self).diag_spec() matches Some(d) && d.message@
                        == "Expect ')' after expression."@ && d.at_end == (t4 == TokenType::Eof)
                        && (d.lexeme matches Some(l) && l@ == spec_token_lexeme(s, e3))
                })
            }),
        decreases old(self).fuel(), 3int,
    {
        self.parse_precedence(Prec::Assignment);
    }

    /// Finishes compilation by emitting the final `Return`.
    fn end_compiler(&mut self)
        requires
            old(self).wf(),
        ensures
            final(self).wf(),
            evolves(*old(self), *final(self)),
            final(self).code() == old(self).code().push(spec_op_byte(OpCode::Return)),
            final(self).consts() == old(self).consts(),
            final(self).had_error() == old(self).had_error(),
            final(self).panicking() == old(self).panicking(),
            final(self).diag_spec() == old(self).diag_spec(),
    {
        self.emit_return();
    }

    /// Compiles the whole source: one expression followed by the end of the
    /// input. On success the emitted chunk is a well-formed expression
    /// segment that leaves exactly one value on the stack, closed by a final
    /// `Return` byte.
    pub fn compile(&mut self) -> (r: InterpretResult<()>)
        requires
            old(self).wf(),
            old(self).code().len() == 0,
            old(self).consts().len() == 0,
        ensures
            final(self).wf(),
            r is Ok <==> !final(self).had_error(),
            final(self).had_error() ==> final(self).has_diagnostic(),
            spec_prefix_of(spec_token_kind(old(self).src(), old(self).scan_pos())) is None ==> r
                is Err,
            r is Ok ==> final(self).code().len() >= 2 && spec_op_from_byte(
                final(self).code()[final(self).code().len() - 1],
            ) == OpCode::Return && seg_wf(
                final(self).code(),
                final(self).consts().len() as int,
                0,
                final(self).code().len() - 1,
                0,
                1,
            ),
            ({
                let s = old(self).src();
                let p0 = old(self).scan_pos();
                let k0 = spec_token_kind(s, p0);
                let p1 = spec_token_end(s, p0);
                (!old(self).panicking() && spec_prefix_of(k0) is None && k0 != TokenType::Error
                    && spec_token_kind(s, p1) != TokenType::Error) ==> ({
                    final(self).diag_spec() matches Some(d) && d.message@
                        == "Expect expression."@ && d.at_end == (k0 == TokenType::Eof) && (d.lexeme
                        matches Some(l) && l@ == spec_token_lexeme(s, p0)) && d.line as int == 1
                        + crate::scanner::newlines_before(s, p1)
                })
            }),
            ({
                let s = old(self).src();
                let p0 = old(self).scan_pos();
                let k0 = spec_token_kind(s, p0);
                let p1 = spec_token_end(s, p0);
                let k1 = spec_token_kind(s, p1);
                let p2 = spec_token_end(s, p1);
                let k2 = spec_token_kind(s, p2);
                let p3 = spec_token_end(s, p2);
                let k3 = spec_token_kind(s, p3);
                let hyp = {
                    &&& !old(self).panicking()
                    &&& is_literal_kind(k0)
                    &&& k0 != TokenType::Error
                    &&& spec_infix_of(k1) is Some
                    &&& spec_prefix_of(k2) is None
                    &&& k2 != TokenType::Error
                    &&& k3 != TokenType::Error
                    &&& spec_prec_rank(spec_prec_of(k3)) == 0
                };
                hyp ==> ({
                    &&& r is Err
                    &&& final(self).diag_spec() matches Some(d) && d.message@
                        == "Expect expression."@ && d.line as int == 1
                        + crate::scanner::newlines_before(s, p3) && d.at_end == (k2
                        == TokenType::Eof) && (d.lexeme matches Some(l) && l@
                        == spec_token_lexeme(s, p2))
                })
            }),
            ({
                let s = old(self).src();
                let p0 = old(self).scan_pos();
                let k0 = spec_token_kind(s, p0);
                let p1 = spec_token_end(s, p0);
                let t1 = spec_token_kind(s, p1);
                let e1 = spec_token_end(s, p1);
                let t2 = spec_token_kind(s, e1);
                let e2 = spec_token_end(s, e1);
                let t3 = spec_token_kind(s, e2);
                let e3 = spec_token_end(s, e2);
                let t4 = spec_token_kind(s, e3);
                let hyp = {
                    &&& !old(self).panicking()
                    &&& k0 == TokenType::LeftParen
                    &&& is_literal_kind(t1)
                    &&& spec_infix_of(t2) is Some
                    &&& is_literal_kind(t3)
                    &&& t4 != TokenType::Error
                    &&& t4 != TokenType::RightParen
                    &&& spec_prec_rank(spec_prec_of(t4)) == 0
                };
                hyp ==> ({
                    &&& r is Err
                    &&& final(self).diag_spec() matches Some(d) && d.message@
                        == "Expect ')' after expression."@ && d.at_end == (t4 == TokenType::Eof)
                        && (d.lexeme matches Some(l) && l@ == spec_token_lexeme(s, e3))
                })
            }),
            ({
                let s = old(self).src();
                let p0 = old(self).scan_pos();
                let k0 = spec_token_kind(s, p0);
                let p1 = spec_token_end(s, p0);
                (is_literal_kind(k0) && spec_token_kind(s, p1) == TokenType::Eof) ==> {
                    &&& r is Ok
                    &&& final(self).code() == spec_literal_code(k0, 0) + seq![13u8]
                    &&& final(self).consts() == spec_literal_consts(k0, spec_token_lexeme(s, p0))
                }
            }),
            ({
                let s = old(self).src();
                let p0 = old(self).scan_pos();
                let k0 = spec_token_kind(s, p0);
                let p1 = spec_token_end(s, p0);
                let k1 = spec_token_kind(s, p1);
                let p2 = spec_token_end(s, p1);
                let k2 = spec_token_kind(s, p2);
                let p3 = spec_token_end(s, p2);
                (is_literal_kind(k0) && spec_infix_of(k1) is Some && is_literal_kind(k2)
                    && spec_token_kind(s, p3) == TokenType::Eof) ==> {
                    &&& r is Ok
                    &&& final(self).code() == spec_literal_code(k0, 0) + spec_literal_code(
                        k2,
                        spec_literal_consts(k0, spec_token_lexeme(s, p0)).len() as int,
                    ) + seq![spec_op_byte(spec_binary_op(k1)), 13u8]
                    &&& final(self).consts() == spec_literal_consts(k0, spec_token_lexeme(s, p0))
                        + spec_literal_consts(k2, spec_token_lexeme(s, p2))
                }
            }),
            ({
                let s = old(self).src();
                let p0 = old(self).scan_pos();
                let k0 = spec_token_kind(s, p0);
                let p1 = spec_token_end(s, p0);
                let k1 = spec_token_kind(s, p1);
                let p2 = spec_token_end(s, p1);
                (k0 == TokenType::Minus && is_literal_kind(k1) && spec_token_kind(s, p2)
                    == TokenType::Eof) ==> {
                    &&& r is Ok
                    &&& final(self).code() == spec_literal_code(k1, 0) + seq![12u8, 13u8]
                    &&& final(self).consts() == spec_literal_consts(k1, spec_token_lexeme(s, p1))
                }
            }),
    {
        self.parser.had_error = false;

        self.advance();
        let ghost a1 = *self;
        self.expression();
        let ghost a2 = *self;
        self.consume(TokenType::Eof, "Expect end of expression.");
        let ghost a3 = *self;

        self.end_compiler();
        proof {
            if !self.had_error() {
                let cf = self.code();
                let nf = self.consts().len() as int;
                let l2 = a2.code().len() as int;
                assert(a3.code() == a2.code());
                assert(cf == a2.code().push(spec_op_byte(OpCode::Return)));
                lemma_whole_subrange(a2.code());
                assert(cf.subrange(0, l2) =~= a2.code());
                lemma_expr_seg_grow(a2.code(), cf, a2.consts().len() as int, nf, 0, l2);
                assert(seg_wf(cf, nf, 0, l2, 0, 1));
                assert(spec_op_from_byte(cf[l2]) == OpCode::Return);
                assert(l2 >= 1);
            }
        }

        proof {
            let s = old(self).src();
            let p0 = old(self).scan_pos();
            let k0 = spec_token_kind(s, p0);
            let p1 = spec_token_end(s, p0);
            let k1 = spec_token_kind(s, p1);
            let p2 = spec_token_end(s, p1);
            let k2 = spec_token_kind(s, p2);
            let p3 = spec_token_end(s, p2);
            if is_literal_kind(k0) && k1 == TokenType::Eof {
                assert(self.code() =~= spec_literal_code(k0, 0) + seq![13u8]);
                assert(self.consts() =~= spec_literal_consts(k0, spec_token_lexeme(s, p0)));
            }
            if is_literal_kind(k0) && spec_infix_of(k1) is Some && is_literal_kind(k2)
                && spec_token_kind(s, p3) == TokenType::Eof {
                assert(self.code() =~= spec_literal_code(k0, 0) + spec_literal_code(
                    k2,
                    spec_literal_consts(k0, spec_token_lexeme(s, p0)).len() as int,
                ) + seq![spec_op_byte(spec_binary_op(k1)), 13u8]);
                assert(self.consts() =~= spec_literal_consts(k0, spec_token_lexeme(s, p0))
                    + spec_literal_consts(k2, spec_token_lexeme(s, p2)));
            }
            if k0 == TokenType::Minus && is_literal_kind(k1) && spec_token_kind(s, p2)
                == TokenType::Eof {
                assert(self.code() =~= spec_literal_code(k1, 0) + seq![12u8, 13u8]);
                assert(self.consts() =~= spec_literal_consts(k1, spec_token_lexeme(s, p1)));
            }
        }
        if self.parser.had_error {
            Err(InterpretError::CompilerError)
        } else {
            Ok(())
        }
    }

    /// Hands out the finished chunk.
    pub fn into_chunk(self) -> (c: Chunk)
        ensures
            c.code() == self.code(),
            c.constants() == self.consts(),
            self.wf() ==> c.wf(),
    {
        self.chunk
    }

    /// Hands out the recorded diagnostic, if any.
    pub fn into_diagnostic(self) -> (d: Option<Diagnostic>)
        ensures
            d is Some <==> self.has_diagnostic(),
            d == self.diag_spec(),
    {
        self.diagnostic
    }
}

/// The evolution relation composes.
pub proof fn lemma_evolves_trans(a: Compiler, b: Compiler, c: Compiler)
    requires
        evolves(a, b),
        evolves(b, c),
    ensures
        evolves(a, c),
{
    crate::chunk::lemma_prefix_subrange(b.code(), c.code(), 0, a.code().len() as int);
    crate::chunk::lemma_prefix_subrange(b.consts(), c.consts(), 0, a.consts().len() as int);
}

/// A sequence is its own subrange over its whole length.
pub proof fn lemma_whole_subrange<A>(s: Seq<A>)
    ensures
        s.subrange(0, s.len() as int) == s,
{
    assert(s.subrange(0, s.len() as int) =~= s);
}

/// What every compiler step preserves: the source is fixed, code and
/// constants only grow at the end, a reported error stays reported, and the
/// remaining work never grows.
pub open spec fn evolves(a: Compiler, b: Compiler) -> bool {
    &&& a.src() == b.src()
    &&& a.code().len() <= b.code().len()
    &&& b.code().subrange(0, a.code().len() as int) == a.code()
    &&& a.consts().len() <= b.consts().len()
    &&& b.consts().subrange(0, a.consts().len() as int) == a.consts()
    &&& (a.had_error() ==> b.had_error())
    &&& b.fuel() <= a.fuel()
}

} // verus!
