//! The scanner: source text to a lazy token stream.
//!
//! `spec_token_kind`, `spec_token_start`, `spec_token_end` and
//! `spec_token_lexeme` give the exact token that scanning produces at any
//! position of the source; `scan_token` is proved to return it.

use vstd::prelude::*;

verus! {

/// The closed set of token kinds. `Assign` is `=`, `Equal` is `==`.
#[derive(Clone, Copy, PartialEq, Eq, Structural, Debug)]
pub enum TokenType {
    LeftParen,
    RightParen,
    LeftBrace,
    RightBrace,
    Comma,
    Dot,
    Minus,
    Plus,
    SemiColon,
    Slash,
    Star,
    Bang,
    BangEqual,
    Assign,
    Equal,
    Greater,
    GreaterEqual,
    Less,
    LessEqual,
    Identifier,
    String,
    Number,
    And,
    Class,
    Else,
    False,
    Fun,
    For,
    If,
    Nil,
    Or,
    Print,
    Return,
    Super,
    This,
    True,
    Var,
    While,
    Eof,
    Error,
}

/// One token. For `Error` tokens the lexeme is the diagnostic message, not
/// source text; for every other kind it is the matched slice of the source.
pub struct Token {
    pub t: TokenType,
    pub lexme: String,
    pub line: usize,
}

impl Token {
    /// A copy of the token (`Token` holds a `String`, so it is not `Copy`).
    pub fn duplicate(&self) -> (r: Token)
        ensures
            r.t == self.t,
            r.lexme@ == self.lexme@,
            r.line == self.line,
    {
        Token { t: self.t, lexme: self.lexme.clone(), line: self.line }
    }
}

/// A decimal digit.
pub open spec fn is_digit(c: char) -> bool {
    '0' <= c && c <= '9'
}

/// A letter or underscore, the characters that may begin an identifier.
pub open spec fn is_alpha(c: char) -> bool {
    ('a' <= c && c <= 'z') || ('A' <= c && c <= 'Z') || c == '_'
}

/// A character that may continue an identifier.
pub open spec fn is_alnum(c: char) -> bool {
    is_alpha(c) || is_digit(c)
}

/// Whitespace skipped between tokens. Newlines advance the line counter.
pub open spec fn is_space(c: char) -> bool {
    c == ' ' || c == '\r' || c == '\t' || c == '\n'
}

/// How many newlines lie strictly before position `i`.
pub open spec fn newlines_before(s: Seq<char>, i: int) -> int
    decreases i,
{
    if i <= 0 {
        0
    } else {
        newlines_before(s, i - 1) + if 0 < i <= s.len() && s[i - 1] == '\n' {
            1int
        } else {
            0int
        }
    }
}

/// The first position at or after `i` that holds a newline, or the end of
/// the source: where a `//` comment stops (the newline itself is not part of
/// the comment).
pub open spec fn comment_end(s: Seq<char>, i: int) -> int
    decreases s.len() - i,
{
    if i >= s.len() {
        s.len() as int
    } else if s[i] == '\n' {
        i
    } else {
        comment_end(s, i + 1)
    }
}

/// The position of the next token: whitespace and `//` comments after `i`
/// are skipped.
pub open spec fn skip_pos(s: Seq<char>, i: int) -> int
    decreases s.len() - i,
    via skip_pos_dec
{
    if i < 0 || i >= s.len() {
        i
    } else if is_space(s[i]) {
        skip_pos(s, i + 1)
    } else if s[i] == '/' && i + 1 < s.len() && s[i + 1] == '/' {
        skip_pos(s, comment_end(s, i + 2))
    } else {
        i
    }
}

#[via_fn]
proof fn skip_pos_dec(s: Seq<char>, i: int) {
    if 0 <= i < s.len() && s[i] == '/' && i + 1 < s.len() && s[i + 1] == '/' {
        lemma_comment_end_bounds(s, i + 2);
    }
}

/// A comment never stops before where it starts, nor after the source ends.
pub proof fn lemma_comment_end_bounds(s: Seq<char>, i: int)
    requires
        i <= s.len(),
    ensures
        i <= comment_end(s, i) <= s.len(),
    decreases s.len() - i,
{
    if i < s.len() && s[i] != '\n' {
        lemma_comment_end_bounds(s, i + 1);
    }
}

/// Skipping whitespace moves forward and stays inside the source.
pub proof fn lemma_skip_pos_bounds(s: Seq<char>, i: int)
    requires
        0 <= i <= s.len(),
    ensures
        i <= skip_pos(s, i) <= s.len(),
    decreases s.len() - i,
{
    if i < s.len() {
        if is_space(s[i]) {
            lemma_skip_pos_bounds(s, i + 1);
        } else if s[i] == '/' && i + 1 < s.len() && s[i + 1] == '/' {
            lemma_comment_end_bounds(s, i + 2);
            lemma_skip_pos_bounds(s, comment_end(s, i + 2));
        }
    }
}

/// Skipping whitespace stops at the end of the source or on a character that
/// is neither whitespace nor the start of a comment.
pub proof fn lemma_skip_pos_stops(s: Seq<char>, i: int)
    requires
        0 <= i <= s.len(),
    ensures
        skip_pos(s, i) < s.len() ==> !is_space(s[skip_pos(s, i)]),
    decreases s.len() - i,
{
    if i < s.len() {
        if is_space(s[i]) {
            lemma_skip_pos_stops(s, i + 1);
        } else if s[i] == '/' && i + 1 < s.len() && s[i + 1] == '/' {
            lemma_comment_end_bounds(s, i + 2);
            lemma_skip_pos_stops(s, comment_end(s, i + 2));
        }
    }
}

/// There are never more newlines before a position than characters.
pub proof fn lemma_newlines_le(s: Seq<char>, i: int)
    requires
        0 <= i,
    ensures
        0 <= newlines_before(s, i) <= i,
    decreases i,
{
    if i > 0 {
        lemma_newlines_le(s, i - 1);
    }
}

/// The end of an identifier that continues at position `i`.
pub open spec fn ident_end(s: Seq<char>, i: int) -> int
    decreases s.len() - i,
{
    if 0 <= i < s.len() && is_alnum(s[i]) {
        ident_end(s, i + 1)
    } else {
        i
    }
}

/// The end of a run of digits that continues at position `i`.
pub open spec fn digits_end(s: Seq<char>, i: int) -> int
    decreases s.len() - i,
{
    if 0 <= i < s.len() && is_digit(s[i]) {
        digits_end(s, i + 1)
    } else {
        i
    }
}

/// The end of a number literal whose first digit stands at `t`: digits, then
/// optionally a dot followed by at least one digit and the digits after it.
/// Trailing `.` without a digit is left for the next token.
pub open spec fn number_end(s: Seq<char>, t: int) -> int {
    let d = digits_end(s, t + 1);
    if d < s.len() && s[d] == '.' && d + 1 < s.len() && is_digit(s[d + 1]) {
        digits_end(s, d + 2)
    } else {
        d
    }
}

/// The position of the closing quote of a string whose body starts at `i`,
/// or the end of the source if the string is unterminated.
pub open spec fn string_close(s: Seq<char>, i: int) -> int
    decreases s.len() - i,
{
    if i < 0 || i >= s.len() {
        s.len() as int
    } else if s[i] == '"' {
        i
    } else {
        string_close(s, i + 1)
    }
}

/// The keyword kind a lexeme selects, or `Identifier` if it is none of the
/// fixed keywords.
pub open spec fn keyword_kind(lex: Seq<char>) -> TokenType {
    if lex == "and"@ {
        TokenType::And
    } else if lex == "class"@ {
        TokenType::Class
    } else if lex == "else"@ {
        TokenType::Else
    } else if lex == "if"@ {
        TokenType::If
    } else if lex == "nil"@ {
        TokenType::Nil
    } else if lex == "or"@ {
        TokenType::Or
    } else if lex == "print"@ {
        TokenType::Print
    } else if lex == "return"@ {
        TokenType::Return
    } else if lex == "super"@ {
        TokenType::Super
    } else if lex == "var"@ {
        TokenType::Var
    } else if lex == "while"@ {
        TokenType::While
    } else if lex == "false"@ {
        TokenType::False
    } else if lex == "for"@ {
        TokenType::For
    } else if lex == "fun"@ {
        TokenType::Fun
    } else if lex == "this"@ {
        TokenType::This
    } else if lex == "true"@ {
        TokenType::True
    } else {
        TokenType::Identifier
    }
}

/// The kind of the token that begins at token start `t` (whitespace already
/// skipped, `t` strictly inside the source).
pub open spec fn kind_at(s: Seq<char>, t: int) -> TokenType {
    let c = s[t];
    if c == '(' {
        TokenType::LeftParen
    } else if c == ')' {
        TokenType::RightParen
    } else if c == '{' {
        TokenType::LeftBrace
    } else if c == '}' {
        TokenType::RightBrace
    } else if c == ';' {
        TokenType::SemiColon
    } else if c == ',' {
        TokenType::Comma
    } else if c == '.' {
        TokenType::Dot
    } else if c == '-' {
        TokenType::Minus
    } else if c == '+' {
        TokenType::Plus
    } else if c == '/' {
        TokenType::Slash
    } else if c == '*' {
        TokenType::Star
    } else if c == '!' {
        if t + 1 < s.len() && s[t + 1] == '=' {
            TokenType::BangEqual
        } else {
            TokenType::Bang
        }
    } else if c == '=' {
        if t + 1 < s.len() && s[t + 1] == '=' {
            TokenType::Equal
        } else {
            TokenType::Assign
        }
    } else if c == '<' {
        if t + 1 < s.len() && s[t + 1] == '=' {
            TokenType::LessEqual
        } else {
            TokenType::Less
        }
    } else if c == '>' {
        if t + 1 < s.len() && s[t + 1] == '=' {
            TokenType::GreaterEqual
        } else {
            TokenType::Greater
        }
    } else if c == '"' {
        if string_close(s, t + 1) < s.len() {
            TokenType::String
        } else {
            TokenType::Error
        }
    } else if is_digit(c) {
        TokenType::Number
    } else if is_alpha(c) {
        keyword_kind(s.subrange(t, ident_end(s, t + 1)))
    } else {
        TokenType::Error
    }
}

/// The position just after the token that begins at token start `t`.
pub open spec fn end_at(s: Seq<char>, t: int) -> int {
    let c = s[t];
    if c == '!' || c == '=' || c == '<' || c == '>' {
        if t + 1 < s.len() && s[t + 1] == '=' {
            t + 2
        } else {
            t + 1
        }
    } else if c == '"' {
        let close = string_close(s, t + 1);
        if close < s.len() {
            close + 1
        } else {
            s.len() as int
        }
    } else if is_digit(c) {
        number_end(s, t)
    } else if is_alpha(c) {
        ident_end(s, t + 1)
    } else {
        t + 1
    }
}

/// Where the token produced by scanning at position `pos` starts.
pub open spec fn spec_token_start(s: Seq<char>, pos: int) -> int {
    skip_pos(s, pos)
}

/// The kind of the token produced by scanning at position `pos`.
pub open spec fn spec_token_kind(s: Seq<char>, pos: int) -> TokenType {
    let t = skip_pos(s, pos);
    if t >= s.len() {
        TokenType::Eof
    } else {
        kind_at(s, t)
    }
}

/// The scanner's position after producing the token that scanning at `pos`
/// yields.
pub open spec fn spec_token_end(s: Seq<char>, pos: int) -> int {
    let t = skip_pos(s, pos);
    if t >= s.len() {
        t
    } else {
        end_at(s, t)
    }
}

/// The lexeme of the token produced at `pos`: the matched source slice, or
/// the diagnostic message for `Error` tokens, or empty for `Eof`.
pub open spec fn spec_token_lexeme(s: Seq<char>, pos: int) -> Seq<char> {
    let t = skip_pos(s, pos);
    if t >= s.len() {
        Seq::<char>::empty()
    } else if kind_at(s, t) == TokenType::Error {
        if s[t] == '"' {
            "Unterminated string."@
        } else {
            "Unexpected character."@
        }
    } else {
        s.subrange(t, end_at(s, t))
    }
}

/// The characters of the source from `pos` on that belong to tokens:
/// everything except the whitespace and comments between them.
pub open spec fn meaningful_chars(s: Seq<char>, pos: int) -> Seq<char>
    decreases s.len() - pos,
    via meaningful_chars_dec
{
    let t = skip_pos(s, pos);
    if t < 0 || t >= s.len() {
        Seq::<char>::empty()
    } else {
        s.subrange(t, end_at(s, t)) + meaningful_chars(s, end_at(s, t))
    }
}

#[via_fn]
proof fn meaningful_chars_dec(s: Seq<char>, pos: int) {
    let t = skip_pos(s, pos);
    if 0 <= t < s.len() {
        if 0 <= pos <= s.len() {
            lemma_skip_pos_bounds(s, pos);
        }
        lemma_end_at_bounds(s, t);
    }
}

/// Scanning from `pos` yields no `Error` token before the end of the
/// source.
pub open spec fn scan_clean(s: Seq<char>, pos: int) -> bool
    decreases s.len() - pos,
    via scan_clean_dec
{
    let t = skip_pos(s, pos);
    if t < 0 || t >= s.len() {
        true
    } else {
        kind_at(s, t) != TokenType::Error && scan_clean(s, end_at(s, t))
    }
}

#[via_fn]
proof fn scan_clean_dec(s: Seq<char>, pos: int) {
    let t = skip_pos(s, pos);
    if 0 <= t < s.len() {
        if 0 <= pos <= s.len() {
            lemma_skip_pos_bounds(s, pos);
        }
        lemma_end_at_bounds(s, t);
    }
}

/// The concatenation of the lexemes of every token scanned from `pos` to
/// the end of the source.
pub open spec fn scan_lexemes(s: Seq<char>, pos: int) -> Seq<char>
    decreases s.len() - pos,
    via scan_lexemes_dec
{
    let t = skip_pos(s, pos);
    if t < 0 || t >= s.len() {
        Seq::<char>::empty()
    } else {
        spec_token_lexeme(s, pos) + scan_lexemes(s, end_at(s, t))
    }
}

#[via_fn]
proof fn scan_lexemes_dec(s: Seq<char>, pos: int) {
    let t = skip_pos(s, pos);
    if 0 <= t < s.len() {
        if 0 <= pos <= s.len() {
            lemma_skip_pos_bounds(s, pos);
        }
        lemma_end_at_bounds(s, t);
    }
}

/// Round trip: when scanning meets no malformed token, putting the lexemes
/// of all scanned tokens back together yields exactly the source's
/// meaningful characters — everything but the whitespace and comments that
/// scanning discards. (An `Error` token carries its diagnostic message as
/// its lexeme, so sources that scan to one are left out.)
pub proof fn lemma_scan_round_trip(s: Seq<char>, pos: int)
    requires
        0 <= pos <= s.len(),
        scan_clean(s, pos),
    ensures
        scan_lexemes(s, pos) == meaningful_chars(s, pos),
    decreases s.len() - pos,
{
    let t = skip_pos(s, pos);
    lemma_skip_pos_bounds(s, pos);
    if t < s.len() {
        lemma_end_at_bounds(s, t);
        lemma_scan_round_trip(s, end_at(s, t));
    }
}

/// An unterminated string is reported as exactly one `Error` token whose
/// lexeme is the diagnostic message; it consumes the rest of the source, so
/// the next scan (and every one after it) yields `Eof`.
pub proof fn lemma_unterminated_string_then_eof(s: Seq<char>, pos: int)
    requires
        0 <= pos <= s.len(),
        spec_token_kind(s, pos) == TokenType::Error,
        s[spec_token_start(s, pos)] == '"',
    ensures
        spec_token_lexeme(s, pos) == "Unterminated string."@,
        spec_token_end(s, pos) == s.len(),
        spec_token_kind(s, spec_token_end(s, pos)) == TokenType::Eof,
{
    let t = skip_pos(s, pos);
    lemma_skip_pos_bounds(s, pos);
    lemma_string_close_bounds(s, t + 1);
}

/// Bounds for `ident_end`: it moves forward and stays inside the source.
pub proof fn lemma_ident_end_bounds(s: Seq<char>, i: int)
    requires
        i <= s.len(),
    ensures
        i <= ident_end(s, i) <= s.len(),
    decreases s.len() - i,
{
    if 0 <= i < s.len() && is_alnum(s[i]) {
        lemma_ident_end_bounds(s, i + 1);
    }
}

/// Bounds for `digits_end`: it moves forward and stays inside the source.
pub proof fn lemma_digits_end_bounds(s: Seq<char>, i: int)
    requires
        i <= s.len(),
    ensures
        i <= digits_end(s, i) <= s.len(),
    decreases s.len() - i,
{
    if 0 <= i < s.len() && is_digit(s[i]) {
        lemma_digits_end_bounds(s, i + 1);
    }
}

/// Bounds for `string_close`: it never stops before `i` nor past the end.
pub proof fn lemma_string_close_bounds(s: Seq<char>, i: int)
    requires
        0 <= i <= s.len(),
    ensures
        i <= string_close(s, i) <= s.len(),
    decreases s.len() - i,
{
    if i < s.len() && s[i] != '"' {
        lemma_string_close_bounds(s, i + 1);
    }
}

/// A token never ends before the character after its start, nor past the end
/// of the source.
pub proof fn lemma_end_at_bounds(s: Seq<char>, t: int)
    requires
        0 <= t < s.len(),
    ensures
        t + 1 <= end_at(s, t) <= s.len(),
{
    lemma_digits_end_bounds(s, t + 1);
    lemma_ident_end_bounds(s, t + 1);
    lemma_string_close_bounds(s, t + 1);
    if is_digit(s[t]) {
        let d = digits_end(s, t + 1);
        if d < s.len() && s[d] == '.' && d + 1 < s.len() && is_digit(s[d + 1]) {
            lemma_digits_end_bounds(s, d + 2);
        }
    }
}

/// Whether two string slices spell the same characters.
fn str_chars_eq(a: &str, b: &str) -> (r: bool)
    ensures
        r == (a@ == b@),
{
    let n = a.unicode_len();
    if n != b.unicode_len() {
        return false;
    }
    let mut i: usize = 0;
    while i < n
        invariant
            i <= n,
            n == a@.len(),
            n == b@.len(),
            forall|j: int| 0 <= j < i ==> a@[j] == b@[j],
        decreases n - i,
    {
        if a.get_char(i) != b.get_char(i) {
            return false;
        }
        i += 1;
    }
    proof {
        assert(a@ =~= b@);
    }
    true
}

/// The scanner: a cursor over the source characters. `start` marks the first
/// character of the token being scanned, `current` the next character to
/// read, `line` the 1-based line of `current`.
pub struct Scanner {
    source: Vec<char>,
    text: String,
    start: usize,
    current: usize,
    line: usize,
}

impl Scanner {
    /// The source as a sequence of characters.
    pub closed spec fn src(&self) -> Seq<char> {
        self.source@
    }

    /// The position of the next character to read.
    pub closed spec fn pos(&self) -> int {
        self.current as int
    }

    /// The start position of the token being scanned.
    pub closed spec fn token_start(&self) -> int {
        self.start as int
    }

    /// The current line number.
    pub closed spec fn line_no(&self) -> int {
        self.line as int
    }

    /// Structural well-formedness: the cursor stays inside the source.
    pub closed spec fn wf(&self) -> bool {
        &&& self.text@ == self.source@
        &&& self.start <= self.current <= self.source@.len()
        &&& self.source@.len() < usize::MAX
    }

    /// The line counter agrees with the newlines already consumed.
    pub closed spec fn line_ok(&self) -> bool {
        self.line == 1 + newlines_before(self.source@, self.current as int)
    }

    pub fn new(source: &str) -> (r: Self)
        requires
            source@.len() < usize::MAX,
        ensures
            r.wf(),
            r.line_ok(),
            r.src() == source@,
            r.pos() == 0,
    {
        let n = source.unicode_len();
        let mut chars: Vec<char> = Vec::new();
        let mut i: usize = 0;
        while i < n
            invariant
                i <= n,
                n == source@.len(),
                chars@ == source@.subrange(0, i as int),
            decreases n - i,
        {
            let c = source.get_char(i);
            chars.push(c);
            proof {
                assert(source@.subrange(0, i + 1) =~= source@.subrange(0, i as int).push(c));
            }
            i += 1;
        }
        proof {
            assert(chars@ =~= source@);
        }
        Scanner {
            source: chars,
            text: String::from_str(source),
            start: 0,
            current: 0,
            line: 1,
        }
    }

    /// Produces the next token. Repeated calls at the end of the source keep
    /// returning `Eof`. The returned token is exactly the one the spec-level
    /// functions describe at the scanner's old position.
    pub fn scan_token(&mut self) -> (tok: Token)
        requires
            old(self).wf(),
            old(self).line_ok(),
        ensures
            final(self).wf(),
            final(self).line_ok(),
            final(self).src() == old(self).src(),
            final(self).token_start() == spec_token_start(old(self).src(), old(self).pos()),
            final(self).pos() == spec_token_end(old(self).src(), old(self).pos()),
            tok.t == spec_token_kind(old(self).src(), old(self).pos()),
            tok.lexme@ == spec_token_lexeme(old(self).src(), old(self).pos()),
            tok.line as int == 1 + newlines_before(old(self).src(), final(self).pos()),
            old(self).pos() <= final(self).pos() <= old(self).src().len(),
            tok.t != TokenType::Eof ==> old(self).pos() < final(self).pos(),
            tok.t == TokenType::Eof ==> final(self).pos() == old(self).src().len(),
    {
        let ghost s = old(self).src();
        let ghost p_in = old(self).pos();
        self.skip_whitespace();
        proof {
            lemma_skip_pos_bounds(s, p_in);
        }
        self.start = self.current;
        let ghost t = self.pos();

        if self.is_at_end() {
            return self.make_token(TokenType::Eof);
        }
        proof {
            lemma_end_at_bounds(s, t);
        }

        let c = self.advance();
        proof {
            lemma_skip_pos_stops(s, p_in);
            assert(self.line_ok());
        }

        if c == '(' {
            self.make_token(TokenType::LeftParen)
        } else if c == ')' {
            self.make_token(TokenType::RightParen)
        } else if c == '{' {
            self.make_token(TokenType::LeftBrace)
        } else if c == '}' {
            self.make_token(TokenType::RightBrace)
        } else if c == ';' {
            self.make_token(TokenType::SemiColon)
        } else if c == ',' {
            self.make_token(TokenType::Comma)
        } else if c == '.' {
            self.make_token(TokenType::Dot)
        } else if c == '-' {
            self.make_token(TokenType::Minus)
        } else if c == '+' {
            self.make_token(TokenType::Plus)
        } else if c == '/' {
            self.make_token(TokenType::Slash)
        } else if c == '*' {
            self.make_token(TokenType::Star)
        } else if c == '!' {
            let two = self.is_match('=');
            proof {
                assert(self.line_ok());
            }
            self.make_token(
                if two {
                    TokenType::BangEqual
                } else {
                    TokenType::Bang
                },
            )
        } else if c == '=' {
            let two = self.is_match('=');
            proof {
                assert(self.line_ok());
            }
            self.make_token(
                if two {
                    TokenType::Equal
                } else {
                    TokenType::Assign
                },
            )
        } else if c == '<' {
            let two = self.is_match('=');
            proof {
                assert(self.line_ok());
            }
            self.make_token(
                if two {
                    TokenType::LessEqual
                } else {
                    TokenType::Less
                },
            )
        } else if c == '>' {
            let two = self.is_match('=');
            proof {
                assert(self.line_ok());
            }
            self.make_token(
                if two {
                    TokenType::GreaterEqual
                } else {
                    TokenType::Greater
                },
            )
        } else if c == '"' {
            self.string()
        } else if c >= '0' && c <= '9' {
            self.number()
        } else if (c >= 'a' && c <= 'z') || (c >= 'A' && c <= 'Z') || c == '_' {
            self.identifier()
        } else {
            self.error_token("Unexpected character.")
        }
    }

    fn is_at_end(&self) -> (r: bool)
        ensures
            r == (self.pos() == self.src().len()),
    {
        self.current == self.source.len()
    }

    /// The next character, without consuming it.
    fn peek(&self) -> (r: Option<char>)
        requires
            self.wf(),
        ensures
            r == if self.pos() < self.src().len() {
                Some(self.src()[self.pos()])
            } else {
                None::<char>
            },
    {
        if self.current < self.source.len() {
            Some(self.source[self.current])
        } else {
            None
        }
    }

    /// The character after the next one, without consuming anything.
    fn peek_next(&self) -> (r: Option<char>)
        requires
            self.wf(),
        ensures
            r == if self.pos() + 1 < self.src().len() {
                Some(self.src()[self.pos() + 1])
            } else {
                None::<char>
            },
    {
        if self.current + 1 < self.source.len() {
            Some(self.source[self.current + 1])
        } else {
            None
        }
    }

    /// Consumes and returns the next character.
    fn advance(&mut self) -> (c: char)
        requires
            old(self).wf(),
            old(self).pos() < old(self).src().len(),
        ensures
            final(self).wf(),
            final(self).src() == old(self).src(),
            final(self).token_start() == old(self).token_start(),
            final(self).line_no() == old(self).line_no(),
            final(self).pos() == old(self).pos() + 1,
            c == old(self).src()[old(self).pos()],
    {
        self.current += 1;
        self.source[self.current - 1]
    }

    /// Consumes the next character when it equals `expected`.
    fn is_match(&mut self, expected: char) -> (r: bool)
        requires
            old(self).wf(),
        ensures
            final(self).wf(),
            final(self).src() == old(self).src(),
            final(self).token_start() == old(self).token_start(),
            final(self).line_no() == old(self).line_no(),
            r == (old(self).pos() < old(self).src().len() && old(self).src()[old(self).pos()]
                == expected),
            final(self).pos() == old(self).pos() + if r {
                1int
            } else {
                0int
            },
    {
        if self.is_at_end() {
            false
        } else if self.source[self.current] != expected {
            false
        } else {
            self.current += 1;
            true
        }
    }

    /// Skips whitespace and `//` comments, counting newlines.
    fn skip_whitespace(&mut self)
        requires
            old(self).wf(),
            old(self).line_ok(),
        ensures
            final(self).wf(),
            final(self).line_ok(),
            final(self).src() == old(self).src(),
            final(self).token_start() == old(self).token_start(),
            final(self).pos() == skip_pos(old(self).src(), old(self).pos()),
    {
        let ghost s = self.src();
        let ghost p0 = self.pos();
        loop
            invariant
                self.wf(),
                self.line_ok(),
                s == old(self).src(),
                p0 == old(self).pos(),
                self.src() == s,
                self.token_start() == old(self).token_start(),
                0 <= self.pos() <= s.len(),
                skip_pos(s, self.pos()) == skip_pos(s, p0),
            decreases s.len() - self.pos(),
        {
            match self.peek() {
                Some(' ') | Some('\r') | Some('\t') => {
                    self.advance();
                },
                Some('\n') => {
                    proof {
                        lemma_newlines_le(s, self.pos());
                    }
                    self.line += 1;
                    self.advance();
                },
                Some('/') => {
                    match self.peek_next() {
                        Some('/') => {
                            let ghost pc = self.pos();
                            proof {
                                lemma_comment_end_bounds(s, pc);
                            }
                            loop
                                invariant
                                    self.wf(),
                                    self.line_ok(),
                                    self.src() == s,
                                    self.token_start() == old(self).token_start(),
                                    pc <= self.pos() <= s.len(),
                                    comment_end(s, self.pos()) == comment_end(s, pc),
                                ensures
                                    self.wf(),
                                    self.line_ok(),
                                    self.src() == s,
                                    self.token_start() == old(self).token_start(),
                                    pc <= self.pos() <= s.len(),
                                    self.pos() == comment_end(s, pc),
                                decreases s.len() - self.pos(),
                            {
                                match self.peek() {
                                    Some(ch) => {
                                        if ch == '\n' {
                                            break ;
                                        }
                                    },
                                    None => {
                                        break ;
                                    },
                                }
                                proof {
                                    lemma_comment_end_bounds(s, self.pos() + 1);
                                }
                                self.advance();
                            }
                            proof {
                                assert(comment_end(s, pc) == comment_end(s, pc + 1));
                                assert(comment_end(s, pc + 1) == comment_end(s, pc + 2));
                                assert(comment_end(s, pc + 2) >= pc + 2) by {
                                    lemma_comment_end_bounds(s, pc + 2);
                                }
                            }
                        },
                        _ => {
                            return ;
                        },
                    }
                },
                _ => {
                    return ;
                },
            }
        }
    }

    /// Makes a token of the given kind out of the current lexeme.
    fn make_token(&self, kind: TokenType) -> (tok: Token)
        requires
            self.wf(),
        ensures
            tok.t == kind,
            tok.lexme@ == self.src().subrange(self.token_start(), self.pos()),
            tok.line as int == self.line_no(),
    {
        let lex = self.text.as_str().substring_char(self.start, self.current);
        Token { t: kind, lexme: String::from_str(lex), line: self.line }
    }

    /// Makes an `Error` token whose lexeme is the diagnostic message.
    fn error_token(&self, message: &str) -> (tok: Token)
        ensures
            tok.t == TokenType::Error,
            tok.lexme@ == message@,
            tok.line as int == self.line_no(),
    {
        Token { t: TokenType::Error, lexme: String::from_str(message), line: self.line }
    }

    /// The keyword kind a lexeme selects, or `Identifier`.
    fn identifier_type(&self, lexme: &str) -> (r: TokenType)
        ensures
            r == keyword_kind(lexme@),
    {
        if str_chars_eq(lexme, "and") {
            TokenType::And
        } else if str_chars_eq(lexme, "class") {
            TokenType::Class
        } else if str_chars_eq(lexme, "else") {
            TokenType::Else
        } else if str_chars_eq(lexme, "if") {
            TokenType::If
        } else if str_chars_eq(lexme, "nil") {
            TokenType::Nil
        } else if str_chars_eq(lexme, "or") {
            TokenType::Or
        } else if str_chars_eq(lexme, "print") {
            TokenType::Print
        } else if str_chars_eq(lexme, "return") {
            TokenType::Return
        } else if str_chars_eq(lexme, "super") {
            TokenType::Super
        } else if str_chars_eq(lexme, "var") {
            TokenType::Var
        } else if str_chars_eq(lexme, "while") {
            TokenType::While
        } else if str_chars_eq(lexme, "false") {
            TokenType::False
        } else if str_chars_eq(lexme, "for") {
            TokenType::For
        } else if str_chars_eq(lexme, "fun") {
            TokenType::Fun
        } else if str_chars_eq(lexme, "this") {
            TokenType::This
        } else if str_chars_eq(lexme, "true") {
            TokenType::True
        } else {
            TokenType::Identifier
        }
    }

    /// Makes the identifier or keyword token out of the current lexeme.
    fn make_identifier(&mut self) -> (tok: Token)
        requires
            old(self).wf(),
        ensures
            *final(self) == *old(self),
            tok.t == keyword_kind(old(self).src().subrange(
                old(self).token_start(),
                old(self).pos(),
            )),
            tok.lexme@ == old(self).src().subrange(old(self).token_start(), old(self).pos()),
            tok.line as int == old(self).line_no(),
    {
        let lexme = String::from_str(self.text.as_str().substring_char(self.start, self.current));
        let t = self.identifier_type(lexme.as_str());
        Token { t, lexme, line: self.line }
    }

    /// Scans the rest of an identifier whose first character was consumed.
    fn identifier(&mut self) -> (tok: Token)
        requires
            old(self).wf(),
            old(self).line_ok(),
            old(self).token_start() < old(self).pos(),
        ensures
            final(self).wf(),
            final(self).line_ok(),
            final(self).src() == old(self).src(),
            final(self).token_start() == old(self).token_start(),
            final(self).line_no() == old(self).line_no(),
            final(self).pos() == ident_end(old(self).src(), old(self).pos()),
            tok.t == keyword_kind(old(self).src().subrange(
                old(self).token_start(),
                final(self).pos(),
            )),
            tok.lexme@ == old(self).src().subrange(old(self).token_start(), final(self).pos()),
            tok.line as int == old(self).line_no(),
    {
        let ghost s = self.src();
        let ghost p0 = self.pos();
        loop
            invariant
                self.wf(),
                self.line_ok(),
                s == old(self).src(),
                p0 == old(self).pos(),
                self.src() == s,
                self.token_start() == old(self).token_start(),
                self.line_no() == old(self).line_no(),
                p0 <= self.pos() <= s.len(),
                ident_end(s, self.pos()) == ident_end(s, p0),
            ensures
                self.wf(),
                self.line_ok(),
                self.src() == s,
                self.token_start() == old(self).token_start(),
                self.line_no() == old(self).line_no(),
                self.pos() == ident_end(s, p0),
            decreases s.len() - self.pos(),
        {
            match self.peek() {
                Some(ch) => {
                    let go = (ch >= 'a' && ch <= 'z') || (ch >= 'A' && ch <= 'Z') || ch == '_' || (
                    ch >= '0' && ch <= '9');
                    if !go {
                        break ;
                    }
                },
                None => {
                    break ;
                },
            }
            self.advance();
        }
        self.make_identifier()
    }

    /// Scans the rest of a number literal whose first digit was consumed.
    fn number(&mut self) -> (tok: Token)
        requires
            old(self).wf(),
            old(self).line_ok(),
            old(self).token_start() < old(self).pos(),
        ensures
            final(self).wf(),
            final(self).line_ok(),
            final(self).src() == old(self).src(),
            final(self).token_start() == old(self).token_start(),
            final(self).line_no() == old(self).line_no(),
            final(self).pos() == number_end(old(self).src(), old(self).pos() - 1),
            tok.t == TokenType::Number,
            tok.lexme@ == old(self).src().subrange(old(self).token_start(), final(self).pos()),
            tok.line as int == old(self).line_no(),
    {
        let ghost s = self.src();
        let ghost p0 = self.pos();
        self.scan_digits();
        let take_fraction = match (self.peek(), self.peek_next()) {
            (Some('.'), Some(n)) => n >= '0' && n <= '9',
            _ => false,
        };
        if take_fraction {
            self.advance();
            proof {
                assert(self.line_ok());
            }
            self.advance();
            proof {
                assert(self.line_ok());
            }
            self.scan_digits();
        }
        self.make_token(TokenType::Number)
    }

    /// Consumes the run of digits at the cursor.
    fn scan_digits(&mut self)
        requires
            old(self).wf(),
            old(self).line_ok(),
        ensures
            final(self).wf(),
            final(self).line_ok(),
            final(self).src() == old(self).src(),
            final(self).token_start() == old(self).token_start(),
            final(self).line_no() == old(self).line_no(),
            final(self).pos() == digits_end(old(self).src(), old(self).pos()),
    {
        let ghost s = self.src();
        let ghost p0 = self.pos();
        loop
            invariant
                self.wf(),
                self.line_ok(),
                s == old(self).src(),
                p0 == old(self).pos(),
                self.src() == s,
                self.token_start() == old(self).token_start(),
                self.line_no() == old(self).line_no(),
                p0 <= self.pos() <= s.len(),
                digits_end(s, self.pos()) == digits_end(s, p0),
            ensures
                self.wf(),
                self.line_ok(),
                self.src() == s,
                self.token_start() == old(self).token_start(),
                self.line_no() == old(self).line_no(),
                self.pos() == digits_end(s, p0),
            decreases s.len() - self.pos(),
        {
            match self.peek() {
                Some(ch) => {
                    if !(ch >= '0' && ch <= '9') {
                        break ;
                    }
                },
                None => {
                    break ;
                },
            }
            self.advance();
        }
    }

    /// Scans the rest of a string literal whose opening quote was consumed.
    fn string(&mut self) -> (tok: Token)
        requires
            old(self).wf(),
            old(self).line_ok(),
            0 <= old(self).token_start(),
            old(self).pos() == old(self).token_start() + 1,
            old(self).token_start() < old(self).src().len(),
            old(self).src()[old(self).token_start()] == '"',
        ensures
            final(self).wf(),
            final(self).line_ok(),
            final(self).src() == old(self).src(),
            final(self).token_start() == old(self).token_start(),
            final(self).pos() == end_at(old(self).src(), old(self).token_start()),
            tok.t == kind_at(old(self).src(), old(self).token_start()),
            tok.lexme@ == (if string_close(old(self).src(), old(self).pos())
                < old(self).src().len() {
                old(self).src().subrange(old(self).token_start(), final(self).pos())
            } else {
                "Unterminated string."@
            }),
            tok.line as int == 1 + newlines_before(old(self).src(), final(self).pos()),
    {
        let ghost s = self.src();
        let ghost p0 = self.pos();
        proof {
            lemma_string_close_bounds(s, p0);
        }
        loop
            invariant
                self.wf(),
                self.line_ok(),
                s == old(self).src(),
                p0 == old(self).pos(),
                self.src() == s,
                self.token_start() == old(self).token_start(),
                p0 <= self.pos() <= s.len(),
                string_close(s, self.pos()) == string_close(s, p0),
            ensures
                self.wf(),
                self.line_ok(),
                self.src() == s,
                self.token_start() == old(self).token_start(),
                p0 <= self.pos() <= s.len(),
                self.pos() == string_close(s, p0),
                self.pos() < s.len() ==> s[self.pos()] == '"',
            decreases s.len() - self.pos(),
        {
            match self.peek() {
                Some(ch) => {
                    if ch == '"' {
                        break ;
                    }
                    if ch == '\n' {
                        proof {
                            lemma_newlines_le(s, self.pos());
                        }
                        self.line += 1;
                    }
                },
                None => {
                    break ;
                },
            }
            self.advance();
        }
        if self.is_at_end() {
            self.error_token("Unterminated string.")
        } else {
            self.advance();
            self.make_token(TokenType::String)
        }
    }
}

} // verus!
