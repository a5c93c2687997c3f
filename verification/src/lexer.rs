//! Lexer: turns source text into a stream of typed tokens with source
//! positions. Operator lexing performs longest-match over the operator table;
//! unknown characters are coalesced into contiguous `Unknown` tokens. The
//! stream is terminated by exactly one `EndOfFile` token.

use vstd::prelude::*;
use vstd::string::StrSliceExecFns;
use vstd::string::StringExecFns;

verus! {

#[derive(Debug, Clone, PartialEq, Eq, Copy, Structural)]
pub enum TokenKind {
    // Literals
    Number,
    // Keywords
    LetKeyword,
    BeKeyword,
    AndKeyword,
    OrKeyword,
    NotKeyword,
    SetKeyword,
    ToKeyword,
    IfKeyword,
    ThenKeyword,
    EndKeyword,
    ElseKeyword,
    TrueKeyword,
    FalseKeyword,
    WhileKeyword,
    ForKeyword,
    DoKeyword,
    FromKeyword,
    StepKeyword,
    DefineKeyword,
    FunctionKeyword,
    WithKeyword,
    AsKeyword,
    ReturnKeyword,
    // Operators
    Plus,
    Minus,
    Star,
    Slash,
    Percent,
    EqualEqual,
    NotEqual,
    LessThan,
    GreaterThan,
    LessThanOrEqual,
    GreaterThanOrEqual,
    Bang,
    // Symbols
    LeftParen,
    RightParen,
    Comma,

    Identifier,

    Unknown,

    EndOfFile,
}

#[derive(Debug, Clone, Copy, PartialEq, Eq, Structural)]
pub struct TokenPosition {
    pub line: usize,
    pub column: usize,
}

/// A source region from a start position to an end position.
#[derive(Debug, Clone, Copy, PartialEq, Eq, Structural)]
pub struct TextSpan {
    pub start: TokenPosition,
    pub end: TokenPosition,
}

impl TextSpan {
    /// The span that starts where `self` starts and ends where `other` ends.
    pub fn union(&self, other: &TextSpan) -> (r: TextSpan)
        ensures
            r.start == self.start,
            r.end == other.end,
    {
        TextSpan { start: self.start.clone(), end: other.end.clone() }
    }
}

#[derive(Debug, PartialEq, Eq)]
pub struct Token {
    pub kind: TokenKind,
    pub value: String,
    pub position: TokenPosition,
}

impl Clone for Token {
    fn clone(&self) -> (r: Token)
        ensures
            r == *self,
    {
        Token { kind: self.kind, value: self.value.clone(), position: self.position }
    }
}

/// Adds 1, stopping at the largest representable value.
pub open spec fn sat_inc(x: usize) -> usize {
    if x < usize::MAX {
        (x + 1) as usize
    } else {
        x
    }
}

/// Adds two counts, stopping at the largest representable value.
pub open spec fn sat_add(x: usize, y: nat) -> usize {
    if x + y <= usize::MAX {
        (x + y) as usize
    } else {
        usize::MAX
    }
}

pub open spec fn token_span(t: Token) -> TextSpan {
    TextSpan {
        start: t.position,
        end: TokenPosition {
            line: t.position.line,
            column: sat_add(t.position.column, t.value@.len()),
        },
    }
}

impl Token {
    /// The source region this token covers: tokens never cross a line break,
    /// so the end column is the start column advanced by the token's length.
    pub fn span(&self) -> (r: TextSpan)
        ensures
            r == token_span(*self),
    {
        let len = self.value.as_str().unicode_len();
        let end_col = if self.position.column <= usize::MAX - len {
            self.position.column + len
        } else {
            usize::MAX
        };
        TextSpan {
            start: self.position.clone(),
            end: TokenPosition { line: self.position.line, column: end_col },
        }
    }
}

// ---------------------------------------------------------------------------
// Character classes. The lexer recognises ASCII letters, digits and
// whitespace; all other characters are either operators, symbols, or unknown.
// ---------------------------------------------------------------------------

pub open spec fn is_digit_char(c: char) -> bool {
    48 <= c as u32 && c as u32 <= 57
}

pub open spec fn is_alpha_char(c: char) -> bool {
    (65 <= c as u32 && c as u32 <= 90) || (97 <= c as u32 && c as u32 <= 122)
}

pub open spec fn is_ident_start_char(c: char) -> bool {
    is_alpha_char(c) || c == '_'
}

pub open spec fn is_ident_cont_char(c: char) -> bool {
    is_ident_start_char(c) || is_digit_char(c)
}

pub open spec fn is_space_char(c: char) -> bool {
    c == ' ' || c == '\t' || c == '\n' || c == '\r'
}

/// Single characters that are complete operators on their own.
pub open spec fn single_op_kind(c: char) -> Option<TokenKind> {
    if c == '+' {
        Some(TokenKind::Plus)
    } else if c == '-' {
        Some(TokenKind::Minus)
    } else if c == '*' {
        Some(TokenKind::Star)
    } else if c == '/' {
        Some(TokenKind::Slash)
    } else if c == '%' {
        Some(TokenKind::Percent)
    } else if c == '<' {
        Some(TokenKind::LessThan)
    } else if c == '>' {
        Some(TokenKind::GreaterThan)
    } else if c == '!' {
        Some(TokenKind::Bang)
    } else {
        None
    }
}

pub open spec fn symbol_kind(c: char) -> Option<TokenKind> {
    if c == '(' {
        Some(TokenKind::LeftParen)
    } else if c == ')' {
        Some(TokenKind::RightParen)
    } else if c == ',' {
        Some(TokenKind::Comma)
    } else {
        None
    }
}

/// Longest operator match at position `p`: two-character operators win over
/// their one-character prefixes; a lone `=` matches nothing.
pub open spec fn operator_lookahead(s: Seq<char>, p: int) -> Option<(TokenKind, int)> {
    let c = s[p];
    let eq_next = p + 1 < s.len() && s[p + 1] == '=';
    if c == '=' {
        if eq_next {
            Some((TokenKind::EqualEqual, 2))
        } else {
            None
        }
    } else if c == '<' {
        if eq_next {
            Some((TokenKind::LessThanOrEqual, 2))
        } else {
            Some((TokenKind::LessThan, 1))
        }
    } else if c == '>' {
        if eq_next {
            Some((TokenKind::GreaterThanOrEqual, 2))
        } else {
            Some((TokenKind::GreaterThan, 1))
        }
    } else if c == '!' {
        if eq_next {
            Some((TokenKind::NotEqual, 2))
        } else {
            Some((TokenKind::Bang, 1))
        }
    } else {
        match single_op_kind(c) {
            Some(k) => Some((k, 1)),
            None => None,
        }
    }
}

/// Characters the lexer can start some token from; anything else joins an
/// `Unknown` token.
pub open spec fn is_known_char(c: char) -> bool {
    is_digit_char(c) || is_alpha_char(c) || is_space_char(c) || symbol_kind(c) is Some
        || single_op_kind(c) is Some
}

/// The identifiers that are reserved words of the language.
pub open spec fn keyword_kind(s: Seq<char>) -> TokenKind {
    if s == "let"@ {
        TokenKind::LetKeyword
    } else if s == "be"@ {
        TokenKind::BeKeyword
    } else if s == "and"@ {
        TokenKind::AndKeyword
    } else if s == "or"@ {
        TokenKind::OrKeyword
    } else if s == "not"@ {
        TokenKind::NotKeyword
    } else if s == "set"@ {
        TokenKind::SetKeyword
    } else if s == "to"@ {
        TokenKind::ToKeyword
    } else if s == "if"@ {
        TokenKind::IfKeyword
    } else if s == "then"@ {
        TokenKind::ThenKeyword
    } else if s == "end"@ {
        TokenKind::EndKeyword
    } else if s == "else"@ {
        TokenKind::ElseKeyword
    } else if s == "true"@ {
        TokenKind::TrueKeyword
    } else if s == "false"@ {
        TokenKind::FalseKeyword
    } else if s == "while"@ {
        TokenKind::WhileKeyword
    } else if s == "for"@ {
        TokenKind::ForKeyword
    } else if s == "do"@ {
        TokenKind::DoKeyword
    } else if s == "from"@ {
        TokenKind::FromKeyword
    } else if s == "step"@ {
        TokenKind::StepKeyword
    } else if s == "define"@ {
        TokenKind::DefineKeyword
    } else if s == "function"@ {
        TokenKind::FunctionKeyword
    } else if s == "with"@ {
        TokenKind::WithKeyword
    } else if s == "as"@ {
        TokenKind::AsKeyword
    } else if s == "return"@ {
        TokenKind::ReturnKeyword
    } else {
        TokenKind::Identifier
    }
}

/// First index at or after `i` whose character fails `p` (or the end of input).
pub open spec fn run_end(s: Seq<char>, i: int, p: spec_fn(char) -> bool) -> int
    decreases s.len() - i,
{
    if 0 <= i && i < s.len() && p(s[i]) {
        run_end(s, i + 1, p)
    } else {
        i
    }
}

pub proof fn lemma_run_end_bounds(s: Seq<char>, i: int, p: spec_fn(char) -> bool)
    requires
        0 <= i <= s.len(),
    ensures
        i <= run_end(s, i, p) <= s.len(),
        run_end(s, i, p) < s.len() ==> !p(s[run_end(s, i, p)]),
        forall|j: int| i <= j < run_end(s, i, p) ==> p(#[trigger] s[j]),
    decreases s.len() - i,
{
    if i < s.len() && p(s[i]) {
        lemma_run_end_bounds(s, i + 1, p);
    }
}

pub open spec fn space_pred() -> spec_fn(char) -> bool {
    |c: char| is_space_char(c)
}

pub open spec fn digit_pred() -> spec_fn(char) -> bool {
    |c: char| is_digit_char(c)
}

pub open spec fn ident_cont_pred() -> spec_fn(char) -> bool {
    |c: char| is_ident_cont_char(c)
}

pub open spec fn unknown_pred() -> spec_fn(char) -> bool {
    |c: char| !is_known_char(c)
}

/// 1-based line number of the position just after the first `i` characters.
pub open spec fn line_at(s: Seq<char>, i: int) -> usize
    decreases i,
{
    if i <= 0 {
        1usize
    } else if s[i - 1] == '\n' {
        sat_inc(line_at(s, i - 1))
    } else {
        line_at(s, i - 1)
    }
}

/// 1-based column number of the position just after the first `i` characters.
pub open spec fn col_at(s: Seq<char>, i: int) -> usize
    decreases i,
{
    if i <= 0 {
        1usize
    } else if s[i - 1] == '\n' {
        1usize
    } else {
        sat_inc(col_at(s, i - 1))
    }
}

// ---------------------------------------------------------------------------
// Input buffer: the source text as characters, with a scan position.
// ---------------------------------------------------------------------------

pub struct LexerInputBuffer {
    pub chars: Vec<char>,
    pub position: usize,
}

impl LexerInputBuffer {
    pub fn new(input: &str) -> (r: LexerInputBuffer)
        ensures
            r.chars@ == input@,
            r.position == 0,
    {
        let n = input.unicode_len();
        let mut chars: Vec<char> = Vec::new();
        let mut i: usize = 0;
        while i < n
            invariant
                n == input@.len(),
                i <= n,
                chars@ == input@.subrange(0, i as int),
            decreases n - i,
        {
            chars.push(input.get_char(i));
            i = i + 1;
            proof {
                assert(chars@ =~= input@.subrange(0, i as int));
            }
        }
        proof {
            assert(chars@ =~= input@);
        }
        LexerInputBuffer { chars, position: 0 }
    }

    pub fn next(&mut self) -> (r: Option<char>)
        requires
            old(self).position <= old(self).chars@.len(),
        ensures
            final(self).chars == old(self).chars,
            ({
                let i = old(self).position as int;
                if i < old(self).chars@.len() {
                    r == Some(old(self).chars@[i]) && final(self).position == i + 1
                } else {
                    r is None && final(self).position == old(self).position
                }
            }),
    {
        if self.position < self.chars.len() {
            let c = self.chars[self.position];
            self.position = self.position + 1;
            Some(c)
        } else {
            None
        }
    }

    pub fn peek(&self) -> (r: Option<char>)
        ensures
            ({
                let i = self.position as int;
                if i < self.chars@.len() {
                    r == Some(self.chars@[i])
                } else {
                    r is None
                }
            }),
    {
        if self.position < self.chars.len() {
            Some(self.chars[self.position])
        } else {
            None
        }
    }

    /// Un-consumes the last `count` characters.
    pub fn rewind(&mut self, count: usize)
        ensures
            final(self).chars == old(self).chars,
            final(self).position == if count <= old(self).position {
                (old(self).position - count) as usize
            } else {
                0usize
            },
    {
        if count <= self.position {
            self.position = self.position - count;
        } else {
            self.position = 0;
        }
    }

    /// How many characters have been consumed so far.
    pub fn start(&self) -> (r: usize)
        ensures
            r == self.position,
    {
        self.position
    }
}

/// A digit string: non-empty, decimal digits only.
pub open spec fn digits_ok(s: Seq<char>) -> bool {
    s.len() >= 1 && forall|j: int| 0 <= j < s.len() ==> is_digit_char(#[trigger] s[j])
}

/// A well-formed token stream: terminated by exactly one end-of-stream token,
/// and every number token holds a digit string.
pub open spec fn tokens_wf(ts: Seq<Token>) -> bool {
    &&& ts.len() >= 1
    &&& ts[ts.len() - 1].kind == TokenKind::EndOfFile
    &&& forall|i: int| 0 <= i < ts.len() - 1 ==> (#[trigger] ts[i].kind) != TokenKind::EndOfFile
    &&& forall|i: int|
        0 <= i < ts.len() && (#[trigger] ts[i].kind) == TokenKind::Number ==> digits_ok(
            ts[i].value@,
        )
}

/// What a token should be, stated over character sequences.
#[verifier::ext_equal]
pub struct TokenModel {
    pub kind: TokenKind,
    pub text: Seq<char>,
    pub position: TokenPosition,
}

pub open spec fn token_is(t: Token, m: TokenModel) -> bool {
    t.kind == m.kind && t.value@ == m.text && t.position == m.position
}

/// One step of the lexer: from scan position `p0` (and whether the end-of-file
/// token was already produced), the token produced, the new scan position, and
/// the new end-of-file flag.
pub open spec fn lex_step(s: Seq<char>, p0: int, eof: bool) -> (Option<TokenModel>, int, bool) {
    let p = run_end(s, p0, space_pred());
    let pos = TokenPosition { line: line_at(s, p), column: col_at(s, p) };
    if p >= s.len() {
        if eof {
            (None, p, true)
        } else {
            (Some(TokenModel { kind: TokenKind::EndOfFile, text: "EOF"@, position: pos }), p, true)
        }
    } else {
        let c = s[p];
        if is_digit_char(c) {
            let e = run_end(s, p, digit_pred());
            (
                Some(TokenModel { kind: TokenKind::Number, text: s.subrange(p, e), position: pos }),
                e,
                eof,
            )
        } else if operator_lookahead(s, p) is Some {
            let kn = operator_lookahead(s, p)->Some_0;
            (
                Some(
                    TokenModel { kind: kn.0, text: s.subrange(p, p + kn.1), position: pos },
                ),
                p + kn.1,
                eof,
            )
        } else if symbol_kind(c) is Some {
            (
                Some(
                    TokenModel {
                        kind: symbol_kind(c)->Some_0,
                        text: s.subrange(p, p + 1),
                        position: pos,
                    },
                ),
                p + 1,
                eof,
            )
        } else if is_ident_start_char(c) {
            let e = run_end(s, p, ident_cont_pred());
            (
                Some(
                    TokenModel {
                        kind: keyword_kind(s.subrange(p, e)),
                        text: s.subrange(p, e),
                        position: pos,
                    },
                ),
                e,
                eof,
            )
        } else {
            let e = run_end(s, p, unknown_pred());
            (
                Some(
                    TokenModel { kind: TokenKind::Unknown, text: s.subrange(p, e), position: pos },
                ),
                e,
                eof,
            )
        }
    }
}

// ---------------------------------------------------------------------------
// The lexer itself.
// ---------------------------------------------------------------------------

pub struct Lexer {
    pub input: LexerInputBuffer,
    pub position: TokenPosition,
    pub is_eof_encountered: bool,
}

impl Lexer {
    /// The line/column bookkeeping agrees with the scan position.
    pub open spec fn wf(&self) -> bool {
        &&& self.input.position <= self.input.chars@.len()
        &&& self.position.line == line_at(self.input.chars@, self.input.position as int)
        &&& self.position.column == col_at(self.input.chars@, self.input.position as int)
    }

    pub fn new(input: &str) -> (r: Lexer)
        ensures
            r.wf(),
            r.input.chars@ == input@,
            r.input.position == 0,
            !r.is_eof_encountered,
    {
        Lexer {
            input: LexerInputBuffer::new(input),
            position: TokenPosition { line: 1, column: 1 },
            is_eof_encountered: false,
        }
    }

    fn sat_inc_exec(x: usize) -> (r: usize)
        ensures
            r == sat_inc(x),
    {
        if x < usize::MAX {
            x + 1
        } else {
            x
        }
    }

    fn advance(&mut self) -> (c: char)
        requires
            old(self).wf(),
            old(self).input.position < old(self).input.chars@.len(),
        ensures
            final(self).wf(),
            final(self).input.chars == old(self).input.chars,
            final(self).input.position == old(self).input.position + 1,
            final(self).is_eof_encountered == old(self).is_eof_encountered,
            c == old(self).input.chars@[old(self).input.position as int],
    {
        let copt = self.input.next();
        let c = copt.unwrap();
        if c == '\n' {
            self.position.line = Self::sat_inc_exec(self.position.line);
            self.position.column = 1;
        } else {
            self.position.column = Self::sat_inc_exec(self.position.column);
        }
        c
    }

    /// Rewinds `count` characters and recomputes the line/column bookkeeping
    /// by scanning the consumed prefix from the start.
    pub fn unadvance(&mut self, count: usize)
        requires
            old(self).wf(),
            count <= old(self).input.position,
        ensures
            final(self).wf(),
            final(self).input.chars == old(self).input.chars,
            final(self).input.position == old(self).input.position - count,
            final(self).is_eof_encountered == old(self).is_eof_encountered,
    {
        if count == 0 {
            return ;
        }
        self.input.rewind(count);
        let end = self.input.start();
        let mut line: usize = 1;
        let mut col: usize = 1;
        let mut i: usize = 0;
        while i < end
            invariant
                end <= self.input.chars@.len(),
                i <= end,
                line == line_at(self.input.chars@, i as int),
                col == col_at(self.input.chars@, i as int),
            decreases end - i,
        {
            let c = self.input.chars[i];
            if c == '\n' {
                line = Self::sat_inc_exec(line);
                col = 1;
            } else {
                col = Self::sat_inc_exec(col);
            }
            i = i + 1;
        }
        self.position.line = line;
        self.position.column = col;
    }

    fn peek(&self) -> (r: Option<char>)
        ensures
            ({
                let i = self.input.position as int;
                if i < self.input.chars@.len() {
                    r == Some(self.input.chars@[i])
                } else {
                    r is None
                }
            }),
    {
        self.input.peek()
    }

    fn handle_whitespaces(&mut self)
        requires
            old(self).wf(),
        ensures
            final(self).wf(),
            final(self).input.chars == old(self).input.chars,
            final(self).is_eof_encountered == old(self).is_eof_encountered,
            final(self).input.position as int == run_end(
                old(self).input.chars@,
                old(self).input.position as int,
                space_pred(),
            ),
            final(self).input.position == final(self).input.chars@.len() || !is_space_char(
                final(self).input.chars@[final(self).input.position as int],
            ),
    {
        loop
            invariant
                self.wf(),
                self.input.chars == old(self).input.chars,
                self.is_eof_encountered == old(self).is_eof_encountered,
                run_end(self.input.chars@, self.input.position as int, space_pred())
                    == run_end(
                    self.input.chars@,
                    old(self).input.position as int,
                    space_pred(),
                ),
            decreases self.input.chars@.len() - self.input.position,
        {
            let next = self.peek();
            match next {
                Some(c) => {
                    if c == ' ' || c == '\t' || c == '\n' || c == '\r' {
                        self.advance();
                    } else {
                        return ;
                    }
                },
                None => {
                    return ;
                },
            }
        }
    }

    fn digit_char(c: char) -> (r: bool)
        ensures
            r == is_digit_char(c),
    {
        let u = c as u32;
        48 <= u && u <= 57
    }

    fn ident_start_char(c: char) -> (r: bool)
        ensures
            r == is_ident_start_char(c),
    {
        let u = c as u32;
        (65 <= u && u <= 90) || (97 <= u && u <= 122) || c == '_'
    }

    fn ident_cont_char(c: char) -> (r: bool)
        ensures
            r == is_ident_cont_char(c),
    {
        Self::ident_start_char(c) || Self::digit_char(c)
    }

    /// Whether some token can start at this character.
    fn is_char_known(&self, c: char) -> (r: bool)
        ensures
            r == is_known_char(c),
    {
        Self::digit_char(c) || Self::ident_start_char(c) && c != '_' || c == ' ' || c == '\t'
            || c == '\n' || c == '\r' || self.match_symbol(c).is_some() || c == '+' || c == '-'
            || c == '*' || c == '/' || c == '%' || c == '<' || c == '>' || c == '!'
    }

    fn match_symbol(&self, c: char) -> (r: Option<TokenKind>)
        ensures
            r == symbol_kind(c),
    {
        match c {
            '(' => Some(TokenKind::LeftParen),
            ')' => Some(TokenKind::RightParen),
            ',' => Some(TokenKind::Comma),
            _ => None,
        }
    }

    fn match_identifier_or_keyword(&self, identifier: &str) -> (k: TokenKind)
        ensures
            k == keyword_kind(identifier@),
    {
        if crate::str_eq(identifier, "let") {
            TokenKind::LetKeyword
        } else if crate::str_eq(identifier, "be") {
            TokenKind::BeKeyword
        } else if crate::str_eq(identifier, "and") {
            TokenKind::AndKeyword
        } else if crate::str_eq(identifier, "or") {
            TokenKind::OrKeyword
        } else if crate::str_eq(identifier, "not") {
            TokenKind::NotKeyword
        } else if crate::str_eq(identifier, "set") {
            TokenKind::SetKeyword
        } else if crate::str_eq(identifier, "to") {
            TokenKind::ToKeyword
        } else if crate::str_eq(identifier, "if") {
            TokenKind::IfKeyword
        } else if crate::str_eq(identifier, "then") {
            TokenKind::ThenKeyword
        } else if crate::str_eq(identifier, "end") {
            TokenKind::EndKeyword
        } else if crate::str_eq(identifier, "else") {
            TokenKind::ElseKeyword
        } else if crate::str_eq(identifier, "true") {
            TokenKind::TrueKeyword
        } else if crate::str_eq(identifier, "false") {
            TokenKind::FalseKeyword
        } else if crate::str_eq(identifier, "while") {
            TokenKind::WhileKeyword
        } else if crate::str_eq(identifier, "for") {
            TokenKind::ForKeyword
        } else if crate::str_eq(identifier, "do") {
            TokenKind::DoKeyword
        } else if crate::str_eq(identifier, "from") {
            TokenKind::FromKeyword
        } else if crate::str_eq(identifier, "step") {
            TokenKind::StepKeyword
        } else if crate::str_eq(identifier, "define") {
            TokenKind::DefineKeyword
        } else if crate::str_eq(identifier, "function") {
            TokenKind::FunctionKeyword
        } else if crate::str_eq(identifier, "with") {
            TokenKind::WithKeyword
        } else if crate::str_eq(identifier, "as") {
            TokenKind::AsKeyword
        } else if crate::str_eq(identifier, "return") {
            TokenKind::ReturnKeyword
        } else {
            TokenKind::Identifier
        }
    }

    fn number_token(&mut self) -> (t: Token)
        requires
            old(self).wf(),
            old(self).input.position < old(self).input.chars@.len(),
            is_digit_char(old(self).input.chars@[old(self).input.position as int]),
        ensures
            final(self).wf(),
            final(self).input.chars == old(self).input.chars,
            final(self).is_eof_encountered == old(self).is_eof_encountered,
            final(self).input.position as int == run_end(
                old(self).input.chars@,
                old(self).input.position as int,
                digit_pred(),
            ),
            t.kind == TokenKind::Number,
            t.value@ == old(self).input.chars@.subrange(
                old(self).input.position as int,
                final(self).input.position as int,
            ),
            t.position == old(self).position,
    {
        let ghost s = self.input.chars@;
        let ghost start = self.input.position as int;
        let start_pos = self.position;
        let mut buf: Vec<char> = Vec::new();
        proof {
            assert(buf@ =~= s.subrange(start, start));
        }
        loop
            invariant
                self.wf(),
                self.input.chars == old(self).input.chars,
                s == self.input.chars@,
                self.is_eof_encountered == old(self).is_eof_encountered,
                0 <= start <= self.input.position <= s.len(),
                buf@ == s.subrange(start, self.input.position as int),
                run_end(s, self.input.position as int, digit_pred()) == run_end(
                    s,
                    start,
                    digit_pred(),
                ),
            ensures
                self.wf(),
                self.input.chars == old(self).input.chars,
                s == self.input.chars@,
                self.is_eof_encountered == old(self).is_eof_encountered,
                0 <= start <= self.input.position <= s.len(),
                buf@ == s.subrange(start, self.input.position as int),
                self.input.position as int == run_end(s, start, digit_pred()),
            decreases s.len() - self.input.position,
        {
            let next = self.peek();
            match next {
                Some(c) => {
                    if Self::digit_char(c) {
                        let c2 = self.advance();
                        buf.push(c2);
                        proof {
                            assert(buf@ =~= s.subrange(start, self.input.position as int));
                        }
                    } else {
                        break ;
                    }
                },
                None => {
                    break ;
                },
            }
        }
        Token { kind: TokenKind::Number, value: crate::string_from_chars(&buf), position: start_pos }
    }

    fn operator_token(&mut self) -> (r: Option<Token>)
        requires
            old(self).wf(),
            old(self).input.position < old(self).input.chars@.len(),
        ensures
            final(self).wf(),
            final(self).input.chars == old(self).input.chars,
            final(self).is_eof_encountered == old(self).is_eof_encountered,
            ({
                let s = old(self).input.chars@;
                let p = old(self).input.position as int;
                match operator_lookahead(s, p) {
                    Some(kn) => {
                        &&& final(self).input.position as int == p + kn.1
                        &&& r matches Some(t) && t.kind == kn.0 && t.value@ == s.subrange(
                            p,
                            p + kn.1,
                        ) && t.position == old(self).position
                    },
                    None => {
                        &&& *final(self) == *old(self)
                        &&& r is None
                    },
                }
            }),
    {
        let ghost s = self.input.chars@;
        let ghost p = self.input.position as int;
        let start_pos = self.position;
        let c = self.input.chars[self.input.position];
        let n = self.input.chars.len();
        let eq_next: bool = if self.input.position + 1 < n {
            self.input.chars[self.input.position + 1] == '='
        } else {
            false
        };
        let decision: Option<(TokenKind, bool)> = match c {
            '=' => if eq_next {
                Some((TokenKind::EqualEqual, true))
            } else {
                None
            },
            '<' => if eq_next {
                Some((TokenKind::LessThanOrEqual, true))
            } else {
                Some((TokenKind::LessThan, false))
            },
            '>' => if eq_next {
                Some((TokenKind::GreaterThanOrEqual, true))
            } else {
                Some((TokenKind::GreaterThan, false))
            },
            '!' => if eq_next {
                Some((TokenKind::NotEqual, true))
            } else {
                Some((TokenKind::Bang, false))
            },
            '+' => Some((TokenKind::Plus, false)),
            '-' => Some((TokenKind::Minus, false)),
            '*' => Some((TokenKind::Star, false)),
            '/' => Some((TokenKind::Slash, false)),
            '%' => Some((TokenKind::Percent, false)),
            _ => None,
        };
        match decision {
            None => None,
            Some((kind, two)) => {
                let mut buf: Vec<char> = Vec::new();
                let c1 = self.advance();
                buf.push(c1);
                if two {
                    let c2 = self.advance();
                    buf.push(c2);
                }
                proof {
                    let n = if two {
                        2int
                    } else {
                        1int
                    };
                    assert(buf@ =~= s.subrange(p, p + n));
                }
                Some(
                    Token {
                        kind,
                        value: crate::string_from_chars(&buf),
                        position: start_pos,
                    },
                )
            },
        }
    }

    fn symbol_token(&mut self) -> (r: Option<Token>)
        requires
            old(self).wf(),
            old(self).input.position < old(self).input.chars@.len(),
        ensures
            final(self).wf(),
            final(self).input.chars == old(self).input.chars,
            final(self).is_eof_encountered == old(self).is_eof_encountered,
            ({
                let s = old(self).input.chars@;
                let p = old(self).input.position as int;
                match symbol_kind(s[p]) {
                    Some(k) => {
                        &&& final(self).input.position as int == p + 1
                        &&& r matches Some(t) && t.kind == k && t.value@ == s.subrange(p, p + 1)
                            && t.position == old(self).position
                    },
                    None => {
                        &&& *final(self) == *old(self)
                        &&& r is None
                    },
                }
            }),
    {
        let ghost s = self.input.chars@;
        let ghost p = self.input.position as int;
        let start_pos = self.position;
        let c = self.input.chars[self.input.position];
        match self.match_symbol(c) {
            Some(kind) => {
                let mut buf: Vec<char> = Vec::new();
                let c1 = self.advance();
                buf.push(c1);
                proof {
                    assert(buf@ =~= s.subrange(p, p + 1));
                }
                Some(
                    Token {
                        kind,
                        value: crate::string_from_chars(&buf),
                        position: start_pos,
                    },
                )
            },
            None => None,
        }
    }

    fn identifier_token(&mut self) -> (r: Option<Token>)
        requires
            old(self).wf(),
            old(self).input.position < old(self).input.chars@.len(),
        ensures
            final(self).wf(),
            final(self).input.chars == old(self).input.chars,
            final(self).is_eof_encountered == old(self).is_eof_encountered,
            ({
                let s = old(self).input.chars@;
                let p = old(self).input.position as int;
                if is_ident_start_char(s[p]) {
                    let e = run_end(s, p, ident_cont_pred());
                    &&& final(self).input.position as int == e
                    &&& r matches Some(t) && t.kind == keyword_kind(s.subrange(p, e)) && t.value@
                        == s.subrange(p, e) && t.position == old(self).position
                } else {
                    &&& *final(self) == *old(self)
                    &&& r is None
                }
            }),
    {
        let ghost s = self.input.chars@;
        let ghost start = self.input.position as int;
        let start_pos = self.position;
        let c0 = self.input.chars[self.input.position];
        if !Self::ident_start_char(c0) {
            return None;
        }
        let mut buf: Vec<char> = Vec::new();
        let c1 = self.advance();
        buf.push(c1);
        proof {
            assert(buf@ =~= s.subrange(start, self.input.position as int));
        }
        loop
            invariant
                self.wf(),
                self.input.chars == old(self).input.chars,
                s == self.input.chars@,
                self.is_eof_encountered == old(self).is_eof_encountered,
                0 <= start < self.input.position <= s.len(),
                buf@ == s.subrange(start, self.input.position as int),
                run_end(s, self.input.position as int, ident_cont_pred()) == run_end(
                    s,
                    start,
                    ident_cont_pred(),
                ),
            ensures
                self.wf(),
                self.input.chars == old(self).input.chars,
                s == self.input.chars@,
                self.is_eof_encountered == old(self).is_eof_encountered,
                0 <= start <= self.input.position <= s.len(),
                buf@ == s.subrange(start, self.input.position as int),
                self.input.position as int == run_end(s, start, ident_cont_pred()),
            decreases s.len() - self.input.position,
        {
            let next = self.peek();
            match next {
                Some(c) => {
                    if Self::ident_cont_char(c) {
                        let c2 = self.advance();
                        buf.push(c2);
                        proof {
                            assert(buf@ =~= s.subrange(start, self.input.position as int));
                        }
                    } else {
                        break ;
                    }
                },
                None => {
                    break ;
                },
            }
        }
        let value = crate::string_from_chars(&buf);
        let kind = self.match_identifier_or_keyword(value.as_str());
        Some(Token { kind, value, position: start_pos })
    }

    /// Coalesces a run of characters no token can start from.
    fn unknown_token(&mut self) -> (r: Option<Token>)
        requires
            old(self).wf(),
            old(self).input.position < old(self).input.chars@.len(),
        ensures
            final(self).wf(),
            final(self).input.chars == old(self).input.chars,
            final(self).is_eof_encountered == old(self).is_eof_encountered,
            ({
                let s = old(self).input.chars@;
                let p = old(self).input.position as int;
                if !is_known_char(s[p]) {
                    let e = run_end(s, p, unknown_pred());
                    &&& final(self).input.position as int == e
                    &&& r matches Some(t) && t.kind == TokenKind::Unknown && t.value@ == s.subrange(
                        p,
                        e,
                    ) && t.position == old(self).position
                } else {
                    &&& *final(self) == *old(self)
                    &&& r is None
                }
            }),
    {
        let ghost s = self.input.chars@;
        let ghost start = self.input.position as int;
        let start_pos = self.position;
        let c0 = self.input.chars[self.input.position];
        if self.is_char_known(c0) {
            return None;
        }
        let mut buf: Vec<char> = Vec::new();
        proof {
            assert(buf@ =~= s.subrange(start, start));
        }
        loop
            invariant
                self.wf(),
                self.input.chars == old(self).input.chars,
                s == self.input.chars@,
                self.is_eof_encountered == old(self).is_eof_encountered,
                0 <= start <= self.input.position <= s.len(),
                buf@ == s.subrange(start, self.input.position as int),
                run_end(s, self.input.position as int, unknown_pred()) == run_end(
                    s,
                    start,
                    unknown_pred(),
                ),
            ensures
                self.wf(),
                self.input.chars == old(self).input.chars,
                s == self.input.chars@,
                self.is_eof_encountered == old(self).is_eof_encountered,
                0 <= start <= self.input.position <= s.len(),
                buf@ == s.subrange(start, self.input.position as int),
                self.input.position as int == run_end(s, start, unknown_pred()),
            decreases s.len() - self.input.position,
        {
            let next = self.peek();
            match next {
                Some(c) => {
                    if !self.is_char_known(c) {
                        let c2 = self.advance();
                        buf.push(c2);
                        proof {
                            assert(buf@ =~= s.subrange(start, self.input.position as int));
                        }
                    } else {
                        break ;
                    }
                },
                None => {
                    break ;
                },
            }
        }
        Some(
            Token {
                kind: TokenKind::Unknown,
                value: crate::string_from_chars(&buf),
                position: start_pos,
            },
        )
    }

    /// Produces the single end-of-stream token, once.
    fn end_of_file_token(&mut self) -> (r: Option<Token>)
        requires
            old(self).wf(),
        ensures
            final(self).wf(),
            final(self).input.chars == old(self).input.chars,
            final(self).input.position == old(self).input.position,
            final(self).is_eof_encountered,
            if old(self).is_eof_encountered {
                r is None
            } else {
                r matches Some(t) && t.kind == TokenKind::EndOfFile && t.value@ == "EOF"@
                    && t.position == old(self).position
            },
    {
        if self.is_eof_encountered {
            return None;
        }
        self.is_eof_encountered = true;
        Some(
            Token {
                kind: TokenKind::EndOfFile,
                value: String::from_str("EOF"),
                position: self.position,
            },
        )
    }

    /// The next token of the source text, or `None` once the end-of-file
    /// token has been produced.
    pub fn next_token(&mut self) -> (r: Option<Token>)
        requires
            old(self).wf(),
        ensures
            final(self).wf(),
            final(self).input.chars == old(self).input.chars,
            old(self).input.position <= final(self).input.position,
            r is Some ==> final(self).input.position > old(self).input.position
                || (final(self).is_eof_encountered && !old(self).is_eof_encountered),
            ({
                let step = lex_step(
                    old(self).input.chars@,
                    old(self).input.position as int,
                    old(self).is_eof_encountered,
                );
                &&& final(self).input.position as int == step.1
                &&& final(self).is_eof_encountered == step.2
                &&& match (r, step.0) {
                    (Some(t), Some(m)) => token_is(t, m),
                    (None, None) => true,
                    _ => false,
                }
            }),
    {
        let ghost s = self.input.chars@;
        self.handle_whitespaces();
        proof {
            lemma_run_end_bounds(s, old(self).input.position as int, space_pred());
        }
        let next_char_opt = self.peek();
        if next_char_opt.is_none() {
            return self.end_of_file_token();
        }
        let next_char = next_char_opt.unwrap();
        proof {
            let p = self.input.position as int;
            assert(!is_space_char(s[p]));
            lemma_run_end_bounds(s, p, digit_pred());
            lemma_run_end_bounds(s, p + 1, digit_pred());
            lemma_run_end_bounds(s, p, ident_cont_pred());
            lemma_run_end_bounds(s, p + 1, ident_cont_pred());
            lemma_run_end_bounds(s, p, unknown_pred());
            lemma_run_end_bounds(s, p + 1, unknown_pred());
        }
        if Self::digit_char(next_char) {
            return Some(self.number_token());
        }
        if let Some(t) = self.operator_token() {
            return Some(t);
        }
        if let Some(t) = self.symbol_token() {
            return Some(t);
        }
        if let Some(t) = self.identifier_token() {
            return Some(t);
        }
        let r = self.unknown_token();
        proof {
            assert(r is Some);
        }
        r
    }
}


/// Every token the lexer produces from position `pos` on, in order, ended by
/// the single end-of-stream token: the iteration of `lex_step`.
pub open spec fn lex_all(s: Seq<char>, pos: int, eof: bool) -> Seq<TokenModel>
    decreases (if pos <= s.len() {
        s.len() - pos
    } else {
        0int
    }) + (if eof {
        0int
    } else {
        1int
    })
        via lex_all_decreases
{
    if pos < 0 {
        Seq::empty()
    } else {
        let step = lex_step(s, pos, eof);
        match step.0 {
            None => Seq::empty(),
            Some(m) => seq![m] + lex_all(s, step.1, step.2),
        }
    }
}

#[via_fn]
proof fn lex_all_decreases(s: Seq<char>, pos: int, eof: bool) {
    if 0 <= pos <= s.len() {
        lemma_run_end_bounds(s, pos, space_pred());
        let p = run_end(s, pos, space_pred());
        if p < s.len() {
            lemma_run_end_bounds(s, p, digit_pred());
            lemma_run_end_bounds(s, p + 1, digit_pred());
            lemma_run_end_bounds(s, p, ident_cont_pred());
            lemma_run_end_bounds(s, p + 1, ident_cont_pred());
            lemma_run_end_bounds(s, p, unknown_pred());
            lemma_run_end_bounds(s, p + 1, unknown_pred());
        }
    }
}

/// The shape of one produced token.
pub open spec fn model_of(t: Token) -> TokenModel {
    TokenModel { kind: t.kind, text: t.value@, position: t.position }
}

/// The shapes of the produced tokens, in order.
pub open spec fn models_of(ts: Seq<Token>) -> Seq<TokenModel> {
    Seq::new(ts.len(), |i: int| model_of(ts[i]))
}

/// Lexes the whole source text: every token in order, ended by the single
/// end-of-stream token, forming a well-formed token stream; exactly the
/// iterated lexer step.
pub fn tokenize(input: &str) -> (r: Vec<Token>)
    ensures
        tokens_wf(r@),
        models_of(r@) == lex_all(input@, 0, false),
{
    let mut lexer = Lexer::new(input);
    let ghost s = lexer.input.chars@;
    let mut tokens: Vec<Token> = Vec::new();
    proof {
        assert(models_of(tokens@) =~= Seq::<TokenModel>::empty());
    }
    loop
        invariant
            lexer.wf(),
            lexer.input.chars@ == s,
            s == input@,
            !lexer.is_eof_encountered ==> forall|i: int|
                0 <= i < tokens@.len() ==> (#[trigger] tokens@[i].kind) != TokenKind::EndOfFile,
            lexer.is_eof_encountered ==> lexer.input.position == s.len(),
            lexer.is_eof_encountered ==> tokens_wf(tokens@),
            forall|i: int|
                0 <= i < tokens@.len() && (#[trigger] tokens@[i].kind) == TokenKind::Number
                    ==> digits_ok(tokens@[i].value@),
            lex_all(s, 0, false) == models_of(tokens@) + lex_all(
                s,
                lexer.input.position as int,
                lexer.is_eof_encountered,
            ),
        ensures
            tokens_wf(tokens@),
            models_of(tokens@) == lex_all(s, 0, false),
        decreases s.len() - lexer.input.position + (if lexer.is_eof_encountered {
            0int
        } else {
            1int
        }),
    {
        let ghost pre = lexer;
        let t_opt = lexer.next_token();
        proof {
            lemma_run_end_bounds(s, pre.input.position as int, space_pred());
        }
        match t_opt {
            Some(t) => {
                proof {
                    let p = run_end(s, pre.input.position as int, space_pred());
                    if p < s.len() && is_digit_char(s[p]) {
                        lemma_run_end_bounds(s, p, digit_pred());
                        lemma_run_end_bounds(s, p + 1, digit_pred());
                        let e = run_end(s, p, digit_pred());
                        assert(t.value@ == s.subrange(p, e));
                        assert(e >= p + 1);
                        assert forall|j: int| 0 <= j < t.value@.len() implies is_digit_char(
                            #[trigger] t.value@[j],
                        ) by {
                            assert(t.value@[j] == s[p + j]);
                        }
                        assert(digits_ok(t.value@));
                    }
                    assert(t.kind == TokenKind::Number ==> digits_ok(t.value@));
                    assert(t.kind == TokenKind::EndOfFile <==> (p >= s.len()
                        && !pre.is_eof_encountered));
                    let step = lex_step(s, pre.input.position as int, pre.is_eof_encountered);
                    assert(step.0 matches Some(m) && model_of(t) =~~= m);
                    assert(models_of(tokens@.push(t)) =~= models_of(tokens@).push(model_of(t)));
                    assert(models_of(tokens@).push(model_of(t)) + lex_all(s, step.1, step.2)
                        =~= models_of(tokens@) + (seq![model_of(t)] + lex_all(s, step.1, step.2)));
                    assert(seq![model_of(t)] + lex_all(s, step.1, step.2) =~= seq![step.0->Some_0]
                        + lex_all(s, step.1, step.2));
                }
                tokens.push(t);
            },
            None => {
                proof {
                    assert(lex_all(s, lexer.input.position as int, lexer.is_eof_encountered)
                        =~= Seq::<TokenModel>::empty());
                    assert(models_of(tokens@) + Seq::<TokenModel>::empty() =~= models_of(tokens@));
                }
                break ;
            },
        }
    }
    tokens
}

} // verus!
