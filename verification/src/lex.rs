//! Strict line scanner.
//!
//! `Lexer` is the simpler of the two scanners: it knows no comments, its
//! identifiers are purely alphabetic runs, and the first lexical error
//! abandons the whole line instead of being reported per token. The scan is
//! pinned down by the spec-level scanner `spec_lex_output`.

use vstd::prelude::*;

use crate::chars::{
    alpha_run_end, char_is_alphabetic, char_is_numeric, char_is_whitespace, is_alphabetic_char,
    is_numeric_char, is_op_start, is_whitespace_char, lemma_alpha_run_end, lemma_ws_run_end,
    num_run_end, op_start, push_char, str_run_end, trim_spec, trimmed_chars, ws_run_end,
};

verus! {

/// Operator tokens; every operator form the strict scanner knows.
#[derive(Debug, PartialEq, Eq, Structural, Clone, Copy)]
pub enum OpType {
    LeftParen,
    RightParen,
    LeftBrace,
    RightBrace,
    Comma,
    Dot,
    Minus,
    Plus,
    Semicolon,
    Slash,
    Star,
    Bang,
    BangEqual,
    Equal,
    EqualEqual,
    Greater,
    GreaterEqual,
    Less,
    LessEqual,
}

/// Literal tokens. A `Number` carries the numeric text exactly as scanned;
/// turning it into a machine number is the evaluator's concern.
#[derive(Debug)]
pub enum LitType {
    Identifier(String),
    String(String),
    Number(String),
}

/// The reserved words.
#[derive(Debug, PartialEq, Eq, Structural, Clone, Copy)]
pub enum KwordType {
    And,
    Class,
    Else,
    False,
    Fun,
    For,
    If,
    Nil,
    Or,
    Print,
    Return,
    Super,
    This,
    True,
    Var,
    While,
}

#[derive(Debug)]
pub enum TokenType {
    Op(OpType),
    Lit(LitType),
    Kword(KwordType),
    Eof,
}

#[derive(Debug)]
pub struct Token {
    token_type: TokenType,
}

/// The lexical error that abandons the line.
#[derive(Debug)]
pub enum LexError {
    /// A string literal reached the end of the line without a closing quote.
    UnclosedQuotation,
    /// A character that can begin no token.
    IllegalChar(char),
    /// An operator-start character with no operator form.
    UnknownOperator(char),
}

/// Spec-level image of a literal.
pub enum LitView {
    Ident(Seq<char>),
    Str(Seq<char>),
    Num(Seq<char>),
}

/// Spec-level image of a token.
pub enum TokenView {
    Op(OpType),
    Lit(LitView),
    Kword(KwordType),
    Eof,
}

/// Spec-level image of a lexical error.
pub enum LexErrView {
    UnclosedQuotation,
    IllegalChar(char),
    UnknownOperator(char),
}

impl View for LitType {
    type V = LitView;

    open spec fn view(&self) -> LitView {
        match self {
            LitType::Identifier(s) => LitView::Ident(s@),
            LitType::String(s) => LitView::Str(s@),
            LitType::Number(s) => LitView::Num(s@),
        }
    }
}

impl View for TokenType {
    type V = TokenView;

    open spec fn view(&self) -> TokenView {
        match self {
            TokenType::Op(op) => TokenView::Op(*op),
            TokenType::Lit(l) => TokenView::Lit(l@),
            TokenType::Kword(k) => TokenView::Kword(*k),
            TokenType::Eof => TokenView::Eof,
        }
    }
}

impl View for Token {
    type V = TokenView;

    closed spec fn view(&self) -> TokenView {
        self.token_type@
    }
}

impl View for LexError {
    type V = LexErrView;

    open spec fn view(&self) -> LexErrView {
        match self {
            LexError::UnclosedQuotation => LexErrView::UnclosedQuotation,
            LexError::IllegalChar(c) => LexErrView::IllegalChar(*c),
            LexError::UnknownOperator(c) => LexErrView::UnknownOperator(*c),
        }
    }
}

impl PartialEq for LitType {
    /// Literal tokens compare by variant and payload both.
    fn eq(&self, other: &Self) -> (r: bool) {
        match (self, other) {
            (LitType::Identifier(a), LitType::Identifier(b)) => *a == *b,
            (LitType::String(a), LitType::String(b)) => *a == *b,
            (LitType::Number(a), LitType::Number(b)) => *a == *b,
            _ => false,
        }
    }
}

impl vstd::std_specs::cmp::PartialEqSpecImpl for LitType {
    open spec fn obeys_eq_spec() -> bool {
        true
    }

    open spec fn eq_spec(&self, other: &Self) -> bool {
        self@ == other@
    }
}

impl PartialEq for TokenType {
    fn eq(&self, other: &Self) -> (r: bool) {
        match (self, other) {
            (TokenType::Op(a), TokenType::Op(b)) => *a == *b,
            (TokenType::Lit(a), TokenType::Lit(b)) => *a == *b,
            (TokenType::Kword(a), TokenType::Kword(b)) => *a == *b,
            (TokenType::Eof, TokenType::Eof) => true,
            _ => false,
        }
    }
}

impl vstd::std_specs::cmp::PartialEqSpecImpl for TokenType {
    open spec fn obeys_eq_spec() -> bool {
        true
    }

    open spec fn eq_spec(&self, other: &Self) -> bool {
        self@ == other@
    }
}

impl PartialEq for Token {
    fn eq(&self, other: &Self) -> (r: bool) {
        self.token_type == other.token_type
    }
}

impl vstd::std_specs::cmp::PartialEqSpecImpl for Token {
    open spec fn obeys_eq_spec() -> bool {
        true
    }

    open spec fn eq_spec(&self, other: &Self) -> bool {
        self@ == other@
    }
}

impl Token {
    pub fn new(token_type: TokenType) -> (r: Self)
        ensures
            r@ == token_type@,
    {
        Token { token_type }
    }
}

/// The reserved word spelled by `s`, if any.
pub open spec fn kword_of(s: Seq<char>) -> Option<KwordType> {
    if s == "and"@ {
        Some(KwordType::And)
    } else if s == "class"@ {
        Some(KwordType::Class)
    } else if s == "else"@ {
        Some(KwordType::Else)
    } else if s == "false"@ {
        Some(KwordType::False)
    } else if s == "fun"@ {
        Some(KwordType::Fun)
    } else if s == "for"@ {
        Some(KwordType::For)
    } else if s == "if"@ {
        Some(KwordType::If)
    } else if s == "nil"@ {
        Some(KwordType::Nil)
    } else if s == "or"@ {
        Some(KwordType::Or)
    } else if s == "print"@ {
        Some(KwordType::Print)
    } else if s == "return"@ {
        Some(KwordType::Return)
    } else if s == "super"@ {
        Some(KwordType::Super)
    } else if s == "this"@ {
        Some(KwordType::This)
    } else if s == "true"@ {
        Some(KwordType::True)
    } else if s == "var"@ {
        Some(KwordType::Var)
    } else if s == "while"@ {
        Some(KwordType::While)
    } else {
        None
    }
}

/// The scan of one operator token starting at `p`; two-character operators
/// take the longest match.
pub open spec fn spec_lex_op(line: Seq<char>, p: int) -> (Result<TokenView, LexErrView>, int) {
    let c = line[p];
    if c == '(' {
        (Ok(TokenView::Op(OpType::LeftParen)), p + 1)
    } else if c == ')' {
        (Ok(TokenView::Op(OpType::RightParen)), p + 1)
    } else if c == '{' {
        (Ok(TokenView::Op(OpType::LeftBrace)), p + 1)
    } else if c == '}' {
        (Ok(TokenView::Op(OpType::RightBrace)), p + 1)
    } else if c == ',' {
        (Ok(TokenView::Op(OpType::Comma)), p + 1)
    } else if c == '.' {
        (Ok(TokenView::Op(OpType::Dot)), p + 1)
    } else if c == '-' {
        (Ok(TokenView::Op(OpType::Minus)), p + 1)
    } else if c == '+' {
        (Ok(TokenView::Op(OpType::Plus)), p + 1)
    } else if c == ';' {
        (Ok(TokenView::Op(OpType::Semicolon)), p + 1)
    } else if c == '/' {
        (Ok(TokenView::Op(OpType::Slash)), p + 1)
    } else if c == '*' {
        (Ok(TokenView::Op(OpType::Star)), p + 1)
    } else if c == '!' {
        if p + 1 < line.len() && line[p + 1] == '=' {
            (Ok(TokenView::Op(OpType::BangEqual)), p + 2)
        } else {
            (Ok(TokenView::Op(OpType::Bang)), p + 1)
        }
    } else if c == '=' {
        if p + 1 < line.len() && line[p + 1] == '=' {
            (Ok(TokenView::Op(OpType::EqualEqual)), p + 2)
        } else {
            (Ok(TokenView::Op(OpType::Equal)), p + 1)
        }
    } else if c == '>' {
        if p + 1 < line.len() && line[p + 1] == '=' {
            (Ok(TokenView::Op(OpType::GreaterEqual)), p + 2)
        } else {
            (Ok(TokenView::Op(OpType::Greater)), p + 1)
        }
    } else if c == '<' {
        if p + 1 < line.len() && line[p + 1] == '=' {
            (Ok(TokenView::Op(OpType::LessEqual)), p + 2)
        } else {
            (Ok(TokenView::Op(OpType::Less)), p + 1)
        }
    } else {
        (Err(LexErrView::UnknownOperator(c)), p + 1)
    }
}

/// The scan of one number token: the maximal run of numeric characters and
/// decimal points, kept as text.
pub open spec fn spec_lex_num(line: Seq<char>, p: int) -> (Result<TokenView, LexErrView>, int) {
    let e = num_run_end(line, p);
    (Ok(TokenView::Lit(LitView::Num(line.subrange(p, e)))), e)
}

/// The scan of one string token whose opening quote stands at `p`.
pub open spec fn spec_lex_str(line: Seq<char>, p: int) -> (Result<TokenView, LexErrView>, int) {
    let e = str_run_end(line, p + 1);
    if e >= line.len() {
        (Err(LexErrView::UnclosedQuotation), line.len() as int)
    } else {
        (Ok(TokenView::Lit(LitView::Str(line.subrange(p + 1, e)))), e + 1)
    }
}

/// The token an identifier run spells.
pub open spec fn ident_token(acc: Seq<char>) -> TokenView {
    match kword_of(acc) {
        Some(k) => TokenView::Kword(k),
        None => TokenView::Lit(LitView::Ident(acc)),
    }
}

/// The scan of one identifier-or-keyword token: the maximal alphabetic run.
/// A character that can begin no token is an error that abandons the line.
pub open spec fn spec_lex_ident(line: Seq<char>, p: int) -> (Result<TokenView, LexErrView>, int) {
    let e = alpha_run_end(line, p);
    if e == p && p < line.len() {
        (Err(LexErrView::IllegalChar(line[p])), p + 1)
    } else {
        (Ok(ident_token(line.subrange(p, e))), e)
    }
}

/// The scan of the next token from `pos`: skip whitespace, then dispatch on
/// the lookahead character class.
pub open spec fn spec_lex_token(line: Seq<char>, pos: int) -> (Result<TokenView, LexErrView>, int) {
    let p = ws_run_end(line, pos);
    if p < line.len() && is_op_start(line[p]) {
        spec_lex_op(line, p)
    } else if p < line.len() && is_numeric_char(line[p]) {
        spec_lex_num(line, p)
    } else if p < line.len() && line[p] == '"' {
        spec_lex_str(line, p)
    } else {
        spec_lex_ident(line, p)
    }
}

/// From any position inside the line, scanning one token stays inside the
/// line and consumes at least one character.
pub proof fn lemma_lex_token_advances(line: Seq<char>, pos: int)
    requires
        0 <= pos <= line.len(),
    ensures
        pos <= spec_lex_token(line, pos).1 <= line.len(),
        pos < line.len() ==> pos < spec_lex_token(line, pos).1,
{
    lemma_ws_run_end(line, pos);
    let p = ws_run_end(line, pos);
    if p < line.len() && is_op_start(line[p]) {
        // every operator branch steps past at least the character at `p`
    } else if p < line.len() && is_numeric_char(line[p]) {
        crate::chars::lemma_num_run_end(line, p + 1);
        assert(num_run_end(line, p) == num_run_end(line, p + 1));
    } else if p < line.len() && line[p] == '"' {
        crate::chars::lemma_str_run_end(line, p + 1);
    } else {
        lemma_alpha_run_end(line, p);
        if p < line.len() && is_alphabetic_char(line[p]) {
            crate::chars::lemma_alpha_run_end(line, p + 1);
            assert(alpha_run_end(line, p) == alpha_run_end(line, p + 1));
        }
    }
}

/// The scan of a whole line from `pos`, without the final end-of-input
/// marker; the first error abandons the line.
pub open spec fn spec_lex_line(line: Seq<char>, pos: int) -> Result<Seq<TokenView>, LexErrView>
    decreases line.len() - pos
        when 0 <= pos
{
    if pos >= line.len() {
        Ok(Seq::empty())
    } else {
        proof {
            lemma_lex_token_advances(line, pos);
        }
        let r = spec_lex_token(line, pos).0;
        let p2 = spec_lex_token(line, pos).1;
        match r {
            Err(e) => Err(e),
            Ok(t) => match spec_lex_line(line, p2) {
                Err(e) => Err(e),
                Ok(rest) => Ok(seq![t] + rest),
            },
        }
    }
}

/// The full scan of a line: its tokens closed by the end-of-input marker,
/// or the first error.
pub open spec fn spec_lex_output(line: Seq<char>, pos: int) -> Result<Seq<TokenView>, LexErrView> {
    match spec_lex_line(line, pos) {
        Ok(ts) => Ok(ts.push(TokenView::Eof)),
        Err(e) => Err(e),
    }
}

/// Spec-level image of a token sequence.
pub open spec fn tokens_view(ts: Seq<Token>) -> Seq<TokenView> {
    ts.map_values(|t: Token| t@)
}

proof fn lemma_tokens_view_push(ts: Seq<Token>, x: Token)
    ensures
        tokens_view(ts.push(x)) == tokens_view(ts).push(x@),
{
    assert(tokens_view(ts.push(x)) =~= tokens_view(ts).push(x@));
}

/// A single-pass scanning cursor over one trimmed line of source text.
pub struct Lexer {
    line: Vec<char>,
    position: usize,
    curr_char: char,
}

impl Lexer {
    /// The characters of the trimmed source line.
    pub closed spec fn line_view(&self) -> Seq<char> {
        self.line@
    }

    /// The scanning cursor.
    pub closed spec fn pos_view(&self) -> int {
        self.position as int
    }

    /// The cursor is inside the line and the line carries no trailing
    /// whitespace, so every scan step makes progress.
    pub closed spec fn wf(&self) -> bool {
        &&& self.position <= self.line@.len()
        &&& (self.line@.len() > 0 ==> !is_whitespace_char(self.line@.last()))
    }

    pub fn new(line: String) -> (r: Self)
        ensures
            r.wf(),
            r.line_view() == trim_spec(line@),
            r.pos_view() == 0,
    {
        proof {
            crate::chars::lemma_trim_spec(line@);
        }
        let src_line = trimmed_chars(line.as_str());
        let curr_char = if src_line.len() > 0 {
            src_line[0]
        } else {
            '\0'
        };
        Lexer { line: src_line, position: 0, curr_char }
    }

    fn peek(&self) -> (r: Option<char>)
        ensures
            r == (if self.position < self.line@.len() {
                Some(self.line@[self.position as int])
            } else {
                None::<char>
            }),
    {
        if self.position < self.line.len() {
            Some(self.line[self.position])
        } else {
            None
        }
    }

    // Record the next char in the line and step past it. The caller has
    // already checked that the cursor is inside the line.
    fn consume_char(&mut self)
        requires
            old(self).position < old(self).line@.len(),
        ensures
            final(self).line@ == old(self).line@,
            final(self).position == old(self).position + 1,
            final(self).curr_char == old(self).line@[old(self).position as int],
            old(self).wf() ==> final(self).wf(),
    {
        if self.position < self.line.len() {
            self.curr_char = self.line[self.position];
            self.position = self.position + 1;
        }
    }

    fn is_op_char(&self) -> (r: bool)
        ensures
            r == (self.position < self.line@.len() && is_op_start(
                self.line@[self.position as int],
            )),
    {
        match self.peek() {
            Some(c) => op_start(c),
            None => false,
        }
    }

    fn is_num_char(&self) -> (r: bool)
        ensures
            r == (self.position < self.line@.len() && is_numeric_char(
                self.line@[self.position as int],
            )),
    {
        match self.peek() {
            Some(c) => char_is_numeric(c),
            None => false,
        }
    }

    fn lex_op(&mut self) -> (r: Result<Token, LexError>)
        requires
            old(self).wf(),
            old(self).position < old(self).line@.len(),
        ensures
            final(self).wf(),
            final(self).line@ == old(self).line@,
            (lex_res_view(r), final(self).position as int) == spec_lex_op(
                old(self).line@,
                old(self).position as int,
            ),
    {
        self.consume_char();
        match self.curr_char {
            '(' => Ok(Token::new(TokenType::Op(OpType::LeftParen))),
            ')' => Ok(Token::new(TokenType::Op(OpType::RightParen))),
            '{' => Ok(Token::new(TokenType::Op(OpType::LeftBrace))),
            '}' => Ok(Token::new(TokenType::Op(OpType::RightBrace))),
            ',' => Ok(Token::new(TokenType::Op(OpType::Comma))),
            '.' => Ok(Token::new(TokenType::Op(OpType::Dot))),
            '-' => Ok(Token::new(TokenType::Op(OpType::Minus))),
            '+' => Ok(Token::new(TokenType::Op(OpType::Plus))),
            ';' => Ok(Token::new(TokenType::Op(OpType::Semicolon))),
            '/' => Ok(Token::new(TokenType::Op(OpType::Slash))),
            '*' => Ok(Token::new(TokenType::Op(OpType::Star))),
            '!' => {
                if let Some(next_char) = self.peek() {
                    if next_char == '=' {
                        self.consume_char();
                        return Ok(Token::new(TokenType::Op(OpType::BangEqual)));
                    }
                }
                Ok(Token::new(TokenType::Op(OpType::Bang)))
            },
            '=' => {
                if let Some(next_char) = self.peek() {
                    if next_char == '=' {
                        self.consume_char();
                        return Ok(Token::new(TokenType::Op(OpType::EqualEqual)));
                    }
                }
                Ok(Token::new(TokenType::Op(OpType::Equal)))
            },
            '>' => {
                if let Some(next_char) = self.peek() {
                    if next_char == '=' {
                        self.consume_char();
                        return Ok(Token::new(TokenType::Op(OpType::GreaterEqual)));
                    }
                }
                Ok(Token::new(TokenType::Op(OpType::Greater)))
            },
            '<' => {
                if let Some(next_char) = self.peek() {
                    if next_char == '=' {
                        self.consume_char();
                        return Ok(Token::new(TokenType::Op(OpType::LessEqual)));
                    }
                }
                Ok(Token::new(TokenType::Op(OpType::Less)))
            },
            _ => Err(LexError::UnknownOperator(self.curr_char)),
        }
    }

    fn lex_num(&mut self) -> (r: Result<Token, LexError>)
        requires
            old(self).wf(),
        ensures
            final(self).wf(),
            final(self).line@ == old(self).line@,
            (lex_res_view(r), final(self).position as int) == spec_lex_num(
                old(self).line@,
                old(self).position as int,
            ),
    {
        let ghost line = self.line@;
        let ghost p0 = self.position as int;
        let mut digits: String = String::new();
        proof {
            assert(digits@ =~= line.subrange(p0, p0));
        }
        loop
            invariant
                self.wf(),
                self.line@ == line,
                line == old(self).line@,
                p0 == old(self).position as int,
                p0 <= self.position as int <= line.len(),
                num_run_end(line, p0) == num_run_end(line, self.position as int),
                digits@ == line.subrange(p0, self.position as int),
            ensures
                self.wf(),
                self.line@ == line,
                self.position as int == num_run_end(line, p0),
                digits@ == line.subrange(p0, self.position as int),
            decreases line.len() - self.position,
        {
            let ghost pp = self.position as int;
            let pk = self.peek();
            match pk {
                Some(c) => {
                    if char_is_numeric(c) || c == '.' {
                        push_char(&mut digits, c);
                        self.consume_char();
                        proof {
                            assert(num_run_end(line, pp) == num_run_end(line, pp + 1));
                            assert(digits@ =~= line.subrange(p0, self.position as int));
                        }
                    } else {
                        proof {
                            assert(num_run_end(line, pp) == pp);
                        }
                        break;
                    }
                },
                None => {
                    proof {
                        assert(num_run_end(line, pp) == pp);
                    }
                    break;
                },
            }
        }
        Ok(Token::new(TokenType::Lit(LitType::Number(digits))))
    }

    fn lex_str(&mut self) -> (r: Result<Token, LexError>)
        requires
            old(self).wf(),
            old(self).position < old(self).line@.len(),
            old(self).line@[old(self).position as int] == '"',
        ensures
            final(self).wf(),
            final(self).line@ == old(self).line@,
            (lex_res_view(r), final(self).position as int) == spec_lex_str(
                old(self).line@,
                old(self).position as int,
            ),
    {
        let ghost line = self.line@;
        let ghost p0 = self.position as int;
        let mut string_val = String::new();
        // Consume the quote character.
        self.consume_char();
        proof {
            assert(string_val@ =~= line.subrange(p0 + 1, p0 + 1));
        }
        loop
            invariant
                self.wf(),
                self.line@ == line,
                line == old(self).line@,
                p0 == old(self).position as int,
                p0 + 1 <= self.position as int <= line.len(),
                str_run_end(line, p0 + 1) == str_run_end(line, self.position as int),
                string_val@ == line.subrange(p0 + 1, self.position as int),
            ensures
                self.wf(),
                self.line@ == line,
                self.position as int == str_run_end(line, p0 + 1),
                string_val@ == line.subrange(p0 + 1, self.position as int),
            decreases line.len() - self.position,
        {
            let ghost pp = self.position as int;
            let pk = self.peek();
            match pk {
                Some(c) => {
                    if c == '"' {
                        proof {
                            assert(str_run_end(line, pp) == pp);
                        }
                        break;
                    }
                    push_char(&mut string_val, c);
                    self.consume_char();
                    proof {
                        assert(str_run_end(line, pp) == str_run_end(line, pp + 1));
                        assert(string_val@ =~= line.subrange(p0 + 1, self.position as int));
                    }
                },
                None => {
                    proof {
                        assert(str_run_end(line, pp) == pp);
                    }
                    break;
                },
            }
        }
        if self.peek().is_none() {
            return Err(LexError::UnclosedQuotation);
        }
        // Consume the second quote character.
        self.consume_char();
        Ok(Token::new(TokenType::Lit(LitType::String(string_val))))
    }

    fn lex_identifier(&mut self) -> (r: Result<Token, LexError>)
        requires
            old(self).wf(),
        ensures
            final(self).wf(),
            final(self).line@ == old(self).line@,
            (lex_res_view(r), final(self).position as int) == spec_lex_ident(
                old(self).line@,
                old(self).position as int,
            ),
    {
        let ghost line = self.line@;
        let ghost p0 = self.position as int;
        let mut identifier: String = String::new();
        proof {
            assert(identifier@ =~= line.subrange(p0, p0));
        }
        loop
            invariant
                self.wf(),
                self.line@ == line,
                line == old(self).line@,
                p0 == old(self).position as int,
                p0 <= self.position as int <= line.len(),
                alpha_run_end(line, p0) == alpha_run_end(line, self.position as int),
                identifier@ == line.subrange(p0, self.position as int),
            ensures
                self.wf(),
                self.line@ == line,
                self.position as int == alpha_run_end(line, p0),
                identifier@ == line.subrange(p0, self.position as int),
            decreases line.len() - self.position,
        {
            let ghost pp = self.position as int;
            let pk = self.peek();
            match pk {
                Some(c) => {
                    if char_is_alphabetic(c) {
                        push_char(&mut identifier, c);
                        self.consume_char();
                        proof {
                            assert(alpha_run_end(line, pp) == alpha_run_end(line, pp + 1));
                            assert(identifier@ =~= line.subrange(p0, self.position as int));
                        }
                    } else {
                        proof {
                            assert(alpha_run_end(line, pp) == pp);
                        }
                        break;
                    }
                },
                None => {
                    proof {
                        assert(alpha_run_end(line, pp) == pp);
                    }
                    break;
                },
            }
        }
        // A character that can begin no token would leave the run empty and
        // the cursor stuck; reject it so the scan always moves.
        if identifier.as_str().is_empty() {
            if let Some(c) = self.peek() {
                self.consume_char();
                return Err(LexError::IllegalChar(c));
            }
        }
        let maybe_kword_type = self.str_to_keyword_type(identifier.as_str());
        match maybe_kword_type {
            Some(kword_type) => Ok(Token::new(TokenType::Kword(kword_type))),
            None => Ok(Token::new(TokenType::Lit(LitType::Identifier(identifier)))),
        }
    }

    fn str_to_keyword_type(&self, maybe_kword: &str) -> (r: Option<KwordType>)
        ensures
            r == kword_of(maybe_kword@),
    {
        let s = maybe_kword.to_owned();
        if s == "and".to_owned() {
            Some(KwordType::And)
        } else if s == "class".to_owned() {
            Some(KwordType::Class)
        } else if s == "else".to_owned() {
            Some(KwordType::Else)
        } else if s == "false".to_owned() {
            Some(KwordType::False)
        } else if s == "fun".to_owned() {
            Some(KwordType::Fun)
        } else if s == "for".to_owned() {
            Some(KwordType::For)
        } else if s == "if".to_owned() {
            Some(KwordType::If)
        } else if s == "nil".to_owned() {
            Some(KwordType::Nil)
        } else if s == "or".to_owned() {
            Some(KwordType::Or)
        } else if s == "print".to_owned() {
            Some(KwordType::Print)
        } else if s == "return".to_owned() {
            Some(KwordType::Return)
        } else if s == "super".to_owned() {
            Some(KwordType::Super)
        } else if s == "this".to_owned() {
            Some(KwordType::This)
        } else if s == "true".to_owned() {
            Some(KwordType::True)
        } else if s == "var".to_owned() {
            Some(KwordType::Var)
        } else if s == "while".to_owned() {
            Some(KwordType::While)
        } else {
            None
        }
    }

    fn lex_token(&mut self) -> (r: Result<Token, LexError>)
        requires
            old(self).wf(),
        ensures
            final(self).wf(),
            final(self).line@ == old(self).line@,
            (lex_res_view(r), final(self).position as int) == spec_lex_token(
                old(self).line@,
                old(self).position as int,
            ),
    {
        let ghost line = self.line@;
        let ghost p0 = self.position as int;
        loop
            invariant
                self.wf(),
                self.line@ == line,
                line == old(self).line@,
                p0 == old(self).position as int,
                p0 <= self.position as int <= line.len(),
                ws_run_end(line, p0) == ws_run_end(line, self.position as int),
            ensures
                self.wf(),
                self.line@ == line,
                self.position as int == ws_run_end(line, p0),
            decreases line.len() - self.position,
        {
            let pk = self.peek();
            match pk {
                Some(c) => {
                    if char_is_whitespace(c) {
                        self.consume_char();
                    } else {
                        break;
                    }
                },
                None => {
                    break;
                },
            }
        }
        if self.is_op_char() {
            // Parse an operator
            self.lex_op()
        } else if self.is_num_char() {
            // Parse a number
            self.lex_num()
        } else {
            let is_quote = match self.peek() {
                Some(c) => c == '"',
                None => false,
            };
            if is_quote {
                // Parse a string
                self.lex_str()
            } else {
                // Parse an identifier
                self.lex_identifier()
            }
        }
    }

    /// Scan the whole line into tokens closed by the end-of-input marker,
    /// or stop at the first lexical error.
    pub fn lex_tokens(&mut self) -> (r: Result<Vec<Token>, LexError>)
        requires
            old(self).wf(),
        ensures
            final(self).wf(),
            final(self).line_view() == old(self).line_view(),
            (match (r, spec_lex_output(old(self).line_view(), old(self).pos_view())) {
                (Ok(v), Ok(s)) => tokens_view(v@) == s,
                (Err(e), Err(se)) => e@ == se,
                _ => false,
            }),
    {
        let ghost line = self.line@;
        let ghost p0 = self.position as int;
        let mut tokens: Vec<Token> = Vec::new();
        let src_size = self.line.len();
        while self.position < src_size
            invariant
                self.wf(),
                self.line@ == line,
                line == old(self).line@,
                src_size == line.len(),
                0 <= p0 <= self.position as int,
                p0 == old(self).position as int,
                (match spec_lex_line(line, self.position as int) {
                    Ok(rest) => spec_lex_line(line, p0) == Ok::<Seq<TokenView>, LexErrView>(
                        tokens_view(tokens@) + rest,
                    ),
                    Err(e) => spec_lex_line(line, p0) == Err::<Seq<TokenView>, LexErrView>(e),
                }),
            decreases line.len() - self.position,
        {
            let ghost pos_here = self.position as int;
            let ghost toks_before = tokens@;
            let token_res = self.lex_token();
            proof {
                lemma_lex_token_advances(line, pos_here);
            }
            let token = match token_res {
                Ok(t) => t,
                Err(e) => {
                    return Err(e);
                },
            };
            tokens.push(token);
            proof {
                lemma_tokens_view_push(toks_before, token);
                if spec_lex_line(line, self.position as int) is Ok {
                    assert(tokens_view(toks_before) + (seq![token@] + spec_lex_line(
                        line,
                        self.position as int,
                    )->Ok_0) =~= tokens_view(tokens@) + spec_lex_line(
                        line,
                        self.position as int,
                    )->Ok_0);
                }
            }
        }
        let ghost toks_before = tokens@;
        let eof = Token::new(TokenType::Eof);
        tokens.push(eof);
        proof {
            lemma_tokens_view_push(toks_before, eof);
            assert(tokens_view(tokens@) =~= tokens_view(toks_before).push(TokenView::Eof));
        }
        Ok(tokens)
    }
}

/// Spec-level image of one scan result.
pub open spec fn lex_res_view(r: Result<Token, LexError>) -> Result<TokenView, LexErrView> {
    match r {
        Ok(t) => Ok(t@),
        Err(e) => Err(e@),
    }
}

proof fn lemma_lex_token_no_eof(line: Seq<char>, pos: int)
    requires
        0 <= pos <= line.len(),
    ensures
        spec_lex_token(line, pos).0 != Ok::<TokenView, LexErrView>(TokenView::Eof),
{
    lemma_ws_run_end(line, pos);
}

proof fn lemma_lex_line_no_eof(line: Seq<char>, pos: int)
    requires
        0 <= pos,
    ensures
        (match spec_lex_line(line, pos) {
            Ok(ts) => forall|i: int| 0 <= i < ts.len() ==> ts[i] != TokenView::Eof,
            Err(_) => true,
        }),
    decreases line.len() - pos,
{
    if pos < line.len() {
        lemma_lex_token_advances(line, pos);
        lemma_lex_token_no_eof(line, pos);
        let r = spec_lex_token(line, pos).0;
        let p2 = spec_lex_token(line, pos).1;
        lemma_lex_line_no_eof(line, p2);
        if r is Ok && spec_lex_line(line, p2) is Ok {
            let t = r->Ok_0;
            let rest = spec_lex_line(line, p2)->Ok_0;
            assert forall|i: int| 0 <= i < (seq![t] + rest).len() implies (seq![t] + rest)[i]
                != TokenView::Eof by {
                if i > 0 {
                    assert((seq![t] + rest)[i] == rest[i - 1]);
                }
            }
        }
    }
}

/// LAW (end-of-input marker): whenever the strict scan of a line succeeds,
/// it ends with exactly one end-of-input token, and no other element of the
/// sequence is one.
pub proof fn lemma_single_end_marker(line: Seq<char>, pos: int)
    requires
        0 <= pos,
    ensures
        (match spec_lex_output(line, pos) {
            Ok(out) => out.len() >= 1 && out.last() == TokenView::Eof && forall|i: int|
                0 <= i < out.len() - 1 ==> out[i] != TokenView::Eof,
            Err(_) => true,
        }),
{
    lemma_lex_line_no_eof(line, pos);
}

} // verus!
