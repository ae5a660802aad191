//! Lenient line scanner.
//!
//! `LineLexer` turns one line of source text into an ordered sequence of
//! classified tokens or per-token lexical errors. It recovers after each
//! error, drops line comments, and closes every sequence with a single
//! end-of-input marker. The whole scan is pinned down by the spec-level
//! scanner `spec_lex_output`.

use vstd::prelude::*;

use crate::chars::{
    char_is_alphanumeric, char_is_numeric, char_is_whitespace, is_alphanumeric_char,
    is_numeric_char, is_op_start, is_whitespace_char, lemma_ws_run_end, num_run_end, op_start,
    push_char, str_run_end, trim_spec, trimmed_chars, ws_run_end,
};

verus! {

/// Operator tokens; `SlashSlash` is the internal comment marker that never
/// reaches the caller.
#[derive(Debug, PartialEq, Eq, Structural, Clone, Copy)]
pub enum OpType {
    LeftParen,
    RightParen,
    LeftBrace,
    RightBrace,
    Comma,
    Dot,
    Minus,
    Plus,
    Semicolon,
    Slash,
    SlashSlash,
    Star,
    Bang,
    BangEqual,
    Equal,
    EqualEqual,
    Greater,
    GreaterEqual,
    Less,
    LessEqual,
}

/// Literal tokens. A `Number` carries the numeric text exactly as scanned
/// (digits and any decimal points); turning that text into a machine number
/// is the evaluator's concern, not the scanner's.
#[derive(Debug)]
pub enum LitType {
    Identifier(String),
    String(String),
    Number(String),
    False,
    True,
    Nil,
}

/// The reserved words.
#[derive(Debug, PartialEq, Eq, Structural, Clone, Copy)]
pub enum KwordType {
    And,
    Class,
    Else,
    False,
    Fun,
    For,
    If,
    Nil,
    Or,
    Print,
    Return,
    Super,
    This,
    True,
    Var,
    While,
}

#[derive(Debug)]
pub enum TokenType {
    Op(OpType),
    Lit(LitType),
    Kword(KwordType),
    Eof,
}

#[derive(Debug)]
pub struct Token {
    pub token_type: TokenType,
}

/// A lexical error, reported as a value so the scan can continue.
#[derive(Debug)]
pub enum LexError {
    /// A string literal reached the end of the line without a closing quote.
    UnclosedQuotation,
    /// A character that can appear in no token turned up inside an
    /// identifier run; `ident` holds the run up to and including it.
    InvalidIdentChar { ident: String, ch: char },
    /// An operator-start character with no operator form.
    UnknownOperator(char),
}

/// Spec-level image of a literal.
pub enum LitView {
    Ident(Seq<char>),
    Str(Seq<char>),
    Num(Seq<char>),
    False,
    True,
    Nil,
}

/// Spec-level image of a token.
pub enum TokenView {
    Op(OpType),
    Lit(LitView),
    Kword(KwordType),
    Eof,
}

/// Spec-level image of a lexical error.
pub enum LexErrView {
    UnclosedQuotation,
    InvalidIdentChar(Seq<char>, char),
    UnknownOperator(char),
}

impl View for LitType {
    type V = LitView;

    open spec fn view(&self) -> LitView {
        match self {
            LitType::Identifier(s) => LitView::Ident(s@),
            LitType::String(s) => LitView::Str(s@),
            LitType::Number(s) => LitView::Num(s@),
            LitType::False => LitView::False,
            LitType::True => LitView::True,
            LitType::Nil => LitView::Nil,
        }
    }
}

impl View for TokenType {
    type V = TokenView;

    open spec fn view(&self) -> TokenView {
        match self {
            TokenType::Op(op) => TokenView::Op(*op),
            TokenType::Lit(l) => TokenView::Lit(l@),
            TokenType::Kword(k) => TokenView::Kword(*k),
            TokenType::Eof => TokenView::Eof,
        }
    }
}

impl View for Token {
    type V = TokenView;

    open spec fn view(&self) -> TokenView {
        self.token_type@
    }
}

impl View for LexError {
    type V = LexErrView;

    open spec fn view(&self) -> LexErrView {
        match self {
            LexError::UnclosedQuotation => LexErrView::UnclosedQuotation,
            LexError::InvalidIdentChar { ident, ch } => LexErrView::InvalidIdentChar(
                ident@,
                *ch,
            ),
            LexError::UnknownOperator(c) => LexErrView::UnknownOperator(*c),
        }
    }
}

/// Whether two literals agree as the grammar sees them: on the variant
/// alone, never on the payload.
pub open spec fn lit_matches(a: LitView, b: LitView) -> bool {
    match (a, b) {
        (LitView::Ident(_), LitView::Ident(_)) => true,
        (LitView::Str(_), LitView::Str(_)) => true,
        (LitView::Num(_), LitView::Num(_)) => true,
        (LitView::False, LitView::False) => true,
        (LitView::True, LitView::True) => true,
        (LitView::Nil, LitView::Nil) => true,
        _ => false,
    }
}

/// Whether two token types agree for grammar dispatch.
pub open spec fn type_matches(a: TokenView, b: TokenView) -> bool {
    match (a, b) {
        (TokenView::Op(x), TokenView::Op(y)) => x == y,
        (TokenView::Lit(x), TokenView::Lit(y)) => lit_matches(x, y),
        (TokenView::Kword(x), TokenView::Kword(y)) => x == y,
        (TokenView::Eof, TokenView::Eof) => true,
        _ => false,
    }
}

impl PartialEq for LitType {
    /// Two literal tokens compare equal when their variants agree; the
    /// payload is ignored, since the grammar dispatches on the kind alone.
    fn eq(&self, other: &Self) -> (r: bool) {
        match (self, other) {
            (LitType::Identifier(_), LitType::Identifier(_)) => true,
            (LitType::String(_), LitType::String(_)) => true,
            (LitType::Number(_), LitType::Number(_)) => true,
            (LitType::False, LitType::False) => true,
            (LitType::True, LitType::True) => true,
            (LitType::Nil, LitType::Nil) => true,
            _ => false,
        }
    }
}

impl vstd::std_specs::cmp::PartialEqSpecImpl for LitType {
    open spec fn obeys_eq_spec() -> bool {
        true
    }

    open spec fn eq_spec(&self, other: &Self) -> bool {
        lit_matches(self@, other@)
    }
}

impl PartialEq for TokenType {
    fn eq(&self, other: &Self) -> (r: bool) {
        match (self, other) {
            (TokenType::Op(a), TokenType::Op(b)) => *a == *b,
            (TokenType::Lit(a), TokenType::Lit(b)) => *a == *b,
            (TokenType::Kword(a), TokenType::Kword(b)) => *a == *b,
            (TokenType::Eof, TokenType::Eof) => true,
            _ => false,
        }
    }
}

impl vstd::std_specs::cmp::PartialEqSpecImpl for TokenType {
    open spec fn obeys_eq_spec() -> bool {
        true
    }

    open spec fn eq_spec(&self, other: &Self) -> bool {
        type_matches(self@, other@)
    }
}

impl PartialEq for Token {
    fn eq(&self, other: &Self) -> (r: bool) {
        self.token_type == other.token_type
    }
}

impl vstd::std_specs::cmp::PartialEqSpecImpl for Token {
    open spec fn obeys_eq_spec() -> bool {
        true
    }

    open spec fn eq_spec(&self, other: &Self) -> bool {
        type_matches(self@, other@)
    }
}

impl Token {
    pub fn new(token_type: TokenType) -> (r: Self)
        ensures
            r@ == token_type@,
    {
        Token { token_type }
    }

    /// The operator of an operator token.
    pub fn op_type(&self) -> (r: Option<OpType>)
        ensures
            r == (match self@ {
                TokenView::Op(op) => Some(op),
                _ => None::<OpType>,
            }),
    {
        match &self.token_type {
            TokenType::Op(op) => Some(*op),
            _ => None,
        }
    }

    /// The text carried by a literal token.
    pub fn str_val(&self) -> (r: Option<String>)
        ensures
            (match self@ {
                TokenView::Lit(l) => match l {
                    LitView::Ident(s) => r matches Some(v) && v@ == s,
                    LitView::Str(s) => r matches Some(v) && v@ == s,
                    LitView::Num(s) => r matches Some(v) && v@ == s,
                    _ => r is None,
                },
                _ => r is None,
            }),
    {
        match &self.token_type {
            TokenType::Lit(lit_type) => match lit_type {
                LitType::Identifier(s) => Some(s.clone()),
                LitType::String(s) => Some(s.clone()),
                LitType::Number(s) => Some(s.clone()),
                _ => None,
            },
            _ => None,
        }
    }
}

/// The symbol an operator prints as.
pub open spec fn op_symbol(op: OpType) -> Seq<char> {
    match op {
        OpType::LeftParen => "("@,
        OpType::RightParen => ")"@,
        OpType::LeftBrace => "{"@,
        OpType::RightBrace => "}"@,
        OpType::Comma => ","@,
        OpType::Dot => "."@,
        OpType::Minus => "-"@,
        OpType::Plus => "+"@,
        OpType::Semicolon => ";"@,
        OpType::Slash => "/"@,
        OpType::SlashSlash => "//"@,
        OpType::Star => "*"@,
        OpType::Bang => "!"@,
        OpType::BangEqual => "!="@,
        OpType::Equal => "="@,
        OpType::EqualEqual => "=="@,
        OpType::Greater => ">"@,
        OpType::GreaterEqual => ">="@,
        OpType::Less => "<"@,
        OpType::LessEqual => "<="@,
    }
}

/// The canonical text of a literal: the payload text for identifiers,
/// strings and numbers; the keyword spelling for the constants.
pub open spec fn lit_text(l: LitView) -> Seq<char> {
    match l {
        LitView::Ident(s) => s,
        LitView::Str(s) => s,
        LitView::Num(s) => s,
        LitView::False => "false"@,
        LitView::True => "true"@,
        LitView::Nil => "nil"@,
    }
}

impl OpType {
    /// The operator's symbol as text.
    pub fn to_string(&self) -> (r: String)
        ensures
            r@ == op_symbol(*self),
    {
        match self {
            OpType::LeftParen => "(".to_owned(),
            OpType::RightParen => ")".to_owned(),
            OpType::LeftBrace => "{".to_owned(),
            OpType::RightBrace => "}".to_owned(),
            OpType::Comma => ",".to_owned(),
            OpType::Dot => ".".to_owned(),
            OpType::Minus => "-".to_owned(),
            OpType::Plus => "+".to_owned(),
            OpType::Semicolon => ";".to_owned(),
            OpType::Slash => "/".to_owned(),
            OpType::SlashSlash => "//".to_owned(),
            OpType::Star => "*".to_owned(),
            OpType::Bang => "!".to_owned(),
            OpType::BangEqual => "!=".to_owned(),
            OpType::Equal => "=".to_owned(),
            OpType::EqualEqual => "==".to_owned(),
            OpType::Greater => ">".to_owned(),
            OpType::GreaterEqual => ">=".to_owned(),
            OpType::Less => "<".to_owned(),
            OpType::LessEqual => "<=".to_owned(),
        }
    }
}

impl LitType {
    /// The literal's canonical text.
    pub fn to_string(&self) -> (r: String)
        ensures
            r@ == lit_text(self@),
    {
        match self {
            LitType::Identifier(name) => name.clone(),
            LitType::String(s) => s.clone(),
            LitType::Number(x) => x.clone(),
            LitType::False => "false".to_owned(),
            LitType::True => "true".to_owned(),
            LitType::Nil => "nil".to_owned(),
        }
    }
}

/// The reserved word spelled by `s`, if any.
pub open spec fn kword_of(s: Seq<char>) -> Option<KwordType> {
    if s == "and"@ {
        Some(KwordType::And)
    } else if s == "class"@ {
        Some(KwordType::Class)
    } else if s == "else"@ {
        Some(KwordType::Else)
    } else if s == "false"@ {
        Some(KwordType::False)
    } else if s == "fun"@ {
        Some(KwordType::Fun)
    } else if s == "for"@ {
        Some(KwordType::For)
    } else if s == "if"@ {
        Some(KwordType::If)
    } else if s == "nil"@ {
        Some(KwordType::Nil)
    } else if s == "or"@ {
        Some(KwordType::Or)
    } else if s == "print"@ {
        Some(KwordType::Print)
    } else if s == "return"@ {
        Some(KwordType::Return)
    } else if s == "super"@ {
        Some(KwordType::Super)
    } else if s == "this"@ {
        Some(KwordType::This)
    } else if s == "true"@ {
        Some(KwordType::True)
    } else if s == "var"@ {
        Some(KwordType::Var)
    } else if s == "while"@ {
        Some(KwordType::While)
    } else {
        None
    }
}

/// The scan of one operator token starting at `p`; two-character operators
/// take the longest match, and `//` swallows the rest of the line as a
/// comment marker.
pub open spec fn spec_lex_op(line: Seq<char>, p: int) -> (Result<TokenView, LexErrView>, int) {
    let c = line[p];
    if c == '(' {
        (Ok(TokenView::Op(OpType::LeftParen)), p + 1)
    } else if c == ')' {
        (Ok(TokenView::Op(OpType::RightParen)), p + 1)
    } else if c == '{' {
        (Ok(TokenView::Op(OpType::LeftBrace)), p + 1)
    } else if c == '}' {
        (Ok(TokenView::Op(OpType::RightBrace)), p + 1)
    } else if c == ',' {
        (Ok(TokenView::Op(OpType::Comma)), p + 1)
    } else if c == '.' {
        (Ok(TokenView::Op(OpType::Dot)), p + 1)
    } else if c == '-' {
        (Ok(TokenView::Op(OpType::Minus)), p + 1)
    } else if c == '+' {
        (Ok(TokenView::Op(OpType::Plus)), p + 1)
    } else if c == ';' {
        (Ok(TokenView::Op(OpType::Semicolon)), p + 1)
    } else if c == '*' {
        (Ok(TokenView::Op(OpType::Star)), p + 1)
    } else if c == '!' {
        if p + 1 < line.len() && line[p + 1] == '=' {
            (Ok(TokenView::Op(OpType::BangEqual)), p + 2)
        } else {
            (Ok(TokenView::Op(OpType::Bang)), p + 1)
        }
    } else if c == '=' {
        if p + 1 < line.len() && line[p + 1] == '=' {
            (Ok(TokenView::Op(OpType::EqualEqual)), p + 2)
        } else {
            (Ok(TokenView::Op(OpType::Equal)), p + 1)
        }
    } else if c == '>' {
        if p + 1 < line.len() && line[p + 1] == '=' {
            (Ok(TokenView::Op(OpType::GreaterEqual)), p + 2)
        } else {
            (Ok(TokenView::Op(OpType::Greater)), p + 1)
        }
    } else if c == '<' {
        if p + 1 < line.len() && line[p + 1] == '=' {
            (Ok(TokenView::Op(OpType::LessEqual)), p + 2)
        } else {
            (Ok(TokenView::Op(OpType::Less)), p + 1)
        }
    } else if c == '/' {
        if p + 1 < line.len() && line[p + 1] == '/' {
            (Ok(TokenView::Op(OpType::SlashSlash)), line.len() as int)
        } else {
            (Ok(TokenView::Op(OpType::Slash)), p + 1)
        }
    } else {
        (Err(LexErrView::UnknownOperator(c)), p + 1)
    }
}

/// The scan of one number token starting at `p`: the maximal run of numeric
/// characters and decimal points, kept as text.
pub open spec fn spec_lex_num(line: Seq<char>, p: int) -> (Result<TokenView, LexErrView>, int) {
    let e = num_run_end(line, p);
    (Ok(TokenView::Lit(LitView::Num(line.subrange(p, e)))), e)
}

/// The scan of one string token whose opening quote stands at `p`; reaching
/// the end of the line before a closing quote is an error.
pub open spec fn spec_lex_str(line: Seq<char>, p: int) -> (Result<TokenView, LexErrView>, int) {
    let e = str_run_end(line, p + 1);
    if e >= line.len() {
        (Err(LexErrView::UnclosedQuotation), line.len() as int)
    } else {
        (Ok(TokenView::Lit(LitView::Str(line.subrange(p + 1, e)))), e + 1)
    }
}

/// The token an identifier run spells: a keyword on an exact table hit,
/// otherwise an identifier literal.
pub open spec fn ident_token(acc: Seq<char>) -> TokenView {
    match kword_of(acc) {
        Some(k) => TokenView::Kword(k),
        None => TokenView::Lit(LitView::Ident(acc)),
    }
}

/// The scan of one identifier-or-keyword token: collect alphanumeric
/// characters greedily; a character that can begin no token is an error that
/// discards the run collected so far.
pub open spec fn spec_lex_ident(line: Seq<char>, p: int, acc: Seq<char>) -> (
    Result<TokenView, LexErrView>,
    int,
)
    decreases line.len() - p
        when 0 <= p <= line.len()
{
    if p >= line.len() {
        (Ok(ident_token(acc)), p)
    } else {
        let c = line[p];
        if is_alphanumeric_char(c) {
            spec_lex_ident(line, p + 1, acc.push(c))
        } else if !is_whitespace_char(c) && !is_op_start(c) {
            (Err(LexErrView::InvalidIdentChar(acc.push(c), c)), p + 1)
        } else {
            (Ok(ident_token(acc)), p)
        }
    }
}

/// The scan of the next token from `pos`: skip whitespace, then dispatch on
/// the lookahead character class.
pub open spec fn spec_lex_token(line: Seq<char>, pos: int) -> (Result<TokenView, LexErrView>, int) {
    let p = ws_run_end(line, pos);
    if p < line.len() && is_op_start(line[p]) {
        spec_lex_op(line, p)
    } else if p < line.len() && is_numeric_char(line[p]) {
        spec_lex_num(line, p)
    } else if p < line.len() && line[p] == '"' {
        spec_lex_str(line, p)
    } else {
        spec_lex_ident(line, p, Seq::empty())
    }
}

proof fn lemma_lex_ident_bounds(line: Seq<char>, p: int, acc: Seq<char>)
    requires
        0 <= p <= line.len(),
    ensures
        p <= spec_lex_ident(line, p, acc).1 <= line.len(),
    decreases line.len() - p,
{
    if p < line.len() && is_alphanumeric_char(line[p]) {
        lemma_lex_ident_bounds(line, p + 1, acc.push(line[p]));
    }
}

/// From any position inside the line, scanning one token stays inside the
/// line and consumes at least one character.
pub proof fn lemma_lex_token_advances(line: Seq<char>, pos: int)
    requires
        0 <= pos <= line.len(),
    ensures
        pos <= spec_lex_token(line, pos).1 <= line.len(),
        pos < line.len() ==> pos < spec_lex_token(line, pos).1,
{
    lemma_ws_run_end(line, pos);
    let p = ws_run_end(line, pos);
    if p < line.len() && is_op_start(line[p]) {
        // every operator branch steps past at least the character at `p`
    } else if p < line.len() && is_numeric_char(line[p]) {
        crate::chars::lemma_num_run_end(line, p + 1);
        assert(num_run_end(line, p) == num_run_end(line, p + 1));
    } else if p < line.len() && line[p] == '"' {
        crate::chars::lemma_str_run_end(line, p + 1);
    } else {
        if p < line.len() {
            assert(!is_whitespace_char(line[p]));
            if is_alphanumeric_char(line[p]) {
                lemma_lex_ident_bounds(line, p + 1, Seq::empty().push(line[p]));
            }
        }
    }
}

/// The scan of a whole line from `pos`, comments dropped, without the final
/// end-of-input marker.
pub open spec fn spec_lex_line(line: Seq<char>, pos: int) -> Seq<
    Result<TokenView, LexErrView>,
>
    decreases line.len() - pos
        when 0 <= pos
{
    if pos >= line.len() {
        Seq::empty()
    } else {
        proof {
            lemma_lex_token_advances(line, pos);
        }
        let r = spec_lex_token(line, pos).0;
        let p2 = spec_lex_token(line, pos).1;
        if r == Ok::<TokenView, LexErrView>(TokenView::Op(OpType::SlashSlash)) {
            spec_lex_line(line, p2)
        } else {
            seq![r] + spec_lex_line(line, p2)
        }
    }
}

/// The full scan of a line: its tokens and errors, closed by the
/// end-of-input marker.
pub open spec fn spec_lex_output(line: Seq<char>, pos: int) -> Seq<Result<TokenView, LexErrView>> {
    spec_lex_line(line, pos).push(Ok(TokenView::Eof))
}

/// Spec-level image of one scan result.
pub open spec fn lex_res_view(r: Result<Token, LexError>) -> Result<TokenView, LexErrView> {
    match r {
        Ok(t) => Ok(t@),
        Err(e) => Err(e@),
    }
}

/// Spec-level image of a sequence of scan results.
pub open spec fn lex_results_view(rs: Seq<Result<Token, LexError>>) -> Seq<
    Result<TokenView, LexErrView>,
> {
    rs.map_values(|r: Result<Token, LexError>| lex_res_view(r))
}

proof fn lemma_results_view_push(rs: Seq<Result<Token, LexError>>, x: Result<Token, LexError>)
    ensures
        lex_results_view(rs.push(x)) == lex_results_view(rs).push(lex_res_view(x)),
{
    assert(lex_results_view(rs.push(x)) =~= lex_results_view(rs).push(lex_res_view(x)));
}

/// A single-pass scanning cursor over one trimmed line of source text.
pub struct LineLexer {
    line: Vec<char>,
    position: usize,
    curr_char: char,
}

impl LineLexer {
    /// The characters of the trimmed source line.
    pub closed spec fn line_view(&self) -> Seq<char> {
        self.line@
    }

    /// The scanning cursor.
    pub closed spec fn pos_view(&self) -> int {
        self.position as int
    }

    /// The cursor is inside the line and the line carries no trailing
    /// whitespace, so every scan step makes progress.
    pub closed spec fn wf(&self) -> bool {
        &&& self.position <= self.line@.len()
        &&& (self.line@.len() > 0 ==> !is_whitespace_char(self.line@.last()))
    }

    pub fn new(line: String) -> (r: Self)
        ensures
            r.wf(),
            r.line_view() == trim_spec(line@),
            r.pos_view() == 0,
    {
        proof {
            crate::chars::lemma_trim_spec(line@);
        }
        let src_line = trimmed_chars(line.as_str());
        let curr_char = if src_line.len() > 0 {
            src_line[0]
        } else {
            '\0'
        };
        LineLexer { line: src_line, position: 0, curr_char }
    }

    fn peek(&self) -> (r: Option<char>)
        ensures
            r == (if self.position < self.line@.len() {
                Some(self.line@[self.position as int])
            } else {
                None::<char>
            }),
    {
        if self.position < self.line.len() {
            Some(self.line[self.position])
        } else {
            None
        }
    }

    // Record the next char in the line and step past it. The caller has
    // already checked that the cursor is inside the line.
    fn consume_char(&mut self)
        requires
            old(self).position < old(self).line@.len(),
        ensures
            final(self).line@ == old(self).line@,
            final(self).position == old(self).position + 1,
            final(self).curr_char == old(self).line@[old(self).position as int],
            old(self).wf() ==> final(self).wf(),
    {
        if self.position < self.line.len() {
            self.curr_char = self.line[self.position];
            self.position = self.position + 1;
        }
    }

    fn is_op_char(&self) -> (r: bool)
        ensures
            r == (self.position < self.line@.len() && is_op_start(
                self.line@[self.position as int],
            )),
    {
        match self.peek() {
            Some(c) => op_start(c),
            None => false,
        }
    }

    fn is_num_char(&self) -> (r: bool)
        ensures
            r == (self.position < self.line@.len() && is_numeric_char(
                self.line@[self.position as int],
            )),
    {
        match self.peek() {
            Some(c) => char_is_numeric(c),
            None => false,
        }
    }

    fn lex_op(&mut self) -> (r: Result<Token, LexError>)
        requires
            old(self).wf(),
            old(self).position < old(self).line@.len(),
        ensures
            final(self).wf(),
            final(self).line@ == old(self).line@,
            (lex_res_view(r), final(self).position as int) == spec_lex_op(
                old(self).line@,
                old(self).position as int,
            ),
    {
        let ghost line = self.line@;
        self.consume_char();
        match self.curr_char {
            '(' => Ok(Token::new(TokenType::Op(OpType::LeftParen))),
            ')' => Ok(Token::new(TokenType::Op(OpType::RightParen))),
            '{' => Ok(Token::new(TokenType::Op(OpType::LeftBrace))),
            '}' => Ok(Token::new(TokenType::Op(OpType::RightBrace))),
            ',' => Ok(Token::new(TokenType::Op(OpType::Comma))),
            '.' => Ok(Token::new(TokenType::Op(OpType::Dot))),
            '-' => Ok(Token::new(TokenType::Op(OpType::Minus))),
            '+' => Ok(Token::new(TokenType::Op(OpType::Plus))),
            ';' => Ok(Token::new(TokenType::Op(OpType::Semicolon))),
            '*' => Ok(Token::new(TokenType::Op(OpType::Star))),
            '!' => {
                if let Some(next_char) = self.peek() {
                    if next_char == '=' {
                        self.consume_char();
                        return Ok(Token::new(TokenType::Op(OpType::BangEqual)));
                    }
                }
                Ok(Token::new(TokenType::Op(OpType::Bang)))
            },
            '=' => {
                if let Some(next_char) = self.peek() {
                    if next_char == '=' {
                        self.consume_char();
                        return Ok(Token::new(TokenType::Op(OpType::EqualEqual)));
                    }
                }
                Ok(Token::new(TokenType::Op(OpType::Equal)))
            },
            '>' => {
                if let Some(next_char) = self.peek() {
                    if next_char == '=' {
                        self.consume_char();
                        return Ok(Token::new(TokenType::Op(OpType::GreaterEqual)));
                    }
                }
                Ok(Token::new(TokenType::Op(OpType::Greater)))
            },
            '<' => {
                if let Some(next_char) = self.peek() {
                    if next_char == '=' {
                        self.consume_char();
                        return Ok(Token::new(TokenType::Op(OpType::LessEqual)));
                    }
                }
                Ok(Token::new(TokenType::Op(OpType::Less)))
            },
            '/' => {
                let is_comment = match self.peek() {
                    Some(next_char) => next_char == '/',
                    None => false,
                };
                if is_comment {
                    // Consume the rest of the line as a comment.
                    while self.position < self.line.len()
                        invariant
                            self.line@ == line,
                            self.position <= line.len(),
                            old(self).wf() ==> self.wf(),
                        decreases line.len() - self.position,
                    {
                        self.consume_char();
                    }
                    return Ok(Token::new(TokenType::Op(OpType::SlashSlash)));
                }
                Ok(Token::new(TokenType::Op(OpType::Slash)))
            },
            _ => Err(LexError::UnknownOperator(self.curr_char)),
        }
    }

    /// Scan one number token at the cursor.
    pub fn lex_num(&mut self) -> (r: Result<Token, LexError>)
        requires
            old(self).wf(),
        ensures
            final(self).wf(),
            final(self).line_view() == old(self).line_view(),
            (lex_res_view(r), final(self).pos_view()) == spec_lex_num(
                old(self).line_view(),
                old(self).pos_view(),
            ),
    {
        let ghost line = self.line@;
        let ghost p0 = self.position as int;
        let mut digits: String = String::new();
        proof {
            assert(digits@ =~= line.subrange(p0, p0));
        }
        loop
            invariant
                self.wf(),
                self.line@ == line,
                line == old(self).line@,
                p0 == old(self).position as int,
                p0 <= self.position as int <= line.len(),
                num_run_end(line, p0) == num_run_end(line, self.position as int),
                digits@ == line.subrange(p0, self.position as int),
            ensures
                self.wf(),
                self.line@ == line,
                self.position as int == num_run_end(line, p0),
                digits@ == line.subrange(p0, self.position as int),
            decreases line.len() - self.position,
        {
            let ghost pp = self.position as int;
            let pk = self.peek();
            match pk {
                Some(c) => {
                    if char_is_numeric(c) || c == '.' {
                        push_char(&mut digits, c);
                        self.consume_char();
                        proof {
                            assert(num_run_end(line, pp) == num_run_end(line, pp + 1));
                            assert(digits@ =~= line.subrange(p0, self.position as int));
                        }
                    } else {
                        proof {
                            assert(num_run_end(line, pp) == pp);
                        }
                        break;
                    }
                },
                None => {
                    proof {
                        assert(num_run_end(line, pp) == pp);
                    }
                    break;
                },
            }
        }
        Ok(Token::new(TokenType::Lit(LitType::Number(digits))))
    }

    /// Scan one string token whose opening quote stands at the cursor.
    pub fn lex_str(&mut self) -> (r: Result<Token, LexError>)
        requires
            old(self).wf(),
            old(self).pos_view() < old(self).line_view().len(),
            old(self).line_view()[old(self).pos_view()] == '"',
        ensures
            final(self).wf(),
            final(self).line_view() == old(self).line_view(),
            (lex_res_view(r), final(self).pos_view()) == spec_lex_str(
                old(self).line_view(),
                old(self).pos_view(),
            ),
    {
        let ghost line = self.line@;
        let ghost p0 = self.position as int;
        let mut string_val = String::new();
        // Consume the quote character.
        self.consume_char();
        proof {
            assert(string_val@ =~= line.subrange(p0 + 1, p0 + 1));
        }
        loop
            invariant
                self.wf(),
                self.line@ == line,
                line == old(self).line@,
                p0 == old(self).position as int,
                p0 + 1 <= self.position as int <= line.len(),
                str_run_end(line, p0 + 1) == str_run_end(line, self.position as int),
                string_val@ == line.subrange(p0 + 1, self.position as int),
            ensures
                self.wf(),
                self.line@ == line,
                self.position as int == str_run_end(line, p0 + 1),
                string_val@ == line.subrange(p0 + 1, self.position as int),
            decreases line.len() - self.position,
        {
            let ghost pp = self.position as int;
            let pk = self.peek();
            match pk {
                Some(c) => {
                    if c == '"' {
                        proof {
                            assert(str_run_end(line, pp) == pp);
                        }
                        break;
                    }
                    push_char(&mut string_val, c);
                    self.consume_char();
                    proof {
                        assert(str_run_end(line, pp) == str_run_end(line, pp + 1));
                        assert(string_val@ =~= line.subrange(p0 + 1, self.position as int));
                    }
                },
                None => {
                    proof {
                        assert(str_run_end(line, pp) == pp);
                    }
                    break;
                },
            }
        }
        if self.peek().is_none() {
            return Err(LexError::UnclosedQuotation);
        }
        // Consume the second quote character.
        self.consume_char();
        Ok(Token::new(TokenType::Lit(LitType::String(string_val))))
    }

    /// Scan one identifier or keyword token at the cursor.
    pub fn lex_identifier_or_kword(&mut self) -> (r: Result<Token, LexError>)
        requires
            old(self).wf(),
        ensures
            final(self).wf(),
            final(self).line_view() == old(self).line_view(),
            (lex_res_view(r), final(self).pos_view()) == spec_lex_ident(
                old(self).line_view(),
                old(self).pos_view(),
                Seq::empty(),
            ),
    {
        let ghost line = self.line@;
        let ghost p0 = self.position as int;
        let mut identifier: String = String::new();
        loop
            invariant
                self.wf(),
                self.line@ == line,
                line == old(self).line@,
                p0 == old(self).position as int,
                p0 <= self.position as int <= line.len(),
                spec_lex_ident(line, p0, Seq::empty()) == spec_lex_ident(
                    line,
                    self.position as int,
                    identifier@,
                ),
            ensures
                self.wf(),
                self.line@ == line,
                spec_lex_ident(line, p0, Seq::empty()) == (
                    Ok::<TokenView, LexErrView>(ident_token(identifier@)),
                    self.position as int,
                ),
            decreases line.len() - self.position,
        {
            let ghost pp = self.position as int;
            let ghost aa = identifier@;
            let pk = self.peek();
            match pk {
                Some(c) => {
                    if char_is_alphanumeric(c) {
                        push_char(&mut identifier, c);
                        self.consume_char();
                        proof {
                            assert(spec_lex_ident(line, pp, aa) == spec_lex_ident(
                                line,
                                pp + 1,
                                aa.push(c),
                            ));
                        }
                    } else if !char_is_whitespace(c) && !self.is_op_char() {
                        let illegal_ch = c;
                        push_char(&mut identifier, illegal_ch);
                        self.consume_char();
                        proof {
                            assert(spec_lex_ident(line, pp, aa) == (
                                Err::<TokenView, LexErrView>(
                                    LexErrView::InvalidIdentChar(aa.push(illegal_ch), illegal_ch),
                                ),
                                pp + 1,
                            ));
                        }
                        return Err(LexError::InvalidIdentChar { ident: identifier, ch: illegal_ch });
                    } else {
                        proof {
                            assert(spec_lex_ident(line, pp, aa) == (
                                Ok::<TokenView, LexErrView>(ident_token(aa)),
                                pp,
                            ));
                        }
                        break;
                    }
                },
                None => {
                    proof {
                        assert(spec_lex_ident(line, pp, aa) == (
                            Ok::<TokenView, LexErrView>(ident_token(aa)),
                            pp,
                        ));
                    }
                    break;
                },
            }
        }
        let maybe_kword_type = self.str_to_keyword_type(identifier.as_str());
        match maybe_kword_type {
            Some(kword_type) => Ok(Token::new(TokenType::Kword(kword_type))),
            None => Ok(Token::new(TokenType::Lit(LitType::Identifier(identifier)))),
        }
    }

    fn str_to_keyword_type(&self, maybe_kword: &str) -> (r: Option<KwordType>)
        ensures
            r == kword_of(maybe_kword@),
    {
        let s = maybe_kword.to_owned();
        if s == "and".to_owned() {
            Some(KwordType::And)
        } else if s == "class".to_owned() {
            Some(KwordType::Class)
        } else if s == "else".to_owned() {
            Some(KwordType::Else)
        } else if s == "false".to_owned() {
            Some(KwordType::False)
        } else if s == "fun".to_owned() {
            Some(KwordType::Fun)
        } else if s == "for".to_owned() {
            Some(KwordType::For)
        } else if s == "if".to_owned() {
            Some(KwordType::If)
        } else if s == "nil".to_owned() {
            Some(KwordType::Nil)
        } else if s == "or".to_owned() {
            Some(KwordType::Or)
        } else if s == "print".to_owned() {
            Some(KwordType::Print)
        } else if s == "return".to_owned() {
            Some(KwordType::Return)
        } else if s == "super".to_owned() {
            Some(KwordType::Super)
        } else if s == "this".to_owned() {
            Some(KwordType::This)
        } else if s == "true".to_owned() {
            Some(KwordType::True)
        } else if s == "var".to_owned() {
            Some(KwordType::Var)
        } else if s == "while".to_owned() {
            Some(KwordType::While)
        } else {
            None
        }
    }

    fn lex_token(&mut self) -> (r: Result<Token, LexError>)
        requires
            old(self).wf(),
        ensures
            final(self).wf(),
            final(self).line@ == old(self).line@,
            (lex_res_view(r), final(self).position as int) == spec_lex_token(
                old(self).line@,
                old(self).position as int,
            ),
    {
        let ghost line = self.line@;
        let ghost p0 = self.position as int;
        loop
            invariant
                self.wf(),
                self.line@ == line,
                p0 <= self.position as int <= line.len(),
                ws_run_end(line, p0) == ws_run_end(line, self.position as int),
            ensures
                self.wf(),
                self.line@ == line,
                self.position as int == ws_run_end(line, p0),
            decreases line.len() - self.position,
        {
            let pk = self.peek();
            match pk {
                Some(c) => {
                    if char_is_whitespace(c) {
                        self.consume_char();
                    } else {
                        break;
                    }
                },
                None => {
                    break;
                },
            }
        }
        if self.is_op_char() {
            // Parse an operator
            self.lex_op()
        } else if self.is_num_char() {
            // Parse a number
            self.lex_num()
        } else {
            let is_quote = match self.peek() {
                Some(c) => c == '"',
                None => false,
            };
            if is_quote {
                // Parse a string
                self.lex_str()
            } else {
                // Parse an identifier
                self.lex_identifier_or_kword()
            }
        }
    }

    /// Scan the whole line: every token and every recoverable error in
    /// order, comments dropped, closed by the end-of-input marker.
    pub fn lex_tokens(&mut self) -> (tokens: Vec<Result<Token, LexError>>)
        requires
            old(self).wf(),
        ensures
            final(self).wf(),
            final(self).line_view() == old(self).line_view(),
            lex_results_view(tokens@) == spec_lex_output(
                old(self).line_view(),
                old(self).pos_view(),
            ),
    {
        let ghost line = self.line@;
        let ghost p0 = self.position as int;
        let mut tokens: Vec<Result<Token, LexError>> = Vec::new();
        let src_size = self.line.len();
        while self.position < src_size
            invariant
                self.wf(),
                self.line@ == line,
                src_size == line.len(),
                0 <= p0 <= self.position as int,
                spec_lex_line(line, p0) == lex_results_view(tokens@) + spec_lex_line(
                    line,
                    self.position as int,
                ),
            decreases line.len() - self.position,
        {
            let ghost pos_here = self.position as int;
            let ghost toks_before = tokens@;
            let token = self.lex_token();

            proof {
                lemma_lex_token_advances(line, pos_here);
            }

            // Ignore comments
            let is_comment = match &token {
                Ok(t) => t.token_type == TokenType::Op(OpType::SlashSlash),
                Err(_) => false,
            };
            if is_comment {
                continue;
            }

            tokens.push(token);
            proof {
                lemma_results_view_push(toks_before, token);
                assert(lex_results_view(toks_before) + (seq![lex_res_view(token)]
                    + spec_lex_line(line, self.position as int)) =~= lex_results_view(tokens@)
                    + spec_lex_line(line, self.position as int));
            }
        }
        let ghost toks_before = tokens@;
        let eof = Ok(Token::new(TokenType::Eof));
        tokens.push(eof);
        proof {
            lemma_results_view_push(toks_before, eof);
            assert(lex_results_view(tokens@) =~= spec_lex_output(line, p0));
        }
        tokens
    }
}

/// LAW (end-of-input marker): from any starting position, the scan of a line
/// ends with exactly one end-of-input token, and no other element of the
/// sequence is one.
pub proof fn lemma_single_end_marker(line: Seq<char>, pos: int)
    requires
        0 <= pos,
    ensures
        spec_lex_output(line, pos).len() >= 1,
        spec_lex_output(line, pos).last() == Ok::<TokenView, LexErrView>(TokenView::Eof),
        forall|i: int|
            0 <= i < spec_lex_output(line, pos).len() - 1 ==> spec_lex_output(line, pos)[i] != Ok::<
                TokenView,
                LexErrView,
            >(TokenView::Eof),
{
    lemma_lex_line_no_eof(line, pos);
}

proof fn lemma_lex_ident_no_eof(line: Seq<char>, p: int, acc: Seq<char>)
    requires
        0 <= p <= line.len(),
    ensures
        spec_lex_ident(line, p, acc).0 != Ok::<TokenView, LexErrView>(TokenView::Eof),
    decreases line.len() - p,
{
    if p < line.len() && is_alphanumeric_char(line[p]) {
        lemma_lex_ident_no_eof(line, p + 1, acc.push(line[p]));
    }
}

proof fn lemma_lex_token_no_eof(line: Seq<char>, pos: int)
    requires
        0 <= pos <= line.len(),
    ensures
        spec_lex_token(line, pos).0 != Ok::<TokenView, LexErrView>(TokenView::Eof),
{
    lemma_ws_run_end(line, pos);
    let p = ws_run_end(line, pos);
    if p < line.len() && is_op_start(line[p]) {
        // every operator branch yields an operator token or an error
    } else if p < line.len() && is_numeric_char(line[p]) {
    } else if p < line.len() && line[p] == '"' {
    } else {
        lemma_lex_ident_no_eof(line, p, Seq::empty());
    }
}

proof fn lemma_lex_line_no_eof(line: Seq<char>, pos: int)
    requires
        0 <= pos,
    ensures
        forall|i: int|
            0 <= i < spec_lex_line(line, pos).len() ==> spec_lex_line(line, pos)[i] != Ok::<
                TokenView,
                LexErrView,
            >(TokenView::Eof),
    decreases line.len() - pos,
{
    if pos < line.len() {
        lemma_lex_token_advances(line, pos);
        lemma_lex_token_no_eof(line, pos);
        let r = spec_lex_token(line, pos).0;
        let p2 = spec_lex_token(line, pos).1;
        lemma_lex_line_no_eof(line, p2);
        if r != Ok::<TokenView, LexErrView>(TokenView::Op(OpType::SlashSlash)) {
            assert forall|i: int| 0 <= i < spec_lex_line(line, pos).len() implies spec_lex_line(
                line,
                pos,
            )[i] != Ok::<TokenView, LexErrView>(TokenView::Eof) by {
                if i > 0 {
                    assert(spec_lex_line(line, pos)[i] == spec_lex_line(line, p2)[i - 1]);
                }
            }
        }
    }
}

/// LAW (maximal munch): wherever one of `!`, `=`, `>`, `<` is followed
/// directly by `=`, the scanner emits the combined two-character operator
/// and steps past both characters, never the two single-character forms.
pub proof fn lemma_maximal_munch(line: Seq<char>, p: int)
    requires
        0 <= p,
        p + 1 < line.len(),
        line[p + 1] == '=',
    ensures
        line[p] == '!' ==> spec_lex_op(line, p) == (
            Ok::<TokenView, LexErrView>(TokenView::Op(OpType::BangEqual)),
            p + 2,
        ),
        line[p] == '=' ==> spec_lex_op(line, p) == (
            Ok::<TokenView, LexErrView>(TokenView::Op(OpType::EqualEqual)),
            p + 2,
        ),
        line[p] == '>' ==> spec_lex_op(line, p) == (
            Ok::<TokenView, LexErrView>(TokenView::Op(OpType::GreaterEqual)),
            p + 2,
        ),
        line[p] == '<' ==> spec_lex_op(line, p) == (
            Ok::<TokenView, LexErrView>(TokenView::Op(OpType::LessEqual)),
            p + 2,
        ),
{
}

} // verus!
