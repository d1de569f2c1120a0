//! The lexer: one left-to-right scan over the characters of the source text.
use vstd::prelude::*;

use crate::text::{
    alphabetic, digits_value, int_text, is_alphabetic, is_alphanumeric, is_ascii_digit,
    is_numeric, is_whitespace, nat_text, numeric, parse_digits, push_char, push_count, push_int,
    push_quoted, push_text, quoted, whitespace,
};

verus! {

#[derive(Debug, PartialEq, Clone)]
pub enum TokenType {
    // Simple
    Plus,
    Minus,
    Star,
    Slash,
    Bang,
    OpenParen,
    CloseParen,
    OpenBrace,
    CloseBrace,
    // Complex
    Equal,
    EqualEqual,
    Semicolon,
    SemicolonEqual,
    Identifier(String),
    Integer(i64),
    Bool(bool),
    String(String),
    // Keywords
    Var,
    Print,
    If,
    Previous,
    Loop,
    Break,
    Eof,
    Invalid,
}

/// The mathematical model of a token kind: names and text as character sequences.
pub enum TokView {
    Plus,
    Minus,
    Star,
    Slash,
    Bang,
    OpenParen,
    CloseParen,
    OpenBrace,
    CloseBrace,
    Equal,
    EqualEqual,
    Semicolon,
    SemicolonEqual,
    Identifier(Seq<char>),
    Integer(i64),
    Bool(bool),
    String(Seq<char>),
    Var,
    Print,
    If,
    Previous,
    Loop,
    Break,
    Eof,
    Invalid,
}

impl View for TokenType {
    type V = TokView;

    open spec fn view(&self) -> TokView {
        match self {
            TokenType::Plus => TokView::Plus,
            TokenType::Minus => TokView::Minus,
            TokenType::Star => TokView::Star,
            TokenType::Slash => TokView::Slash,
            TokenType::Bang => TokView::Bang,
            TokenType::OpenParen => TokView::OpenParen,
            TokenType::CloseParen => TokView::CloseParen,
            TokenType::OpenBrace => TokView::OpenBrace,
            TokenType::CloseBrace => TokView::CloseBrace,
            TokenType::Equal => TokView::Equal,
            TokenType::EqualEqual => TokView::EqualEqual,
            TokenType::Semicolon => TokView::Semicolon,
            TokenType::SemicolonEqual => TokView::SemicolonEqual,
            TokenType::Identifier(n) => TokView::Identifier(n@),
            TokenType::Integer(v) => TokView::Integer(*v),
            TokenType::Bool(b) => TokView::Bool(*b),
            TokenType::String(t) => TokView::String(t@),
            TokenType::Var => TokView::Var,
            TokenType::Print => TokView::Print,
            TokenType::If => TokView::If,
            TokenType::Previous => TokView::Previous,
            TokenType::Loop => TokView::Loop,
            TokenType::Break => TokView::Break,
            TokenType::Eof => TokView::Eof,
            TokenType::Invalid => TokView::Invalid,
        }
    }
}

impl TokenType {
    /// A copy of the token kind, with the same model.
    pub fn duplicate(&self) -> (r: TokenType)
        ensures
            r@ == self@,
    {
        match self {
            TokenType::Plus => TokenType::Plus,
            TokenType::Minus => TokenType::Minus,
            TokenType::Star => TokenType::Star,
            TokenType::Slash => TokenType::Slash,
            TokenType::Bang => TokenType::Bang,
            TokenType::OpenParen => TokenType::OpenParen,
            TokenType::CloseParen => TokenType::CloseParen,
            TokenType::OpenBrace => TokenType::OpenBrace,
            TokenType::CloseBrace => TokenType::CloseBrace,
            TokenType::Equal => TokenType::Equal,
            TokenType::EqualEqual => TokenType::EqualEqual,
            TokenType::Semicolon => TokenType::Semicolon,
            TokenType::SemicolonEqual => TokenType::SemicolonEqual,
            TokenType::Identifier(n) => TokenType::Identifier(n.clone()),
            TokenType::Integer(v) => TokenType::Integer(*v),
            TokenType::Bool(b) => TokenType::Bool(*b),
            TokenType::String(t) => TokenType::String(t.clone()),
            TokenType::Var => TokenType::Var,
            TokenType::Print => TokenType::Print,
            TokenType::If => TokenType::If,
            TokenType::Previous => TokenType::Previous,
            TokenType::Loop => TokenType::Loop,
            TokenType::Break => TokenType::Break,
            TokenType::Eof => TokenType::Eof,
            TokenType::Invalid => TokenType::Invalid,
        }
    }
}

#[derive(Clone, Debug)]
pub struct Token {
    pub token_type: TokenType,
    pub index: usize,
}

pub struct Lexer {
    pub code: String,
    token_index: usize,
    chr_index: usize,
}

#[derive(Debug, PartialEq, Eq, Structural, Clone, Copy)]
pub enum LexerError {
    /// Whitespace: skipped by `tokenize`, never returned from it.
    InsignificantToken,
    /// A digit run followed at once by a letter or `_`, or one that is no
    /// decimal `i64`; it carries the number of tokens read before it.
    InvalidNumber(usize),
}

/// The message of a lexer error.
pub open spec fn lexer_message(e: LexerError) -> Seq<char> {
    match e {
        LexerError::InsignificantToken => "Error: InsignificantToken"@,
        LexerError::InvalidNumber(at) => "Error: InvalidNumber. At: "@ + nat_text(at as nat),
    }
}

impl LexerError {
    /// The error as a sentence for the user, with where it stopped the scan.
    pub fn to_message(&self) -> (r: String)
        ensures
            r@ == lexer_message(*self),
    {
        let mut out = String::new();
        match self {
            LexerError::InsignificantToken => push_text(&mut out, "Error: InsignificantToken"),
            LexerError::InvalidNumber(at) => {
                push_text(&mut out, "Error: InvalidNumber. At: ");
                push_count(&mut out, *at);
            },
        }
        out
    }
}

// ---------------------------------------------------------------------------
// The model of the scan.
/// The kind of a one-character punctuation token.
pub open spec fn punct_kind(c: char) -> Option<TokView> {
    if c == '+' {
        Some(TokView::Plus)
    } else if c == '-' {
        Some(TokView::Minus)
    } else if c == '*' {
        Some(TokView::Star)
    } else if c == '/' {
        Some(TokView::Slash)
    } else if c == '!' {
        Some(TokView::Bang)
    } else if c == '(' {
        Some(TokView::OpenParen)
    } else if c == ')' {
        Some(TokView::CloseParen)
    } else if c == '{' {
        Some(TokView::OpenBrace)
    } else if c == '}' {
        Some(TokView::CloseBrace)
    } else {
        None
    }
}

pub open spec fn is_blank(c: char) -> bool {
    c == ' ' || c == '\n' || c == '\t'
}

pub open spec fn is_ascii_letter(c: char) -> bool {
    ('a' <= c && c <= 'z') || ('A' <= c && c <= 'Z')
}

pub open spec fn is_word_char(c: char) -> bool {
    alphabetic(c) || numeric(c) || c == '_'
}

/// The first index from `i` on that holds a `"`, or the length.
pub open spec fn quote_end(s: Seq<char>, i: int) -> int
    decreases s.len() - i,
{
    if i >= s.len() || i < 0 {
        s.len() as int
    } else if s[i] == '"' {
        i
    } else {
        quote_end(s, i + 1)
    }
}

/// The first index from `i` on that holds no word character, or the length.
pub open spec fn word_end(s: Seq<char>, i: int) -> int
    decreases s.len() - i,
{
    if i >= s.len() || i < 0 {
        s.len() as int
    } else if !is_word_char(s[i]) {
        i
    } else {
        word_end(s, i + 1)
    }
}

/// Where a digit run that goes on at `i` stops: `None` where a letter or `_`
/// comes before the first character that is not numeric.
pub open spec fn number_end(s: Seq<char>, i: int) -> Option<int>
    decreases s.len() - i,
{
    if i >= s.len() || i < 0 {
        Some(s.len() as int)
    } else if alphabetic(s[i]) || s[i] == '_' {
        None
    } else if !numeric(s[i]) {
        Some(i)
    } else {
        number_end(s, i + 1)
    }
}

/// The first index from `i` on that holds an alphanumeric or white space
/// character, or the length.
pub open spec fn operator_end(s: Seq<char>, i: int) -> int
    decreases s.len() - i,
{
    if i >= s.len() || i < 0 {
        s.len() as int
    } else if alphabetic(s[i]) || numeric(s[i]) || whitespace(s[i]) {
        i
    } else {
        operator_end(s, i + 1)
    }
}

/// A word is a keyword, a boolean literal, or an identifier.
pub open spec fn keyword(w: Seq<char>) -> TokView {
    if w == seq!['i', 'f'] {
        TokView::If
    } else if w == seq!['p', 'r', 'i', 'n', 't'] {
        TokView::Print
    } else if w == seq!['p', 'r', 'e', 'v'] {
        TokView::Previous
    } else if w == seq!['l', 'o', 'o', 'p'] {
        TokView::Loop
    } else if w == seq!['b', 'r', 'e', 'a', 'k'] {
        TokView::Break
    } else if w == seq!['v', 'a', 'r'] {
        TokView::Var
    } else if w == seq!['t', 'r', 'u', 'e'] {
        TokView::Bool(true)
    } else if w == seq!['f', 'a', 'l', 's', 'e'] {
        TokView::Bool(false)
    } else {
        TokView::Identifier(w)
    }
}

/// A run that starts with `=` or `;`.
pub open spec fn operator_kind(w: Seq<char>) -> TokView {
    if w == seq!['='] {
        TokView::Equal
    } else if w == seq!['=', '='] {
        TokView::EqualEqual
    } else if w == seq![';'] {
        TokView::Semicolon
    } else if w == seq![';', '='] {
        TokView::SemicolonEqual
    } else {
        TokView::Invalid
    }
}

/// What the scan finds at one position of the text.
pub enum Scan {
    /// White space, one character.
    Blank,
    /// A token and the index just after it.
    Token(TokView, int),
    /// A malformed number.
    BadNumber,
}

/// Whether a run of characters is a decimal numeral that fits an `i64`.
pub open spec fn is_i64_numeral(d: Seq<char>) -> bool {
    &&& forall|i: int| 0 <= i < d.len() ==> is_ascii_digit(#[trigger] d[i])
    &&& digits_value(d) <= i64::MAX
}

/// Where a string literal whose text starts at `p` ends: after its closing
/// quote, or at the end of the text.
pub open spec fn string_end(s: Seq<char>, p: int) -> int {
    let q = quote_end(s, p);
    if q < s.len() {
        q + 1
    } else {
        q
    }
}

/// The scan at index `pos` of `s`, which is inside the text.
pub open spec fn scan_at(s: Seq<char>, pos: int) -> Scan {
    let c = s[pos];
    if is_blank(c) {
        Scan::Blank
    } else if punct_kind(c) is Some {
        Scan::Token(punct_kind(c)->0, pos + 1)
    } else if c == '"' {
        let q = quote_end(s, pos + 1);
        Scan::Token(TokView::String(s.subrange(pos + 1, q)), string_end(s, pos + 1))
    } else if is_ascii_letter(c) {
        let e = word_end(s, pos + 1);
        Scan::Token(keyword(s.subrange(pos, e)), e)
    } else if is_ascii_digit(c) {
        match number_end(s, pos + 1) {
            None => Scan::BadNumber,
            Some(e) => if is_i64_numeral(s.subrange(pos, e)) {
                Scan::Token(TokView::Integer(digits_value(s.subrange(pos, e)) as i64), e)
            } else {
                Scan::BadNumber
            },
        }
    } else if c == '=' || c == ';' {
        let e = operator_end(s, pos + 1);
        Scan::Token(operator_kind(s.subrange(pos, e)), e)
    } else {
        Scan::Token(TokView::Invalid, pos + 1)
    }
}

/// The token kinds of `s` from index `pos` on, where `n` tokens came before.
/// The bound tested after a token always holds (`lemma_scan_advances`).
pub open spec fn lex(s: Seq<char>, pos: int, n: int) -> Result<Seq<TokView>, LexerError>
    decreases s.len() - pos,
{
    if pos >= s.len() || pos < 0 {
        Ok(Seq::empty())
    } else {
        match scan_at(s, pos) {
            Scan::Blank => lex(s, pos + 1, n),
            Scan::BadNumber => Err(LexerError::InvalidNumber(#[verifier::truncate] (n as usize))),
            Scan::Token(t, e) => if pos < e <= s.len() {
                match lex(s, e, n + 1) {
                    Ok(ts) => Ok(seq![t] + ts),
                    Err(err) => Err(err),
                }
            } else {
                Ok(Seq::empty())
            },
        }
    }
}

/// Where a scan from index `p` meets the end of the text.
pub open spec fn scan_end(s: Seq<char>, p: int) -> int {
    if p >= s.len() {
        p
    } else {
        s.len() as int
    }
}

/// The kinds of a sequence of tokens.
pub open spec fn kinds(v: Seq<Token>) -> Seq<TokView> {
    v.map_values(|t: Token| t.token_type@)
}

/// A result of `tokenize`, with each token seen as its kind.
pub open spec fn lexed(r: Result<Vec<Token>, LexerError>) -> Result<Seq<TokView>, LexerError> {
    match r {
        Ok(v) => Ok(kinds(v@)),
        Err(e) => Err(e),
    }
}

/// Tokens are numbered in order from `n` on.
pub open spec fn numbered_from(v: Seq<Token>, n: int) -> bool {
    forall|i: int| 0 <= i < v.len() ==> #[trigger] v[i].index == n + i
}

proof fn lemma_quote_end_bounds(s: Seq<char>, i: int)
    requires
        0 <= i <= s.len(),
    ensures
        i <= quote_end(s, i) <= s.len(),
    decreases s.len() - i,
{
    if i < s.len() && s[i] != '"' {
        lemma_quote_end_bounds(s, i + 1);
    }
}

proof fn lemma_word_end_bounds(s: Seq<char>, i: int)
    requires
        0 <= i <= s.len(),
    ensures
        i <= word_end(s, i) <= s.len(),
    decreases s.len() - i,
{
    if i < s.len() && is_word_char(s[i]) {
        lemma_word_end_bounds(s, i + 1);
    }
}

proof fn lemma_number_end_bounds(s: Seq<char>, i: int)
    requires
        0 <= i <= s.len(),
    ensures
        number_end(s, i) matches Some(e) ==> i <= e <= s.len(),
    decreases s.len() - i,
{
    if i < s.len() && !(alphabetic(s[i]) || s[i] == '_') && numeric(s[i]) {
        lemma_number_end_bounds(s, i + 1);
    }
}

proof fn lemma_operator_end_bounds(s: Seq<char>, i: int)
    requires
        0 <= i <= s.len(),
    ensures
        i <= operator_end(s, i) <= s.len(),
    decreases s.len() - i,
{
    if i < s.len() && !(alphabetic(s[i]) || numeric(s[i]) || whitespace(s[i])) {
        lemma_operator_end_bounds(s, i + 1);
    }
}

/// Every token that the scan finds takes at least one character and ends
/// within the text, so the scan of `lex` always moves on.
pub proof fn lemma_scan_advances(s: Seq<char>, pos: int)
    requires
        0 <= pos < s.len(),
    ensures
        scan_at(s, pos) matches Scan::Token(_, e) ==> pos < e <= s.len(),
{
    lemma_quote_end_bounds(s, pos + 1);
    lemma_word_end_bounds(s, pos + 1);
    lemma_number_end_bounds(s, pos + 1);
    lemma_operator_end_bounds(s, pos + 1);
}

/// The kinds `k` put in front of the result of a later scan.
pub open spec fn prepend(k: Seq<TokView>, r: Result<Seq<TokView>, LexerError>) -> Result<
    Seq<TokView>,
    LexerError,
> {
    match r {
        Ok(ts) => Ok(k + ts),
        Err(e) => Err(e),
    }
}

/// What one step of the scan does: at index `p` of `s`, with `n` tokens read
/// before, it returns `r` and leaves the lexer as `after`. The end of the text
/// gives an `Eof` token numbered `n`; like any other token it moves the cursor
/// one place on and is counted.
pub closed spec fn token_step(
    s: Seq<char>,
    p: int,
    n: usize,
    r: Result<Token, LexerError>,
    after: Lexer,
) -> bool {
    if p >= s.len() {
        &&& r matches Ok(t) && t.token_type@ == TokView::Eof && t.index == n
        &&& after.chr_index == p + 1
        &&& after.token_index == n + 1
    } else {
        match scan_at(s, p) {
            Scan::Blank => {
                &&& r == Err::<Token, LexerError>(LexerError::InsignificantToken)
                &&& after.chr_index == p + 1
                &&& after.token_index == n
            },
            Scan::BadNumber => {
                &&& r == Err::<Token, LexerError>(LexerError::InvalidNumber(n))
                &&& p < after.chr_index <= s.len()
            },
            Scan::Token(k, e) => {
                &&& r matches Ok(t) && t.token_type@ == k && t.index == n
                &&& p < e <= s.len()
                &&& after.chr_index == e
                &&& after.token_index == n + 1
            },
        }
    }
}

/// The `Debug` form of a token kind.
pub open spec fn kind_debug(k: TokView) -> Seq<char> {
    match k {
        TokView::Plus => "Plus"@,
        TokView::Minus => "Minus"@,
        TokView::Star => "Star"@,
        TokView::Slash => "Slash"@,
        TokView::Bang => "Bang"@,
        TokView::OpenParen => "OpenParen"@,
        TokView::CloseParen => "CloseParen"@,
        TokView::OpenBrace => "OpenBrace"@,
        TokView::CloseBrace => "CloseBrace"@,
        TokView::Equal => "Equal"@,
        TokView::EqualEqual => "EqualEqual"@,
        TokView::Semicolon => "Semicolon"@,
        TokView::SemicolonEqual => "SemicolonEqual"@,
        TokView::Identifier(n) => "Identifier("@ + quoted(n) + ")"@,
        TokView::Integer(v) => "Integer("@ + int_text(v as int) + ")"@,
        TokView::Bool(b) => if b {
            "Bool(true)"@
        } else {
            "Bool(false)"@
        },
        TokView::String(t) => "String("@ + quoted(t) + ")"@,
        TokView::Var => "Var"@,
        TokView::Print => "Print"@,
        TokView::If => "If"@,
        TokView::Previous => "Previous"@,
        TokView::Loop => "Loop"@,
        TokView::Break => "Break"@,
        TokView::Eof => "Eof"@,
        TokView::Invalid => "Invalid"@,
    }
}

impl TokenType {
    /// Appends the `Debug` form of the token kind.
    pub fn push_debug(&self, out: &mut String)
        ensures
            final(out)@ == old(out)@ + kind_debug(self@),
    {
        match self {
            TokenType::Plus => push_text(out, "Plus"),
            TokenType::Minus => push_text(out, "Minus"),
            TokenType::Star => push_text(out, "Star"),
            TokenType::Slash => push_text(out, "Slash"),
            TokenType::Bang => push_text(out, "Bang"),
            TokenType::OpenParen => push_text(out, "OpenParen"),
            TokenType::CloseParen => push_text(out, "CloseParen"),
            TokenType::OpenBrace => push_text(out, "OpenBrace"),
            TokenType::CloseBrace => push_text(out, "CloseBrace"),
            TokenType::Equal => push_text(out, "Equal"),
            TokenType::EqualEqual => push_text(out, "EqualEqual"),
            TokenType::Semicolon => push_text(out, "Semicolon"),
            TokenType::SemicolonEqual => push_text(out, "SemicolonEqual"),
            TokenType::Identifier(n) => {
                push_text(out, "Identifier(");
                push_quoted(out, n.as_str());
                push_text(out, ")");
            },
            TokenType::Integer(v) => {
                push_text(out, "Integer(");
                push_int(out, *v);
                push_text(out, ")");
            },
            TokenType::Bool(b) => {
                if *b {
                    push_text(out, "Bool(true)");
                } else {
                    push_text(out, "Bool(false)");
                }
            },
            TokenType::String(t) => {
                push_text(out, "String(");
                push_quoted(out, t.as_str());
                push_text(out, ")");
            },
            TokenType::Var => push_text(out, "Var"),
            TokenType::Print => push_text(out, "Print"),
            TokenType::If => push_text(out, "If"),
            TokenType::Previous => push_text(out, "Previous"),
            TokenType::Loop => push_text(out, "Loop"),
            TokenType::Break => push_text(out, "Break"),
            TokenType::Eof => push_text(out, "Eof"),
            TokenType::Invalid => push_text(out, "Invalid"),
        }
    }
}

// ---------------------------------------------------------------------------
// Executable helpers.
fn same_chars(a: &Vec<char>, b: &[char]) -> (r: bool)
    ensures
        r == (a@ == b@),
{
    if a.len() != b.len() {
        return false;
    }
    let mut i: usize = 0;
    while i < a.len()
        invariant
            a@.len() == b@.len(),
            0 <= i <= a@.len(),
            forall|j: int| 0 <= j < i ==> a@[j] == b@[j],
        decreases a.len() - i,
    {
        if a[i] != b[i] {
            return false;
        }
        i = i + 1;
    }
    assert(a@ == b@);
    true
}

fn keyword_kind(w: &Vec<char>, data: String) -> (r: TokenType)
    requires
        data@ == w@,
    ensures
        r@ == keyword(w@),
{
    if same_chars(w, &['i', 'f']) {
        TokenType::If
    } else if same_chars(w, &['p', 'r', 'i', 'n', 't']) {
        TokenType::Print
    } else if same_chars(w, &['p', 'r', 'e', 'v']) {
        TokenType::Previous
    } else if same_chars(w, &['l', 'o', 'o', 'p']) {
        TokenType::Loop
    } else if same_chars(w, &['b', 'r', 'e', 'a', 'k']) {
        TokenType::Break
    } else if same_chars(w, &['v', 'a', 'r']) {
        TokenType::Var
    } else if same_chars(w, &['t', 'r', 'u', 'e']) {
        TokenType::Bool(true)
    } else if same_chars(w, &['f', 'a', 'l', 's', 'e']) {
        TokenType::Bool(false)
    } else {
        TokenType::Identifier(data)
    }
}

fn operator_type(w: &Vec<char>) -> (r: TokenType)
    ensures
        r@ == operator_kind(w@),
{
    let eq: [char; 1] = ['='];
    let eq_eq: [char; 2] = ['=', '='];
    let semi: [char; 1] = [';'];
    let semi_eq: [char; 2] = [';', '='];
    assert(eq@ == seq!['=']);
    assert(eq_eq@ == seq!['=', '=']);
    assert(semi@ == seq![';']);
    assert(semi_eq@ == seq![';', '=']);
    if same_chars(w, &eq) {
        TokenType::Equal
    } else if same_chars(w, &eq_eq) {
        TokenType::EqualEqual
    } else if same_chars(w, &semi) {
        TokenType::Semicolon
    } else if same_chars(w, &semi_eq) {
        TokenType::SemicolonEqual
    } else {
        TokenType::Invalid
    }
}

fn punct_type(c: char) -> (r: Option<TokenType>)
    ensures
        r is Some == punct_kind(c) is Some,
        r matches Some(t) ==> t@ == punct_kind(c)->0,
{
    match c {
        '+' => Some(TokenType::Plus),
        '-' => Some(TokenType::Minus),
        '*' => Some(TokenType::Star),
        '/' => Some(TokenType::Slash),
        '!' => Some(TokenType::Bang),
        '(' => Some(TokenType::OpenParen),
        ')' => Some(TokenType::CloseParen),
        '{' => Some(TokenType::OpenBrace),
        '}' => Some(TokenType::CloseBrace),
        _ => None,
    }
}

impl Lexer {
    /// The lexer's state is consistent: no more tokens than characters read.
    pub closed spec fn wf(&self) -> bool {
        self.token_index <= self.chr_index
    }

    /// The source text, as characters.
    pub closed spec fn text(&self) -> Seq<char> {
        self.code@
    }

    /// The index of the next character to read.
    pub closed spec fn position(&self) -> int {
        self.chr_index as int
    }

    /// The number of tokens read so far.
    pub closed spec fn count(&self) -> int {
        self.token_index as int
    }

    pub fn new(code: String) -> (r: Self)
        ensures
            r.text() == code@,
            r.position() == 0,
            r.count() == 0,
            r.wf(),
    {
        Self { code, chr_index: 0, token_index: 0 }
    }

    fn next_chr(&self) -> (r: Option<char>)
        ensures
            self.code@.len() <= usize::MAX,
            r == (if self.chr_index < self.code@.len() {
                Some(self.code@[self.chr_index as int])
            } else {
                None
            }),
    {
        let s = self.code.as_str();
        if self.chr_index < s.unicode_len() {
            Some(s.get_char(self.chr_index))
        } else {
            None
        }
    }

    fn consume_chr(&mut self)
        requires
            old(self).chr_index < usize::MAX,
        ensures
            final(self).chr_index == old(self).chr_index + 1,
            final(self).token_index == old(self).token_index,
            final(self).code == old(self).code,
    {
        self.chr_index = self.chr_index + 1;
    }

    /// Reads the text of a string literal, whose opening quote was read; the
    /// closing quote is read too and is not part of the text.
    fn scan_string(&mut self) -> (data: String)
        requires
            old(self).chr_index <= old(self).code@.len(),
        ensures
            data@ == old(self).code@.subrange(
                old(self).chr_index as int,
                quote_end(old(self).code@, old(self).chr_index as int),
            ),
            final(self).chr_index == string_end(old(self).code@, old(self).chr_index as int),
            final(self).token_index == old(self).token_index,
            final(self).code == old(self).code,
            old(self).chr_index <= final(self).chr_index <= final(self).code@.len(),
    {
        let ghost p = self.chr_index as int;
        let mut data = String::new();
        loop
            invariant
                self.code == old(self).code,
                self.token_index == old(self).token_index,
                p == old(self).chr_index,
                p <= self.chr_index <= self.code@.len(),
                quote_end(self.code@, self.chr_index as int) == quote_end(self.code@, p),
                data@ == self.code@.subrange(p, self.chr_index as int),
            decreases self.code@.len() - self.chr_index,
        {
            match self.next_chr() {
                None => {
                    return data;
                },
                Some(c) => {
                    self.consume_chr();
                    if c == '"' {
                        return data;
                    }
                    push_char(&mut data, c);
                    assert(data@ == self.code@.subrange(p, self.chr_index as int));
                },
            }
        }
    }

    /// Reads the rest of a word whose first character, an ASCII letter, was read.
    fn scan_word(&mut self, first: char) -> (r: TokenType)
        requires
            0 < old(self).chr_index <= old(self).code@.len(),
            old(self).code@[old(self).chr_index - 1] == first,
        ensures
            r@ == keyword(
                old(self).code@.subrange(
                    old(self).chr_index - 1,
                    word_end(old(self).code@, old(self).chr_index as int),
                ),
            ),
            final(self).chr_index == word_end(old(self).code@, old(self).chr_index as int),
            final(self).token_index == old(self).token_index,
            final(self).code == old(self).code,
            old(self).chr_index <= final(self).chr_index <= final(self).code@.len(),
    {
        let ghost p = self.chr_index as int;
        let mut data = String::new();
        let mut chars: Vec<char> = Vec::new();
        push_char(&mut data, first);
        chars.push(first);
        assert(chars@ == self.code@.subrange(p - 1, p));
        loop
            invariant
                self.code == old(self).code,
                self.token_index == old(self).token_index,
                p == old(self).chr_index,
                0 < p <= self.chr_index <= self.code@.len(),
                word_end(self.code@, self.chr_index as int) == word_end(self.code@, p),
                chars@ == self.code@.subrange(p - 1, self.chr_index as int),
                data@ == chars@,
            decreases self.code@.len() - self.chr_index,
        {
            match self.next_chr() {
                None => {
                    return keyword_kind(&chars, data);
                },
                Some(c) => {
                    if !is_alphanumeric(c) && c != '_' {
                        return keyword_kind(&chars, data);
                    }
                    self.consume_chr();
                    push_char(&mut data, c);
                    chars.push(c);
                    assert(chars@ == self.code@.subrange(p - 1, self.chr_index as int));
                },
            }
        }
    }

    /// Reads the rest of a number whose first digit was read.
    fn scan_number(&mut self, first: char) -> (r: Option<i64>)
        requires
            0 < old(self).chr_index <= old(self).code@.len(),
            old(self).code@[old(self).chr_index - 1] == first,
        ensures
            final(self).token_index == old(self).token_index,
            final(self).code == old(self).code,
            old(self).chr_index <= final(self).chr_index <= final(self).code@.len(),
            number_end(old(self).code@, old(self).chr_index as int) is None ==> r is None,
            number_end(old(self).code@, old(self).chr_index as int) matches Some(e) ==> {
                let d = old(self).code@.subrange(old(self).chr_index - 1, e);
                &&& r is Some <==> is_i64_numeral(d)
                &&& r matches Some(v) ==> v == digits_value(d)
                &&& final(self).chr_index == e
            },
    {
        let ghost p = self.chr_index as int;
        let mut chars: Vec<char> = Vec::new();
        chars.push(first);
        assert(chars@ == self.code@.subrange(p - 1, p));
        loop
            invariant
                self.code == old(self).code,
                self.token_index == old(self).token_index,
                p == old(self).chr_index,
                0 < p <= self.chr_index <= self.code@.len(),
                number_end(self.code@, self.chr_index as int) == number_end(self.code@, p),
                chars@ == self.code@.subrange(p - 1, self.chr_index as int),
            decreases self.code@.len() - self.chr_index,
        {
            match self.next_chr() {
                None => {
                    return parse_digits(&chars);
                },
                Some(c) => {
                    if is_alphabetic(c) || c == '_' {
                        return None;
                    }
                    if !is_numeric(c) {
                        return parse_digits(&chars);
                    }
                    self.consume_chr();
                    chars.push(c);
                    assert(chars@ == self.code@.subrange(p - 1, self.chr_index as int));
                },
            }
        }
    }

    /// Reads the rest of an operator run whose first character, `=` or `;`, was read.
    fn scan_operator(&mut self, first: char) -> (r: TokenType)
        requires
            0 < old(self).chr_index <= old(self).code@.len(),
            old(self).code@[old(self).chr_index - 1] == first,
        ensures
            r@ == operator_kind(
                old(self).code@.subrange(
                    old(self).chr_index - 1,
                    operator_end(old(self).code@, old(self).chr_index as int),
                ),
            ),
            final(self).chr_index == operator_end(old(self).code@, old(self).chr_index as int),
            final(self).token_index == old(self).token_index,
            final(self).code == old(self).code,
            old(self).chr_index <= final(self).chr_index <= final(self).code@.len(),
    {
        let ghost p = self.chr_index as int;
        let mut chars: Vec<char> = Vec::new();
        chars.push(first);
        assert(chars@ == self.code@.subrange(p - 1, p));
        loop
            invariant
                self.code == old(self).code,
                self.token_index == old(self).token_index,
                p == old(self).chr_index,
                0 < p <= self.chr_index <= self.code@.len(),
                operator_end(self.code@, self.chr_index as int) == operator_end(self.code@, p),
                chars@ == self.code@.subrange(p - 1, self.chr_index as int),
            decreases self.code@.len() - self.chr_index,
        {
            match self.next_chr() {
                None => {
                    return operator_type(&chars);
                },
                Some(c) => {
                    if is_alphanumeric(c) || is_whitespace(c) {
                        return operator_type(&chars);
                    }
                    self.consume_chr();
                    chars.push(c);
                    assert(chars@ == self.code@.subrange(p - 1, self.chr_index as int));
                },
            }
        }
    }

    /// Reads one token, or one character of white space.
    fn parse_token(&mut self) -> (r: Result<Token, LexerError>)
        requires
            old(self).wf(),
            old(self).chr_index < usize::MAX,
        ensures
            final(self).wf(),
            final(self).code == old(self).code,
            token_step(
                old(self).code@,
                old(self).chr_index as int,
                old(self).token_index,
                r,
                *final(self),
            ),
    {
        let c = match self.next_chr() {
            Some(c) => c,
            None => {
                self.consume_chr();
                let token = Token { token_type: TokenType::Eof, index: self.token_index };
                self.token_index = self.token_index + 1;
                return Ok(token);
            },
        };
        self.consume_chr();
        let token_type = if c == ' ' || c == '\n' || c == '\t' {
            return Err(LexerError::InsignificantToken);
        } else if let Some(t) = punct_type(c) {
            t
        } else if c == '"' {
            TokenType::String(self.scan_string())
        } else if ('a' <= c && c <= 'z') || ('A' <= c && c <= 'Z') {
            self.scan_word(c)
        } else if '0' <= c && c <= '9' {
            match self.scan_number(c) {
                Some(v) => TokenType::Integer(v),
                None => {
                    return Err(LexerError::InvalidNumber(self.token_index));
                },
            }
        } else if c == '=' || c == ';' {
            self.scan_operator(c)
        } else {
            TokenType::Invalid
        };
        let token = Token { token_type, index: self.token_index };
        self.token_index = self.token_index + 1;
        Ok(token)
    }

    /// Reads the rest of the text as tokens; white space is skipped, and a
    /// malformed number stops the scan with an error.
    ///
    /// A text cannot hold `usize::MAX` characters in memory, nor can a scan
    /// have read that many; the scan's end, where it reads `Eof`, is counted
    /// and read past as one more token.
    pub fn tokenize(&mut self) -> (r: Result<Vec<Token>, LexerError>)
        requires
            old(self).wf(),
            old(self).text().len() < usize::MAX,
            old(self).position() < usize::MAX,
        ensures
            final(self).wf(),
            final(self).text() == old(self).text(),
            lexed(r) == lex(old(self).text(), old(self).position(), old(self).count()),
            r matches Ok(v) ==> numbered_from(v@, old(self).count()),
            r matches Ok(v) ==> final(self).position() == scan_end(
                old(self).text(),
                old(self).position(),
            ) + 1 && final(self).count() == old(self).count() + v@.len() + 1,
    {
        let ghost s = self.code@;
        let ghost p0 = self.chr_index as int;
        let ghost n0 = self.token_index as int;
        let mut tokens: Vec<Token> = Vec::new();
        loop
            invariant
                self.wf(),
                self.code == old(self).code,
                s == self.code@,
                p0 == old(self).chr_index,
                n0 == old(self).token_index,
                lex(s, p0, n0) == prepend(
                    kinds(tokens@),
                    lex(s, self.chr_index as int, self.token_index as int),
                ),
                numbered_from(tokens@, n0),
                tokens@.len() == self.token_index - n0,
                s.len() < usize::MAX,
                p0 < usize::MAX,
                p0 <= self.chr_index <= scan_end(s, p0),
            decreases s.len() - self.chr_index,
        {
            let ghost before = kinds(tokens@);
            match self.parse_token() {
                Ok(next_token) => {
                    if let TokenType::Eof = next_token.token_type {
                        assert(before + Seq::<TokView>::empty() == before);
                        return Ok(tokens);
                    }
                    let ghost t = next_token.token_type@;
                    tokens.push(next_token);
                    assert(kinds(tokens@) == before.push(t));
                    proof {
                        let rest = lex(s, self.chr_index as int, self.token_index as int);
                        if let Ok(ts) = rest {
                            assert(before + (seq![t] + ts) == before.push(t) + ts);
                        }
                    }
                },
                Err(e) => {
                    if let LexerError::InsignificantToken = e {
                        continue;
                    }
                    return Err(e);
                },
            }
        }
    }
}

} // verus!
