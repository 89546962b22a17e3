//! Splits Loop source text into tokens.
use vstd::prelude::*;
use crate::exception::SyntaxException;
use crate::text::{str_to_chars, chars_to_string, owned, all_digits};

verus! {

#[derive(Clone, Copy, PartialEq, Eq, Structural, Debug)]
pub enum TokenType {
    Identifier,
    Integer,
    Float,
    String,
    Plus,
    Minus,
    Multiply,
    Divide,
    Modulo,
    Power,
    Assign,
    Equals,
    NotEquals,
    InvertSign,
    RightArrow,
    LeftArrow,
    GreaterThanOrEquals,
    LessThanOrEquals,
    LeftParenthesis,
    RightParenthesis,
    LeftBracket,
    RightBracket,
    LeftBrace,
    RightBrace,
    Comma,
    Dot,
    Range,
    Colon,
    Semicolon,
    And,
    Or,
    True,
    False,
    Null,
    If,
    Else,
    For,
    In,
    To,
    From,
    Function,
    VariableDeclaration,
    ConstantDeclaration,
    Return,
    Import,
    Export,
    As,
    Break,
    Class,
    Extends,
    Public,
    Unknown,
    Eof,
}

pub struct Token {
    pub token: TokenType,
    pub literal: String,
}

/// A token of the given kind and text.
pub fn create_token(token: TokenType, literal: String) -> (r: Token)
    ensures
        r.token == token,
        r.literal == literal,
{
    Token { token, literal }
}

impl Token {
    /// Number of characters of the token's text (capped at `i32::MAX`).
    pub fn literal_len(&self) -> (r: i32)
        ensures
            r as int == if self.literal@.len() <= i32::MAX { self.literal@.len() as int } else { i32::MAX as int },
    {
        let n = str_to_chars(self.literal.as_str()).len();
        if n <= 2147483647usize { n as i32 } else { 2147483647i32 }
    }

    pub fn duplicate(&self) -> (r: Token)
        ensures
            r == *self,
    {
        Token { token: self.token, literal: self.literal.clone() }
    }
}

/// The keyword a word spells, if any.
pub open spec fn keyword(w: Seq<char>) -> Option<TokenType> {
    if w == "fn"@ { Some(TokenType::Function) }
    else if w == "var"@ { Some(TokenType::VariableDeclaration) }
    else if w == "const"@ { Some(TokenType::ConstantDeclaration) }
    else if w == "return"@ { Some(TokenType::Return) }
    else if w == "import"@ { Some(TokenType::Import) }
    else if w == "export"@ { Some(TokenType::Export) }
    else if w == "as"@ { Some(TokenType::As) }
    else if w == "break"@ { Some(TokenType::Break) }
    else if w == "class"@ { Some(TokenType::Class) }
    else if w == "extends"@ { Some(TokenType::Extends) }
    else if w == "pub"@ { Some(TokenType::Public) }
    else if w == "if"@ { Some(TokenType::If) }
    else if w == "else"@ { Some(TokenType::Else) }
    else if w == "for"@ { Some(TokenType::For) }
    else if w == "in"@ { Some(TokenType::In) }
    else if w == "to"@ { Some(TokenType::To) }
    else if w == "from"@ { Some(TokenType::From) }
    else if w == "true"@ { Some(TokenType::True) }
    else if w == "false"@ { Some(TokenType::False) }
    else if w == "null"@ { Some(TokenType::Null) }
    else if w == "and"@ { Some(TokenType::And) }
    else if w == "or"@ { Some(TokenType::Or) }
    else { None }
}

/// The kind of token a word makes: its keyword, or an identifier.
pub fn lookup_word(w: &str) -> (r: TokenType)
    ensures
        r == match keyword(w@) { Some(k) => k, None => TokenType::Identifier },
{
    proof { reveal_strlit("fn"); reveal_strlit("var"); reveal_strlit("const"); reveal_strlit("return");
        reveal_strlit("import"); reveal_strlit("export"); reveal_strlit("as"); reveal_strlit("break");
        reveal_strlit("class"); reveal_strlit("extends"); reveal_strlit("pub"); reveal_strlit("if");
        reveal_strlit("else"); reveal_strlit("for"); reveal_strlit("in"); reveal_strlit("to");
        reveal_strlit("from"); reveal_strlit("true"); reveal_strlit("false"); reveal_strlit("null");
        reveal_strlit("and"); reveal_strlit("or"); }
    let eq = |k: &str| -> (b: bool) ensures b == (w@ == k@) { crate::text::str_eq(w, k) };
    if eq("fn") { TokenType::Function }
    else if eq("var") { TokenType::VariableDeclaration }
    else if eq("const") { TokenType::ConstantDeclaration }
    else if eq("return") { TokenType::Return }
    else if eq("import") { TokenType::Import }
    else if eq("export") { TokenType::Export }
    else if eq("as") { TokenType::As }
    else if eq("break") { TokenType::Break }
    else if eq("class") { TokenType::Class }
    else if eq("extends") { TokenType::Extends }
    else if eq("pub") { TokenType::Public }
    else if eq("if") { TokenType::If }
    else if eq("else") { TokenType::Else }
    else if eq("for") { TokenType::For }
    else if eq("in") { TokenType::In }
    else if eq("to") { TokenType::To }
    else if eq("from") { TokenType::From }
    else if eq("true") { TokenType::True }
    else if eq("false") { TokenType::False }
    else if eq("null") { TokenType::Null }
    else if eq("and") { TokenType::And }
    else if eq("or") { TokenType::Or }
    else { TokenType::Identifier }
}

/// A decimal literal: digits, optionally followed by '.' and more digits.
pub open spec fn is_number_text(s: Seq<char>) -> bool {
    ||| (s.len() > 0 && all_digits(s))
    ||| exists|k: int| 0 < k < s.len() - 1 && s[k] == '.' && all_digits(s.take(k)) && all_digits(s.skip(k + 1))
}

/// The token stream of a piece of source text, with a cursor on the current token.
pub struct Lexer {
    pub tokens: Vec<Token>,
    pub lines: Vec<i32>,
    pub cols: Vec<i32>,
    pub pos: usize,
    pub source_lines: Vec<String>,
    pub current_line: i32,
    pub current_col: i32,
}

impl Lexer {
    /// The stream ends with exactly one end-of-file token, the cursor is on a token, every
    /// token has a position, and number tokens hold decimal literals.
    pub open spec fn wf(&self) -> bool {
        &&& self.tokens@.len() > 0
        &&& self.tokens@.last().token == TokenType::Eof
        &&& forall|i: int| 0 <= i < self.tokens@.len() - 1 ==> (#[trigger] self.tokens@[i]).token != TokenType::Eof
        &&& forall|i: int| 0 <= i < self.tokens@.len() ==>
            ((#[trigger] self.tokens@[i]).token == TokenType::Integer ==> self.tokens@[i].literal@.len() > 0 && all_digits(self.tokens@[i].literal@))
        &&& forall|i: int| 0 <= i < self.tokens@.len() ==>
            ((#[trigger] self.tokens@[i]).token == TokenType::Float ==> is_number_text(self.tokens@[i].literal@))
        &&& self.lines@.len() == self.tokens@.len()
        &&& self.cols@.len() == self.tokens@.len()
        &&& forall|i: int| 0 <= i < self.lines@.len() ==> #[trigger] self.lines@[i] >= 1
        &&& forall|i: int| 0 <= i < self.cols@.len() ==> #[trigger] self.cols@[i] >= 1
        &&& self.pos < self.tokens@.len()
        &&& self.current_line == self.lines@[self.pos as int]
        &&& self.current_col == self.cols@[self.pos as int]
    }

    /// The token under the cursor.
    pub open spec fn cur(&self) -> Token {
        self.tokens@[self.pos as int]
    }

    /// The token after the cursor (the end-of-file token when the cursor is on it).
    pub open spec fn peek(&self) -> Token {
        if self.pos + 1 < self.tokens@.len() { self.tokens@[self.pos + 1] } else { self.tokens@.last() }
    }

    /// The cursor moved forward by at most one token, stopping at the end.
    pub open spec fn advanced(old: &Lexer, new: &Lexer) -> bool {
        &&& new.tokens == old.tokens
        &&& new.lines == old.lines
        &&& new.cols == old.cols
        &&& new.source_lines == old.source_lines
        &&& new.pos == if old.pos + 1 < old.tokens@.len() { old.pos + 1 } else { old.pos as int }
    }

    /// The stream after the cursor moves forward by one token, with the position of that
    /// token; on the last token it stays.
    pub open spec fn stepped(self) -> Lexer {
        if self.pos + 1 < self.tokens@.len() {
            Lexer {
                pos: (self.pos + 1) as usize,
                current_line: self.lines@[self.pos + 1],
                current_col: self.cols@[self.pos + 1],
                ..self
            }
        } else {
            self
        }
    }

    /// Same token stream, cursor possibly further on.
    pub open spec fn same_stream(old: &Lexer, new: &Lexer) -> bool {
        &&& new.tokens == old.tokens
        &&& new.lines == old.lines
        &&& new.cols == old.cols
        &&& new.source_lines == old.source_lines
        &&& old.pos <= new.pos
    }

    pub fn get_current_token(&self) -> (r: &Token)
        requires
            self.wf(),
        ensures
            *r == self.cur(),
    {
        &self.tokens[self.pos]
    }

    pub fn get_peek_token(&self) -> (r: &Token)
        requires
            self.wf(),
        ensures
            *r == self.peek(),
    {
        if self.pos < self.tokens.len() - 1 {
            &self.tokens[self.pos + 1]
        } else {
            &self.tokens[self.tokens.len() - 1]
        }
    }

    /// Moves the cursor to the next token; stays on the end-of-file token.
    pub fn next_token(&mut self)
        requires
            old(self).wf(),
        ensures
            final(self).wf(),
            Lexer::advanced(old(self), final(self)),
            *final(self) == old(self).stepped(),
    {
        if self.pos < self.tokens.len() - 1 {
            self.pos = self.pos + 1;
            self.current_line = self.lines[self.pos];
            self.current_col = self.cols[self.pos];
        }
    }

    /// Moves to the next token when it is of kind `t`, and says whether it did.
    pub fn next_token_is_and_next_token(&mut self, t: TokenType) -> (r: bool)
        requires
            old(self).wf(),
        ensures
            final(self).wf(),
            r == (old(self).peek().token == t),
            r ==> Lexer::advanced(old(self), final(self)),
            !r ==> *final(self) == *old(self),
    {
        if self.get_peek_token().token == t {
            self.next_token();
            true
        } else {
            false
        }
    }

    /// Moves to the next token when it is of kind `t`; otherwise an error that `t` was expected.
    pub fn next_token_is_and_next_token_result(&mut self, t: TokenType) -> (r: Result<(), SyntaxException>)
        requires
            old(self).wf(),
        ensures
            final(self).wf(),
            r is Ok == (old(self).peek().token == t),
            r is Ok ==> Lexer::advanced(old(self), final(self)),
            r is Err ==> *final(self) == *old(self) && r == Err::<(), SyntaxException>(SyntaxException::ExpectedToken(t)),
    {
        if self.next_token_is_and_next_token(t) {
            Ok(())
        } else {
            Err(SyntaxException::ExpectedToken(t))
        }
    }

    /// Says whether the current token is of kind `t`, and moves to the next token.
    pub fn next_token_and_current_is(&mut self, t: TokenType) -> (r: bool)
        requires
            old(self).wf(),
        ensures
            final(self).wf(),
            Lexer::advanced(old(self), final(self)),
            r == (old(self).cur().token == t),
    {
        let r = self.get_current_token().token == t;
        self.next_token();
        r
    }

    /// The text of line `n` of the source (counting from 1); empty when there is no such line.
    pub fn get_line(&self, n: i32) -> (r: String)
        ensures
            (1 <= n && n <= self.source_lines@.len()) ==> r == self.source_lines@[n - 1],
            !(1 <= n && n <= self.source_lines@.len()) ==> r@ == Seq::<char>::empty(),
    {
        if n >= 1 && (n as usize) <= self.source_lines.len() {
            self.source_lines[(n - 1) as usize].clone()
        } else {
            String::new()
        }
    }
}

pub open spec fn is_letter(c: char) -> bool {
    ('a' <= c && c <= 'z') || ('A' <= c && c <= 'Z') || c == '_'
}

fn letter(c: char) -> (r: bool)
    ensures
        r == is_letter(c),
{
    ('a' <= c && c <= 'z') || ('A' <= c && c <= 'Z') || c == '_'
}

fn digit(c: char) -> (r: bool)
    ensures
        r == crate::text::is_digit(c),
{
    '0' <= c && c <= '9'
}

/// The kind of a one-character operator or delimiter.
pub open spec fn single_char_token(c: char) -> TokenType {
    if c == '+' { TokenType::Plus }
    else if c == '-' { TokenType::Minus }
    else if c == '*' { TokenType::Multiply }
    else if c == '/' { TokenType::Divide }
    else if c == '%' { TokenType::Modulo }
    else if c == '^' { TokenType::Power }
    else if c == '=' { TokenType::Assign }
    else if c == '!' { TokenType::InvertSign }
    else if c == '>' { TokenType::RightArrow }
    else if c == '<' { TokenType::LeftArrow }
    else if c == '(' { TokenType::LeftParenthesis }
    else if c == ')' { TokenType::RightParenthesis }
    else if c == '[' { TokenType::LeftBracket }
    else if c == ']' { TokenType::RightBracket }
    else if c == '{' { TokenType::LeftBrace }
    else if c == '}' { TokenType::RightBrace }
    else if c == ',' { TokenType::Comma }
    else if c == '.' { TokenType::Dot }
    else if c == ':' { TokenType::Colon }
    else if c == ';' { TokenType::Semicolon }
    else { TokenType::Unknown }
}

fn single(c: char) -> (r: TokenType)
    ensures
        r == single_char_token(c),
{
    if c == '+' { TokenType::Plus }
    else if c == '-' { TokenType::Minus }
    else if c == '*' { TokenType::Multiply }
    else if c == '/' { TokenType::Divide }
    else if c == '%' { TokenType::Modulo }
    else if c == '^' { TokenType::Power }
    else if c == '=' { TokenType::Assign }
    else if c == '!' { TokenType::InvertSign }
    else if c == '>' { TokenType::RightArrow }
    else if c == '<' { TokenType::LeftArrow }
    else if c == '(' { TokenType::LeftParenthesis }
    else if c == ')' { TokenType::RightParenthesis }
    else if c == '[' { TokenType::LeftBracket }
    else if c == ']' { TokenType::RightBracket }
    else if c == '{' { TokenType::LeftBrace }
    else if c == '}' { TokenType::RightBrace }
    else if c == ',' { TokenType::Comma }
    else if c == '.' { TokenType::Dot }
    else if c == ':' { TokenType::Colon }
    else if c == ';' { TokenType::Semicolon }
    else { TokenType::Unknown }
}

/// The pieces of a text between line breaks (one more than there are line breaks).
pub open spec fn line_pieces(s: Seq<char>) -> Seq<Seq<char>>
    decreases s.len(),
{
    if s.len() == 0 {
        seq![Seq::<char>::empty()]
    } else {
        let p = line_pieces(s.drop_last());
        if s.last() == '\n' {
            p.push(Seq::<char>::empty())
        } else {
            p.update(p.len() - 1, p.last().push(s.last()))
        }
    }
}

proof fn lemma_line_pieces_nonempty(s: Seq<char>)
    ensures
        line_pieces(s).len() >= 1,
    decreases s.len(),
{
    if s.len() > 0 {
        lemma_line_pieces_nonempty(s.drop_last());
    }
}

/// The source split at line breaks.
fn split_lines(src: &[char]) -> (r: Vec<String>)
    ensures
        r@.len() == line_pieces(src@).len(),
        forall|j: int| 0 <= j < r@.len() ==> (#[trigger] r@[j])@ == line_pieces(src@)[j],
{
    let mut out: Vec<String> = Vec::new();
    let mut cur: Vec<char> = Vec::new();
    let mut i: usize = 0;
    while i < src.len()
        invariant
            i <= src@.len(),
            out@.len() + 1 == line_pieces(src@.take(i as int)).len(),
            forall|j: int| 0 <= j < out@.len() ==> (#[trigger] out@[j])@ == line_pieces(src@.take(i as int))[j],
            cur@ == line_pieces(src@.take(i as int)).last(),
        decreases src.len() - i,
    {
        proof {
            let t = src@.take(i + 1);
            assert(t.drop_last() =~= src@.take(i as int));
            assert(t.last() == src@[i as int]);
            lemma_line_pieces_nonempty(src@.take(i as int));
        }
        if src[i] == '\n' {
            out.push(chars_to_string(cur.as_slice()));
            cur = Vec::new();
        } else {
            cur.push(src[i]);
        }
        i = i + 1;
    }
    proof {
        assert(src@.take(src@.len() as int) =~= src@);
    }
    out.push(chars_to_string(cur.as_slice()));
    out
}

/// The kinds of runs of characters that tokens are read from.
pub enum Run {
    /// Letters, digits and underscores.
    Word,
    Digits,
    /// Anything up to a line break.
    Line,
    /// Anything up to a double quote.
    Quoted,
}

/// Whether a run of this kind goes on over `c`.
pub open spec fn run_keeps(run: Run, c: char) -> bool {
    match run {
        Run::Word => is_letter(c) || crate::text::is_digit(c),
        Run::Digits => crate::text::is_digit(c),
        Run::Line => c != '\n',
        Run::Quoted => c != '"',
    }
}

/// The length of the run of this kind at the start of `s`.
pub open spec fn run_len(s: Seq<char>, run: Run) -> nat
    decreases s.len(),
{
    if s.len() > 0 && run_keeps(run, s[0]) {
        1 + run_len(s.skip(1), run)
    } else {
        0
    }
}

/// A run is no longer than the text it starts.
pub proof fn lemma_run_len_bound(s: Seq<char>, run: Run)
    ensures
        run_len(s, run) <= s.len(),
    decreases s.len(),
{
    if s.len() > 0 && run_keeps(run, s[0]) {
        lemma_run_len_bound(s.skip(1), run);
    }
}

/// The kind of a word: its keyword's, or an identifier.
pub open spec fn word_kind(w: Seq<char>) -> TokenType {
    match keyword(w) {
        Some(k) => k,
        None => TokenType::Identifier,
    }
}

/// The kind of a two-character operator, if `c` and `next` make one.
pub open spec fn double_token(c: char, next: char) -> Option<TokenType> {
    if c == '=' && next == '=' {
        Some(TokenType::Equals)
    } else if c == '!' && next == '=' {
        Some(TokenType::NotEquals)
    } else if c == '>' && next == '=' {
        Some(TokenType::GreaterThanOrEquals)
    } else if c == '<' && next == '=' {
        Some(TokenType::LessThanOrEquals)
    } else if c == '.' && next == '.' {
        Some(TokenType::Range)
    } else {
        None
    }
}

/// The tokens of Loop source text, as kinds and texts, up to the end of the text: whitespace
/// and `//` comments are skipped; a word is a keyword or an identifier; digits are an integer,
/// or a float when a '.' and a digit follow; a double quote starts a string that runs to the
/// next one (or to the end); otherwise a two-character operator, or a one-character token.
pub open spec fn tokenize(s: Seq<char>) -> Seq<(TokenType, Seq<char>)>
    decreases s.len(),
{
    if s.len() == 0 {
        Seq::empty()
    } else {
        let c = s[0];
        if c == '\n' || c == ' ' || c == '\t' || c == '\r' {
            tokenize(s.skip(1))
        } else if c == '/' && s.len() > 1 && s[1] == '/' {
            proof { lemma_run_len_bound(s.skip(2), Run::Line); }
            tokenize(s.skip(2 + run_len(s.skip(2), Run::Line) as int))
        } else if is_letter(c) {
            proof { lemma_run_len_bound(s, Run::Word); }
            let n = run_len(s, Run::Word) as int;
            seq![(word_kind(s.take(n)), s.take(n))] + tokenize(s.skip(n))
        } else if crate::text::is_digit(c) {
            proof { lemma_run_len_bound(s, Run::Digits); }
            let d = run_len(s, Run::Digits) as int;
            if d + 1 < s.len() && s[d] == '.' && crate::text::is_digit(s[d + 1]) {
                proof { lemma_run_len_bound(s.skip(d + 1), Run::Digits); }
                let n = d + 1 + run_len(s.skip(d + 1), Run::Digits) as int;
                seq![(TokenType::Float, s.take(n))] + tokenize(s.skip(n))
            } else {
                seq![(TokenType::Integer, s.take(d))] + tokenize(s.skip(d))
            }
        } else if c == '"' {
            proof { lemma_run_len_bound(s.skip(1), Run::Quoted); }
            let k = run_len(s.skip(1), Run::Quoted) as int;
            let used = if k + 1 < s.len() { k + 2 } else { k + 1 };
            seq![(TokenType::String, s.subrange(1, k + 1))] + tokenize(s.skip(used))
        } else {
            let next = if s.len() > 1 { s[1] } else { ' ' };
            match double_token(c, next) {
                Some(kind) => seq![(kind, s.take(2))] + tokenize(s.skip(2)),
                None => seq![(single_char_token(c), seq![c])] + tokenize(s.skip(1)),
            }
        }
    }
}

/// A character that is neither whitespace, a letter, a digit, a double quote nor a slash
/// starts an operator or punctuation token.
pub open spec fn starts_operator(c: char) -> bool {
    !(c == '\n' || c == ' ' || c == '\t' || c == '\r' || c == '/' || c == '"' || is_letter(c)
        || crate::text::is_digit(c))
}

proof fn lemma_tokenize_pair(c: char, d: char, rest: Seq<char>)
    requires
        starts_operator(c),
        double_token(c, d) is Some,
    ensures
        tokenize(seq![c, d] + rest) == seq![(double_token(c, d)->0, seq![c, d])] + tokenize(rest),
{
    let s = seq![c, d] + rest;
    assert(s[0] == c && s[1] == d);
    assert(s.take(2) =~= seq![c, d]);
    assert(s.skip(2) =~= rest);
}

proof fn lemma_tokenize_one(c: char, rest: Seq<char>)
    requires
        starts_operator(c),
        double_token(c, if rest.len() > 0 { rest[0] } else { ' ' }) is None,
    ensures
        tokenize(seq![c] + rest) == seq![(single_char_token(c), seq![c])] + tokenize(rest),
{
    let s = seq![c] + rest;
    assert(s[0] == c);
    if rest.len() > 0 {
        assert(s[1] == rest[0]);
    }
    assert(s.skip(1) =~= rest);
}

/// The two-character operators are read as one token each, whatever follows them:
/// `==` is Equals, `!=` is NotEquals, `>=` is GreaterThanOrEquals, `<=` is
/// LessThanOrEquals and `..` is Range.
pub proof fn law_two_char_operators(rest: Seq<char>)
    ensures
        tokenize(seq!['=', '='] + rest) == seq![(TokenType::Equals, seq!['=', '='])] + tokenize(rest),
        tokenize(seq!['!', '='] + rest) == seq![(TokenType::NotEquals, seq!['!', '='])] + tokenize(rest),
        tokenize(seq!['>', '='] + rest) == seq![(TokenType::GreaterThanOrEquals, seq!['>', '='])]
            + tokenize(rest),
        tokenize(seq!['<', '='] + rest) == seq![(TokenType::LessThanOrEquals, seq!['<', '='])]
            + tokenize(rest),
        tokenize(seq!['.', '.'] + rest) == seq![(TokenType::Range, seq!['.', '.'])] + tokenize(rest),
{
    lemma_tokenize_pair('=', '=', rest);
    lemma_tokenize_pair('!', '=', rest);
    lemma_tokenize_pair('>', '=', rest);
    lemma_tokenize_pair('<', '=', rest);
    lemma_tokenize_pair('.', '.', rest);
}

/// A one-character operator or punctuation mark is a token of its own: `+` Plus, `-` Minus,
/// `*` Multiply, `%` Modulo, `^` Power, `(` `)` `[` `]` `{` `}` the brackets, `,` Comma,
/// `:` Colon and `;` Semicolon whatever follows; `=` Assign, `!` InvertSign, `>` RightArrow
/// and `<` LeftArrow where no `=` follows; `.` Dot where no `.` follows.
pub proof fn law_one_char_tokens(rest: Seq<char>)
    ensures
        tokenize(seq!['+'] + rest) == seq![(TokenType::Plus, seq!['+'])] + tokenize(rest),
        tokenize(seq!['-'] + rest) == seq![(TokenType::Minus, seq!['-'])] + tokenize(rest),
        tokenize(seq!['*'] + rest) == seq![(TokenType::Multiply, seq!['*'])] + tokenize(rest),
        tokenize(seq!['%'] + rest) == seq![(TokenType::Modulo, seq!['%'])] + tokenize(rest),
        tokenize(seq!['^'] + rest) == seq![(TokenType::Power, seq!['^'])] + tokenize(rest),
        tokenize(seq!['('] + rest) == seq![(TokenType::LeftParenthesis, seq!['('])] + tokenize(rest),
        tokenize(seq![')'] + rest) == seq![(TokenType::RightParenthesis, seq![')'])] + tokenize(rest),
        tokenize(seq!['['] + rest) == seq![(TokenType::LeftBracket, seq!['['])] + tokenize(rest),
        tokenize(seq![']'] + rest) == seq![(TokenType::RightBracket, seq![']'])] + tokenize(rest),
        tokenize(seq!['{'] + rest) == seq![(TokenType::LeftBrace, seq!['{'])] + tokenize(rest),
        tokenize(seq!['}'] + rest) == seq![(TokenType::RightBrace, seq!['}'])] + tokenize(rest),
        tokenize(seq![','] + rest) == seq![(TokenType::Comma, seq![','])] + tokenize(rest),
        tokenize(seq![':'] + rest) == seq![(TokenType::Colon, seq![':'])] + tokenize(rest),
        tokenize(seq![';'] + rest) == seq![(TokenType::Semicolon, seq![';'])] + tokenize(rest),
        rest.len() == 0 || rest[0] != '=' ==> {
            &&& tokenize(seq!['='] + rest) == seq![(TokenType::Assign, seq!['='])] + tokenize(rest)
            &&& tokenize(seq!['!'] + rest) == seq![(TokenType::InvertSign, seq!['!'])] + tokenize(rest)
            &&& tokenize(seq!['>'] + rest) == seq![(TokenType::RightArrow, seq!['>'])] + tokenize(rest)
            &&& tokenize(seq!['<'] + rest) == seq![(TokenType::LeftArrow, seq!['<'])] + tokenize(rest)
        },
        rest.len() == 0 || rest[0] != '.' ==> tokenize(seq!['.'] + rest) == seq![(TokenType::Dot, seq!['.'])]
            + tokenize(rest),
{
    lemma_tokenize_one('+', rest);
    lemma_tokenize_one('-', rest);
    lemma_tokenize_one('*', rest);
    lemma_tokenize_one('%', rest);
    lemma_tokenize_one('^', rest);
    lemma_tokenize_one('(', rest);
    lemma_tokenize_one(')', rest);
    lemma_tokenize_one('[', rest);
    lemma_tokenize_one(']', rest);
    lemma_tokenize_one('{', rest);
    lemma_tokenize_one('}', rest);
    lemma_tokenize_one(',', rest);
    lemma_tokenize_one(':', rest);
    lemma_tokenize_one(';', rest);
    if rest.len() == 0 || rest[0] != '=' {
        lemma_tokenize_one('=', rest);
        lemma_tokenize_one('!', rest);
        lemma_tokenize_one('>', rest);
        lemma_tokenize_one('<', rest);
    }
    if rest.len() == 0 || rest[0] != '.' {
        lemma_tokenize_one('.', rest);
    }
}

proof fn lemma_run_len_word(w: Seq<char>, rest: Seq<char>)
    requires
        forall|i: int| 0 <= i < w.len() ==> run_keeps(Run::Word, #[trigger] w[i]),
        rest.len() == 0 || !run_keeps(Run::Word, rest[0]),
    ensures
        run_len(w + rest, Run::Word) == w.len(),
    decreases w.len(),
{
    if w.len() > 0 {
        assert((w + rest)[0] == w[0]);
        assert((w + rest).skip(1) =~= w.skip(1) + rest);
        lemma_run_len_word(w.skip(1), rest);
    } else {
        assert(w + rest =~= rest);
    }
}

proof fn lemma_tokenize_word(w: Seq<char>, rest: Seq<char>)
    requires
        w.len() > 0,
        forall|i: int| 0 <= i < w.len() ==> is_letter(#[trigger] w[i]),
        rest.len() == 0 || !run_keeps(Run::Word, rest[0]),
    ensures
        tokenize(w + rest) == seq![(word_kind(w), w)] + tokenize(rest),
{
    lemma_run_len_word(w, rest);
    let s = w + rest;
    assert(s[0] == w[0]);
    assert(s.take(w.len() as int) =~= w);
    assert(s.skip(w.len() as int) =~= rest);
}

/// A keyword standing alone (not followed by a letter, digit or underscore) is read as its
/// keyword token: `fn`, `var`, `const`, `return`, `import`, `export`, `as`, `break`, `class`,
/// `extends`, `pub`, `if`, `else`, `for`, `in`, `to`, `from`, `true`, `false`, `null`, `and`
/// and `or`.
pub proof fn law_keyword_tokens(rest: Seq<char>)
    requires
        rest.len() == 0 || !(is_letter(rest[0]) || crate::text::is_digit(rest[0])),
    ensures
        tokenize("fn"@ + rest) == seq![(TokenType::Function, "fn"@)] + tokenize(rest),
        tokenize("var"@ + rest) == seq![(TokenType::VariableDeclaration, "var"@)] + tokenize(rest),
        tokenize("const"@ + rest) == seq![(TokenType::ConstantDeclaration, "const"@)] + tokenize(rest),
        tokenize("return"@ + rest) == seq![(TokenType::Return, "return"@)] + tokenize(rest),
        tokenize("import"@ + rest) == seq![(TokenType::Import, "import"@)] + tokenize(rest),
        tokenize("export"@ + rest) == seq![(TokenType::Export, "export"@)] + tokenize(rest),
        tokenize("as"@ + rest) == seq![(TokenType::As, "as"@)] + tokenize(rest),
        tokenize("break"@ + rest) == seq![(TokenType::Break, "break"@)] + tokenize(rest),
        tokenize("class"@ + rest) == seq![(TokenType::Class, "class"@)] + tokenize(rest),
        tokenize("extends"@ + rest) == seq![(TokenType::Extends, "extends"@)] + tokenize(rest),
        tokenize("pub"@ + rest) == seq![(TokenType::Public, "pub"@)] + tokenize(rest),
        tokenize("if"@ + rest) == seq![(TokenType::If, "if"@)] + tokenize(rest),
        tokenize("else"@ + rest) == seq![(TokenType::Else, "else"@)] + tokenize(rest),
        tokenize("for"@ + rest) == seq![(TokenType::For, "for"@)] + tokenize(rest),
        tokenize("in"@ + rest) == seq![(TokenType::In, "in"@)] + tokenize(rest),
        tokenize("to"@ + rest) == seq![(TokenType::To, "to"@)] + tokenize(rest),
        tokenize("from"@ + rest) == seq![(TokenType::From, "from"@)] + tokenize(rest),
        tokenize("true"@ + rest) == seq![(TokenType::True, "true"@)] + tokenize(rest),
        tokenize("false"@ + rest) == seq![(TokenType::False, "false"@)] + tokenize(rest),
        tokenize("null"@ + rest) == seq![(TokenType::Null, "null"@)] + tokenize(rest),
        tokenize("and"@ + rest) == seq![(TokenType::And, "and"@)] + tokenize(rest),
        tokenize("or"@ + rest) == seq![(TokenType::Or, "or"@)] + tokenize(rest),
{
    reveal_strlit("fn"); reveal_strlit("var"); reveal_strlit("const"); reveal_strlit("return");
    reveal_strlit("import"); reveal_strlit("export"); reveal_strlit("as"); reveal_strlit("break");
    reveal_strlit("class"); reveal_strlit("extends"); reveal_strlit("pub"); reveal_strlit("if");
    reveal_strlit("else"); reveal_strlit("for"); reveal_strlit("in"); reveal_strlit("to");
    reveal_strlit("from"); reveal_strlit("true"); reveal_strlit("false"); reveal_strlit("null");
    reveal_strlit("and"); reveal_strlit("or");
    assert(keyword("fn"@) == Some(TokenType::Function));
    lemma_tokenize_word("fn"@, rest);
    assert("var"@.len() != "fn"@.len());
    assert(keyword("var"@) == Some(TokenType::VariableDeclaration));
    lemma_tokenize_word("var"@, rest);
    assert("const"@.len() != "fn"@.len());
    assert("const"@.len() != "var"@.len());
    assert(keyword("const"@) == Some(TokenType::ConstantDeclaration));
    lemma_tokenize_word("const"@, rest);
    assert("return"@.len() != "fn"@.len());
    assert("return"@.len() != "var"@.len());
    assert("return"@.len() != "const"@.len());
    assert(keyword("return"@) == Some(TokenType::Return));
    lemma_tokenize_word("return"@, rest);
    assert("import"@.len() != "fn"@.len());
    assert("import"@.len() != "var"@.len());
    assert("import"@.len() != "const"@.len());
    assert("import"@[0] != "return"@[0]);
    assert(keyword("import"@) == Some(TokenType::Import));
    lemma_tokenize_word("import"@, rest);
    assert("export"@.len() != "fn"@.len());
    assert("export"@.len() != "var"@.len());
    assert("export"@.len() != "const"@.len());
    assert("export"@[0] != "return"@[0]);
    assert("export"@[0] != "import"@[0]);
    assert(keyword("export"@) == Some(TokenType::Export));
    lemma_tokenize_word("export"@, rest);
    assert("as"@[0] != "fn"@[0]);
    assert("as"@.len() != "var"@.len());
    assert("as"@.len() != "const"@.len());
    assert("as"@.len() != "return"@.len());
    assert("as"@.len() != "import"@.len());
    assert("as"@.len() != "export"@.len());
    assert(keyword("as"@) == Some(TokenType::As));
    lemma_tokenize_word("as"@, rest);
    assert("break"@.len() != "fn"@.len());
    assert("break"@.len() != "var"@.len());
    assert("break"@[0] != "const"@[0]);
    assert("break"@.len() != "return"@.len());
    assert("break"@.len() != "import"@.len());
    assert("break"@.len() != "export"@.len());
    assert("break"@.len() != "as"@.len());
    assert(keyword("break"@) == Some(TokenType::Break));
    lemma_tokenize_word("break"@, rest);
    assert("class"@.len() != "fn"@.len());
    assert("class"@.len() != "var"@.len());
    assert("class"@[1] != "const"@[1]);
    assert("class"@.len() != "return"@.len());
    assert("class"@.len() != "import"@.len());
    assert("class"@.len() != "export"@.len());
    assert("class"@.len() != "as"@.len());
    assert("class"@[0] != "break"@[0]);
    assert(keyword("class"@) == Some(TokenType::Class));
    lemma_tokenize_word("class"@, rest);
    assert("extends"@.len() != "fn"@.len());
    assert("extends"@.len() != "var"@.len());
    assert("extends"@.len() != "const"@.len());
    assert("extends"@.len() != "return"@.len());
    assert("extends"@.len() != "import"@.len());
    assert("extends"@.len() != "export"@.len());
    assert("extends"@.len() != "as"@.len());
    assert("extends"@.len() != "break"@.len());
    assert("extends"@.len() != "class"@.len());
    assert(keyword("extends"@) == Some(TokenType::Extends));
    lemma_tokenize_word("extends"@, rest);
    assert("pub"@.len() != "fn"@.len());
    assert("pub"@[0] != "var"@[0]);
    assert("pub"@.len() != "const"@.len());
    assert("pub"@.len() != "return"@.len());
    assert("pub"@.len() != "import"@.len());
    assert("pub"@.len() != "export"@.len());
    assert("pub"@.len() != "as"@.len());
    assert("pub"@.len() != "break"@.len());
    assert("pub"@.len() != "class"@.len());
    assert("pub"@.len() != "extends"@.len());
    assert(keyword("pub"@) == Some(TokenType::Public));
    lemma_tokenize_word("pub"@, rest);
    assert("if"@[0] != "fn"@[0]);
    assert("if"@.len() != "var"@.len());
    assert("if"@.len() != "const"@.len());
    assert("if"@.len() != "return"@.len());
    assert("if"@.len() != "import"@.len());
    assert("if"@.len() != "export"@.len());
    assert("if"@[0] != "as"@[0]);
    assert("if"@.len() != "break"@.len());
    assert("if"@.len() != "class"@.len());
    assert("if"@.len() != "extends"@.len());
    assert("if"@.len() != "pub"@.len());
    assert(keyword("if"@) == Some(TokenType::If));
    lemma_tokenize_word("if"@, rest);
    assert("else"@.len() != "fn"@.len());
    assert("else"@.len() != "var"@.len());
    assert("else"@.len() != "const"@.len());
    assert("else"@.len() != "return"@.len());
    assert("else"@.len() != "import"@.len());
    assert("else"@.len() != "export"@.len());
    assert("else"@.len() != "as"@.len());
    assert("else"@.len() != "break"@.len());
    assert("else"@.len() != "class"@.len());
    assert("else"@.len() != "extends"@.len());
    assert("else"@.len() != "pub"@.len());
    assert("else"@.len() != "if"@.len());
    assert(keyword("else"@) == Some(TokenType::Else));
    lemma_tokenize_word("else"@, rest);
    assert("for"@.len() != "fn"@.len());
    assert("for"@[0] != "var"@[0]);
    assert("for"@.len() != "const"@.len());
    assert("for"@.len() != "return"@.len());
    assert("for"@.len() != "import"@.len());
    assert("for"@.len() != "export"@.len());
    assert("for"@.len() != "as"@.len());
    assert("for"@.len() != "break"@.len());
    assert("for"@.len() != "class"@.len());
    assert("for"@.len() != "extends"@.len());
    assert("for"@[0] != "pub"@[0]);
    assert("for"@.len() != "if"@.len());
    assert("for"@.len() != "else"@.len());
    assert(keyword("for"@) == Some(TokenType::For));
    lemma_tokenize_word("for"@, rest);
    assert("in"@[0] != "fn"@[0]);
    assert("in"@.len() != "var"@.len());
    assert("in"@.len() != "const"@.len());
    assert("in"@.len() != "return"@.len());
    assert("in"@.len() != "import"@.len());
    assert("in"@.len() != "export"@.len());
    assert("in"@[0] != "as"@[0]);
    assert("in"@.len() != "break"@.len());
    assert("in"@.len() != "class"@.len());
    assert("in"@.len() != "extends"@.len());
    assert("in"@.len() != "pub"@.len());
    assert("in"@[1] != "if"@[1]);
    assert("in"@.len() != "else"@.len());
    assert("in"@.len() != "for"@.len());
    assert(keyword("in"@) == Some(TokenType::In));
    lemma_tokenize_word("in"@, rest);
    assert("to"@[0] != "fn"@[0]);
    assert("to"@.len() != "var"@.len());
    assert("to"@.len() != "const"@.len());
    assert("to"@.len() != "return"@.len());
    assert("to"@.len() != "import"@.len());
    assert("to"@.len() != "export"@.len());
    assert("to"@[0] != "as"@[0]);
    assert("to"@.len() != "break"@.len());
    assert("to"@.len() != "class"@.len());
    assert("to"@.len() != "extends"@.len());
    assert("to"@.len() != "pub"@.len());
    assert("to"@[0] != "if"@[0]);
    assert("to"@.len() != "else"@.len());
    assert("to"@.len() != "for"@.len());
    assert("to"@[0] != "in"@[0]);
    assert(keyword("to"@) == Some(TokenType::To));
    lemma_tokenize_word("to"@, rest);
    assert("from"@.len() != "fn"@.len());
    assert("from"@.len() != "var"@.len());
    assert("from"@.len() != "const"@.len());
    assert("from"@.len() != "return"@.len());
    assert("from"@.len() != "import"@.len());
    assert("from"@.len() != "export"@.len());
    assert("from"@.len() != "as"@.len());
    assert("from"@.len() != "break"@.len());
    assert("from"@.len() != "class"@.len());
    assert("from"@.len() != "extends"@.len());
    assert("from"@.len() != "pub"@.len());
    assert("from"@.len() != "if"@.len());
    assert("from"@[0] != "else"@[0]);
    assert("from"@.len() != "for"@.len());
    assert("from"@.len() != "in"@.len());
    assert("from"@.len() != "to"@.len());
    assert(keyword("from"@) == Some(TokenType::From));
    lemma_tokenize_word("from"@, rest);
    assert("true"@.len() != "fn"@.len());
    assert("true"@.len() != "var"@.len());
    assert("true"@.len() != "const"@.len());
    assert("true"@.len() != "return"@.len());
    assert("true"@.len() != "import"@.len());
    assert("true"@.len() != "export"@.len());
    assert("true"@.len() != "as"@.len());
    assert("true"@.len() != "break"@.len());
    assert("true"@.len() != "class"@.len());
    assert("true"@.len() != "extends"@.len());
    assert("true"@.len() != "pub"@.len());
    assert("true"@.len() != "if"@.len());
    assert("true"@[0] != "else"@[0]);
    assert("true"@.len() != "for"@.len());
    assert("true"@.len() != "in"@.len());
    assert("true"@.len() != "to"@.len());
    assert("true"@[0] != "from"@[0]);
    assert(keyword("true"@) == Some(TokenType::True));
    lemma_tokenize_word("true"@, rest);
    assert("false"@.len() != "fn"@.len());
    assert("false"@.len() != "var"@.len());
    assert("false"@[0] != "const"@[0]);
    assert("false"@.len() != "return"@.len());
    assert("false"@.len() != "import"@.len());
    assert("false"@.len() != "export"@.len());
    assert("false"@.len() != "as"@.len());
    assert("false"@[0] != "break"@[0]);
    assert("false"@[0] != "class"@[0]);
    assert("false"@.len() != "extends"@.len());
    assert("false"@.len() != "pub"@.len());
    assert("false"@.len() != "if"@.len());
    assert("false"@.len() != "else"@.len());
    assert("false"@.len() != "for"@.len());
    assert("false"@.len() != "in"@.len());
    assert("false"@.len() != "to"@.len());
    assert("false"@.len() != "from"@.len());
    assert("false"@.len() != "true"@.len());
    assert(keyword("false"@) == Some(TokenType::False));
    lemma_tokenize_word("false"@, rest);
    assert("null"@.len() != "fn"@.len());
    assert("null"@.len() != "var"@.len());
    assert("null"@.len() != "const"@.len());
    assert("null"@.len() != "return"@.len());
    assert("null"@.len() != "import"@.len());
    assert("null"@.len() != "export"@.len());
    assert("null"@.len() != "as"@.len());
    assert("null"@.len() != "break"@.len());
    assert("null"@.len() != "class"@.len());
    assert("null"@.len() != "extends"@.len());
    assert("null"@.len() != "pub"@.len());
    assert("null"@.len() != "if"@.len());
    assert("null"@[0] != "else"@[0]);
    assert("null"@.len() != "for"@.len());
    assert("null"@.len() != "in"@.len());
    assert("null"@.len() != "to"@.len());
    assert("null"@[0] != "from"@[0]);
    assert("null"@[0] != "true"@[0]);
    assert("null"@.len() != "false"@.len());
    assert(keyword("null"@) == Some(TokenType::Null));
    lemma_tokenize_word("null"@, rest);
    assert("and"@.len() != "fn"@.len());
    assert("and"@[0] != "var"@[0]);
    assert("and"@.len() != "const"@.len());
    assert("and"@.len() != "return"@.len());
    assert("and"@.len() != "import"@.len());
    assert("and"@.len() != "export"@.len());
    assert("and"@.len() != "as"@.len());
    assert("and"@.len() != "break"@.len());
    assert("and"@.len() != "class"@.len());
    assert("and"@.len() != "extends"@.len());
    assert("and"@[0] != "pub"@[0]);
    assert("and"@.len() != "if"@.len());
    assert("and"@.len() != "else"@.len());
    assert("and"@[0] != "for"@[0]);
    assert("and"@.len() != "in"@.len());
    assert("and"@.len() != "to"@.len());
    assert("and"@.len() != "from"@.len());
    assert("and"@.len() != "true"@.len());
    assert("and"@.len() != "false"@.len());
    assert("and"@.len() != "null"@.len());
    assert(keyword("and"@) == Some(TokenType::And));
    lemma_tokenize_word("and"@, rest);
    assert("or"@[0] != "fn"@[0]);
    assert("or"@.len() != "var"@.len());
    assert("or"@.len() != "const"@.len());
    assert("or"@.len() != "return"@.len());
    assert("or"@.len() != "import"@.len());
    assert("or"@.len() != "export"@.len());
    assert("or"@[0] != "as"@[0]);
    assert("or"@.len() != "break"@.len());
    assert("or"@.len() != "class"@.len());
    assert("or"@.len() != "extends"@.len());
    assert("or"@.len() != "pub"@.len());
    assert("or"@[0] != "if"@[0]);
    assert("or"@.len() != "else"@.len());
    assert("or"@.len() != "for"@.len());
    assert("or"@[0] != "in"@[0]);
    assert("or"@[0] != "to"@[0]);
    assert("or"@.len() != "from"@.len());
    assert("or"@.len() != "true"@.len());
    assert("or"@.len() != "false"@.len());
    assert("or"@.len() != "null"@.len());
    assert("or"@.len() != "and"@.len());
    assert(keyword("or"@) == Some(TokenType::Or));
    lemma_tokenize_word("or"@, rest);
}

/// Tokens as their kinds and texts.
pub open spec fn token_texts(ts: Seq<Token>) -> Seq<(TokenType, Seq<char>)> {
    ts.map_values(|t: Token| (t.token, t.literal@))
}

/// Tokenizes Loop source text. Whitespace and `//` comments separate tokens; words are
/// keywords or identifiers; digit runs are integers, or floats when a '.' and a digit follow;
/// double quotes delimit strings; `==`, `!=`, `>=`, `<=` and `..` are two-character operators.
/// The position after a `//` comment that starts at `i`: the line break ending it, or the end.
fn skip_comment(src: &Vec<char>, i: usize) -> (j: usize)
    requires
        i + 1 < src.len(),
        src@[i as int] == '/',
        src@[i + 1] == '/',
    ensures
        i < j <= src@.len(),
        tokenize(src@.skip(i as int)) == tokenize(src@.skip(j as int)),
{
    let ghost text = src@;
    let ghost rest = text.skip(i as int);
    let mut j = i + 2;
    assert(rest.skip(2) =~= text.skip(j as int));
    while j < src.len() && src[j] != '\n'
        invariant
            i + 2 <= j <= src@.len(),
            text == src@,
            rest == text.skip(i as int),
            run_len(rest.skip(2), Run::Line) == (j - i - 2) + run_len(text.skip(j as int), Run::Line),
        decreases src.len() - j,
    {
        assert(text.skip(j as int).skip(1) =~= text.skip(j + 1));
        j = j + 1;
    }
    proof {
        assert(run_len(text.skip(j as int), Run::Line) == 0);
        assert(rest.skip(2 + run_len(rest.skip(2), Run::Line) as int) =~= text.skip(j as int));
    }
    j
}

/// The word that starts at `i`, where the cursor ends, and the column after it.
fn read_word(src: &Vec<char>, i: usize, col: i32) -> (r: (Token, usize, i32))
    requires
        i < src@.len(),
        is_letter(src@[i as int]),
        col >= 1,
    ensures
        i < r.1 <= src@.len(),
        r.2 >= 1,
        r.0.token != TokenType::Integer && r.0.token != TokenType::Float && r.0.token != TokenType::Eof,
        tokenize(src@.skip(i as int)) == seq![(r.0.token, r.0.literal@)] + tokenize(src@.skip(r.1 as int)),
{
    let ghost text = src@;
    let ghost rest = text.skip(i as int);
    let mut j = i;
    let mut col = col;
    let mut word: Vec<char> = Vec::new();
    while j < src.len() && (letter(src[j]) || digit(src[j]))
        invariant
            i <= j <= src@.len(),
            j == i ==> is_letter(src@[i as int]),
            col >= 1,
            text == src@,
            rest == text.skip(i as int),
            word@ == text.subrange(i as int, j as int),
            run_len(rest, Run::Word) == (j - i) + run_len(text.skip(j as int), Run::Word),
        decreases src.len() - j,
    {
        assert(text.skip(j as int).skip(1) =~= text.skip(j + 1));
        word.push(src[j]);
        assert(word@ =~= text.subrange(i as int, j + 1));
        j = j + 1;
        if col < i32::MAX { col = col + 1; }
    }
    let text_w = chars_to_string(word.as_slice());
    let kind = lookup_word(text_w.as_str());
    proof {
        assert(run_len(text.skip(j as int), Run::Word) == 0);
        let n = (j - i) as int;
        assert(rest.take(n) =~= word@);
        assert(rest.skip(n) =~= text.skip(j as int));
    }
    (Token { token: kind, literal: text_w }, j, col)
}

/// The number that starts at `i` (an integer, or a float when a '.' and a digit follow the
/// digits), where the cursor ends, and the column after it.
fn read_number(src: &Vec<char>, i: usize, col: i32) -> (r: (Token, usize, i32))
    requires
        i < src@.len(),
        crate::text::is_digit(src@[i as int]),
        col >= 1,
    ensures
        i < r.1 <= src@.len(),
        r.2 >= 1,
        r.0.token == TokenType::Integer || r.0.token == TokenType::Float,
        r.0.token == TokenType::Integer ==> r.0.literal@.len() > 0 && all_digits(r.0.literal@),
        r.0.token == TokenType::Float ==> is_number_text(r.0.literal@),
        tokenize(src@.skip(i as int)) == seq![(r.0.token, r.0.literal@)] + tokenize(src@.skip(r.1 as int)),
{
    let ghost text = src@;
    let ghost rest = text.skip(i as int);
    let mut j = i;
    let mut col = col;
    let mut num: Vec<char> = Vec::new();
    while j < src.len() && digit(src[j])
        invariant
            i <= j <= src@.len(),
            num@.len() > 0 ==> all_digits(num@),
            col >= 1,
            crate::text::is_digit(src@[i as int]),
            j == i ==> num@.len() == 0,
            j > i ==> num@.len() > 0,
            text == src@,
            rest == text.skip(i as int),
            num@ == text.subrange(i as int, j as int),
            run_len(rest, Run::Digits) == (j - i) + run_len(text.skip(j as int), Run::Digits),
        decreases src.len() - j,
    {
        assert(text.skip(j as int).skip(1) =~= text.skip(j + 1));
        num.push(src[j]);
        assert(all_digits(num@));
        assert(num@ =~= text.subrange(i as int, j + 1));
        j = j + 1;
        if col < i32::MAX { col = col + 1; }
    }
    assert(num@.len() > 0);
    proof {
        assert(run_len(text.skip(j as int), Run::Digits) == 0);
    }
    let ghost d = (j - i) as int;
    if src.len() > 1 && j < src.len() - 1 && src[j] == '.' && digit(src[j + 1]) {
        let k = num.len();
        let ghost int_part = num@;
        num.push('.');
        j = j + 1;
        let ghost frac_start = num@.len();
        let ghost j_frac = j;
        proof {
            assert(rest.skip(d + 1) =~= text.skip(j as int));
        }
        while j < src.len() && digit(src[j])
            invariant
                j <= src@.len(),
                j >= j_frac,
                i < j_frac,
                col >= 1,
                num@.len() >= frac_start,
                frac_start == k + 1,
                num@.take(k as int) == int_part,
                num@[k as int] == '.',
                all_digits(int_part),
                int_part.len() == k,
                k > 0,
                all_digits(num@.skip(k + 1)),
                text == src@,
                j_frac == i + d + 1,
                num@ == text.subrange(i as int, j as int),
                run_len(text.skip(j_frac as int), Run::Digits) == (j - j_frac) + run_len(text.skip(j as int), Run::Digits),
            decreases src.len() - j,
        {
            let ghost before_num = num@;
            assert(text.skip(j as int).skip(1) =~= text.skip(j + 1));
            num.push(src[j]);
            assert(num@.take(k as int) =~= before_num.take(k as int));
            assert(num@.skip(k + 1) =~= before_num.skip(k + 1).push(src@[j as int]));
            assert(num@ =~= text.subrange(i as int, j + 1));
            j = j + 1;
            if col < i32::MAX { col = col + 1; }
        }
        let text_n = chars_to_string(num.as_slice());
        proof {
            assert(run_len(text.skip(j as int), Run::Digits) == 0);
            assert(num@.len() > k + 1);
            assert(is_number_text(num@));
            let n = (j - i) as int;
            assert(rest.take(n) =~= num@);
            assert(rest.skip(n) =~= text.skip(j as int));
        }
        (Token { token: TokenType::Float, literal: text_n }, j, col)
    } else {
        let text_n = chars_to_string(num.as_slice());
        proof {
            assert(rest.take(d) =~= num@);
            assert(rest.skip(d) =~= text.skip(j as int));
        }
        (Token { token: TokenType::Integer, literal: text_n }, j, col)
    }
}

/// The string that starts with the double quote at `i`, where the cursor ends (after the
/// closing quote, if there is one), and the line and column after it.
fn read_string(src: &Vec<char>, i: usize, line: i32, col: i32) -> (r: (Token, usize, i32, i32))
    requires
        i < src.len(),
        src@[i as int] == '"',
        line >= 1,
        col >= 1,
    ensures
        i < r.1 <= src@.len(),
        r.2 >= 1,
        r.3 >= 1,
        r.0.token == TokenType::String,
        tokenize(src@.skip(i as int)) == seq![(r.0.token, r.0.literal@)] + tokenize(src@.skip(r.1 as int)),
{
    let ghost text = src@;
    let ghost rest = text.skip(i as int);
    let mut s: Vec<char> = Vec::new();
    let mut line = line;
    let mut col = col;
    let mut j = i + 1;
    if col < i32::MAX { col = col + 1; }
    proof {
        assert(rest.skip(1) =~= text.skip(j as int));
    }
    while j < src.len() && src[j] != '"'
        invariant
            i < j <= src@.len(),
            col >= 1,
            line >= 1,
            text == src@,
            rest == text.skip(i as int),
            s@ == text.subrange(i + 1, j as int),
            run_len(rest.skip(1), Run::Quoted) == (j - i - 1) + run_len(text.skip(j as int), Run::Quoted),
        decreases src.len() - j,
    {
        assert(text.skip(j as int).skip(1) =~= text.skip(j + 1));
        s.push(src[j]);
        assert(s@ =~= text.subrange(i + 1, j + 1));
        if src[j] == '\n' {
            if line < i32::MAX { line = line + 1; }
            col = 1;
        } else if col < i32::MAX {
            col = col + 1;
        }
        j = j + 1;
    }
    let ghost k = (j - i - 1) as int;
    proof {
        assert(run_len(text.skip(j as int), Run::Quoted) == 0);
        assert(rest.subrange(1, k + 1) =~= s@);
    }
    if j < src.len() {
        j = j + 1;
        if col < i32::MAX { col = col + 1; }
    }
    proof {
        let used = if k + 1 < rest.len() { k + 2 } else { k + 1 };
        assert(rest.skip(used) =~= text.skip(j as int));
    }
    (Token { token: TokenType::String, literal: chars_to_string(s.as_slice()) }, j, line, col)
}

/// The operator or delimiter at `i` (two characters for `==`, `!=`, `>=`, `<=` and `..`),
/// and how many characters it takes.
fn read_operator(src: &Vec<char>, i: usize) -> (r: (Token, usize))
    requires
        i < src.len(),
        !is_letter(src@[i as int]),
        !crate::text::is_digit(src@[i as int]),
        src@[i as int] != '"',
        src@[i as int] != '\n' && src@[i as int] != ' ' && src@[i as int] != '\t' && src@[i as int] != '\r',
        !(src@[i as int] == '/' && i + 1 < src@.len() && src@[i + 1] == '/'),
    ensures
        r.1 == 1 || r.1 == 2,
        i + r.1 <= src@.len(),
        r.0.token != TokenType::Integer && r.0.token != TokenType::Float && r.0.token != TokenType::Eof,
        tokenize(src@.skip(i as int)) == seq![(r.0.token, r.0.literal@)] + tokenize(src@.skip(i + r.1)),
{
    let ghost text = src@;
    let ghost rest = text.skip(i as int);
    let c = src[i];
    let next: char = if i + 1 < src.len() { src[i + 1] } else { ' ' };
    proof {
        reveal_strlit("==");
        reveal_strlit("!=");
        reveal_strlit(">=");
        reveal_strlit("<=");
        reveal_strlit("..");
    }
    let (kind, width, text_t): (TokenType, usize, String) =
        if c == '=' && next == '=' { (TokenType::Equals, 2, owned("==")) }
        else if c == '!' && next == '=' { (TokenType::NotEquals, 2, owned("!=")) }
        else if c == '>' && next == '=' { (TokenType::GreaterThanOrEquals, 2, owned(">=")) }
        else if c == '<' && next == '=' { (TokenType::LessThanOrEquals, 2, owned("<=")) }
        else if c == '.' && next == '.' { (TokenType::Range, 2, owned("..")) }
        else {
            let mut t = String::new();
            crate::text::push_char(&mut t, c);
            (single(c), 1, t)
        };
    proof {
        assert(width == 2 ==> i + 1 < src.len());
        assert(text_t@ =~= rest.take(width as int));
        assert(rest.skip(width as int) =~= text.skip(i + width));
    }
    (Token { token: kind, literal: text_t }, width)
}

/// Tokenizes Loop source text. Whitespace and `//` comments separate tokens; words are
/// keywords or identifiers; digit runs are integers, or floats when a '.' and a digit follow;
/// double quotes delimit strings; `==`, `!=`, `>=`, `<=` and `..` are two-character operators.
pub fn build_lexer(source: &str) -> (r: Lexer)
    ensures
        r.wf(),
        r.pos == 0,
        token_texts(r.tokens@) == tokenize(source@).push((TokenType::Eof, Seq::<char>::empty())),
{
    let src = str_to_chars(source);
    let ghost text = src@;
    let mut tokens: Vec<Token> = Vec::new();
    let mut lines: Vec<i32> = Vec::new();
    let mut cols: Vec<i32> = Vec::new();
    let mut i: usize = 0;
    let mut line: i32 = 1;
    let mut col: i32 = 1;
    proof {
        assert(text.skip(0) =~= text);
        assert(token_texts(tokens@) =~= Seq::<(TokenType, Seq<char>)>::empty());
        assert(token_texts(tokens@) + tokenize(text) =~= tokenize(text));
    }
    while i < src.len()
        invariant
            i <= src.len(),
            text == src@,
            lines@.len() == tokens@.len(),
            cols@.len() == tokens@.len(),
            line >= 1,
            col >= 1,
            forall|k: int| 0 <= k < lines@.len() ==> #[trigger] lines@[k] >= 1,
            forall|k: int| 0 <= k < cols@.len() ==> #[trigger] cols@[k] >= 1,
            forall|k: int| 0 <= k < tokens@.len() ==> (#[trigger] tokens@[k]).token != TokenType::Eof,
            forall|k: int| 0 <= k < tokens@.len() ==>
                ((#[trigger] tokens@[k]).token == TokenType::Integer ==> tokens@[k].literal@.len() > 0 && all_digits(tokens@[k].literal@)),
            forall|k: int| 0 <= k < tokens@.len() ==>
                ((#[trigger] tokens@[k]).token == TokenType::Float ==> is_number_text(tokens@[k].literal@)),
            token_texts(tokens@) + tokenize(text.skip(i as int)) == tokenize(text),
        decreases src.len() - i,
    {
        let c = src[i];
        let start_col = col;
        let ghost rest = text.skip(i as int);
        let ghost before = token_texts(tokens@);
        assert(rest.len() > 0 && rest[0] == c);
        if c == '\n' {
            i = i + 1;
            if line < i32::MAX { line = line + 1; }
            col = 1;
            assert(rest.skip(1) =~= text.skip(i as int));
        } else if c == ' ' || c == '\t' || c == '\r' {
            i = i + 1;
            if col < i32::MAX { col = col + 1; }
            assert(rest.skip(1) =~= text.skip(i as int));
        } else if c == '/' && i + 1 < src.len() && src[i + 1] == '/' {
            i = skip_comment(&src, i);
        } else {
            let token: Token;
            if letter(c) {
                let (t, j, new_col) = read_word(&src, i, col);
                token = t;
                i = j;
                col = new_col;
            } else if digit(c) {
                let (t, j, new_col) = read_number(&src, i, col);
                token = t;
                i = j;
                col = new_col;
            } else if c == '"' {
                let (t, j, new_line, new_col) = read_string(&src, i, line, col);
                token = t;
                i = j;
                line = new_line;
                col = new_col;
            } else {
                let (t, width) = read_operator(&src, i);
                token = t;
                i = i + width;
                if col < i32::MAX - 2 { col = col + (width as i32); }
            }
            let ghost entry = (token.token, token.literal@);
            tokens.push(token);
            lines.push(line);
            cols.push(start_col);
            proof {
                assert(token_texts(tokens@) =~= before.push(entry));
                assert(token_texts(tokens@) + tokenize(text.skip(i as int)) =~= before + tokenize(rest));
            }
        }
    }
    proof {
        assert(text.skip(i as int) =~= Seq::<char>::empty());
        assert(token_texts(tokens@) =~= tokenize(text));
    }
    tokens.push(Token { token: TokenType::Eof, literal: String::new() });
    lines.push(line);
    cols.push(col);
    proof {
        assert(token_texts(tokens@) =~= tokenize(text).push((TokenType::Eof, Seq::<char>::empty())));
    }
    let first_line = lines[0];
    let first_col = cols[0];
    Lexer {
        tokens,
        lines,
        cols,
        pos: 0,
        source_lines: split_lines(src.as_slice()),
        current_line: first_line,
        current_col: first_col,
    }
}

} // verus!
