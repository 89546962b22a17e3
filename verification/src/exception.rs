//! Errors of the parser and of the compiler.
use vstd::prelude::*;
use crate::lexer::{Token, TokenType};
use crate::text::{owned, concat, push_char, append_str, str_to_chars};

verus! {

pub enum Parenthesis {
    Left,
    Right,
}

/// Why parsing stopped.
pub enum SyntaxException {
    Unknown,
    /// A title and an optional longer explanation.
    CustomMessage(String, Option<String>),
    ExpectedToken(TokenType),
    NoPrefixParser(TokenType),
    WrongParentheses(Parenthesis),
}

/// An error collected by the parser.
pub enum Exception {
    Syntax(String),
}

/// All data needed to report a syntax error: the line it is on, the token that was expected
/// and the one found, where, and an optional note.
pub struct SyntaxError {
    pub error_line: String,
    pub expected: Token,
    pub got: Token,
    pub line: i32,
    pub column: i32,
    pub extra_message: Option<String>,
}

/// All data needed to report a compiler error that ends compilation: a message and an
/// optional note.
pub struct CompilerError {
    pub error_message: String,
    pub extra_message: Option<String>,
}


pub struct UnknownSymbol {
    pub name: String,
    pub scope_depth: u16,
}

/// A compiler error and where it happened (line, column).
pub struct CompilerException {
    pub location: (i32, i32),
    pub exception: CompilerExceptionCode,
}

pub enum CompilerExceptionCode {
    UnknownSymbol(UnknownSymbol),
    DivideByZero,
    TooManyLocals,
    TooManyFrees,
    UnknownSuffixOperator(String),
    ReturnStatementNotAllowedOutsideFunction,
    UnknownExtensionMethod(String),
    CanOnlyAssignToVariableArray,
    CanNotReadFile(String),
    DoubleParameterName(String),
    CallingNonFunction(String),
    /// Got, expected
    WrongType(String, String),
    ValueDifferentFromType(String, String),
    /// Field, type
    UnknownField(String, String),
    UnknownType(String),
    /// Module, name
    NotPublic(String, String),
    Unknown,
}

/// The error `code` reported at line 0, column 0, where the compiler reports its errors.
pub open spec fn unplaced(code: CompilerExceptionCode) -> CompilerException {
    CompilerException { location: (0i32, 0i32), exception: code }
}

/// `prefix` followed by `a` and a closing double quote.
pub open spec fn quoted(prefix: Seq<char>, a: Seq<char>) -> Seq<char> {
    prefix + a + "\""@
}

/// The message of each compiler error.
pub open spec fn exception_message(e: CompilerExceptionCode) -> Seq<char> {
    match e {
        CompilerExceptionCode::UnknownSymbol(var) => quoted("unknown symbol. got=\""@, var.name@),
        CompilerExceptionCode::DivideByZero => "can not divide by zero"@,
        CompilerExceptionCode::TooManyLocals => "too many locals"@,
        CompilerExceptionCode::TooManyFrees => "too many frees"@,
        CompilerExceptionCode::UnknownSuffixOperator(op) => quoted("unknown suffix operator. got=\""@, op@),
        CompilerExceptionCode::ReturnStatementNotAllowedOutsideFunction => "return statements are not allowed outside of functions"@,
        CompilerExceptionCode::UnknownExtensionMethod(m) => quoted("unknown extension method. got=\""@, m@),
        CompilerExceptionCode::CanOnlyAssignToVariableArray => "you can only assign to variable arrays"@,
        CompilerExceptionCode::CanNotReadFile(e) => quoted("unable to read file. got=\""@, e@),
        CompilerExceptionCode::DoubleParameterName(p) => quoted("parameter name already in use. got=\""@, p@),
        CompilerExceptionCode::CallingNonFunction(f) => quoted("you are attempting to call a non function. got=\""@, f@)
            + ". expected=\"Function(...)\""@,
        CompilerExceptionCode::WrongType(got, expected) =>
            quoted(quoted("type mismatch, can not assign different type. got=\""@, got@) + ". expected=\""@, expected@),
        CompilerExceptionCode::ValueDifferentFromType(got, expected) =>
            quoted(quoted("type mismatch, can not declare variable with static type to different typed value. got=\""@, got@)
                + ". expected\""@, expected@),
        CompilerExceptionCode::UnknownField(field, class) =>
            quoted(quoted("field does not exist on type. field=\""@, field@) + ". type=\""@, class@),
        CompilerExceptionCode::UnknownType(tp) => quoted("type does not exist. got=\""@, tp@),
        CompilerExceptionCode::Unknown => "got an error, unknown what went wrong"@,
        CompilerExceptionCode::NotPublic(module, name) =>
            quoted(quoted("Method \""@, name@) + " inside module \""@, module@) + " is not public!"@,
    }
}

fn quote(prefix: &str, a: &str) -> (r: String)
    ensures
        r@ == quoted(prefix@, a@),
{
    let s = concat(prefix, a);
    concat(s.as_str(), "\"")
}

impl CompilerException {
    /// An error at the given line and column.
    pub fn new(line: i32, colon: i32, exception: CompilerExceptionCode) -> (r: CompilerException)
        ensures
            r.location == (line, colon),
            r.exception == exception,
    {
        CompilerException { location: (line, colon), exception }
    }

    /// The human-readable message of this error.
    pub fn pretty_print(&self) -> (r: String)
        ensures
            r@ == exception_message(self.exception),
    {
        proof {
            reveal_strlit("unknown symbol. got=\""); reveal_strlit("can not divide by zero");
            reveal_strlit("too many locals"); reveal_strlit("too many frees");
            reveal_strlit("unknown suffix operator. got=\"");
            reveal_strlit("return statements are not allowed outside of functions");
            reveal_strlit("unknown extension method. got=\""); reveal_strlit("you can only assign to variable arrays");
            reveal_strlit("unable to read file. got=\""); reveal_strlit("parameter name already in use. got=\"");
            reveal_strlit("you are attempting to call a non function. got=\"");
            reveal_strlit(". expected=\"Function(...)\""); reveal_strlit("type mismatch, can not assign different type. got=\"");
            reveal_strlit(". expected=\""); reveal_strlit("type mismatch, can not declare variable with static type to different typed value. got=\"");
            reveal_strlit(". expected\""); reveal_strlit("field does not exist on type. field=\"");
            reveal_strlit(". type=\""); reveal_strlit("type does not exist. got=\"");
            reveal_strlit("got an error, unknown what went wrong"); reveal_strlit("Method \"");
            reveal_strlit(" inside module \""); reveal_strlit(" is not public!"); reveal_strlit("\"");
        }
        match &self.exception {
            CompilerExceptionCode::UnknownSymbol(var) => quote("unknown symbol. got=\"", var.name.as_str()),
            CompilerExceptionCode::DivideByZero => owned("can not divide by zero"),
            CompilerExceptionCode::TooManyLocals => owned("too many locals"),
            CompilerExceptionCode::TooManyFrees => owned("too many frees"),
            CompilerExceptionCode::UnknownSuffixOperator(op) => quote("unknown suffix operator. got=\"", op.as_str()),
            CompilerExceptionCode::ReturnStatementNotAllowedOutsideFunction =>
                owned("return statements are not allowed outside of functions"),
            CompilerExceptionCode::UnknownExtensionMethod(m) => quote("unknown extension method. got=\"", m.as_str()),
            CompilerExceptionCode::CanOnlyAssignToVariableArray => owned("you can only assign to variable arrays"),
            CompilerExceptionCode::CanNotReadFile(e) => quote("unable to read file. got=\"", e.as_str()),
            CompilerExceptionCode::DoubleParameterName(p) => quote("parameter name already in use. got=\"", p.as_str()),
            CompilerExceptionCode::CallingNonFunction(f) => {
                let a = quote("you are attempting to call a non function. got=\"", f.as_str());
                concat(a.as_str(), ". expected=\"Function(...)\"")
            },
            CompilerExceptionCode::WrongType(got, expected) => {
                let a = quote("type mismatch, can not assign different type. got=\"", got.as_str());
                let b = concat(a.as_str(), ". expected=\"");
                quote(b.as_str(), expected.as_str())
            },
            CompilerExceptionCode::ValueDifferentFromType(got, expected) => {
                let a = quote("type mismatch, can not declare variable with static type to different typed value. got=\"", got.as_str());
                let b = concat(a.as_str(), ". expected\"");
                quote(b.as_str(), expected.as_str())
            },
            CompilerExceptionCode::UnknownField(field, class) => {
                let a = quote("field does not exist on type. field=\"", field.as_str());
                let b = concat(a.as_str(), ". type=\"");
                quote(b.as_str(), class.as_str())
            },
            CompilerExceptionCode::UnknownType(tp) => quote("type does not exist. got=\"", tp.as_str()),
            CompilerExceptionCode::Unknown => owned("got an error, unknown what went wrong"),
            CompilerExceptionCode::NotPublic(module, name) => {
                let a = quote("Method \"", name.as_str());
                let b = concat(a.as_str(), " inside module \"");
                let c = quote(b.as_str(), module.as_str());
                concat(c.as_str(), " is not public!")
            },
        }
    }

    /// Reporting errors to a tracking service is switched off; this does nothing.
    pub fn emit(&self) {
    }

    /// A syntax error met while compiling (in an imported file) becomes an unknown compiler
    /// error at line 0, column 0.
    pub fn from_syntax(_e: SyntaxException) -> (r: CompilerException)
        ensures
            r.location == (0i32, 0i32),
            r.exception == CompilerExceptionCode::Unknown,
    {
        CompilerException { location: (0, 0), exception: CompilerExceptionCode::Unknown }
    }
}

/// `text` with `spaces` spaces inserted after every line break.
pub open spec fn indented(text: Seq<char>, spaces: nat) -> Seq<char>
    decreases text.len(),
{
    if text.len() == 0 {
        Seq::empty()
    } else {
        let c = text[text.len() - 1];
        indented(text.subrange(0, text.len() - 1), spaces) + seq![c]
            + (if c == '\n' { Seq::new(spaces, |_i: int| ' ') } else { Seq::<char>::empty() })
    }
}

/// Inserts `spaces` spaces after every line break of `text`.
fn indent(spaces: i32, text: &str) -> (r: String)
    requires
        0 <= spaces,
    ensures
        r@ == indented(text@, spaces as nat),
{
    let mut insert = String::new();
    let mut k: i32 = 0;
    while k < spaces
        invariant
            0 <= k <= spaces,
            insert@ == Seq::new(k as nat, |_i: int| ' '),
        decreases spaces - k,
    {
        push_char(&mut insert, ' ');
        assert(insert@ =~= Seq::new((k + 1) as nat, |_i: int| ' '));
        k = k + 1;
    }
    let chars = str_to_chars(text);
    let mut out = String::new();
    let mut i: usize = 0;
    while i < chars.len()
        invariant
            i <= chars@.len(),
            chars@ == text@,
            insert@ == Seq::new(spaces as nat, |_i: int| ' '),
            out@ == indented(chars@.subrange(0, i as int), spaces as nat),
        decreases chars.len() - i,
    {
        let c = chars[i];
        push_char(&mut out, c);
        if c == '\n' {
            append_str(&mut out, insert.as_str());
        }
        proof {
            let s = chars@.subrange(0, i + 1);
            assert(s.subrange(0, i as int) =~= chars@.subrange(0, i as int));
            assert(s[i as int] == c);
            if c == '\n' {
                assert(out@ =~= indented(s, spaces as nat));
            } else {
                assert(out@ =~= indented(s, spaces as nat));
            }
        }
        i = i + 1;
    }
    assert(chars@.subrange(0, chars@.len() as int) =~= chars@);
    out
}

impl CompilerError {
    /// Inserts `spaces` spaces after every line break of `text` (to indent a note).
    pub fn add_identation(&mut self, spaces: i32, text: String) -> (r: String)
        requires
            0 <= spaces,
        ensures
            r@ == indented(text@, spaces as nat),
            *final(self) == *old(self),
    {
        indent(spaces, text.as_str())
    }
}

impl SyntaxError {
    /// Inserts `spaces` spaces after every line break of `text` (to indent a note).
    pub fn add_identation(&mut self, spaces: i32, text: String) -> (r: String)
        requires
            0 <= spaces,
        ensures
            r@ == indented(text@, spaces as nat),
            *final(self) == *old(self),
    {
        indent(spaces, text.as_str())
    }
}

/// A text without line breaks is left as it is.
pub proof fn law_indent_without_breaks(text: Seq<char>, spaces: nat)
    requires
        forall|i: int| 0 <= i < text.len() ==> text[i] != '\n',
    ensures
        indented(text, spaces) == text,
    decreases text.len(),
{
    if text.len() > 0 {
        let rest = text.subrange(0, text.len() - 1);
        law_indent_without_breaks(rest, spaces);
        assert(rest.push(text[text.len() - 1]) =~= text);
        assert(indented(text, spaces) =~= rest + seq![text[text.len() - 1]]);
    }
}

} // verus!
