//! Picasso: the Loop language front end. Source text is split into tokens, parsed into a
//! syntax tree and compiled into Arc, a textual intermediate language; Sanzio turns an Arc
//! syntax tree into Lua.
use vstd::prelude::*;

pub mod text;
pub mod types;
pub mod lexer;
pub mod exception;
pub mod parser;
pub mod compiler;
pub mod sanzio;
pub mod repl;

verus! {

use crate::compiler::{Compiler, CompilerState};
use crate::compiler::compile::{path_parent, path_extension, path_parent_of, path_extension_of};
use crate::exception::{CompilerError, CompilerException, SyntaxException, SyntaxError};
use crate::lexer::{TokenType, tokenize, token_texts};
use crate::parser::{single_operand_program, leaf_expression};
use crate::parser::expression::number_value_fits;
use crate::compiler::{operand_statements, operand_statements_code};
use crate::compiler::compile::{integer_code, literal_code};
use crate::text::digits_value;

/// Why a Loop program did not compile.
pub enum CompileFailure {
    /// The source does not parse; `reported` is the syntax error the parser reported, if any.
    Syntax { cause: SyntaxException, reported: Option<SyntaxError> },
    /// Compiling failed. `pending_read` names a file an import needed that was not among the
    /// sources given; `thrown` is the error that ended compilation, when there is one.
    Compiler { exception: CompilerException, pending_read: Option<String>, thrown: Option<CompilerError> },
}

/// The location imports of a source file are relative to: the file's directory when the path
/// has an extension, the path itself otherwise.
pub fn base_location_of(file: &str) -> (r: String)
    ensures
        path_extension_of(file@) is None ==> r@ == file@,
        path_extension_of(file@) is Some ==> r@ == (match path_parent_of(file@) {
            Some(p) => p,
            None => Seq::<char>::empty(),
        }),
{
    match path_extension(file) {
        Some(_) => match path_parent(file) {
            Some(p) => p,
            None => String::new(),
        },
        None => crate::text::owned(file),
    }
}

/// The Arc code of a program whose only token is the literal `(kind, text)`: a number (an
/// integer constant when its digits fit in an `i64`, a float constant otherwise), a string,
/// `true`, `false` or `null`. `None` for any other token.
pub open spec fn literal_program_code(kind: TokenType, text: Seq<char>) -> Option<Seq<char>> {
    match kind {
        TokenType::Integer | TokenType::Float => Some(if number_value_fits(text) {
            integer_code(digits_value(text) as int)
        } else {
            ".CONSTANT FLOAT "@ + text + ";"@
        }),
        TokenType::String => Some(".CONSTANT CHAR[] \""@ + text + "\";"@),
        TokenType::True | TokenType::False => Some(if text == "true"@ {
            ".CONSTANT BOOL true;"@
        } else {
            ".CONSTANT BOOL false;"@
        }),
        TokenType::Null => Some(".CONSTANT VOID;"@),
        _ => None,
    }
}

/// Whether the source text is one literal token, by itself.
pub open spec fn literal_source(source: Seq<char>) -> bool {
    &&& tokenize(source).len() == 1
    &&& literal_program_code(tokenize(source)[0].0, tokenize(source)[0].1) is Some
}

/// Compiles a Loop program into Arc: the source is parsed (at `file_location`, if any, which
/// also sets where imports are found) and compiled by a fresh compiler, which reads imported
/// files from `sources`. The result is the Arc text and the compiler's state. A program made
/// of one literal compiles to that literal's constant.
pub fn compile(source: &str, file_location: Option<&str>, sources: Vec<(String, Option<String>)>)
    -> (r: Result<(String, CompilerState), CompileFailure>)
    ensures
        r matches Ok((_, st)) ==> crate::compiler::state_valid(&st),
        literal_source(source@) ==> (r matches Ok((arc, _))
            && arc@ == literal_program_code(tokenize(source@)[0].0, tokenize(source@)[0].1)->0),
{
    let ghost literal = literal_source(source@);
    let lexer = crate::lexer::build_lexer(source);
    proof {
        if literal {
            let tt = token_texts(lexer.tokens@);
            assert(tt.len() == 2);
            assert(tt[0] == tokenize(source@)[0]);
            assert(tt[1].0 == TokenType::Eof);
            assert(lexer.tokens@[0].token == tt[0].0);
            assert(lexer.tokens@[0].literal@ == tt[0].1);
            assert(lexer.tokens@[1].token == TokenType::Eof);
        }
    }
    let location = match file_location {
        Some(f) => f,
        None => "",
    };
    let mut parser = crate::parser::build_parser(lexer, location);
    let ghost parser0 = parser;
    proof {
        if literal {
            assert(single_operand_program(parser0));
        }
    }
    let program = match parser.parse() {
        Ok(p) => p,
        Err(e) => {
            return Err(CompileFailure::Syntax { cause: e, reported: parser.thrown });
        },
    };
    let mut compiler = Compiler::default();
    compiler.sources = sources;
    if let Some(file) = file_location {
        compiler.base_location = base_location_of(file);
    }
    let ghost c0 = compiler;
    let ghost stmts = program.statements@;
    proof {
        if literal {
            let e = *program.statements@[0]->Expression_0.expression;
            assert(leaf_expression(parser0, e));
            assert(literal_code(e) == literal_program_code(tokenize(source@)[0].0, tokenize(source@)[0].1));
            assert(operand_statements(&c0, program.statements@));
            assert(stmts.drop_last() =~= Seq::<crate::parser::statement::Statement>::empty());
            assert(operand_statements_code(&c0, stmts.drop_last()) == Seq::<char>::empty());
            assert(operand_statements_code(&c0, stmts) == literal_code(e)->0);
            assert(c0.code() == Seq::<char>::empty());
        }
    }
    let compiled = compiler.compile(program);
    proof {
        if literal {
            assert(compiled is Ok);
        }
    }
    match compiled {
        Ok(arc) => {
            let st = compiler.get_compiler_state();
            proof {
                crate::compiler::law_saved_state_is_valid(&compiler, &st);
            }
            let text = arc.get_arc();
            proof {
                if literal {
                    let fs = arc.functions@;
                    assert(fs.len() == 1);
                    assert(fs[0].name@ == "main"@);
                    assert(fs.drop_last() =~= Seq::<crate::compiler::compile::Function>::empty());
                    assert(crate::compiler::main_code(fs.drop_last()) == Seq::<char>::empty());
                    assert(fs.last() == fs[0]);
                    assert(text@ == fs[0].code@);
                    assert(compiler.code() =~= c0.code() + operand_statements_code(&c0, stmts));
                }
            }
            Ok((text, st))
        },
        Err(exception) => Err(CompileFailure::Compiler {
            exception,
            pending_read: compiler.pending_read,
            thrown: compiler.thrown,
        }),
    }
}

/// Compiles a Loop program (such as a line of the read-eval-print loop) with a compiler that
/// continues from `state`; imported files are read from `sources`. A program made of one
/// literal compiles to that literal's constant.
pub fn compile_with_state(source: &str, state: CompilerState, sources: Vec<(String, Option<String>)>)
    -> (r: Result<(String, CompilerState), CompileFailure>)
    ensures
        r matches Ok((_, st)) ==> crate::compiler::state_valid(&st)
            && st.variable_count >= state.variable_count && st.function_count >= state.function_count,
        literal_source(source@) ==> (r matches Ok((arc, _))
            && arc@ == literal_program_code(tokenize(source@)[0].0, tokenize(source@)[0].1)->0),
{
    let ghost literal = literal_source(source@);
    let lexer = crate::lexer::build_lexer(source);
    proof {
        if literal {
            let tt = token_texts(lexer.tokens@);
            assert(tt.len() == 2);
            assert(tt[0] == tokenize(source@)[0]);
            assert(tt[1].0 == TokenType::Eof);
            assert(lexer.tokens@[0].token == tt[0].0);
            assert(lexer.tokens@[0].literal@ == tt[0].1);
            assert(lexer.tokens@[1].token == TokenType::Eof);
        }
    }
    let mut parser = crate::parser::build_parser(lexer, "");
    let ghost parser0 = parser;
    proof {
        if literal {
            assert(single_operand_program(parser0));
        }
    }
    let program = match parser.parse() {
        Ok(p) => p,
        Err(e) => {
            return Err(CompileFailure::Syntax { cause: e, reported: parser.thrown });
        },
    };
    let mut compiler = Compiler::default_with_state(state);
    compiler.sources = sources;
    let ghost c0 = compiler;
    let ghost stmts = program.statements@;
    proof {
        if literal {
            let e = *program.statements@[0]->Expression_0.expression;
            assert(leaf_expression(parser0, e));
            assert(literal_code(e) == literal_program_code(tokenize(source@)[0].0, tokenize(source@)[0].1));
            assert(operand_statements(&c0, program.statements@));
            assert(stmts.drop_last() =~= Seq::<crate::parser::statement::Statement>::empty());
            assert(operand_statements_code(&c0, stmts.drop_last()) == Seq::<char>::empty());
            assert(operand_statements_code(&c0, stmts) == literal_code(e)->0);
        }
    }
    let compiled = compiler.compile(program);
    match compiled {
        Ok(arc) => {
            let st = compiler.get_compiler_state();
            proof {
                crate::compiler::law_saved_state_is_valid(&compiler, &st);
            }
            let text = arc.get_arc();
            proof {
                if literal {
                    let fs = arc.functions@;
                    assert(fs.drop_last() =~= Seq::<crate::compiler::compile::Function>::empty());
                    assert(crate::compiler::main_code(fs.drop_last()) == Seq::<char>::empty());
                    assert(fs.last() == fs[0]);
                    assert(compiler.code() =~= c0.code() + operand_statements_code(&c0, stmts));
                }
            }
            Ok((text, st))
        },
        Err(exception) => Err(CompileFailure::Compiler {
            exception,
            pending_read: compiler.pending_read,
            thrown: compiler.thrown,
        }),
    }
}

}
