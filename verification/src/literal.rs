//! The literal normalizer: renders a scalar default value (boolean, integer,
//! float, string) as a dialect-correct SQL expression and validates the
//! rendering by tokenizing and parsing it under the active dialect's rules.
//! A value that is fine in the declaration layer can still be invalid SQL;
//! catching that at build time is this module's reason for existing.

use vstd::prelude::*;
use vstd::string::*;
use models_parser::dialect as md;
use crate::dialect::Dialect;
use crate::error::Error;
use crate::text::{sql_escaped, append_sql_escaped, push_char};

verus! {

/// A scalar default-value literal, kept as its canonical text plus a flag
/// saying whether the text is the content of a string literal.
#[derive(Debug, Clone)]
pub struct DefaultExpr {
    pub is_string: bool,
    pub expr: String,
}

/// The mathematical value of a [`DefaultExpr`].
#[verifier::ext_equal]
pub ghost struct DefaultExprV {
    pub is_string: bool,
    pub expr: Seq<char>,
}

impl View for DefaultExpr {
    type V = DefaultExprV;

    open spec fn view(&self) -> DefaultExprV {
        DefaultExprV { is_string: self.is_string, expr: self.expr@ }
    }
}

/// The SQL text of a literal: a non-string literal is its canonical text
/// unchanged; a string literal is single-quoted with embedded single quotes
/// doubled, so the empty string renders as `''`.
pub open spec fn spec_render(v: DefaultExprV) -> Seq<char> {
    if v.is_string {
        seq!['\''] + sql_escaped(v.expr) + seq!['\'']
    } else {
        v.expr
    }
}

/// The longest literal text the validator hands to the expression parser.
/// The parser recurses once per consumed token (a nested parenthesis, a
/// unary operator), so its stack use is bounded by the text length; this
/// cap keeps the call well within the stack even on a spawned thread.
pub const MAX_EXPR_LEN: usize = 1024;

/// Whether the dialect's tokenizer and expression parser accept a text as
/// one SQL expression.
pub uninterp spec fn accepted_expr(dialect: Dialect, s: Seq<char>) -> bool;

/// Relies on `models_parser::tokenizer::Tokenizer::tokenize` and
/// `models_parser::parser::Parser::parse_expr`: whether a text is accepted
/// as one SQL expression depends on the dialect's rules and the text alone.
/// The parser recurses with no depth limit of its own — one frame per
/// nested parenthesis or prefix operator, each of which consumes at least
/// one character — so the caller must bound the text's length to keep the
/// recursion within the stack.
#[verifier::external_body]
fn check_expr(dialect: Dialect, text: &str) -> (r: Result<(), String>)
    requires
        text@.len() <= MAX_EXPR_LEN,
    ensures
        r is Ok <==> accepted_expr(dialect, text@),
{
    let d: &dyn md::Dialect = match dialect {
        Dialect::SQLite => &md::SQLiteDialect {},
        Dialect::PostgreSQL => &md::PostgreSqlDialect {},
        Dialect::MySQL => &md::MySqlDialect {},
        Dialect::MsSQL => &md::MsSqlDialect {},
        Dialect::Any => &md::GenericDialect {},
    };
    let tokens = models_parser::tokenizer::Tokenizer::new(d, text).tokenize().map_err(
        |e| format!("{:?}", e),
    )?;
    models_parser::parser::Parser::new(tokens, d).parse_expr().map_err(|e| format!("{}", e))?;
    Ok(())
}

impl DefaultExpr {
    /// A boolean literal; it renders as its lowercase textual form.
    pub fn from_bool(b: bool) -> (r: DefaultExpr)
        ensures
            r@ == (DefaultExprV { is_string: false, expr: if b { "true"@ } else { "false"@ } }),
    {
        DefaultExpr {
            is_string: false,
            expr: if b {
                String::from_str("true")
            } else {
                String::from_str("false")
            },
        }
    }

    /// A numeric literal, given as its canonical textual form; it renders
    /// unchanged, with no trailing type suffix.
    pub fn from_number(text: &str) -> (r: DefaultExpr)
        ensures
            r@ == (DefaultExprV { is_string: false, expr: text@ }),
    {
        DefaultExpr { is_string: false, expr: String::from_str(text) }
    }

    /// A string literal, given as its content.
    pub fn from_text(text: &str) -> (r: DefaultExpr)
        ensures
            r@ == (DefaultExprV { is_string: true, expr: text@ }),
    {
        DefaultExpr { is_string: true, expr: String::from_str(text) }
    }

    /// Renders the literal as SQL text: unchanged for non-strings, quoted
    /// and escaped for strings.
    pub fn render(&self) -> (r: String)
        ensures
            r@ == spec_render(self@),
    {
        if self.is_string {
            let mut out = String::new();
            push_char(&mut out, '\'');
            append_sql_escaped(&mut out, self.expr.as_str());
            push_char(&mut out, '\'');
            out
        } else {
            self.expr.clone()
        }
    }

    /// Validates the rendered literal by tokenizing and parsing it as a SQL
    /// expression under the dialect's rules. A tokenize or parse failure is
    /// a hard error naming the offending literal and the dialect; a literal
    /// whose rendering exceeds [`MAX_EXPR_LEN`] is rejected the same way
    /// before the parser ever sees it.
    pub fn validate(&self, dialect: Dialect) -> (r: Result<(), Error>)
        ensures
            r is Ok <==> (spec_render(self@).len() <= MAX_EXPR_LEN && accepted_expr(
                dialect,
                spec_render(self@),
            )),
            r is Err ==> r->Err_0 is Message || r->Err_0 is Syntax,
            r is Err && spec_render(self@).len() <= MAX_EXPR_LEN ==> r->Err_0 is Syntax
                && (exists|why: Seq<char>|
                (#[trigger] r->Err_0->Syntax_0@) == why + " in default literal "@ + spec_render(
                    self@,
                ) + " for dialect "@ + dialect.spec_name()),
    {
        let rendered = self.render();
        if rendered.as_str().unicode_len() > MAX_EXPR_LEN {
            let mut msg = String::from_str("default literal of ");
            msg.append(rendered.as_str());
            msg.append(" is too long to validate for dialect ");
            msg.append(dialect.name());
            return Err(Error::Message(msg));
        }
        match check_expr(dialect, rendered.as_str()) {
            Ok(()) => Ok(()),
            Err(why) => {
                let ghost why_view = why@;
                let mut msg = why;
                msg.append(" in default literal ");
                msg.append(rendered.as_str());
                msg.append(" for dialect ");
                msg.append(dialect.name());
                proof {
                    assert(msg@ =~= why_view + " in default literal "@ + spec_render(self@)
                        + " for dialect "@ + dialect.spec_name());
                }
                Err(Error::Syntax(msg))
            },
        }
    }
}

} // verus!
