//! Tokenizer for filter expressions.
//!
//! A raw expression string becomes a flat sequence of tokens: bare
//! identifiers, quoted literals, and single-character operators. Whitespace
//! outside quotes separates tokens and carries no token of its own.
//! Tokenization never fails: unrecognized characters simply become part of an
//! identifier, and an unterminated quoted literal runs to end of input.

use vstd::prelude::*;
use vstd::string::*;

verus! {

/// Specification-level token over character sequences.
pub enum SpecTok {
    Ident(Seq<char>),
    Lit(Seq<char>),
    Op(char),
}

/// One lexical token of a filter expression.
#[derive(Debug, Clone, PartialEq, Eq)]
pub enum Token {
    /// A bare identifier, such as a record id or property name.
    Ident(String),
    /// The contents of a quoted literal, quotes removed.
    Lit(String),
    /// A single operator character: one of `! ^ = ~ $ . ( ) & |`.
    Op(char),
}

impl DeepView for Token {
    type V = SpecTok;

    open spec fn deep_view(&self) -> SpecTok {
        match self {
            Token::Ident(s) => SpecTok::Ident(s@),
            Token::Lit(s) => SpecTok::Lit(s@),
            Token::Op(c) => SpecTok::Op(*c),
        }
    }
}

/// The ten operator characters of the filter language.
pub open spec fn is_op_char(c: char) -> bool {
    ||| c == '!'
    ||| c == '^'
    ||| c == '='
    ||| c == '~'
    ||| c == '$'
    ||| c == '.'
    ||| c == '('
    ||| c == ')'
    ||| c == '&'
    ||| c == '|'
}

/// Characters that open (and close) a quoted literal.
pub open spec fn is_quote_char(c: char) -> bool {
    c == '"' || c == '\''
}

/// Characters that end an identifier: any operator, or a space.
pub open spec fn is_break_char(c: char) -> bool {
    is_op_char(c) || c == ' '
}

/// The first index `j >= i` with `s[j] == q`, or `s.len()` if there is none.
pub open spec fn quote_end(s: Seq<char>, i: int, q: char) -> int
    decreases s.len() - i,
{
    if i < 0 || i >= s.len() {
        s.len() as int
    } else if s[i] == q {
        i
    } else {
        quote_end(s, i + 1, q)
    }
}

/// The first index `j >= i` at which an identifier breaks, or `s.len()`.
pub open spec fn ident_end(s: Seq<char>, i: int) -> int
    decreases s.len() - i,
{
    if i < 0 || i >= s.len() {
        s.len() as int
    } else if is_break_char(s[i]) {
        i
    } else {
        ident_end(s, i + 1)
    }
}

pub proof fn lemma_quote_end_bounds(s: Seq<char>, i: int, q: char)
    requires
        0 <= i,
    ensures
        i <= s.len() ==> i <= quote_end(s, i, q) <= s.len(),
    decreases s.len() - i,
{
    if i < s.len() && s[i] != q {
        lemma_quote_end_bounds(s, i + 1, q);
    }
}

pub proof fn lemma_ident_end_bounds(s: Seq<char>, i: int)
    requires
        0 <= i,
    ensures
        i <= s.len() ==> i <= ident_end(s, i) <= s.len(),
    decreases s.len() - i,
{
    if i < s.len() && !is_break_char(s[i]) {
        lemma_ident_end_bounds(s, i + 1);
    }
}

/// The token sequence of `s` from position `i` on.
pub open spec fn spec_tokenize_at(s: Seq<char>, i: int) -> Seq<SpecTok>
    decreases s.len() - i,
    via spec_tokenize_at_decreases
{
    if i < 0 || i >= s.len() {
        Seq::empty()
    } else if is_quote_char(s[i]) {
        let j = quote_end(s, i + 1, s[i]);
        let next = if j < s.len() {
            j + 1
        } else {
            j
        };
        seq![SpecTok::Lit(s.subrange(i + 1, j))] + spec_tokenize_at(s, next)
    } else if is_op_char(s[i]) {
        seq![SpecTok::Op(s[i])] + spec_tokenize_at(s, i + 1)
    } else if s[i] == ' ' {
        spec_tokenize_at(s, i + 1)
    } else {
        let j = ident_end(s, i + 1);
        seq![SpecTok::Ident(s.subrange(i, j))] + spec_tokenize_at(s, j)
    }
}

#[via_fn]
proof fn spec_tokenize_at_decreases(s: Seq<char>, i: int) {
    if 0 <= i < s.len() {
        if is_quote_char(s[i]) {
            lemma_quote_end_bounds(s, i + 1, s[i]);
        } else if !is_op_char(s[i]) && s[i] != ' ' {
            lemma_ident_end_bounds(s, i + 1);
        }
    }
}

/// The token sequence of a whole expression string.
pub open spec fn spec_tokenize(s: Seq<char>) -> Seq<SpecTok> {
    spec_tokenize_at(s, 0)
}

/// Whether `c` is one of the ten operator characters.
pub fn op_char(c: char) -> (r: bool)
    ensures
        r == is_op_char(c),
{
    c == '!' || c == '^' || c == '=' || c == '~' || c == '$' || c == '.' || c == '(' || c == ')'
        || c == '&' || c == '|'
}

/// Whether `c` ends an identifier.
pub fn break_char(c: char) -> (r: bool)
    ensures
        r == is_break_char(c),
{
    op_char(c) || c == ' '
}

/// Turn a raw expression string into its token sequence.
pub fn tokenize(expr: &str) -> (r: Vec<Token>)
    ensures
        r.deep_view() == spec_tokenize(expr@),
{
    let n = expr.unicode_len();
    let mut out: Vec<Token> = Vec::new();
    let mut i: usize = 0;
    while i < n
        invariant
            n == expr@.len(),
            i <= n,
            out.deep_view() + spec_tokenize_at(expr@, i as int) == spec_tokenize(expr@),
        decreases n - i,
    {
        let ghost prefix = out.deep_view();
        let c = expr.get_char(i);
        if c == '"' || c == '\'' {
            let mut j = i + 1;
            while j < n && expr.get_char(j) != c
                invariant
                    n == expr@.len(),
                    i + 1 <= j <= n,
                    quote_end(expr@, j as int, c) == quote_end(expr@, i + 1, c),
                decreases n - j,
            {
                j += 1;
            }
            proof {
                assert(quote_end(expr@, j as int, c) == j);
            }
            let lit = expr.substring_char(i + 1, j);
            out.push(Token::Lit(String::from_str(lit)));
            let next = if j < n {
                j + 1
            } else {
                j
            };
            proof {
                assert(out.deep_view() =~= prefix.push(SpecTok::Lit(expr@.subrange(
                    i + 1,
                    j as int,
                ))));
                assert(spec_tokenize_at(expr@, i as int) == seq![
                    SpecTok::Lit(expr@.subrange(i + 1, j as int)),
                ] + spec_tokenize_at(expr@, next as int));
                assert(out.deep_view() + spec_tokenize_at(expr@, next as int) =~= prefix
                    + spec_tokenize_at(expr@, i as int));
            }
            i = next;
        } else if op_char(c) {
            out.push(Token::Op(c));
            proof {
                assert(out.deep_view() =~= prefix.push(SpecTok::Op(c)));
                assert(out.deep_view() + spec_tokenize_at(expr@, i + 1) =~= prefix
                    + spec_tokenize_at(expr@, i as int));
            }
            i += 1;
        } else if c == ' ' {
            i += 1;
        } else {
            let mut j = i + 1;
            while j < n && !break_char(expr.get_char(j))
                invariant
                    n == expr@.len(),
                    i + 1 <= j <= n,
                    ident_end(expr@, j as int) == ident_end(expr@, i + 1),
                decreases n - j,
            {
                j += 1;
            }
            proof {
                assert(ident_end(expr@, j as int) == j);
            }
            let id = expr.substring_char(i, j);
            out.push(Token::Ident(String::from_str(id)));
            proof {
                assert(out.deep_view() =~= prefix.push(SpecTok::Ident(expr@.subrange(
                    i as int,
                    j as int,
                ))));
                assert(spec_tokenize_at(expr@, i as int) == seq![
                    SpecTok::Ident(expr@.subrange(i as int, j as int)),
                ] + spec_tokenize_at(expr@, j as int));
                assert(out.deep_view() + spec_tokenize_at(expr@, j as int) =~= prefix
                    + spec_tokenize_at(expr@, i as int));
            }
            i = j;
        }
    }
    out
}

} // verus!
