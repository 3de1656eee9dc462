//! The compiled filter: an immutable predicate program, built once from the
//! raw expression string and evaluated against any number of contexts.

use vstd::prelude::*;
use crate::context::{Context, SpecCtx};
use crate::eval::{eval_program, spec_eval};
use crate::parse::{parse_tokens, spec_parse, ParseError, Pred, SpecPred};
use crate::token::{spec_tokenize, tokenize};

verus! {

/// The predicate program a raw expression string compiles to, or the
/// construction error it is rejected with.
pub open spec fn spec_program(s: Seq<char>) -> Result<Seq<SpecPred>, ParseError> {
    spec_parse(spec_tokenize(s))
}

/// A compiled, immutable, side-effect-free predicate program.
pub struct Program {
    nodes: Vec<Pred>,
}

impl View for Program {
    type V = Seq<SpecPred>;

    closed spec fn view(&self) -> Seq<SpecPred> {
        self.nodes.deep_view()
    }
}

impl Program {
    /// Compile a raw filter expression. Construction succeeds or fails
    /// exactly as `spec_program` says; tokenization itself cannot fail.
    pub fn parse(expr: &str) -> (r: Result<Program, ParseError>)
        ensures
            r is Ok <==> spec_program(expr@) is Ok,
            r matches Ok(p) ==> spec_program(expr@) matches Ok(sp) && p@ == sp,
            r matches Err(e) ==> spec_program(expr@) matches Err(se) && e == se,
    {
        let toks = tokenize(expr);
        match parse_tokens(&toks) {
            Ok(nodes) => Ok(Program { nodes }),
            Err(e) => Err(e),
        }
    }

    /// The number of predicate and delimiter nodes of the program.
    pub fn len(&self) -> (r: usize)
        ensures
            r == self@.len(),
    {
        self.nodes.len()
    }

    /// Evaluate the program against one property context. Never fails: a
    /// malformed or empty program reduces to false.
    pub fn eval(&self, ctx: &Context) -> (r: bool)
        ensures
            r == spec_eval(self@, ctx@),
    {
        eval_program(&self.nodes, ctx)
    }
}

/// The record filter of one invocation: a compiled program where a filter
/// expression was supplied, or the trivial filter that accepts everything
/// where none was.
pub enum Matcher {
    /// No expression was supplied: every record matches.
    Unconditional,
    /// Records match as the compiled program decides.
    Filtered(Program),
}

impl Matcher {
    /// What this matcher answers for a given context.
    pub open spec fn spec_accepts(&self, ctx: SpecCtx) -> bool {
        match self {
            Matcher::Unconditional => true,
            Matcher::Filtered(p) => spec_eval(p@, ctx),
        }
    }

    /// Build the filter of one invocation from the optional raw expression.
    pub fn new(expr: Option<&str>) -> (r: Result<Matcher, ParseError>)
        ensures
            expr is None ==> (r matches Ok(m) && m is Unconditional),
            expr matches Some(e) ==> {
                &&& (r is Ok <==> spec_program(e@) is Ok)
                &&& (r matches Ok(m) ==> (m matches Matcher::Filtered(p) && spec_program(e@)
                    matches Ok(sp) && p@ == sp))
                &&& (r matches Err(err) ==> (spec_program(e@) matches Err(se) && err == se))
            },
    {
        match expr {
            None => Ok(Matcher::Unconditional),
            Some(e) => match Program::parse(e) {
                Ok(p) => Ok(Matcher::Filtered(p)),
                Err(err) => Err(err),
            },
        }
    }

    /// Whether the record behind this context is selected.
    pub fn accepts(&self, ctx: &Context) -> (r: bool)
        ensures
            r == self.spec_accepts(ctx@),
    {
        match self {
            Matcher::Unconditional => true,
            Matcher::Filtered(p) => p.eval(ctx),
        }
    }
}

} // verus!
