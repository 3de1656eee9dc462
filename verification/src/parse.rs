//! Structural parser for filter expressions.
//!
//! The token sequence is folded, left to right, through one working stack
//! into an ordered predicate program: a flat sequence of typed nodes with
//! parenthesis grouping already resolved. `&` and `|` are never reordered
//! relative to each other; parentheses are the only means of overriding the
//! strict left-to-right application order.
//!
//! Two malformed shapes are fatal at construction time: a `.` whose preceding
//! stack entry is not a bare identifier, and a `.`-qualified identifier that
//! never receives its comparison operator and value. Everything else —
//! including unbalanced closing parentheses — is tolerated.

use vstd::prelude::*;
use crate::token::{SpecTok, Token};

verus! {

/// Specification-level working-stack entry.
pub enum SpecEntry {
    /// A pending structural delimiter.
    Delim(char),
    /// An identifier presence test.
    MatchId(Seq<char>),
    /// An identifier absence test.
    NotMatchId(Seq<char>),
    /// An `id.property` pair still awaiting its operator and value.
    Partial(Seq<char>, Seq<char>),
    /// A completed property comparison: id, property, operator, value.
    Test(Seq<char>, Seq<char>, char, Seq<char>),
}

/// Specification-level predicate node of the finished program.
pub enum SpecPred {
    /// A structural marker: `&`, `|`, or a leftover delimiter.
    Delim(char),
    /// True iff the context contains a record with this identifier.
    MatchId(Seq<char>),
    /// True iff the context does not contain such a record.
    NotMatchId(Seq<char>),
    /// True iff the named record exists, has the property, and the
    /// comparison holds: id, property, operator, value.
    Test(Seq<char>, Seq<char>, char, Seq<char>),
}

/// A working-stack entry of the parser.
pub enum Entry {
    Delim(char),
    MatchId(String),
    NotMatchId(String),
    Partial(String, String),
    Test(String, String, char, String),
}

/// One node of the ordered predicate program.
#[derive(Debug, Clone, PartialEq, Eq)]
pub enum Pred {
    /// A structural marker: `&`, `|`, or a leftover delimiter.
    Delim(char),
    /// True iff the context contains a record with this identifier.
    MatchId(String),
    /// True iff the context does not contain such a record.
    NotMatchId(String),
    /// A property comparison: id, property, operator, value.
    Test(String, String, char, String),
}

impl DeepView for Entry {
    type V = SpecEntry;

    open spec fn deep_view(&self) -> SpecEntry {
        match self {
            Entry::Delim(c) => SpecEntry::Delim(*c),
            Entry::MatchId(s) => SpecEntry::MatchId(s@),
            Entry::NotMatchId(s) => SpecEntry::NotMatchId(s@),
            Entry::Partial(a, b) => SpecEntry::Partial(a@, b@),
            Entry::Test(a, b, c, d) => SpecEntry::Test(a@, b@, *c, d@),
        }
    }
}

impl DeepView for Pred {
    type V = SpecPred;

    open spec fn deep_view(&self) -> SpecPred {
        match self {
            Pred::Delim(c) => SpecPred::Delim(*c),
            Pred::MatchId(s) => SpecPred::MatchId(s@),
            Pred::NotMatchId(s) => SpecPred::NotMatchId(s@),
            Pred::Test(a, b, c, d) => SpecPred::Test(a@, b@, *c, d@),
        }
    }
}

/// Why a filter expression was rejected at construction time.
#[derive(Clone, Copy, Debug, PartialEq, Eq, Structural)]
pub enum ParseError {
    /// A `.` was applied to something other than a bare identifier.
    MissingIdentifier,
    /// An `id.property` pair never received its operator and value.
    IncompleteProperty,
}

impl ParseError {
    /// A human-readable description of the offending construct.
    pub fn message(&self) -> (r: &'static str)
        ensures
            *self is MissingIdentifier ==> r@ == "the property token '.' is only allowed after an identifier"@,
            *self is IncompleteProperty ==> r@ == "a property test needs an operator and a value: id.property (=!~^$) value"@,
    {
        match self {
            ParseError::MissingIdentifier => "the property token '.' is only allowed after an identifier",
            ParseError::IncompleteProperty => "a property test needs an operator and a value: id.property (=!~^$) value",
        }
    }
}

/// The five comparison-operator characters.
pub open spec fn is_cmp_char(c: char) -> bool {
    c == '!' || c == '^' || c == '=' || c == '~' || c == '$'
}

/// Pop the working stack into the output until an opening `(` is popped and
/// discarded; an unbalanced closer drains the whole stack silently.
pub open spec fn spec_close_paren(stack: Seq<SpecEntry>, out: Seq<SpecEntry>) -> (Seq<SpecEntry>, Seq<SpecEntry>)
    decreases stack.len(),
{
    if stack.len() == 0 {
        (stack, out)
    } else if stack.last() == SpecEntry::Delim('(') {
        (stack.drop_last(), out)
    } else {
        spec_close_paren(stack.drop_last(), out.push(stack.last()))
    }
}

/// How a value-like token (identifier or quoted literal) lands on the stack,
/// directed by the entry on top of it.
pub open spec fn spec_value_step(stack: Seq<SpecEntry>, x: Seq<char>) -> Result<
    Seq<SpecEntry>,
    ParseError,
> {
    if stack.len() > 0 && stack.last() == SpecEntry::Delim('.') {
        let below = stack.drop_last();
        if below.len() > 0 && below.last() is MatchId {
            Ok(below.drop_last().push(SpecEntry::Partial(below.last()->MatchId_0, x)))
        } else {
            Err(ParseError::MissingIdentifier)
        }
    } else if stack.len() > 0 && stack.last() is Delim && is_cmp_char(stack.last()->Delim_0) {
        let c = stack.last()->Delim_0;
        let below = stack.drop_last();
        if below.len() > 0 && below.last() is Partial {
            Ok(
                below.drop_last().push(
                    SpecEntry::Test(below.last()->Partial_0, below.last()->Partial_1, c, x),
                ),
            )
        } else if c == '!' {
            Ok(below.push(SpecEntry::NotMatchId(x)))
        } else {
            Ok(below.push(SpecEntry::MatchId(x)))
        }
    } else {
        Ok(stack.push(SpecEntry::MatchId(x)))
    }
}

/// One parsing step: how a single token transforms stack and output.
pub open spec fn spec_parse_step(stack: Seq<SpecEntry>, out: Seq<SpecEntry>, t: SpecTok) -> Result<
    (Seq<SpecEntry>, Seq<SpecEntry>),
    ParseError,
> {
    match t {
        SpecTok::Op(c) => if c == ')' {
            Ok(spec_close_paren(stack, out))
        } else {
            Ok((stack.push(SpecEntry::Delim(c)), out))
        },
        SpecTok::Ident(x) => match spec_value_step(stack, x) {
            Ok(st) => Ok((st, out)),
            Err(e) => Err(e),
        },
        SpecTok::Lit(x) => match spec_value_step(stack, x) {
            Ok(st) => Ok((st, out)),
            Err(e) => Err(e),
        },
    }
}

/// Fold a token sequence through the parser, from the given state.
pub open spec fn spec_parse_toks(
    stack: Seq<SpecEntry>,
    out: Seq<SpecEntry>,
    ts: Seq<SpecTok>,
) -> Result<(Seq<SpecEntry>, Seq<SpecEntry>), ParseError>
    decreases ts.len(),
{
    if ts.len() == 0 {
        Ok((stack, out))
    } else {
        match spec_parse_step(stack, out, ts[0]) {
            Ok(so) => spec_parse_toks(so.0, so.1, ts.skip(1)),
            Err(e) => Err(e),
        }
    }
}

/// An entry that may not survive into a finished program: a `.`-qualified
/// identifier still awaiting its operator and value, or a dangling `.`.
pub open spec fn is_unfinished(e: SpecEntry) -> bool {
    e is Partial || e == SpecEntry::Delim('.')
}

/// The predicate node an entry becomes. A `Partial` entry never reaches this
/// point in a finished program; its image here is immaterial.
pub open spec fn entry_pred(e: SpecEntry) -> SpecPred {
    match e {
        SpecEntry::Delim(c) => SpecPred::Delim(c),
        SpecEntry::MatchId(x) => SpecPred::MatchId(x),
        SpecEntry::NotMatchId(x) => SpecPred::NotMatchId(x),
        SpecEntry::Test(a, b, c, d) => SpecPred::Test(a, b, c, d),
        SpecEntry::Partial(a, b) => SpecPred::MatchId(a),
    }
}

/// The ordered predicate program of a token sequence, or the construction
/// error. At end of input the remaining stack is drained into the front of
/// the output, preserving the relative order of unparenthesized tokens.
pub open spec fn spec_parse(ts: Seq<SpecTok>) -> Result<Seq<SpecPred>, ParseError> {
    match spec_parse_toks(Seq::empty(), Seq::empty(), ts) {
        Err(e) => Err(e),
        Ok(so) => {
            let fin = so.0 + so.1;
            if exists|k: int| 0 <= k < fin.len() && is_unfinished(fin[k]) {
                Err(ParseError::IncompleteProperty)
            } else {
                Ok(fin.map_values(|e: SpecEntry| entry_pred(e)))
            }
        },
    }
}

/// Parse a token sequence into an ordered predicate program.
pub fn parse_tokens(tokens: &Vec<Token>) -> (r: Result<Vec<Pred>, ParseError>)
    ensures
        r is Ok <==> spec_parse(tokens.deep_view()) is Ok,
        r matches Ok(prog) ==> spec_parse(tokens.deep_view()) matches Ok(sp) && prog.deep_view()
            == sp,
        r matches Err(e) ==> spec_parse(tokens.deep_view()) matches Err(se) && e == se,
{
    let ghost all = tokens.deep_view();
    let mut stack: Vec<Entry> = Vec::new();
    let mut out: Vec<Entry> = Vec::new();
    let mut idx: usize = 0;
    proof {
        assert(stack.deep_view() =~= Seq::<SpecEntry>::empty());
        assert(out.deep_view() =~= Seq::<SpecEntry>::empty());
        assert(all.skip(0) =~= all);
    }
    while idx < tokens.len()
        invariant
            idx <= tokens.len(),
            all == tokens.deep_view(),
            spec_parse_toks(Seq::empty(), Seq::empty(), all) == spec_parse_toks(
                stack.deep_view(),
                out.deep_view(),
                all.skip(idx as int),
            ),
        decreases tokens.len() - idx,
    {
        let ghost pre_stack = stack.deep_view();
        let ghost pre_out = out.deep_view();
        let ghost rest = all.skip(idx as int);
        proof {
            assert(rest[0] == all[idx as int]);
            assert(rest.skip(1) =~= all.skip(idx as int + 1));
        }
        match &tokens[idx] {
            Token::Op(c) => {
                proof {
                    assert(rest[0] == SpecTok::Op(*c));
                }
                if *c == ')' {
                    close_paren(&mut stack, &mut out);
                    proof {
                        assert(spec_parse_step(pre_stack, pre_out, rest[0]) == Ok::<
                            (Seq<SpecEntry>, Seq<SpecEntry>),
                            ParseError,
                        >((stack.deep_view(), out.deep_view())));
                    }
                } else {
                    stack.push(Entry::Delim(*c));
                    proof {
                        assert(stack.deep_view() =~= pre_stack.push(SpecEntry::Delim(*c)));
                        assert(spec_parse_step(pre_stack, pre_out, rest[0]) == Ok::<
                            (Seq<SpecEntry>, Seq<SpecEntry>),
                            ParseError,
                        >((stack.deep_view(), out.deep_view())));
                    }
                }
            },
            Token::Ident(x) => {
                proof {
                    assert(rest[0] == SpecTok::Ident(x@));
                }
                let v = x.clone();
                if !push_value(&mut stack, v) {
                    proof {
                        assert(spec_value_step(pre_stack, x@) == Err::<Seq<SpecEntry>, ParseError>(
                            ParseError::MissingIdentifier,
                        ));
                        assert(spec_parse_toks(pre_stack, pre_out, rest) == Err::<
                            (Seq<SpecEntry>, Seq<SpecEntry>),
                            ParseError,
                        >(ParseError::MissingIdentifier));
                        assert(spec_parse(all) == Err::<Seq<SpecPred>, ParseError>(
                            ParseError::MissingIdentifier,
                        ));
                    }
                    return Err(ParseError::MissingIdentifier);
                }
                proof {
                    assert(spec_parse_step(pre_stack, pre_out, rest[0]) == Ok::<
                        (Seq<SpecEntry>, Seq<SpecEntry>),
                        ParseError,
                    >((stack.deep_view(), out.deep_view())));
                }
            },
            Token::Lit(x) => {
                proof {
                    assert(rest[0] == SpecTok::Lit(x@));
                }
                let v = x.clone();
                if !push_value(&mut stack, v) {
                    proof {
                        assert(spec_value_step(pre_stack, x@) == Err::<Seq<SpecEntry>, ParseError>(
                            ParseError::MissingIdentifier,
                        ));
                        assert(spec_parse_toks(pre_stack, pre_out, rest) == Err::<
                            (Seq<SpecEntry>, Seq<SpecEntry>),
                            ParseError,
                        >(ParseError::MissingIdentifier));
                        assert(spec_parse(all) == Err::<Seq<SpecPred>, ParseError>(
                            ParseError::MissingIdentifier,
                        ));
                    }
                    return Err(ParseError::MissingIdentifier);
                }
                proof {
                    assert(spec_parse_step(pre_stack, pre_out, rest[0]) == Ok::<
                        (Seq<SpecEntry>, Seq<SpecEntry>),
                        ParseError,
                    >((stack.deep_view(), out.deep_view())));
                }
            },
        }
        proof {
            assert(spec_parse_toks(pre_stack, pre_out, rest) == spec_parse_toks(
                stack.deep_view(),
                out.deep_view(),
                rest.skip(1),
            ));
        }
        idx += 1;
    }
    proof {
        assert(all.skip(all.len() as int) =~= Seq::<SpecTok>::empty());
        assert(spec_parse_toks(Seq::empty(), Seq::empty(), all) == Ok::<
            (Seq<SpecEntry>, Seq<SpecEntry>),
            ParseError,
        >((stack.deep_view(), out.deep_view())));
    }
    let mut prog: Vec<Pred> = Vec::new();
    let ghost fin = stack.deep_view() + out.deep_view();
    let mut k: usize = 0;
    proof {
        assert(fin.len() == stack.deep_view().len() + out.deep_view().len());
        assert(prog.deep_view() =~= Seq::<SpecPred>::empty());
        assert(fin.subrange(0, 0) =~= Seq::<SpecEntry>::empty());
        assert(prog.deep_view() =~= fin.subrange(0, 0).map_values(|e: SpecEntry| entry_pred(e)));
    }
    while k < stack.len()
        invariant
            all == tokens.deep_view(),
            k <= stack.len(),
            fin == stack.deep_view() + out.deep_view(),
            spec_parse_toks(Seq::empty(), Seq::empty(), all) == Ok::<
                (Seq<SpecEntry>, Seq<SpecEntry>),
                ParseError,
            >((stack.deep_view(), out.deep_view())),
            forall|m: int| 0 <= m < k ==> !is_unfinished(fin[m]),
            prog.deep_view() == fin.subrange(0, k as int).map_values(
                |e: SpecEntry| entry_pred(e),
            ),
        decreases stack.len() - k,
    {
        let ghost pre_prog = prog.deep_view();
        proof {
            assert(fin[k as int] == stack.deep_view()[k as int]);
        }
        match &stack[k] {
            Entry::Delim(c) => {
                if *c == '.' {
                    proof {
                        assert(is_unfinished(fin[k as int]));
                        assert(0 <= (k as int) && (k as int) < fin.len());
                        assert(exists|m: int| 0 <= m < fin.len() && is_unfinished(fin[m]));
                        assert(spec_parse(all) == Err::<Seq<SpecPred>, ParseError>(
                            ParseError::IncompleteProperty,
                        ));
                    }
                    return Err(ParseError::IncompleteProperty);
                }
                prog.push(Pred::Delim(*c));
            },
            Entry::MatchId(s) => {
                prog.push(Pred::MatchId(s.clone()));
            },
            Entry::NotMatchId(s) => {
                prog.push(Pred::NotMatchId(s.clone()));
            },
            Entry::Partial(_, _) => {
                proof {
                    assert(is_unfinished(fin[k as int]));
                    assert(0 <= (k as int) && (k as int) < fin.len());
                    assert(exists|m: int| 0 <= m < fin.len() && is_unfinished(fin[m]));
                    assert(spec_parse(all) == Err::<Seq<SpecPred>, ParseError>(
                        ParseError::IncompleteProperty,
                    ));
                }
                return Err(ParseError::IncompleteProperty);
            },
            Entry::Test(a, b, c, d) => {
                prog.push(Pred::Test(a.clone(), b.clone(), *c, d.clone()));
            },
        }
        proof {
            assert(prog.deep_view() =~= pre_prog.push(entry_pred(fin[k as int])));
            assert(fin.subrange(0, k as int + 1) =~= fin.subrange(0, k as int).push(
                fin[k as int],
            ));
            assert(prog.deep_view() =~= fin.subrange(0, k as int + 1).map_values(
                |e: SpecEntry| entry_pred(e),
            ));
        }
        k += 1;
    }
    let ghost slen = stack.deep_view().len();
    let mut k2: usize = 0;
    while k2 < out.len()
        invariant
            all == tokens.deep_view(),
            k2 <= out.len(),
            slen == stack.deep_view().len(),
            slen == stack.len(),
            fin == stack.deep_view() + out.deep_view(),
            spec_parse_toks(Seq::empty(), Seq::empty(), all) == Ok::<
                (Seq<SpecEntry>, Seq<SpecEntry>),
                ParseError,
            >((stack.deep_view(), out.deep_view())),
            forall|m: int| 0 <= m < slen + k2 ==> !is_unfinished(fin[m]),
            prog.deep_view() == fin.subrange(0, slen + k2 as int).map_values(
                |e: SpecEntry| entry_pred(e),
            ),
        decreases out.len() - k2,
    {
        let ghost pre_prog = prog.deep_view();
        let ghost pos = slen + k2 as int;
        proof {
            assert(fin[pos] == out.deep_view()[k2 as int]);
        }
        match &out[k2] {
            Entry::Delim(c) => {
                if *c == '.' {
                    proof {
                        assert(is_unfinished(fin[pos]));
                        assert(0 <= pos < fin.len());
                        assert(exists|m: int| 0 <= m < fin.len() && is_unfinished(fin[m]));
                        assert(spec_parse(all) == Err::<Seq<SpecPred>, ParseError>(
                            ParseError::IncompleteProperty,
                        ));
                    }
                    return Err(ParseError::IncompleteProperty);
                }
                prog.push(Pred::Delim(*c));
            },
            Entry::MatchId(s) => {
                prog.push(Pred::MatchId(s.clone()));
            },
            Entry::NotMatchId(s) => {
                prog.push(Pred::NotMatchId(s.clone()));
            },
            Entry::Partial(_, _) => {
                proof {
                    assert(is_unfinished(fin[pos]));
                    assert(0 <= pos < fin.len());
                    assert(exists|m: int| 0 <= m < fin.len() && is_unfinished(fin[m]));
                    assert(spec_parse(all) == Err::<Seq<SpecPred>, ParseError>(
                        ParseError::IncompleteProperty,
                    ));
                }
                return Err(ParseError::IncompleteProperty);
            },
            Entry::Test(a, b, c, d) => {
                prog.push(Pred::Test(a.clone(), b.clone(), *c, d.clone()));
            },
        }
        proof {
            assert(prog.deep_view() =~= pre_prog.push(entry_pred(fin[pos])));
            assert(fin.subrange(0, pos + 1) =~= fin.subrange(0, pos).push(fin[pos]));
            assert(prog.deep_view() =~= fin.subrange(0, pos + 1).map_values(
                |e: SpecEntry| entry_pred(e),
            ));
        }
        k2 += 1;
    }
    proof {
        assert(fin.subrange(0, fin.len() as int) =~= fin);
        assert(forall|m: int| 0 <= m < fin.len() ==> !is_unfinished(fin[m]));
        assert(spec_parse(all) == Ok::<Seq<SpecPred>, ParseError>(
            fin.map_values(|e: SpecEntry| entry_pred(e)),
        ));
    }
    Ok(prog)
}

/// Drain the working stack into the output until an opening `(` is popped;
/// an unbalanced closer empties the stack silently.
fn close_paren(stack: &mut Vec<Entry>, out: &mut Vec<Entry>)
    ensures
        spec_close_paren(old(stack).deep_view(), old(out).deep_view()) == (
            final(stack).deep_view(),
            final(out).deep_view(),
        ),
{
    let ghost pre_stack = stack.deep_view();
    let ghost pre_out = out.deep_view();
    loop
        invariant_except_break
            spec_close_paren(pre_stack, pre_out) == spec_close_paren(
                stack.deep_view(),
                out.deep_view(),
            ),
        ensures
            spec_close_paren(pre_stack, pre_out) == (stack.deep_view(), out.deep_view()),
        decreases stack.len(),
    {
        let ghost loop_stack = stack.deep_view();
        let ghost loop_out = out.deep_view();
        match stack.pop() {
            None => {
                proof {
                    assert(loop_stack.len() == 0);
                    assert(spec_close_paren(loop_stack, loop_out) == (loop_stack, loop_out));
                }
                break ;
            },
            Some(e) => {
                proof {
                    assert(stack.deep_view() =~= loop_stack.drop_last());
                    assert(e.deep_view() == loop_stack.last());
                }
                match e {
                    Entry::Delim(d) => {
                        if d == '(' {
                            proof {
                                assert(spec_close_paren(loop_stack, loop_out) == (
                                    loop_stack.drop_last(),
                                    loop_out,
                                ));
                            }
                            break ;
                        } else {
                            out.push(Entry::Delim(d));
                            proof {
                                assert(out.deep_view() =~= loop_out.push(loop_stack.last()));
                                assert(loop_stack.last() != SpecEntry::Delim('('));
                            }
                        }
                    },
                    other => {
                        out.push(other);
                        proof {
                            assert(out.deep_view() =~= loop_out.push(loop_stack.last()));
                            assert(loop_stack.last() != SpecEntry::Delim('('));
                        }
                    },
                }
            },
        }
    }
}

/// Land a value-like token on the working stack. Returns `false` — with the
/// stack emptied — exactly when the step is the missing-identifier error.
fn push_value(stack: &mut Vec<Entry>, x: String) -> (ok: bool)
    ensures
        match spec_value_step(old(stack).deep_view(), x@) {
            Ok(st) => ok && final(stack).deep_view() == st,
            Err(_) => !ok,
        },
{
    let ghost pre = stack.deep_view();
    let mut mode: u8 = 0;
    let mut cc: char = ' ';
    match stack.last() {
        Some(Entry::Delim(c)) => {
            if *c == '.' {
                mode = 1;
            } else if *c == '!' || *c == '^' || *c == '=' || *c == '~' || *c == '$' {
                mode = 2;
                cc = *c;
            }
        },
        _ => {},
    }
    if mode == 1 {
        proof {
            assert(pre.len() > 0 && pre.last() == SpecEntry::Delim('.'));
        }
        let _ = stack.pop();
        proof {
            assert(stack.deep_view() =~= pre.drop_last());
        }
        let ghost below = stack.deep_view();
        match stack.pop() {
            Some(Entry::MatchId(id)) => {
                proof {
                    assert(stack.deep_view() =~= below.drop_last());
                }
                stack.push(Entry::Partial(id, x));
                proof {
                    assert(stack.deep_view() =~= below.drop_last().push(
                        SpecEntry::Partial(below.last()->MatchId_0, x@),
                    ));
                }
                true
            },
            _ => {
                proof {
                    assert(spec_value_step(pre, x@) is Err);
                }
                false
            },
        }
    } else if mode == 2 {
        proof {
            assert(pre.len() > 0 && pre.last() == SpecEntry::Delim(cc) && is_cmp_char(cc));
        }
        let _ = stack.pop();
        proof {
            assert(stack.deep_view() =~= pre.drop_last());
        }
        let ghost below = stack.deep_view();
        let is_partial = matches!(stack.last(), Some(Entry::Partial(_, _)));
        if is_partial {
            match stack.pop() {
                Some(Entry::Partial(id, p)) => {
                    proof {
                        assert(stack.deep_view() =~= below.drop_last());
                    }
                    stack.push(Entry::Test(id, p, cc, x));
                    proof {
                        assert(stack.deep_view() =~= below.drop_last().push(
                            SpecEntry::Test(below.last()->Partial_0, below.last()->Partial_1, cc, x@),
                        ));
                    }
                    true
                },
                _ => {
                    proof {
                        assert(false);
                    }
                    false
                },
            }
        } else if cc == '!' {
            stack.push(Entry::NotMatchId(x));
            proof {
                assert(stack.deep_view() =~= below.push(SpecEntry::NotMatchId(x@)));
            }
            true
        } else {
            stack.push(Entry::MatchId(x));
            proof {
                assert(stack.deep_view() =~= below.push(SpecEntry::MatchId(x@)));
            }
            true
        }
    } else {
        proof {
            assert(spec_value_step(pre, x@) == Ok::<Seq<SpecEntry>, ParseError>(
                pre.push(SpecEntry::MatchId(x@)),
            ));
        }
        stack.push(Entry::MatchId(x));
        proof {
            assert(stack.deep_view() =~= pre.push(SpecEntry::MatchId(x@)));
        }
        true
    }
}

} // verus!
