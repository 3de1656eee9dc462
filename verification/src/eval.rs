//! Evaluator for ordered predicate programs.
//!
//! One walk over the program per record, with a result stack and a pending
//! operator stack. Every non-delimiter node resolves to a boolean against
//! the context and is immediately combined with the prior result: the most
//! recent pending operator is applied (conjunction when none is pending),
//! and an empty result stack makes the combination the identity. Evaluation
//! never fails; a malformed or empty program reduces to `false`.

use vstd::prelude::*;
use vstd::string::*;
use crate::context::{Context, SpecCtx};
use crate::parse::{Pred, SpecPred};
use crate::text::{contains_seq, str_contains, str_ends_with, str_eq, str_starts_with};

verus! {

/// Whether comparison `op` holds between a property's actual value and a
/// literal. The `!` operator means "not equal" in whole-container evaluation
/// and is unsupported — always false — in streaming evaluation; an unknown
/// operator is always false.
pub open spec fn spec_op_holds(op: char, actual: Seq<char>, lit: Seq<char>, whole: bool) -> bool {
    if op == '=' {
        actual == lit
    } else if op == '!' {
        whole && actual != lit
    } else if op == '~' {
        contains_seq(actual, lit)
    } else if op == '^' {
        lit.is_prefix_of(actual)
    } else if op == '$' {
        lit.is_suffix_of(actual)
    } else {
        false
    }
}

/// Resolve one predicate node against a context. A delimiter node is not a
/// predicate and resolves to nothing; its image here is false and unused.
pub open spec fn spec_resolve(p: SpecPred, ctx: SpecCtx) -> bool {
    match p {
        SpecPred::Delim(_) => false,
        SpecPred::MatchId(id) => match ctx {
            SpecCtx::Whole(m) => m.contains_key(id),
            SpecCtx::Single(cur, _) => cur == id,
        },
        SpecPred::NotMatchId(id) => match ctx {
            SpecCtx::Whole(m) => !m.contains_key(id),
            SpecCtx::Single(cur, _) => cur != id,
        },
        SpecPred::Test(id, prop, op, lit) => match ctx {
            SpecCtx::Whole(m) => m.contains_key(id) && m[id].contains_key(prop) && spec_op_holds(
                op,
                m[id][prop],
                lit,
                true,
            ),
            SpecCtx::Single(cur, pm) => cur == id && pm.contains_key(prop) && spec_op_holds(
                op,
                pm[prop],
                lit,
                false,
            ),
        },
    }
}

/// Combine a freshly resolved boolean with the prior result: pop one pending
/// operator (conjunction if none is pending), pop one prior result (identity
/// if the result stack is empty), push the combination.
pub open spec fn spec_combine(results: Seq<bool>, ops: Seq<char>, b: bool) -> (Seq<bool>, Seq<
    char,
>) {
    let op = if ops.len() > 0 {
        ops.last()
    } else {
        '&'
    };
    let ops1 = if ops.len() > 0 {
        ops.drop_last()
    } else {
        ops
    };
    if results.len() > 0 {
        let v = if op == '|' {
            results.last() || b
        } else {
            results.last() && b
        };
        (results.drop_last().push(v), ops1)
    } else {
        (results.push(b), ops1)
    }
}

/// Walk the program left to right, threading the result and operator stacks.
pub open spec fn spec_eval_fold(
    prog: Seq<SpecPred>,
    ctx: SpecCtx,
    results: Seq<bool>,
    ops: Seq<char>,
) -> (Seq<bool>, Seq<char>)
    decreases prog.len(),
{
    if prog.len() == 0 {
        (results, ops)
    } else {
        match prog[0] {
            SpecPred::Delim(c) => spec_eval_fold(prog.skip(1), ctx, results, ops.push(c)),
            _ => {
                let st = spec_combine(results, ops, spec_resolve(prog[0], ctx));
                spec_eval_fold(prog.skip(1), ctx, st.0, st.1)
            },
        }
    }
}

/// The boolean a program reduces to against a context: the walk must leave
/// exactly one result on the stack; any other count yields false.
pub open spec fn spec_eval(prog: Seq<SpecPred>, ctx: SpecCtx) -> bool {
    let st = spec_eval_fold(prog, ctx, Seq::empty(), Seq::empty());
    st.0.len() == 1 && st.0[0]
}

/// Whether comparison `op` holds between `actual` and the literal `lit`.
pub fn op_holds(op: char, actual: &str, lit: &str, whole: bool) -> (r: bool)
    ensures
        r == spec_op_holds(op, actual@, lit@, whole),
{
    if op == '=' {
        str_eq(actual, lit)
    } else if op == '!' {
        whole && !str_eq(actual, lit)
    } else if op == '~' {
        str_contains(actual, lit)
    } else if op == '^' {
        str_starts_with(actual, lit)
    } else if op == '$' {
        str_ends_with(actual, lit)
    } else {
        false
    }
}

/// Resolve one predicate node against a context.
pub fn resolve_pred(p: &Pred, ctx: &Context) -> (r: bool)
    ensures
        r == spec_resolve(p.deep_view(), ctx@),
{
    match p {
        Pred::Delim(_) => false,
        Pred::MatchId(id) => match ctx {
            Context::Whole(c) => c.contains(id.as_str()),
            Context::Single(cur, _) => str_eq(cur.as_str(), id.as_str()),
        },
        Pred::NotMatchId(id) => match ctx {
            Context::Whole(c) => !c.contains(id.as_str()),
            Context::Single(cur, _) => !str_eq(cur.as_str(), id.as_str()),
        },
        Pred::Test(id, prop, op, lit) => match ctx {
            Context::Whole(c) => match c.get(id.as_str()) {
                Some(pm) => match pm.get(prop.as_str()) {
                    Some(actual) => op_holds(*op, actual.as_str(), lit.as_str(), true),
                    None => false,
                },
                None => false,
            },
            Context::Single(cur, pm) => {
                if !str_eq(cur.as_str(), id.as_str()) {
                    false
                } else {
                    match pm.get(prop.as_str()) {
                        Some(actual) => op_holds(*op, actual.as_str(), lit.as_str(), false),
                        None => false,
                    }
                }
            },
        },
    }
}

/// Evaluate a predicate program against one property context.
pub fn eval_program(prog: &Vec<Pred>, ctx: &Context) -> (r: bool)
    ensures
        r == spec_eval(prog.deep_view(), ctx@),
{
    let ghost all = prog.deep_view();
    let mut results: Vec<bool> = Vec::new();
    let mut ops: Vec<char> = Vec::new();
    let mut i: usize = 0;
    proof {
        assert(all.skip(0) =~= all);
        assert(results@ =~= Seq::<bool>::empty());
        assert(ops@ =~= Seq::<char>::empty());
    }
    while i < prog.len()
        invariant
            all == prog.deep_view(),
            i <= prog.len(),
            spec_eval_fold(all, ctx@, Seq::empty(), Seq::empty()) == spec_eval_fold(
                all.skip(i as int),
                ctx@,
                results@,
                ops@,
            ),
        decreases prog.len() - i,
    {
        let ghost rest = all.skip(i as int);
        let ghost pre_results = results@;
        let ghost pre_ops = ops@;
        proof {
            assert(rest[0] == all[i as int]);
            assert(rest.skip(1) =~= all.skip(i as int + 1));
        }
        let node = &prog[i];
        let is_delim = matches!(node, Pred::Delim(_));
        if is_delim {
            match node {
                Pred::Delim(c) => {
                    ops.push(*c);
                    proof {
                        assert(rest[0] == SpecPred::Delim(*c));
                    }
                },
                _ => {},
            }
        } else {
            let b = resolve_pred(node, ctx);
            let op: char = match ops.pop() {
                Some(c) => c,
                None => '&',
            };
            let v: bool = match results.pop() {
                Some(prior) => if op == '|' {
                    prior || b
                } else {
                    prior && b
                },
                None => b,
            };
            results.push(v);
            proof {
                assert(!(rest[0] is Delim));
                assert(b == spec_resolve(rest[0], ctx@));
                let st = spec_combine(pre_results, pre_ops, b);
                assert(results@ =~= st.0);
                assert(ops@ =~= st.1);
            }
        }
        proof {
            assert(spec_eval_fold(rest, ctx@, pre_results, pre_ops) == spec_eval_fold(
                rest.skip(1),
                ctx@,
                results@,
                ops@,
            ));
        }
        i += 1;
    }
    proof {
        assert(all.skip(all.len() as int) =~= Seq::<SpecPred>::empty());
    }
    if results.len() == 1 {
        let r = results[0];
        r
    } else {
        false
    }
}

} // verus!
