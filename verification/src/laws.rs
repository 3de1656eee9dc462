//! The laws of the filter engine: what whole families of expressions
//! compile to, and what the compiled programs answer.
//!
//! Each public proof function here states one guarantee of the engine over
//! all identifiers, literals and contexts it quantifies, end to end: from
//! the raw expression string through tokenizer, parser and evaluator.

use vstd::prelude::*;
use crate::context::SpecCtx;
use crate::eval::{spec_combine, spec_eval, spec_eval_fold, spec_op_holds, spec_resolve};
use crate::filter::spec_program;
use crate::parse::{
    entry_pred, is_cmp_char, is_unfinished, spec_parse, spec_parse_toks, spec_value_step,
    ParseError, SpecEntry, SpecPred,
};
use crate::render::{spec_node_text, spec_render};
use crate::text::contains_seq;
use crate::token::{
    ident_end, is_break_char, is_op_char, is_quote_char, quote_end, spec_tokenize,
    spec_tokenize_at, SpecTok,
};

verus! {

/// A character sequence that tokenizes as one bare identifier: non-empty,
/// not opening with a quote, and free of operator characters and spaces.
pub open spec fn is_plain_ident(id: Seq<char>) -> bool {
    &&& id.len() > 0
    &&& !is_quote_char(id[0])
    &&& forall|k: int| 0 <= k < id.len() ==> !is_break_char(#[trigger] id[k])
}

/// A character sequence that can stand between two quotes of the given
/// kind: it never contains that quote character.
pub open spec fn quotable(v: Seq<char>, q: char) -> bool {
    forall|k: int| 0 <= k < v.len() ==> #[trigger] v[k] != q
}

proof fn lemma_ident_end_value(s: Seq<char>, i: int, j: int)
    requires
        0 <= i <= j <= s.len(),
        forall|k: int| i <= k < j ==> !is_break_char(#[trigger] s[k]),
        j == s.len() || is_break_char(s[j]),
    ensures
        ident_end(s, i) == j,
    decreases j - i,
{
    if i < j {
        lemma_ident_end_value(s, i + 1, j);
    }
}

proof fn lemma_quote_end_value(s: Seq<char>, i: int, j: int, q: char)
    requires
        0 <= i <= j <= s.len(),
        forall|k: int| i <= k < j ==> #[trigger] s[k] != q,
        j == s.len() || s[j] == q,
    ensures
        quote_end(s, i, q) == j,
    decreases j - i,
{
    if i < j {
        lemma_quote_end_value(s, i + 1, j, q);
    }
}

/// An identifier region `[i, j)` contributes one `Ident` token and scanning
/// resumes at `j`.
proof fn lemma_tok_ident_region(s: Seq<char>, i: int, j: int)
    requires
        0 <= i < j <= s.len(),
        !is_quote_char(s[i]),
        forall|k: int| i <= k < j ==> !is_break_char(#[trigger] s[k]),
        j == s.len() || is_break_char(s[j]),
    ensures
        spec_tokenize_at(s, i) == seq![SpecTok::Ident(s.subrange(i, j))] + spec_tokenize_at(s, j),
    decreases j - i,
{
    assert(!is_break_char(s[i]));
    assert(!is_op_char(s[i]) && s[i] != ' ');
    lemma_ident_end_value(s, i + 1, j);
}

/// A terminated quoted literal `[i, j]` (quotes at `i` and `j`) contributes
/// one `Lit` token holding the characters between the quotes, and scanning
/// resumes after the closing quote.
proof fn lemma_tok_lit_region(s: Seq<char>, i: int, j: int)
    requires
        0 <= i < j < s.len(),
        is_quote_char(s[i]),
        s[j] == s[i],
        forall|k: int| i + 1 <= k < j ==> #[trigger] s[k] != s[i],
    ensures
        spec_tokenize_at(s, i) == seq![SpecTok::Lit(s.subrange(i + 1, j))] + spec_tokenize_at(
            s,
            j + 1,
        ),
{
    lemma_quote_end_value(s, i + 1, j, s[i]);
}

/// The expression string `!id`.
pub open spec fn negation_expr(id: Seq<char>) -> Seq<char> {
    seq!['!'] + id
}

/// The expression string `id.prop` followed by a comparison operator and a
/// double-quoted literal.
pub open spec fn property_expr(id: Seq<char>, prop: Seq<char>, c: char, v: Seq<char>) -> Seq<
    char,
> {
    id + seq!['.'] + prop + seq![c] + seq!['"'] + v + seq!['"']
}

/// The expression string `a c b` with one `&` or `|` between two
/// identifiers.
pub open spec fn pair_expr(a: Seq<char>, c: char, b: Seq<char>) -> Seq<char> {
    a + seq![' ', c, ' '] + b
}

/// The expression string `id.` — a property access that ends there.
pub open spec fn dangling_expr(id: Seq<char>) -> Seq<char> {
    id + seq!['.']
}

proof fn lemma_tokenize_plain_ident(id: Seq<char>)
    requires
        is_plain_ident(id),
    ensures
        spec_tokenize(id) == seq![SpecTok::Ident(id)],
{
    lemma_tok_ident_region(id, 0, id.len() as int);
    assert(id.subrange(0, id.len() as int) =~= id);
    assert(spec_tokenize_at(id, id.len() as int) =~= Seq::<SpecTok>::empty());
    assert(spec_tokenize(id) =~= seq![SpecTok::Ident(id)]);
}

proof fn lemma_tokenize_negation(id: Seq<char>)
    requires
        is_plain_ident(id),
    ensures
        spec_tokenize(negation_expr(id)) == seq![SpecTok::Op('!'), SpecTok::Ident(id)],
{
    let s = negation_expr(id);
    assert(s.len() == 1 + id.len());
    assert(s[0] == '!');
    assert(forall|k: int| 0 <= k < id.len() ==> s[1 + k] == #[trigger] id[k]);
    assert(forall|k: int| 1 <= k < s.len() ==> !is_break_char(#[trigger] s[k])) by {
        assert(forall|k: int| 1 <= k < s.len() ==> s[k] == #[trigger] id[k - 1]);
    }
    assert(spec_tokenize_at(s, 0) == seq![SpecTok::Op('!')] + spec_tokenize_at(s, 1));
    lemma_tok_ident_region(s, 1, s.len() as int);
    assert(s.subrange(1, s.len() as int) =~= id);
    assert(spec_tokenize_at(s, s.len() as int) =~= Seq::<SpecTok>::empty());
    assert(spec_tokenize(s) =~= seq![SpecTok::Op('!'), SpecTok::Ident(id)]);
}

proof fn lemma_tokenize_pair(a: Seq<char>, c: char, b: Seq<char>)
    requires
        is_plain_ident(a),
        is_plain_ident(b),
        is_op_char(c),
    ensures
        spec_tokenize(pair_expr(a, c, b)) == seq![
            SpecTok::Ident(a),
            SpecTok::Op(c),
            SpecTok::Ident(b),
        ],
{
    let s = pair_expr(a, c, b);
    let n1 = a.len() as int;
    assert(s.len() == a.len() + 3 + b.len());
    assert(forall|k: int| 0 <= k < n1 ==> s[k] == #[trigger] a[k]);
    assert(s[n1] == ' ');
    assert(s[n1 + 1] == c);
    assert(s[n1 + 2] == ' ');
    assert(forall|k: int| 0 <= k < b.len() ==> s[n1 + 3 + k] == #[trigger] b[k]);
    lemma_tok_ident_region(s, 0, n1);
    assert(s.subrange(0, n1) =~= a);
    assert(spec_tokenize_at(s, n1) == spec_tokenize_at(s, n1 + 1));
    assert(spec_tokenize_at(s, n1 + 1) == seq![SpecTok::Op(c)] + spec_tokenize_at(s, n1 + 2));
    assert(spec_tokenize_at(s, n1 + 2) == spec_tokenize_at(s, n1 + 3));
    assert(forall|k: int| n1 + 3 <= k < s.len() ==> !is_break_char(#[trigger] s[k])) by {
        assert(forall|k: int| n1 + 3 <= k < s.len() ==> s[k] == #[trigger] b[k - n1 - 3]);
    }
    assert(!is_quote_char(s[n1 + 3]));
    lemma_tok_ident_region(s, n1 + 3, s.len() as int);
    assert(s.subrange(n1 + 3, s.len() as int) =~= b);
    assert(spec_tokenize_at(s, s.len() as int) =~= Seq::<SpecTok>::empty());
    assert(spec_tokenize(s) =~= seq![SpecTok::Ident(a), SpecTok::Op(c), SpecTok::Ident(b)]);
}

proof fn lemma_tokenize_property(id: Seq<char>, prop: Seq<char>, c: char, v: Seq<char>)
    requires
        is_plain_ident(id),
        is_plain_ident(prop),
        is_op_char(c),
        quotable(v, '"'),
    ensures
        spec_tokenize(property_expr(id, prop, c, v)) == seq![
            SpecTok::Ident(id),
            SpecTok::Op('.'),
            SpecTok::Ident(prop),
            SpecTok::Op(c),
            SpecTok::Lit(v),
        ],
{
    let s = property_expr(id, prop, c, v);
    let n1 = id.len() as int;
    let n2 = n1 + 1 + prop.len() as int;
    let n3 = n2 + 2 + v.len() as int;
    assert(s.len() == id.len() + prop.len() + v.len() + 4);
    assert(n3 == s.len() - 1);
    assert(forall|k: int| 0 <= k < n1 ==> s[k] == #[trigger] id[k]);
    assert(s[n1] == '.');
    assert(forall|k: int| 0 <= k < prop.len() ==> s[n1 + 1 + k] == #[trigger] prop[k]);
    assert(s[n2] == c);
    assert(s[n2 + 1] == '"');
    assert(forall|k: int| 0 <= k < v.len() ==> s[n2 + 2 + k] == #[trigger] v[k]);
    assert(s[n3] == '"');
    lemma_tok_ident_region(s, 0, n1);
    assert(s.subrange(0, n1) =~= id);
    assert(spec_tokenize_at(s, n1) == seq![SpecTok::Op('.')] + spec_tokenize_at(s, n1 + 1));
    assert(forall|k: int| n1 + 1 <= k < n2 ==> !is_break_char(#[trigger] s[k])) by {
        assert(forall|k: int| n1 + 1 <= k < n2 ==> s[k] == #[trigger] prop[k - n1 - 1]);
    }
    assert(!is_quote_char(s[n1 + 1]));
    lemma_tok_ident_region(s, n1 + 1, n2);
    assert(s.subrange(n1 + 1, n2) =~= prop);
    assert(spec_tokenize_at(s, n2) == seq![SpecTok::Op(c)] + spec_tokenize_at(s, n2 + 1));
    assert(forall|k: int| n2 + 2 <= k < n3 ==> #[trigger] s[k] != s[n2 + 1]) by {
        assert(forall|k: int| n2 + 2 <= k < n3 ==> s[k] == #[trigger] v[k - n2 - 2]);
    }
    lemma_tok_lit_region(s, n2 + 1, n3);
    assert(s.subrange(n2 + 2, n3) =~= v);
    assert(spec_tokenize_at(s, n3 + 1) =~= Seq::<SpecTok>::empty());
    assert(spec_tokenize(s) =~= seq![
        SpecTok::Ident(id),
        SpecTok::Op('.'),
        SpecTok::Ident(prop),
        SpecTok::Op(c),
        SpecTok::Lit(v),
    ]);
}

proof fn lemma_tokenize_dangling(id: Seq<char>)
    requires
        is_plain_ident(id),
    ensures
        spec_tokenize(dangling_expr(id)) == seq![SpecTok::Ident(id), SpecTok::Op('.')],
{
    let s = dangling_expr(id);
    let n1 = id.len() as int;
    assert(s.len() == id.len() + 1);
    assert(forall|k: int| 0 <= k < n1 ==> s[k] == #[trigger] id[k]);
    assert(s[n1] == '.');
    lemma_tok_ident_region(s, 0, n1);
    assert(s.subrange(0, n1) =~= id);
    assert(spec_tokenize_at(s, n1) == seq![SpecTok::Op('.')] + spec_tokenize_at(s, n1 + 1));
    assert(spec_tokenize_at(s, n1 + 1) =~= Seq::<SpecTok>::empty());
    assert(spec_tokenize(s) =~= seq![SpecTok::Ident(id), SpecTok::Op('.')]);
}

/// A token sequence whose fold leaves exactly the given entries on the
/// stack, none unfinished, parses to their predicate images.
proof fn lemma_finish_parse(ts: Seq<SpecTok>, stack: Seq<SpecEntry>)
    requires
        spec_parse_toks(Seq::empty(), Seq::empty(), ts) == Ok::<
            (Seq<SpecEntry>, Seq<SpecEntry>),
            ParseError,
        >((stack, Seq::empty())),
        forall|k: int| 0 <= k < stack.len() ==> !is_unfinished(#[trigger] stack[k]),
    ensures
        spec_parse(ts) == Ok::<Seq<SpecPred>, ParseError>(
            stack.map_values(|e: SpecEntry| entry_pred(e)),
        ),
{
    let fin = stack + Seq::<SpecEntry>::empty();
    assert(fin =~= stack);
}

proof fn lemma_parse_single_ident(id: Seq<char>)
    ensures
        spec_parse(seq![SpecTok::Ident(id)]) == Ok::<Seq<SpecPred>, ParseError>(seq![
            SpecPred::MatchId(id),
        ]),
{
    reveal_with_fuel(spec_parse_toks, 3);
    let ts = seq![SpecTok::Ident(id)];
    let st0 = Seq::<SpecEntry>::empty();
    let st1 = st0.push(SpecEntry::MatchId(id));
    assert(spec_value_step(st0, id) == Ok::<Seq<SpecEntry>, ParseError>(st1));
    assert(ts.skip(1) =~= Seq::<SpecTok>::empty());
    assert(spec_parse_toks(st0, st0, ts) == Ok::<(Seq<SpecEntry>, Seq<SpecEntry>), ParseError>(
        (st1, st0),
    ));
    assert(forall|k: int| 0 <= k < st1.len() ==> !is_unfinished(#[trigger] st1[k]));
    lemma_finish_parse(ts, st1);
    assert(st1.map_values(|e: SpecEntry| entry_pred(e)) =~= seq![SpecPred::MatchId(id)]);
}

proof fn lemma_parse_negation(id: Seq<char>)
    ensures
        spec_parse(seq![SpecTok::Op('!'), SpecTok::Ident(id)]) == Ok::<Seq<SpecPred>, ParseError>(
            seq![SpecPred::NotMatchId(id)],
        ),
{
    reveal_with_fuel(spec_parse_toks, 4);
    let ts = seq![SpecTok::Op('!'), SpecTok::Ident(id)];
    let st0 = Seq::<SpecEntry>::empty();
    let st1 = st0.push(SpecEntry::Delim('!'));
    let st2 = st0.push(SpecEntry::NotMatchId(id));
    assert(st1.drop_last() =~= st0);
    assert(spec_value_step(st1, id) == Ok::<Seq<SpecEntry>, ParseError>(st2));
    assert(ts.skip(1) =~= seq![SpecTok::Ident(id)]);
    assert(ts.skip(1).skip(1) =~= Seq::<SpecTok>::empty());
    assert(spec_parse_toks(st0, st0, ts) == Ok::<(Seq<SpecEntry>, Seq<SpecEntry>), ParseError>(
        (st2, st0),
    ));
    assert(forall|k: int| 0 <= k < st2.len() ==> !is_unfinished(#[trigger] st2[k]));
    lemma_finish_parse(ts, st2);
    assert(st2.map_values(|e: SpecEntry| entry_pred(e)) =~= seq![SpecPred::NotMatchId(id)]);
}

proof fn lemma_parse_property(id: Seq<char>, prop: Seq<char>, c: char, v: Seq<char>)
    requires
        is_cmp_char(c),
    ensures
        spec_parse(
            seq![
                SpecTok::Ident(id),
                SpecTok::Op('.'),
                SpecTok::Ident(prop),
                SpecTok::Op(c),
                SpecTok::Lit(v),
            ],
        ) == Ok::<Seq<SpecPred>, ParseError>(seq![SpecPred::Test(id, prop, c, v)]),
{
    reveal_with_fuel(spec_parse_toks, 7);
    let ts = seq![
        SpecTok::Ident(id),
        SpecTok::Op('.'),
        SpecTok::Ident(prop),
        SpecTok::Op(c),
        SpecTok::Lit(v),
    ];
    let st0 = Seq::<SpecEntry>::empty();
    let st1 = st0.push(SpecEntry::MatchId(id));
    let st2 = st1.push(SpecEntry::Delim('.'));
    let st3 = st0.push(SpecEntry::Partial(id, prop));
    let st4 = st3.push(SpecEntry::Delim(c));
    let st5 = st0.push(SpecEntry::Test(id, prop, c, v));
    assert(spec_value_step(st0, id) == Ok::<Seq<SpecEntry>, ParseError>(st1));
    assert(st2.drop_last() =~= st1);
    assert(st1.drop_last() =~= st0);
    assert(spec_value_step(st2, prop) == Ok::<Seq<SpecEntry>, ParseError>(st3)) by {
        assert(st2.last() == SpecEntry::Delim('.'));
        assert(st1.last() == SpecEntry::MatchId(id));
        assert(st1.drop_last().push(SpecEntry::Partial(id, prop)) =~= st3);
    }
    assert(st4.drop_last() =~= st3);
    assert(st3.drop_last() =~= st0);
    assert(spec_value_step(st4, v) == Ok::<Seq<SpecEntry>, ParseError>(st5)) by {
        assert(st4.last() == SpecEntry::Delim(c));
        assert(!(c == '.'));
        assert(st4.last() != SpecEntry::Delim('.'));
        assert(st3.last() == SpecEntry::Partial(id, prop));
        assert(st3.drop_last().push(SpecEntry::Test(id, prop, c, v)) =~= st5);
    }
    assert(ts.skip(1) =~= seq![
        SpecTok::Op('.'),
        SpecTok::Ident(prop),
        SpecTok::Op(c),
        SpecTok::Lit(v),
    ]);
    assert(ts.skip(1).skip(1) =~= seq![SpecTok::Ident(prop), SpecTok::Op(c), SpecTok::Lit(v)]);
    assert(ts.skip(1).skip(1).skip(1) =~= seq![SpecTok::Op(c), SpecTok::Lit(v)]);
    assert(ts.skip(1).skip(1).skip(1).skip(1) =~= seq![SpecTok::Lit(v)]);
    assert(ts.skip(1).skip(1).skip(1).skip(1).skip(1) =~= Seq::<SpecTok>::empty());
    assert(spec_parse_toks(st0, st0, ts) == Ok::<(Seq<SpecEntry>, Seq<SpecEntry>), ParseError>(
        (st5, st0),
    ));
    assert(forall|k: int| 0 <= k < st5.len() ==> !is_unfinished(#[trigger] st5[k]));
    lemma_finish_parse(ts, st5);
    assert(st5.map_values(|e: SpecEntry| entry_pred(e)) =~= seq![SpecPred::Test(id, prop, c, v)]);
}

proof fn lemma_parse_pair(a: Seq<char>, c: char, b: Seq<char>)
    requires
        c == '&' || c == '|',
    ensures
        spec_parse(seq![SpecTok::Ident(a), SpecTok::Op(c), SpecTok::Ident(b)]) == Ok::<
            Seq<SpecPred>,
            ParseError,
        >(seq![SpecPred::MatchId(a), SpecPred::Delim(c), SpecPred::MatchId(b)]),
{
    reveal_with_fuel(spec_parse_toks, 5);
    let ts = seq![SpecTok::Ident(a), SpecTok::Op(c), SpecTok::Ident(b)];
    let st0 = Seq::<SpecEntry>::empty();
    let st1 = st0.push(SpecEntry::MatchId(a));
    let st2 = st1.push(SpecEntry::Delim(c));
    let st3 = st2.push(SpecEntry::MatchId(b));
    assert(spec_value_step(st0, a) == Ok::<Seq<SpecEntry>, ParseError>(st1));
    assert(st2.last() == SpecEntry::Delim(c));
    assert(!is_cmp_char(c));
    assert(spec_value_step(st2, b) == Ok::<Seq<SpecEntry>, ParseError>(st3));
    assert(ts.skip(1) =~= seq![SpecTok::Op(c), SpecTok::Ident(b)]);
    assert(ts.skip(1).skip(1) =~= seq![SpecTok::Ident(b)]);
    assert(ts.skip(1).skip(1).skip(1) =~= Seq::<SpecTok>::empty());
    assert(spec_parse_toks(st0, st0, ts) == Ok::<(Seq<SpecEntry>, Seq<SpecEntry>), ParseError>(
        (st3, st0),
    ));
    assert(forall|k: int| 0 <= k < st3.len() ==> !is_unfinished(#[trigger] st3[k]));
    lemma_finish_parse(ts, st3);
    assert(st3.map_values(|e: SpecEntry| entry_pred(e)) =~= seq![
        SpecPred::MatchId(a),
        SpecPred::Delim(c),
        SpecPred::MatchId(b),
    ]);
}

proof fn lemma_parse_dangling(id: Seq<char>)
    ensures
        spec_parse(seq![SpecTok::Ident(id), SpecTok::Op('.')]) == Err::<Seq<SpecPred>, ParseError>(
            ParseError::IncompleteProperty,
        ),
{
    reveal_with_fuel(spec_parse_toks, 4);
    let ts = seq![SpecTok::Ident(id), SpecTok::Op('.')];
    let st0 = Seq::<SpecEntry>::empty();
    let st1 = st0.push(SpecEntry::MatchId(id));
    let st2 = st1.push(SpecEntry::Delim('.'));
    assert(spec_value_step(st0, id) == Ok::<Seq<SpecEntry>, ParseError>(st1));
    assert(ts.skip(1) =~= seq![SpecTok::Op('.')]);
    assert(ts.skip(1).skip(1) =~= Seq::<SpecTok>::empty());
    assert(spec_parse_toks(st0, st0, ts) == Ok::<(Seq<SpecEntry>, Seq<SpecEntry>), ParseError>(
        (st2, st0),
    ));
    let fin = st2 + st0;
    assert(fin =~= st2);
    assert(is_unfinished(fin[1]));
    assert(exists|k: int| 0 <= k < fin.len() && is_unfinished(fin[k]));
}

proof fn lemma_eval_single(p: SpecPred, ctx: SpecCtx)
    requires
        !(p is Delim),
    ensures
        spec_eval(seq![p], ctx) == spec_resolve(p, ctx),
{
    reveal_with_fuel(spec_eval_fold, 3);
    let prog = seq![p];
    let e0 = Seq::<bool>::empty();
    let c0 = Seq::<char>::empty();
    let st = spec_combine(e0, c0, spec_resolve(p, ctx));
    assert(st.0 =~= seq![spec_resolve(p, ctx)]);
    assert(prog.skip(1) =~= Seq::<SpecPred>::empty());
    assert(spec_eval_fold(prog, ctx, e0, c0) == st);
}

proof fn lemma_eval_pair(p1: SpecPred, c: char, p2: SpecPred, ctx: SpecCtx)
    requires
        !(p1 is Delim),
        !(p2 is Delim),
    ensures
        spec_eval(seq![p1, SpecPred::Delim(c), p2], ctx) == if c == '|' {
            spec_resolve(p1, ctx) || spec_resolve(p2, ctx)
        } else {
            spec_resolve(p1, ctx) && spec_resolve(p2, ctx)
        },
{
    reveal_with_fuel(spec_eval_fold, 5);
    let prog = seq![p1, SpecPred::Delim(c), p2];
    let e0 = Seq::<bool>::empty();
    let c0 = Seq::<char>::empty();
    let r1 = spec_resolve(p1, ctx);
    let r2 = spec_resolve(p2, ctx);
    let st1 = spec_combine(e0, c0, r1);
    assert(st1.0 =~= seq![r1]);
    assert(st1.1 =~= c0);
    let ops1 = st1.1.push(c);
    let st2 = spec_combine(st1.0, ops1, r2);
    assert(ops1.last() == c);
    assert(ops1.drop_last() =~= c0);
    assert(st1.0.last() == r1);
    assert(st2.0 =~= seq![if c == '|' { r1 || r2 } else { r1 && r2 }]);
    assert(prog.skip(1) =~= seq![SpecPred::Delim(c), p2]);
    assert(prog.skip(1).skip(1) =~= seq![p2]);
    assert(prog.skip(1).skip(1).skip(1) =~= Seq::<SpecPred>::empty());
    assert(spec_eval_fold(prog, ctx, e0, c0) == st2);
}

proof fn lemma_op_reflexive(c: char, v: Seq<char>)
    requires
        c == '=' || c == '~' || c == '^' || c == '$',
    ensures
        spec_op_holds(c, v, v, true),
{
    if c == '~' {
        assert(contains_seq(v, v)) by {
            assert(v.subrange(0, 0 + v.len() as int) =~= v);
        }
    } else if c == '^' {
        assert(v =~= v.subrange(0, v.len() as int));
    } else if c == '$' {
        assert(v =~= v.subrange(v.len() - v.len(), v.len() as int));
    }
}

/// An empty comparison literal matches every property value: the empty
/// string is contained in, a prefix of, and a suffix of every string.
pub proof fn lemma_empty_literal_matches(c: char, actual: Seq<char>, whole: bool)
    requires
        c == '~' || c == '^' || c == '$',
    ensures
        spec_op_holds(c, actual, Seq::empty(), whole),
{
    let e = Seq::<char>::empty();
    if c == '~' {
        assert(contains_seq(actual, e)) by {
            assert(actual.subrange(0, 0 + e.len() as int) =~= e);
        }
    } else if c == '^' {
        assert(e =~= actual.subrange(0, 0));
    } else {
        assert(e =~= actual.subrange(actual.len() as int, actual.len() as int));
    }
}

/// A bare identifier compiles to the single presence-test node, and a
/// whole-container context satisfies it exactly when it contains a record
/// with that identifier.
pub proof fn lemma_identifier_presence(
    id: Seq<char>,
    records: Map<Seq<char>, Map<Seq<char>, Seq<char>>>,
)
    requires
        is_plain_ident(id),
    ensures
        spec_program(id) == Ok::<Seq<SpecPred>, ParseError>(seq![SpecPred::MatchId(id)]),
        spec_eval(seq![SpecPred::MatchId(id)], SpecCtx::Whole(records)) == records.contains_key(
            id,
        ),
{
    lemma_tokenize_plain_ident(id);
    lemma_parse_single_ident(id);
    lemma_eval_single(SpecPred::MatchId(id), SpecCtx::Whole(records));
}

/// `!id` compiles to the single absence-test node, and a whole-container
/// context satisfies it exactly when it does not contain such a record.
pub proof fn lemma_identifier_negation(
    id: Seq<char>,
    records: Map<Seq<char>, Map<Seq<char>, Seq<char>>>,
)
    requires
        is_plain_ident(id),
    ensures
        spec_program(negation_expr(id)) == Ok::<Seq<SpecPred>, ParseError>(seq![
            SpecPred::NotMatchId(id),
        ]),
        spec_eval(seq![SpecPred::NotMatchId(id)], SpecCtx::Whole(records)) == !records.contains_key(
            id,
        ),
{
    lemma_tokenize_negation(id);
    lemma_parse_negation(id);
    lemma_eval_single(SpecPred::NotMatchId(id), SpecCtx::Whole(records));
}

/// `id.prop`, a comparison operator and a quoted literal compile to the
/// single property-test node, and a whole-container context satisfies it
/// exactly when the record exists, has the property, and the comparison
/// holds between the property's value and the literal — equality for `=`,
/// containment for `~`, prefix for `^`, suffix for `$`, inequality for `!`.
pub proof fn lemma_property_comparison(
    id: Seq<char>,
    prop: Seq<char>,
    c: char,
    v: Seq<char>,
    records: Map<Seq<char>, Map<Seq<char>, Seq<char>>>,
)
    requires
        is_plain_ident(id),
        is_plain_ident(prop),
        is_cmp_char(c),
        quotable(v, '"'),
    ensures
        spec_program(property_expr(id, prop, c, v)) == Ok::<Seq<SpecPred>, ParseError>(seq![
            SpecPred::Test(id, prop, c, v),
        ]),
        spec_eval(seq![SpecPred::Test(id, prop, c, v)], SpecCtx::Whole(records)) == (
        records.contains_key(id) && records[id].contains_key(prop) && spec_op_holds(
            c,
            records[id][prop],
            v,
            true,
        )),
{
    lemma_tokenize_property(id, prop, c, v);
    lemma_parse_property(id, prop, c, v);
    lemma_eval_single(SpecPred::Test(id, prop, c, v), SpecCtx::Whole(records));
}

/// An atomic expression reduces to exactly one predicate node, and a
/// context holding exactly the record — and, for a property test, the
/// property value — it names satisfies it.
pub proof fn lemma_atom_matches_named_record(
    id: Seq<char>,
    prop: Seq<char>,
    c: char,
    v: Seq<char>,
    props: Map<Seq<char>, Seq<char>>,
)
    requires
        is_plain_ident(id),
        is_plain_ident(prop),
        c == '=' || c == '~' || c == '^' || c == '$',
        quotable(v, '"'),
    ensures
        spec_program(id) matches Ok(p1) && p1.len() == 1 && spec_eval(
            p1,
            SpecCtx::Whole(Map::empty().insert(id, props)),
        ),
        spec_program(property_expr(id, prop, c, v)) matches Ok(p2) && p2.len() == 1 && spec_eval(
            p2,
            SpecCtx::Whole(Map::empty().insert(id, Map::empty().insert(prop, v))),
        ),
{
    lemma_identifier_presence(id, Map::empty().insert(id, props));
    lemma_property_comparison(id, prop, c, v, Map::empty().insert(id, Map::empty().insert(prop, v)));
    lemma_op_reflexive(c, v);
}

/// `a & b` and `a | b` compile to the three-node program applying the
/// operator between the two presence tests, and evaluate to the conjunction
/// or disjunction of the two. In particular, with only `a` present, `a & b`
/// is false and `a | b` is true.
pub proof fn lemma_pair_connective(
    a: Seq<char>,
    c: char,
    b: Seq<char>,
    records: Map<Seq<char>, Map<Seq<char>, Seq<char>>>,
)
    requires
        is_plain_ident(a),
        is_plain_ident(b),
        c == '&' || c == '|',
    ensures
        spec_program(pair_expr(a, c, b)) == Ok::<Seq<SpecPred>, ParseError>(seq![
            SpecPred::MatchId(a),
            SpecPred::Delim(c),
            SpecPred::MatchId(b),
        ]),
        c == '&' ==> spec_eval(
            seq![SpecPred::MatchId(a), SpecPred::Delim(c), SpecPred::MatchId(b)],
            SpecCtx::Whole(records),
        ) == (records.contains_key(a) && records.contains_key(b)),
        c == '|' ==> spec_eval(
            seq![SpecPred::MatchId(a), SpecPred::Delim(c), SpecPred::MatchId(b)],
            SpecCtx::Whole(records),
        ) == (records.contains_key(a) || records.contains_key(b)),
{
    lemma_tokenize_pair(a, c, b);
    lemma_parse_pair(a, c, b);
    lemma_eval_pair(
        SpecPred::MatchId(a),
        c,
        SpecPred::MatchId(b),
        SpecCtx::Whole(records),
    );
}

/// A property access that ends with the `.` — no operator, no value — is
/// rejected when the program is constructed, never silently accepted.
pub proof fn lemma_dangling_property_rejected(id: Seq<char>)
    requires
        is_plain_ident(id),
    ensures
        spec_program(dangling_expr(id)) == Err::<Seq<SpecPred>, ParseError>(
            ParseError::IncompleteProperty,
        ),
{
    lemma_tokenize_dangling(id);
    lemma_parse_dangling(id);
}

/// The tokens one node's textual form reads back as.
pub open spec fn spec_node_tokens(p: SpecPred) -> Seq<SpecTok> {
    match p {
        SpecPred::Delim(c) => seq![SpecTok::Op(c)],
        SpecPred::MatchId(id) => seq![SpecTok::Ident(id)],
        SpecPred::NotMatchId(id) => seq![SpecTok::Op('!'), SpecTok::Ident(id)],
        SpecPred::Test(id, prop, c, v) => seq![
            SpecTok::Ident(id),
            SpecTok::Op('.'),
            SpecTok::Ident(prop),
            SpecTok::Op(c),
            SpecTok::Lit(v),
        ],
    }
}

/// The tokens a whole program's rendering reads back as.
pub open spec fn spec_prog_tokens(prog: Seq<SpecPred>) -> Seq<SpecTok>
    decreases prog.len(),
{
    if prog.len() == 0 {
        Seq::empty()
    } else {
        spec_node_tokens(prog[0]) + spec_prog_tokens(prog.skip(1))
    }
}

/// A node whose textual form reads back as the node itself: a `&`, `|` or
/// `(` delimiter, identifiers that tokenize whole, and a literal that can
/// stand between double quotes. A comparison-operator delimiter is left
/// out: read back before a value, it would be consumed as that value's
/// identifier-level operator instead of staying a delimiter.
pub open spec fn renderable(p: SpecPred) -> bool {
    match p {
        SpecPred::Delim(c) => c == '&' || c == '|' || c == '(',
        SpecPred::MatchId(id) => is_plain_ident(id),
        SpecPred::NotMatchId(id) => is_plain_ident(id),
        SpecPred::Test(id, prop, c, v) => is_plain_ident(id) && is_plain_ident(prop)
            && is_cmp_char(c) && quotable(v, '"'),
    }
}

/// A program every node of which reads back as itself.
pub open spec fn renderable_prog(prog: Seq<SpecPred>) -> bool {
    forall|k: int| 0 <= k < prog.len() ==> renderable(#[trigger] prog[k])
}

/// One node's text, standing in `s` at position `i` with the rest of the
/// string after it, contributes exactly the node's tokens; the rest must
/// open with a break character (or be empty).
proof fn lemma_tokenize_node_at(s: Seq<char>, i: int, p: SpecPred, tail: Seq<char>)
    requires
        renderable(p),
        0 <= i <= s.len(),
        s.skip(i) == spec_node_text(p) + tail,
        tail.len() > 0 ==> is_break_char(tail[0]),
    ensures
        spec_tokenize_at(s, i) == spec_node_tokens(p) + spec_tokenize_at(
            s,
            i + spec_node_text(p).len(),
        ),
{
    let t = spec_node_text(p);
    assert(s.len() - i == t.len() + tail.len()) by {
        assert(s.skip(i).len() == s.len() - i);
    }
    assert forall|k: int| 0 <= k < t.len() implies s[i + k] == #[trigger] t[k] by {
        assert(s.skip(i)[k] == s[i + k]);
        assert((spec_node_text(p) + tail)[k] == t[k]);
    }
    if tail.len() > 0 {
        assert(s[i + t.len()] == tail[0]) by {
            assert(s.skip(i)[t.len() as int] == s[i + t.len()]);
            assert((spec_node_text(p) + tail)[t.len() as int] == tail[0]);
        }
    }
    match p {
        SpecPred::Delim(c) => {
            assert(t[0] == c);
            assert(s[i] == c) by {
                assert(s[i + 0] == t[0]);
            }
            assert(spec_tokenize_at(s, i) =~= spec_node_tokens(p) + spec_tokenize_at(s, i + 1));
        },
        SpecPred::MatchId(id) => {
            assert(t == id);
            assert forall|k: int| i <= k < i + id.len() implies !is_break_char(
                #[trigger] s[k],
            ) by {
                assert(s[i + (k - i)] == t[k - i]);
                assert(t[k - i] == id[k - i]);
            }
            assert(s[i] == id[0]) by {
                assert(s[i + 0] == t[0]);
            }
            assert(!is_quote_char(s[i]));
            lemma_tok_ident_region(s, i, i + id.len() as int);
            assert(s.subrange(i, i + id.len() as int) =~= id) by {
                assert forall|k: int|
                    0 <= k < id.len() implies s.subrange(i, i + id.len() as int)[k] == id[k] by {
                    assert(s[i + k] == t[k]);
                }
            }
            assert(spec_tokenize_at(s, i) =~= spec_node_tokens(p) + spec_tokenize_at(
                s,
                i + id.len() as int,
            ));
        },
        SpecPred::NotMatchId(id) => {
            assert(t =~= seq!['!'] + id);
            assert(s[i] == '!') by {
                assert(s[i + 0] == t[0]);
            }
            assert(spec_tokenize_at(s, i) == seq![SpecTok::Op('!')] + spec_tokenize_at(s, i + 1));
            assert forall|k: int| i + 1 <= k < i + 1 + id.len() implies !is_break_char(
                #[trigger] s[k],
            ) by {
                assert(s[i + (k - i)] == t[k - i]);
                assert(t[k - i] == id[k - i - 1]);
            }
            assert(s[i + 1] == id[0]) by {
                assert(s[i + 1] == t[1]);
            }
            assert(!is_quote_char(s[i + 1]));
            lemma_tok_ident_region(s, i + 1, i + 1 + id.len() as int);
            assert(s.subrange(i + 1, i + 1 + id.len() as int) =~= id) by {
                assert forall|k: int|
                    0 <= k < id.len() implies s.subrange(i + 1, i + 1 + id.len() as int)[k]
                    == id[k] by {
                    assert(s[i + (k + 1)] == t[k + 1]);
                }
            }
            assert(spec_tokenize_at(s, i) =~= spec_node_tokens(p) + spec_tokenize_at(
                s,
                i + t.len(),
            ));
        },
        SpecPred::Test(id, prop, c, v) => {
            let n1 = i + id.len() as int;
            let n2 = n1 + 1 + prop.len() as int;
            let n3 = n2 + 2 + v.len() as int;
            assert(t.len() == id.len() + prop.len() + v.len() + 4);
            assert forall|k: int| 0 <= k < id.len() implies #[trigger] t[k] == id[k] by {}
            assert(t[id.len() as int] == '.');
            assert forall|k: int|
                0 <= k < prop.len() implies #[trigger] t[id.len() + 1 + k] == prop[k] by {}
            assert(t[id.len() + 1 + prop.len() as int] == c);
            assert(t[id.len() + 2 + prop.len() as int] == '"');
            assert forall|k: int|
                0 <= k < v.len() implies #[trigger] t[id.len() + prop.len() + 3 + k] == v[k] by {}
            assert(t[t.len() - 1] == '"');
            assert forall|k: int| i <= k < n1 implies !is_break_char(#[trigger] s[k]) by {
                assert(s[i + (k - i)] == t[k - i]);
                assert(t[k - i] == id[k - i]);
            }
            assert(s[n1] == '.') by {
                assert(s[i + id.len()] == t[id.len() as int]);
            }
            assert(s[i] == id[0]) by {
                assert(s[i + 0] == t[0]);
            }
            assert(!is_quote_char(s[i]));
            lemma_tok_ident_region(s, i, n1);
            assert(s.subrange(i, n1) =~= id) by {
                assert forall|k: int| 0 <= k < id.len() implies s.subrange(i, n1)[k] == id[k] by {
                    assert(s[i + k] == t[k]);
                }
            }
            assert(spec_tokenize_at(s, n1) == seq![SpecTok::Op('.')] + spec_tokenize_at(
                s,
                n1 + 1,
            ));
            assert forall|k: int| n1 + 1 <= k < n2 implies !is_break_char(#[trigger] s[k]) by {
                assert(s[i + (k - i)] == t[k - i]);
                assert(t[id.len() + 1 + (k - n1 - 1)] == prop[k - n1 - 1]);
            }
            assert(s[n2] == c) by {
                assert(s[i + (id.len() + 1 + prop.len())] == t[id.len() + 1 + prop.len() as int]);
            }
            assert(s[n1 + 1] == prop[0]) by {
                assert(s[i + (id.len() + 1)] == t[id.len() + 1 as int]);
                assert(t[id.len() + 1 + 0 as int] == prop[0]);
            }
            assert(!is_quote_char(s[n1 + 1]));
            assert(is_op_char(c));
            lemma_tok_ident_region(s, n1 + 1, n2);
            assert(s.subrange(n1 + 1, n2) =~= prop) by {
                assert forall|k: int|
                    0 <= k < prop.len() implies s.subrange(n1 + 1, n2)[k] == prop[k] by {
                    assert(s[i + (id.len() + 1 + k)] == t[id.len() + 1 + k]);
                }
            }
            assert(spec_tokenize_at(s, n2) == seq![SpecTok::Op(c)] + spec_tokenize_at(
                s,
                n2 + 1,
            ));
            assert(s[n2 + 1] == '"') by {
                assert(s[i + (id.len() + 2 + prop.len())] == t[id.len() + 2 + prop.len() as int]);
            }
            assert(s[n3] == '"') by {
                assert(s[i + (t.len() - 1)] == t[t.len() - 1]);
            }
            assert forall|k: int| n2 + 2 <= k < n3 implies #[trigger] s[k] != s[n2 + 1] by {
                assert(s[i + (k - i)] == t[k - i]);
                assert(t[id.len() + prop.len() + 3 + (k - n2 - 2)] == v[k - n2 - 2]);
            }
            lemma_tok_lit_region(s, n2 + 1, n3);
            assert(s.subrange(n2 + 2, n3) =~= v) by {
                assert forall|k: int|
                    0 <= k < v.len() implies s.subrange(n2 + 2, n3)[k] == v[k] by {
                    assert(s[i + (id.len() + prop.len() + 3 + k)] == t[id.len() + prop.len() + 3
                        + k]);
                }
            }
            assert(n3 + 1 == i + t.len());
            assert(spec_tokenize_at(s, i) =~= spec_node_tokens(p) + spec_tokenize_at(
                s,
                i + t.len(),
            ));
        },
    }
}

/// A program's rendering, standing in `s` from position `i` to the end,
/// reads back as the program's tokens.
proof fn lemma_tokenize_render_tail(s: Seq<char>, i: int, prog: Seq<SpecPred>)
    requires
        renderable_prog(prog),
        0 <= i <= s.len(),
        s.skip(i) == spec_render(prog),
    ensures
        spec_tokenize_at(s, i) == spec_prog_tokens(prog),
    decreases prog.len(),
{
    if prog.len() == 0 {
        assert(s.skip(i).len() == 0);
        assert(i == s.len());
        assert(spec_tokenize_at(s, i) =~= spec_prog_tokens(prog));
    } else {
        let p = prog[0];
        let t = spec_node_text(p);
        let rest = prog.skip(1);
        assert(renderable(p));
        assert(renderable_prog(rest)) by {
            assert(forall|k: int| 0 <= k < rest.len() ==> rest[k] == #[trigger] prog[k + 1]);
        }
        if prog.len() == 1 {
            assert(spec_render(prog) == t);
            assert(s.skip(i) == t + Seq::<char>::empty()) by {
                assert(t + Seq::<char>::empty() =~= t);
            }
            lemma_tokenize_node_at(s, i, p, Seq::empty());
            assert(s.len() - i == t.len()) by {
                assert(s.skip(i).len() == s.len() - i);
            }
            assert(spec_tokenize_at(s, i + t.len()) =~= Seq::<SpecTok>::empty());
            assert(spec_prog_tokens(rest) =~= Seq::<SpecTok>::empty());
            assert(spec_tokenize_at(s, i) =~= spec_prog_tokens(prog));
        } else {
            let tail = seq![' '] + spec_render(rest);
            assert(spec_render(prog) == t + seq![' '] + spec_render(rest));
            assert(s.skip(i) == t + tail) by {
                assert(t + seq![' '] + spec_render(rest) =~= t + tail);
            }
            assert(tail[0] == ' ');
            lemma_tokenize_node_at(s, i, p, tail);
            assert(s.len() - i == t.len() + tail.len()) by {
                assert(s.skip(i).len() == s.len() - i);
            }
            assert(s[i + t.len()] == ' ') by {
                assert(s.skip(i)[t.len() as int] == s[i + t.len()]);
                assert((t + tail)[t.len() as int] == tail[0]);
            }
            assert(!is_quote_char(' ') && !is_op_char(' '));
            assert(spec_tokenize_at(s, i + t.len()) == spec_tokenize_at(s, i + t.len() + 1));
            assert(s.skip(i + t.len() + 1) =~= spec_render(rest)) by {
                assert forall|k: int|
                    0 <= k < s.len() - i - t.len() - 1 implies s.skip(i + t.len() + 1)[k]
                    == spec_render(rest)[k] by {
                    assert(s.skip(i + t.len() + 1)[k] == s[i + t.len() + 1 + k]);
                    assert(s.skip(i)[t.len() + 1 + k] == s[i + (t.len() + 1 + k)]);
                    assert((t + tail)[t.len() + 1 + k] == tail[1 + k]);
                    assert(tail[1 + k] == spec_render(rest)[k]);
                }
            }
            lemma_tokenize_render_tail(s, i + t.len() + 1, rest);
            assert(spec_tokenize_at(s, i) =~= spec_prog_tokens(prog));
        }
    }
}

/// The working-stack entry a finished node reads back in as.
pub open spec fn pred_entry(p: SpecPred) -> SpecEntry {
    match p {
        SpecPred::Delim(c) => SpecEntry::Delim(c),
        SpecPred::MatchId(x) => SpecEntry::MatchId(x),
        SpecPred::NotMatchId(x) => SpecEntry::NotMatchId(x),
        SpecPred::Test(a, b, c, d) => SpecEntry::Test(a, b, c, d),
    }
}

/// A stack top that lets the next node's tokens land without disturbing
/// it: not a pending `.`-qualified pair, and no pending comparison or `.`
/// delimiter.
pub open spec fn safe_top(e: SpecEntry) -> bool {
    &&& !(e is Partial)
    &&& (e is Delim ==> e->Delim_0 == '&' || e->Delim_0 == '|' || e->Delim_0 == '(')
}

/// One node's tokens push exactly that node's entry onto a stack with a
/// safe top, and leave the output alone.
#[verifier::rlimit(100)]
proof fn lemma_parse_node_step(
    stack: Seq<SpecEntry>,
    out: Seq<SpecEntry>,
    p: SpecPred,
    restts: Seq<SpecTok>,
)
    requires
        renderable(p),
        stack.len() > 0 ==> safe_top(stack.last()),
    ensures
        spec_parse_toks(stack, out, spec_node_tokens(p) + restts) == spec_parse_toks(
            stack.push(pred_entry(p)),
            out,
            restts,
        ),
{
    reveal_with_fuel(spec_parse_toks, 7);
    let ts = spec_node_tokens(p) + restts;
    match p {
        SpecPred::Delim(c) => {
            assert(ts[0] == SpecTok::Op(c));
            assert(c != ')');
            assert(ts.skip(1) =~= restts);
        },
        SpecPred::MatchId(x) => {
            assert(ts[0] == SpecTok::Ident(x));
            assert(spec_value_step(stack, x) == Ok::<Seq<SpecEntry>, ParseError>(
                stack.push(SpecEntry::MatchId(x)),
            ));
            assert(ts.skip(1) =~= restts);
        },
        SpecPred::NotMatchId(x) => {
            assert(ts[0] == SpecTok::Op('!'));
            let st1 = stack.push(SpecEntry::Delim('!'));
            assert(st1.drop_last() =~= stack);
            assert(spec_value_step(st1, x) == Ok::<Seq<SpecEntry>, ParseError>(
                stack.push(SpecEntry::NotMatchId(x)),
            ));
            assert(ts.skip(1) =~= seq![SpecTok::Ident(x)] + restts);
            assert((seq![SpecTok::Ident(x)] + restts)[0] == SpecTok::Ident(x));
            assert((seq![SpecTok::Ident(x)] + restts).skip(1) =~= restts);
        },
        SpecPred::Test(a, b, c, d) => {
            let st1 = stack.push(SpecEntry::MatchId(a));
            let st2 = st1.push(SpecEntry::Delim('.'));
            let st3 = stack.push(SpecEntry::Partial(a, b));
            let st4 = st3.push(SpecEntry::Delim(c));
            let st5 = stack.push(SpecEntry::Test(a, b, c, d));
            assert(ts[0] == SpecTok::Ident(a));
            assert(spec_value_step(stack, a) == Ok::<Seq<SpecEntry>, ParseError>(st1));
            let ts1 = ts.skip(1);
            assert(ts1 =~= seq![
                SpecTok::Op('.'),
                SpecTok::Ident(b),
                SpecTok::Op(c),
                SpecTok::Lit(d),
            ] + restts);
            assert(ts1[0] == SpecTok::Op('.'));
            let ts2 = ts1.skip(1);
            assert(ts2 =~= seq![SpecTok::Ident(b), SpecTok::Op(c), SpecTok::Lit(d)] + restts);
            assert(ts2[0] == SpecTok::Ident(b));
            assert(st2.drop_last() =~= st1);
            assert(st1.drop_last() =~= stack);
            assert(st1.last() == SpecEntry::MatchId(a));
            assert(spec_value_step(st2, b) == Ok::<Seq<SpecEntry>, ParseError>(st3)) by {
                assert(st1.drop_last().push(SpecEntry::Partial(a, b)) =~= st3);
            }
            let ts3 = ts2.skip(1);
            assert(ts3 =~= seq![SpecTok::Op(c), SpecTok::Lit(d)] + restts);
            assert(ts3[0] == SpecTok::Op(c));
            assert(c != ')');
            let ts4 = ts3.skip(1);
            assert(ts4 =~= seq![SpecTok::Lit(d)] + restts);
            assert(ts4[0] == SpecTok::Lit(d));
            assert(st4.drop_last() =~= st3);
            assert(st3.drop_last() =~= stack);
            assert(st3.last() == SpecEntry::Partial(a, b));
            assert(spec_value_step(st4, d) == Ok::<Seq<SpecEntry>, ParseError>(st5)) by {
                assert(st4.last() == SpecEntry::Delim(c));
                assert(st4.last() != SpecEntry::Delim('.'));
                assert(st3.drop_last().push(SpecEntry::Test(a, b, c, d)) =~= st5);
            }
            let ts5 = ts4.skip(1);
            assert(ts5 =~= restts);
        },
    }
}

/// A renderable program's tokens stack its entries, in order, onto any
/// stack with a safe top.
proof fn lemma_parse_render_fold(stack: Seq<SpecEntry>, out: Seq<SpecEntry>, prog: Seq<SpecPred>)
    requires
        renderable_prog(prog),
        stack.len() > 0 ==> safe_top(stack.last()),
    ensures
        spec_parse_toks(stack, out, spec_prog_tokens(prog)) == Ok::<
            (Seq<SpecEntry>, Seq<SpecEntry>),
            ParseError,
        >((stack + prog.map_values(|p: SpecPred| pred_entry(p)), out)),
    decreases prog.len(),
{
    if prog.len() == 0 {
        assert(spec_prog_tokens(prog).len() == 0);
        assert(stack + prog.map_values(|p: SpecPred| pred_entry(p)) =~= stack);
    } else {
        let p = prog[0];
        let rest = prog.skip(1);
        assert(renderable(p));
        assert(renderable_prog(rest)) by {
            assert(forall|k: int| 0 <= k < rest.len() ==> rest[k] == #[trigger] prog[k + 1]);
        }
        lemma_parse_node_step(stack, out, p, spec_prog_tokens(rest));
        let stack1 = stack.push(pred_entry(p));
        assert(safe_top(stack1.last()));
        lemma_parse_render_fold(stack1, out, rest);
        assert(stack1 + rest.map_values(|q: SpecPred| pred_entry(q)) =~= stack + prog.map_values(
            |q: SpecPred| pred_entry(q),
        )) by {
            assert(forall|k: int|
                0 <= k < rest.len() ==> rest.map_values(|q: SpecPred| pred_entry(q))[k]
                    == pred_entry(#[trigger] rest[k]));
            assert(forall|k: int|
                0 <= k < prog.len() ==> prog.map_values(|q: SpecPred| pred_entry(q))[k]
                    == pred_entry(#[trigger] prog[k]));
            assert(forall|k: int| 0 <= k < rest.len() ==> rest[k] == #[trigger] prog[k + 1]);
        }
    }
}

/// Round trip: tokenizing the rendering of a program and parsing the token
/// sequence again yields the very same program — for every program whose
/// delimiters are `&`, `|` or `(` and whose identifiers and literals can
/// stand in an expression.
pub proof fn lemma_render_round_trip(prog: Seq<SpecPred>)
    requires
        renderable_prog(prog),
    ensures
        spec_program(spec_render(prog)) == Ok::<Seq<SpecPred>, ParseError>(prog),
{
    let s = spec_render(prog);
    assert(s.skip(0) =~= s);
    lemma_tokenize_render_tail(s, 0, prog);
    assert(spec_tokenize(s) == spec_prog_tokens(prog));
    lemma_parse_render_fold(Seq::empty(), Seq::empty(), prog);
    let entries = prog.map_values(|p: SpecPred| pred_entry(p));
    assert(Seq::<SpecEntry>::empty() + entries =~= entries);
    let fin = entries + Seq::<SpecEntry>::empty();
    assert(fin =~= entries);
    assert(forall|k: int| 0 <= k < fin.len() ==> !is_unfinished(#[trigger] fin[k])) by {
        assert(forall|k: int|
            0 <= k < entries.len() ==> entries[k] == pred_entry(#[trigger] prog[k]));
    }
    assert(fin.map_values(|e: SpecEntry| entry_pred(e)) =~= prog) by {
        assert(forall|k: int|
            0 <= k < entries.len() ==> entries[k] == pred_entry(#[trigger] prog[k]));
    }
}

} // verus!
