//! Rendering a predicate program back to a filter-expression string.
//!
//! Each node has a textual form; the program's rendering is its nodes'
//! forms joined by single spaces. For programs whose delimiters are only
//! `&` and `|` — and whose identifiers and literals can stand in an
//! expression — re-tokenizing and re-parsing the rendering yields the very
//! same program; that law lives with the others.

use vstd::prelude::*;
use vstd::string::*;
use crate::parse::{Pred, SpecPred};

verus! {

/// The textual form of one node: the delimiter character itself, the bare
/// identifier, `!` before a negated identifier, or the dotted property
/// access with its operator and double-quoted literal.
pub open spec fn spec_node_text(p: SpecPred) -> Seq<char> {
    match p {
        SpecPred::Delim(c) => seq![c],
        SpecPred::MatchId(id) => id,
        SpecPred::NotMatchId(id) => seq!['!'] + id,
        SpecPred::Test(id, prop, c, v) => id + seq!['.'] + prop + seq![c] + seq!['"'] + v
            + seq!['"'],
    }
}

/// The textual form of a program: its nodes' forms joined by single spaces.
pub open spec fn spec_render(prog: Seq<SpecPred>) -> Seq<char>
    decreases prog.len(),
{
    if prog.len() == 0 {
        Seq::empty()
    } else if prog.len() == 1 {
        spec_node_text(prog[0])
    } else {
        spec_node_text(prog[0]) + seq![' '] + spec_render(prog.skip(1))
    }
}

/// Relies on char::to_string: the one-character string of a character.
#[verifier::external_body]
fn char_to_string(c: char) -> (r: String)
    ensures
        r@ == seq![c],
{
    c.to_string()
}

/// Append one node's textual form.
fn append_node(out: &mut String, p: &Pred)
    ensures
        final(out)@ == old(out)@ + spec_node_text(p.deep_view()),
{
    let ghost pre = out@;
    match p {
        Pred::Delim(c) => {
            let s = char_to_string(*c);
            out.append(s.as_str());
        },
        Pred::MatchId(id) => {
            out.append(id.as_str());
        },
        Pred::NotMatchId(id) => {
            out.append("!");
            out.append(id.as_str());
            proof {
                reveal_strlit("!");
                assert(out@ =~= pre + (seq!['!'] + id@));
            }
        },
        Pred::Test(id, prop, c, v) => {
            out.append(id.as_str());
            out.append(".");
            out.append(prop.as_str());
            let s = char_to_string(*c);
            out.append(s.as_str());
            out.append("\"");
            out.append(v.as_str());
            out.append("\"");
            proof {
                reveal_strlit(".");
                reveal_strlit("\"");
                assert(out@ =~= pre + (id@ + seq!['.'] + prop@ + seq![*c] + seq!['"'] + v@
                    + seq!['"']));
            }
        },
    }
}

/// Render a program's nodes, joined by single spaces.
pub fn render_program(prog: &Vec<Pred>) -> (r: String)
    ensures
        r@ == spec_render(prog.deep_view()),
{
    let ghost all = prog.deep_view();
    let mut out = String::new();
    let mut i: usize = 0;
    proof {
        assert(out@ =~= Seq::<char>::empty());
        assert(all.skip(0) =~= all);
        assert(out@ + spec_render(all) =~= spec_render(all));
    }
    while i < prog.len()
        invariant
            all == prog.deep_view(),
            i <= prog.len(),
            out@ + spec_render(all.skip(i as int)) == spec_render(all),
        decreases prog.len() - i,
    {
        let ghost pre = out@;
        let ghost rest = all.skip(i as int);
        proof {
            assert(rest[0] == all[i as int]);
            assert(rest.skip(1) =~= all.skip(i as int + 1));
        }
        append_node(&mut out, &prog[i]);
        if i + 1 < prog.len() {
            out.append(" ");
            proof {
                reveal_strlit(" ");
                assert(rest.len() > 1);
                assert(spec_render(rest) == spec_node_text(rest[0]) + seq![' '] + spec_render(
                    rest.skip(1),
                ));
                assert(out@ =~= pre + spec_node_text(rest[0]) + seq![' ']);
                assert(out@ + spec_render(all.skip(i as int + 1)) =~= pre + spec_render(rest));
            }
        } else {
            proof {
                assert(rest.len() == 1);
                assert(spec_render(rest) == spec_node_text(rest[0]));
                assert(out@ + spec_render(all.skip(i as int + 1)) =~= pre + spec_render(rest));
                assert(all.skip(i as int + 1) =~= Seq::<SpecPred>::empty());
            }
        }
        i += 1;
    }
    proof {
        assert(all.skip(all.len() as int) =~= Seq::<SpecPred>::empty());
        assert(out@ =~= out@ + spec_render(all.skip(all.len() as int)));
    }
    out
}

} // verus!
