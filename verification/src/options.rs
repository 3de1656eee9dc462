//! Command-surface decisions: which output format a format option selects,
//! which write options a marker line names, and how a stream of text lines
//! is framed into the items to write back.

use vstd::prelude::*;
use vstd::string::*;
use crate::text::str_eq;

verus! {

/// The output shape a format option selects.
#[derive(PartialEq, Eq, Structural, Clone, Copy, Debug)]
pub enum OutputFormat {
    /// Plain one-line text of the summary.
    SimpleText,
    /// Full text of the whole container view.
    FullText,
    /// Pretty JSON of the summary.
    SimpleJson,
    /// Pretty JSON of the whole container view, framed by markers.
    FullJson,
    /// The file name alone.
    FileName,
    /// No output: the format was omitted or not recognized.
    Silent,
}

/// The format a given option string selects.
pub open spec fn spec_format(s: Seq<char>) -> OutputFormat {
    if s == "t"@ {
        OutputFormat::SimpleText
    } else if s == "tt"@ {
        OutputFormat::FullText
    } else if s == "j"@ {
        OutputFormat::SimpleJson
    } else if s == "jj"@ {
        OutputFormat::FullJson
    } else if s == "f"@ {
        OutputFormat::FileName
    } else {
        OutputFormat::Silent
    }
}

/// Which output shape the optional format option selects; omission selects
/// no output.
pub fn parse_format(fmt: Option<&str>) -> (r: OutputFormat)
    ensures
        fmt is None ==> r == OutputFormat::Silent,
        fmt matches Some(s) ==> r == spec_format(s@),
{
    match fmt {
        None => OutputFormat::Silent,
        Some(s) => {
            if str_eq(s, "t") {
                OutputFormat::SimpleText
            } else if str_eq(s, "tt") {
                OutputFormat::FullText
            } else if str_eq(s, "j") {
                OutputFormat::SimpleJson
            } else if str_eq(s, "jj") {
                OutputFormat::FullJson
            } else if str_eq(s, "f") {
                OutputFormat::FileName
            } else {
                OutputFormat::Silent
            }
        },
    }
}

/// What lowercasing a string yields.
pub uninterp spec fn lower_of(s: Seq<char>) -> Seq<char>;

/// Relies on str::to_lowercase: the result depends on the characters alone.
#[verifier::external_body]
fn lowercase(s: &str) -> (r: String)
    ensures
        r@ == lower_of(s@),
{
    s.to_lowercase()
}

/// What splitting a string on whitespace yields.
pub uninterp spec fn ws_tokens_of(s: Seq<char>) -> Seq<Seq<char>>;

/// Relies on str::split_whitespace: the pieces depend on the characters
/// alone.
#[verifier::external_body]
fn split_ws(s: &str) -> (r: Vec<String>)
    ensures
        r.deep_view() == ws_tokens_of(s@),
{
    s.split_whitespace().map(|w| w.to_string()).collect()
}

/// The write options of one invocation-marker line.
#[derive(PartialEq, Eq, Structural, Clone, Copy, Debug)]
pub struct WriteOptions {
    /// Rewrite the container from scratch instead of updating it.
    pub clean: bool,
}

impl WriteOptions {
    /// The options before any marker line was seen: plain update.
    pub fn none() -> (r: WriteOptions)
        ensures
            !r.clean,
    {
        WriteOptions { clean: false }
    }
}

/// Whether a marker line names the cleaning option: some whitespace-
/// separated word after the three-character marker lowercases to `clean`.
pub open spec fn spec_clean_option(line: Seq<char>) -> bool {
    exists|i: int|
        0 <= i < ws_tokens_of(line.skip(3)).len() && #[trigger] lower_of(
            ws_tokens_of(line.skip(3))[i],
        ) == "clean"@
}

/// Parse the write options a marker line names, case-insensitively.
pub fn parse_write_options(line: &str) -> (r: WriteOptions)
    requires
        line@.len() >= 3,
    ensures
        r.clean == spec_clean_option(line@),
{
    let n = line.unicode_len();
    let rest = line.substring_char(3, n);
    proof {
        assert(rest@ =~= line@.skip(3));
    }
    let toks = split_ws(rest);
    let ghost words = ws_tokens_of(line@.skip(3));
    let mut clean = false;
    let mut i: usize = 0;
    while i < toks.len()
        invariant
            words == toks.deep_view(),
            i <= toks.len(),
            clean == exists|j: int|
                0 <= j < i && #[trigger] lower_of(words[j]) == "clean"@,
        decreases toks.len() - i,
    {
        let low = lowercase(toks[i].as_str());
        if str_eq(low.as_str(), "clean") {
            proof {
                assert(lower_of(words[i as int]) == "clean"@);
            }
            clean = true;
        }
        i += 1;
    }
    WriteOptions { clean }
}

/// Whether a line opens with `//` followed by the given marker character.
pub open spec fn spec_marker(l: Seq<char>, c: char) -> bool {
    l.len() >= 3 && l[0] == '/' && l[1] == '/' && l[2] == c
}

/// Whether a line opens with `//` followed by the given marker character.
pub fn line_marker(l: &str, c: char) -> (r: bool)
    ensures
        r == spec_marker(l@, c),
{
    let n = l.unicode_len();
    n >= 3 && l.get_char(0) == '/' && l.get_char(1) == '/' && l.get_char(2) == c
}

/// The state the line-framing fold threads: the item accumulated so far,
/// the write options in force, and the items emitted so far.
pub open spec fn spec_frame_fold(lines: Seq<String>) -> (Seq<char>, bool, Seq<(Seq<char>, bool)>)
    decreases lines.len(),
{
    if lines.len() == 0 {
        (Seq::empty(), false, Seq::empty())
    } else {
        let st = spec_frame_fold(lines.drop_last());
        let l = lines.last()@;
        if spec_marker(l, '<') {
            (Seq::empty(), spec_clean_option(l), st.2)
        } else if spec_marker(l, '>') {
            (st.0, st.1, st.2.push((st.0, st.1)))
        } else {
            (st.0 + l + seq!['\n'], st.1, st.2)
        }
    }
}

/// The items a stream of lines frames for writing: each `//<` marker opens
/// an item and sets the write options it names, each `//>` marker emits the
/// item accumulated so far under the options in force, and every other line
/// joins the current item with a newline.
pub open spec fn spec_frame_items(lines: Seq<String>) -> Seq<(Seq<char>, bool)> {
    spec_frame_fold(lines).2
}

/// Frame a stream of lines into the items to write, each with its options.
pub fn frame_write_items(lines: &Vec<String>) -> (r: Vec<(String, WriteOptions)>)
    ensures
        r@.len() == spec_frame_items(lines@).len(),
        forall|k: int|
            0 <= k < r@.len() ==> (#[trigger] r@[k]).0@ == spec_frame_items(lines@)[k].0
                && r@[k].1.clean == spec_frame_items(lines@)[k].1,
{
    let ghost all = lines@;
    let mut item = String::new();
    let mut opts = WriteOptions::none();
    let mut acc: Vec<(String, WriteOptions)> = Vec::new();
    let mut i: usize = 0;
    proof {
        assert(all.take(0) =~= Seq::<String>::empty());
    }
    while i < lines.len()
        invariant
            all == lines@,
            i <= lines.len(),
            item@ == spec_frame_fold(all.take(i as int)).0,
            opts.clean == spec_frame_fold(all.take(i as int)).1,
            acc@.len() == spec_frame_fold(all.take(i as int)).2.len(),
            forall|k: int|
                0 <= k < acc@.len() ==> (#[trigger] acc@[k]).0@ == spec_frame_fold(
                    all.take(i as int),
                ).2[k].0 && acc@[k].1.clean == spec_frame_fold(all.take(i as int)).2[k].1,
        decreases lines.len() - i,
    {
        let ghost pre = all.take(i as int);
        proof {
            assert(all.take(i as int + 1).drop_last() =~= pre);
            assert(all.take(i as int + 1).last() == all[i as int]);
        }
        let line = &lines[i];
        if line_marker(line.as_str(), '<') {
            item = String::new();
            opts = parse_write_options(line.as_str());
        } else if line_marker(line.as_str(), '>') {
            acc.push((item.clone(), opts));
        } else {
            item.append(line.as_str());
            item.append("\n");
            proof {
                reveal_strlit("\n");
                assert("\n"@ =~= seq!['\n']);
                assert(item@ =~= spec_frame_fold(pre).0 + all[i as int]@ + seq!['\n']);
            }
        }
        i += 1;
    }
    proof {
        assert(all.take(all.len() as int) =~= all);
    }
    acc
}

} // verus!
