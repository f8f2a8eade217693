//! The line format spoken with the filter tool.
//!
//! Each candidate goes out as one line, `<id>, '<name>'`, the id in decimal
//! and the name as it is. The answer is read as an id, a comma, and a name.

use crate::decimal::{
    format_i64, lemma_format_chars, lemma_parse_format, parse_decimal_in, parse_i64, push_i64,
};
use crate::error::{ProtocolFault, TabError};
use crate::text::{chars_of, is_whitespace, trim, trim_bounds, trim_end, trim_start};
use crate::tree::{candidate_of, candidates_view, flatten, Node};
use crate::tree_laws::{is_path, lemma_candidate_at_position, node_at, position};
use vstd::prelude::*;
use vstd::string::*;

verus! {

/// Whether `s` holds a comma.
pub open spec fn has_comma(s: Seq<char>) -> bool {
    exists|i: int| 0 <= i < s.len() && s[i] == ','
}

/// Whether the first comma of `s` stands at `i`.
pub open spec fn is_first_comma(s: Seq<char>, i: int) -> bool {
    &&& 0 <= i < s.len()
    &&& s[i] == ','
    &&& forall|j: int| 0 <= j < i ==> s[j] != ','
}

/// The place of the first comma of `s`, where it holds one.
pub open spec fn first_comma(s: Seq<char>) -> int {
    choose|i: int| is_first_comma(s, i)
}

/// The line that offers one candidate to the filter tool.
pub open spec fn encode_line(candidate: (i64, Seq<char>)) -> Seq<char> {
    format_i64(candidate.0) + seq![',', ' ', '\''] + candidate.1 + seq!['\'', '\n']
}

/// What stands behind the comma when the filter tool hands a line back as
/// it got it: the name as it went out, between its quotes.
pub open spec fn quoted(name: Seq<char>) -> Seq<char> {
    seq![' ', '\''] + name + seq!['\'', '\n']
}

/// The selection that an answer of the filter tool holds, or why it holds
/// none. An empty answer means that nothing was chosen. Any other answer is
/// parted at its first comma: what stands before it, white space at either
/// end left out, is the id; what stands behind it is the name, as it is.
pub open spec fn decode(answer: Seq<char>) -> Result<(i64, Seq<char>), TabError> {
    if answer.len() == 0 {
        Err(TabError::EmptyFilterResult)
    } else if !has_comma(answer) {
        Err(TabError::ProtocolViolation(ProtocolFault::MissingSeparator))
    } else {
        let at = first_comma(answer);
        match parse_i64(trim(answer.take(at))) {
            Some(id) => Ok((id, answer.skip(at + 1))),
            None => Err(TabError::ProtocolViolation(ProtocolFault::InvalidId)),
        }
    }
}

/// Whether `result` is what `decode` says of an answer.
pub open spec fn matches_decoded(
    result: Result<(i64, String), TabError>,
    decoded: Result<(i64, Seq<char>), TabError>,
) -> bool {
    match decoded {
        Ok((id, name)) => result is Ok && result->Ok_0.0 == id && result->Ok_0.1@ == name,
        Err(e) => result == Err::<(i64, String), TabError>(e),
    }
}

/// The line that offers the candidate `(id, name)` to the filter tool.
pub fn candidate_line(id: i64, name: &str) -> (line: String)
    ensures
        line@ == encode_line((id, name@)),
{
    proof {
        reveal_strlit(", '");
        reveal_strlit("'\n");
    }
    let mut line = String::new();
    push_i64(&mut line, id);
    line.append(", '");
    line.append(name);
    line.append("'\n");
    assert(line@ =~= encode_line((id, name@)));
    line
}

/// The lines that offer `ids_names` to the filter tool, one for each
/// candidate and in their order.
pub fn candidate_lines(ids_names: &Vec<(i64, String)>) -> (lines: Vec<String>)
    ensures
        lines@.len() == ids_names@.len(),
        forall|i: int|
            0 <= i < lines@.len() ==> (#[trigger] lines@[i])@ == encode_line(
                candidates_view(ids_names@)[i],
            ),
{
    let mut lines: Vec<String> = Vec::new();
    let mut i: usize = 0;
    while i < ids_names.len()
        invariant
            i <= ids_names@.len(),
            lines@.len() == i,
            forall|k: int|
                0 <= k < i ==> (#[trigger] lines@[k])@ == encode_line(
                    candidates_view(ids_names@)[k],
                ),
        decreases ids_names@.len() - i,
    {
        let line = candidate_line(ids_names[i].0, ids_names[i].1.as_str());
        lines.push(line);
        i += 1;
    }
    lines
}

/// How running the filter tool ended.
pub enum FilterOutcome {
    /// It could not be started; the text says why.
    SpawnFailed(String),
    /// It was started, and what it wrote could not be collected.
    WaitFailed,
    /// It ran and wrote this.
    Output(String),
}

/// The selection that a run of the filter tool gave, or why it gave none.
pub open spec fn outcome_result(outcome: FilterOutcome) -> Result<(i64, Seq<char>), TabError> {
    match outcome {
        FilterOutcome::SpawnFailed(detail) => Err(TabError::FilterCommandFailed(detail)),
        FilterOutcome::WaitFailed => Err(TabError::EmptyFilterResult),
        FilterOutcome::Output(text) => decode(text@),
    }
}

/// Reads the selection out of `output`, all that the filter tool wrote.
pub fn parse_selection(output: &str) -> (result: Result<(i64, String), TabError>)
    ensures
        matches_decoded(result, decode(output@)),
{
    let chars = chars_of(output);
    let n = chars.len();
    if n == 0 {
        return Err(TabError::EmptyFilterResult);
    }
    let mut at: usize = 0;
    while at < n && chars[at] != ','
        invariant
            at <= n,
            n == chars@.len(),
            forall|j: int| 0 <= j < at ==> chars@[j] != ',',
        decreases n - at,
    {
        at += 1;
    }
    if at == n {
        return Err(TabError::ProtocolViolation(ProtocolFault::MissingSeparator));
    }
    assert(is_first_comma(chars@, at as int));
    assert(first_comma(chars@) == at);
    assert(chars@.take(at as int) == chars@.subrange(0, at as int));
    let (from, to) = trim_bounds(&chars, 0, at);
    match parse_decimal_in(&chars, from, to) {
        Some(id) => {
            let name = output.substring_char(at + 1, n).to_owned();
            assert(chars@.skip(at + 1) == chars@.subrange(at + 1, n as int));
            Ok((id, name))
        },
        None => Err(TabError::ProtocolViolation(ProtocolFault::InvalidId)),
    }
}

/// Turns the way a run of the filter tool ended into a selection or an error.
pub fn filter_result(outcome: FilterOutcome) -> (result: Result<(i64, String), TabError>)
    ensures
        matches_decoded(result, outcome_result(outcome)),
{
    match outcome {
        FilterOutcome::SpawnFailed(detail) => Err(TabError::FilterCommandFailed(detail)),
        FilterOutcome::WaitFailed => Err(TabError::EmptyFilterResult),
        FilterOutcome::Output(text) => parse_selection(text.as_str()),
    }
}

/// An answer holds no selection, and nothing is made up in its place, in
/// three cases only: it is empty, which is no more than nothing chosen; it
/// holds no comma; or what stands before its first comma is no integer. The
/// last two are fatal.
pub proof fn lemma_decode_errors(answer: Seq<char>)
    ensures
        decode(answer) == Err::<(i64, Seq<char>), TabError>(TabError::EmptyFilterResult)
            <==> answer.len() == 0,
        decode(answer) is Err && decode(answer)->Err_0.is_fatal() <==> answer.len() > 0 && (
        !has_comma(answer) || parse_i64(trim(answer.take(first_comma(answer)))) is None),
        decode(answer) is Ok ==> parse_i64(trim(answer.take(first_comma(answer)))) == Some(
            decode(answer)->Ok_0.0,
        ),
{
}

/// A line that the filter tool hands back as it got it holds the id that
/// went out, and the name that went out between its quotes.
pub proof fn lemma_decode_encode(id: i64, name: Seq<char>)
    ensures
        decode(encode_line((id, name))) == Ok::<(i64, Seq<char>), TabError>((id, quoted(name))),
{
    let number = format_i64(id);
    let line = encode_line((id, name));
    let at = number.len() as int;
    lemma_format_chars(id);
    lemma_parse_format(id);
    assert(line[at] == ',');
    assert forall|j: int| 0 <= j < at implies line[j] != ',' by {
        assert(line[j] == number[j]);
    }
    assert(is_first_comma(line, at));
    assert(first_comma(line) == at);
    assert(line.take(at) == number);
    assert(!is_whitespace(number[0]));
    assert(!is_whitespace(number.last()));
    assert(trim_start(number) == number);
    assert(trim_end(number) == number);
    assert(line.skip(at + 1) == quoted(name));
}

/// Whichever element of the tree the user picks, the line that stands for
/// it among those offered, handed back as it is, selects that element's id.
pub proof fn lemma_offered_line_selects(root: Node, path: Seq<int>)
    requires
        is_path(root, path),
    ensures
        0 <= position(root, path) < flatten(root).len(),
        decode(encode_line(flatten(root)[position(root, path)])) == Ok::<
            (i64, Seq<char>),
            TabError,
        >((node_at(root, path).id, quoted(candidate_of(node_at(root, path)).1))),
{
    lemma_candidate_at_position(root, path);
    let chosen = candidate_of(node_at(root, path));
    lemma_decode_encode(chosen.0, chosen.1);
}

} // verus!
