//! The bridge's side of the wire: framing outbound messages as lines, and
//! sifting the messages out of the inbound lines.

use crate::codec::{decode, decoded_line, document_of, encode};
use crate::json::{is_one_line, json_text};
use crate::signal::{Signal, SignalView};
use vstd::prelude::*;
use vstd::string::StringExecFns;

verus! {

/// The values of a sequence of messages.
pub open spec fn signal_views(ms: Seq<Signal>) -> Seq<SignalView> {
    ms.map_values(|m: Signal| m@)
}

/// The texts of a sequence of lines.
pub open spec fn texts(lines: Seq<String>) -> Seq<Seq<char>> {
    lines.map_values(|l: String| l@)
}

/// The messages that a sequence of inbound lines delivers, oldest first:
/// each line that decodes contributes its message, each other line nothing.
pub open spec fn delivered(lines: Seq<Seq<char>>) -> Seq<SignalView>
    decreases lines.len(),
{
    if lines.len() == 0 {
        Seq::empty()
    } else {
        match decoded_line(lines.last()) {
            Ok(m) => delivered(lines.drop_last()).push(m),
            Err(_) => delivered(lines.drop_last()),
        }
    }
}

/// Frames a message for the wire: its encoding, then a newline, which is
/// the only one in the line.
pub fn frame(m: &Signal) -> (line: String)
    ensures
        line@ == json_text(document_of(m@)).push('\n'),
        is_one_line(line@.drop_last()),
{
    let mut line = encode(m);
    let ghost body = line@;
    proof {
        reveal_strlit("\n");
    }
    line.append("\n");
    assert("\n"@ =~= seq!['\n']);
    assert(line@ =~= body.push('\n'));
    assert(line@.drop_last() =~= body);
    line
}

/// Sifts the inbound lines: the messages of the lines that decode, in the
/// order of arrival. A line that does not decode is dropped by itself.
pub fn sift(lines: &Vec<String>) -> (out: Vec<Signal>)
    ensures
        signal_views(out@) == delivered(texts(lines@)),
{
    let mut out: Vec<Signal> = Vec::new();
    let mut i: usize = 0;
    assert(texts(lines@).take(0) =~= Seq::empty());
    assert(signal_views(out@) =~= Seq::empty());
    while i < lines.len()
        invariant
            i <= lines@.len(),
            signal_views(out@) == delivered(texts(lines@).take(i as int)),
        decreases lines@.len() - i,
    {
        let ghost sofar = out@;
        assert(texts(lines@).take(i + 1).drop_last() =~= texts(lines@).take(i as int));
        assert(texts(lines@).take(i + 1).last() == lines@[i as int]@);
        match decode(lines[i].as_str()) {
            Ok(m) => {
                out.push(m);
                assert(signal_views(sofar.push(m)) =~= signal_views(sofar).push(m@));
            },
            Err(_) => {},
        }
        i += 1;
    }
    assert(texts(lines@).take(lines@.len() as int) =~= texts(lines@));
    out
}

/// What two runs of lines deliver one after the other is what they deliver
/// as one run.
pub proof fn lemma_delivered_concat(a: Seq<Seq<char>>, b: Seq<Seq<char>>)
    ensures
        delivered(a + b) == delivered(a) + delivered(b),
    decreases b.len(),
{
    if b.len() == 0 {
        assert(a + b =~= a);
        assert(delivered(a) + delivered(b) =~= delivered(a));
    } else {
        lemma_delivered_concat(a, b.drop_last());
        assert((a + b).drop_last() =~= a + b.drop_last());
        assert((a + b).last() == b.last());
        match decoded_line(b.last()) {
            Ok(m) => {
                assert((delivered(a) + delivered(b.drop_last())).push(m) =~= delivered(a)
                    + delivered(b.drop_last()).push(m));
            },
            Err(_) => {},
        }
    }
}

/// Resilience to garbage: a line that does not decode takes nothing from
/// the lines around it. What comes before it and what comes after it are
/// delivered as if it had not been there.
pub proof fn lemma_garbage_skipped(before: Seq<Seq<char>>, bad: Seq<char>, after: Seq<Seq<char>>)
    requires
        decoded_line(bad) is Err,
    ensures
        delivered(before.push(bad) + after) == delivered(before + after),
        delivered(before.push(bad) + after) == delivered(before) + delivered(after),
{
    lemma_delivered_concat(before.push(bad), after);
    lemma_delivered_concat(before, after);
    assert(before.push(bad).drop_last() =~= before);
}

} // verus!
