//! The wire codec: one message per line of text, as a JSON object with a
//! single member named after the message kind.

use crate::json::{
    is_flat, is_one_line, is_record, is_scalar, json_parsed, json_text, lemma_object_view,
    member_views, parse_json, print_json, Json, JsonView,
};
use crate::scan::{count_members, inner_members, outer_members};
use crate::signal::{Signal, SignalView};
use vstd::prelude::*;

verus! {

/// Why a line of text is not a message.
#[derive(Debug, Clone, Copy, PartialEq, Eq, Structural)]
pub enum ProtocolError {
    /// The line is not a JSON document.
    NotJson,
    /// The line is JSON, but not one of the three message shapes.
    NotSignal,
}

/// An object with the single member `tag`.
pub open spec fn tagged(tag: Seq<char>, body: JsonView) -> JsonView {
    JsonView::Object(seq![(tag, body)])
}

/// The body written for a candidate: `mline_index`, then `candidate`.
pub open spec fn candidate_body(mline_index: u32, candidate: Seq<char>) -> JsonView {
    JsonView::Object(
        seq![
            ("mline_index"@, JsonView::Number(Some(mline_index as u64))),
            ("candidate"@, JsonView::Text(candidate)),
        ],
    )
}

/// The document written for a message.
pub open spec fn document_of(m: SignalView) -> JsonView {
    match m {
        SignalView::Offer(sdp) => tagged("Offer"@, JsonView::Text(sdp)),
        SignalView::Answer(sdp) => tagged("Answer"@, JsonView::Text(sdp)),
        SignalView::IceCandidate { mline_index, candidate } => tagged(
            "IceCandidate"@,
            candidate_body(mline_index, candidate),
        ),
    }
}

/// The candidate made of an index document and a text document: the index
/// is an integer that fits 32 bits.
pub open spec fn index_and_text(index: JsonView, text: JsonView) -> Option<SignalView> {
    match (index, text) {
        (JsonView::Number(Some(n)), JsonView::Text(c)) => if n <= u32::MAX {
            Some(SignalView::IceCandidate { mline_index: n as u32, candidate: c })
        } else {
            None
        },
        _ => None,
    }
}

/// The value of the first member of that name, if there is one.
pub open spec fn member(fields: Seq<(Seq<char>, JsonView)>, name: Seq<char>) -> Option<JsonView>
    decreases fields.len(),
{
    if fields.len() == 0 {
        None
    } else if fields[0].0 == name {
        Some(fields[0].1)
    } else {
        member(fields.drop_first(), name)
    }
}

/// The candidate that the body of an `IceCandidate` member stands for: it
/// has a member `mline_index` and a member `candidate`, in any order.
/// Members of other names are passed over.
pub open spec fn candidate_of(inner: Seq<(Seq<char>, JsonView)>) -> Option<SignalView> {
    match (member(inner, "mline_index"@), member(inner, "candidate"@)) {
        (Some(index), Some(text)) => index_and_text(index, text),
        _ => None,
    }
}

/// The message that a document stands for, if any: an object with exactly
/// one member, named `Offer`, `Answer` or `IceCandidate`, whose value has
/// the shape of that kind. Any other document, any other member name
/// included, stands for none.
pub open spec fn signal_of_json(doc: JsonView) -> Option<SignalView> {
    match doc {
        JsonView::Object(fields) => if fields.len() != 1 {
            None
        } else if fields[0].0 == "Offer"@ {
            match fields[0].1 {
                JsonView::Text(sdp) => Some(SignalView::Offer(sdp)),
                _ => None,
            }
        } else if fields[0].0 == "Answer"@ {
            match fields[0].1 {
                JsonView::Text(sdp) => Some(SignalView::Answer(sdp)),
                _ => None,
            }
        } else if fields[0].0 == "IceCandidate"@ {
            match fields[0].1 {
                JsonView::Object(inner) => candidate_of(inner),
                _ => None,
            }
        } else {
            None
        },
        _ => None,
    }
}

/// What a line decodes to, given what the parser made of it.
pub open spec fn decoded(parsed: Option<JsonView>) -> Result<SignalView, ProtocolError> {
    match parsed {
        None => Err(ProtocolError::NotJson),
        Some(doc) => match signal_of_json(doc) {
            Some(m) => Ok(m),
            None => Err(ProtocolError::NotSignal),
        },
    }
}

/// How many members the body of a document's first member has, where that
/// body is an object; none otherwise.
pub open spec fn body_members(doc: JsonView) -> nat {
    match doc {
        JsonView::Object(fields) => if fields.len() == 0 {
            0
        } else {
            match fields[0].1 {
                JsonView::Object(inner) => inner.len(),
                _ => 0,
            }
        },
        _ => 0,
    }
}

/// The text writes one member at the top level, and below it as many as
/// the document's body has: no member name is written twice.
pub open spec fn written_once(text: Seq<char>, doc: JsonView) -> bool {
    outer_members(text) == 1 && inner_members(text) == body_members(doc)
}

/// What a line of text decodes to: the message of the document it parses
/// to, unless the text writes a member name twice.
pub open spec fn decoded_line(text: Seq<char>) -> Result<SignalView, ProtocolError> {
    match json_parsed(text) {
        None => Err(ProtocolError::NotJson),
        Some(doc) => match signal_of_json(doc) {
            Some(m) => if written_once(text, doc) {
                Ok(m)
            } else {
                Err(ProtocolError::NotSignal)
            },
            None => Err(ProtocolError::NotSignal),
        },
    }
}

/// The member names of the wire format are pairwise different.
pub proof fn lemma_tags_differ()
    ensures
        "Offer"@ != "Answer"@,
        "Offer"@ != "IceCandidate"@,
        "Answer"@ != "IceCandidate"@,
        "mline_index"@ != "candidate"@,
{
    reveal_strlit("Offer");
    reveal_strlit("Answer");
    reveal_strlit("IceCandidate");
    reveal_strlit("mline_index");
    reveal_strlit("candidate");
    assert("Offer"@.len() == 5);
    assert("Answer"@.len() == 6);
    assert("IceCandidate"@.len() == 12);
    assert("mline_index"@.len() == 11);
    assert("candidate"@.len() == 9);
}

/// Round trip: the document written for a message reads back as that
/// message, for each of the three kinds and for every index, zero and the
/// largest included.
pub proof fn lemma_round_trip(m: SignalView)
    ensures
        signal_of_json(document_of(m)) == Some(m),
        is_flat(document_of(m)),
{
    lemma_tags_differ();
    match m {
        SignalView::IceCandidate { mline_index, candidate } => {
            let body = candidate_body(mline_index, candidate);
            let inner = body->Object_0;
            assert(member(inner, "mline_index"@) == Some(inner[0].1));
            assert(inner.drop_first()[0] == inner[1]);
            assert(member(inner.drop_first(), "candidate"@) == Some(inner[1].1));
            assert(member(inner, "candidate"@) == Some(inner[1].1));
            assert(is_scalar(JsonView::Number(Some(mline_index as u64))));
            assert(is_scalar(JsonView::Text(candidate)));
            assert(is_record(body));
        },
        _ => {},
    }
}

/// Round trip on the wire: where the parser reads back the document that
/// the printer wrote for a message, and the printer wrote each member
/// once, decoding the encoding of the message gives the message.
pub proof fn lemma_round_trip_on_wire(m: SignalView)
    ensures
        ({
            let line = json_text(document_of(m));
            json_parsed(line) == Some(document_of(m)) && written_once(line, document_of(m))
                ==> decoded_line(line) == Ok::<SignalView, ProtocolError>(m)
        }),
{
    lemma_round_trip(m);
}

/// Whether a member name is the given literal.
fn is_key(name: &String, literal: &str) -> (r: bool)
    ensures
        r == (name@ == literal@),
{
    let owned = literal.to_owned();
    name.eq(&owned)
}

/// Reads the two members of a candidate body.
fn index_and_text_of(index: &Json, text: &Json) -> (r: Option<Signal>)
    ensures
        r is Some <==> index_and_text(index@, text@) is Some,
        r matches Some(m) ==> Some(m@) == index_and_text(index@, text@),
{
    match (index, text) {
        (Json::Number(Some(n)), Json::Text(c)) => {
            if *n <= 0xffff_ffffu64 {
                Some(Signal::IceCandidate { mline_index: *n as u32, candidate: c.clone() })
            } else {
                None
            }
        },
        _ => None,
    }
}

/// Finds the first member of a name.
fn find_member(fields: &Vec<(String, Json)>, name: &str) -> (r: Option<usize>)
    ensures
        match r {
            Some(at) => at < fields@.len() && member(member_views(fields@), name@) == Some(
                fields@[at as int].1@,
            ),
            None => member(member_views(fields@), name@) is None,
        },
{
    let ghost all = member_views(fields@);
    let mut i: usize = 0;
    assert(all.skip(0) =~= all);
    while i < fields.len()
        invariant
            i <= fields@.len(),
            all == member_views(fields@),
            member(all, name@) == member(all.skip(i as int), name@),
        decreases fields@.len() - i,
    {
        assert(all.skip(i as int)[0] == all[i as int]);
        assert(all.skip(i as int).drop_first() =~= all.skip(i + 1));
        if is_key(&fields[i].0, name) {
            return Some(i);
        }
        i += 1;
    }
    None
}

/// Reads a candidate out of the body of an `IceCandidate` member.
fn candidate_from(inner: &Vec<(String, Json)>) -> (r: Option<Signal>)
    ensures
        r is Some <==> candidate_of(member_views(inner@)) is Some,
        r matches Some(m) ==> Some(m@) == candidate_of(member_views(inner@)),
{
    match (find_member(inner, "mline_index"), find_member(inner, "candidate")) {
        (Some(index), Some(text)) => index_and_text_of(&inner[index].1, &inner[text].1),
        _ => None,
    }
}

/// Reads a message out of a document.
pub fn from_document(doc: &Json) -> (r: Option<Signal>)
    ensures
        r is Some <==> signal_of_json(doc@) is Some,
        r matches Some(m) ==> Some(m@) == signal_of_json(doc@),
{
    match doc {
        Json::Object(fields) => {
            proof {
                lemma_object_view(*fields);
            }
            if fields.len() != 1 {
                return None;
            }
            let name = &fields[0].0;
            let body = &fields[0].1;
            assert(member_views(fields@)[0] == (name@, body@));
            if is_key(name, "Offer") {
                match body {
                    Json::Text(sdp) => Some(Signal::Offer(sdp.clone())),
                    _ => None,
                }
            } else if is_key(name, "Answer") {
                match body {
                    Json::Text(sdp) => Some(Signal::Answer(sdp.clone())),
                    _ => None,
                }
            } else if is_key(name, "IceCandidate") {
                match body {
                    Json::Object(inner) => {
                        proof {
                            lemma_object_view(*inner);
                        }
                        candidate_from(inner)
                    },
                    _ => None,
                }
            } else {
                None
            }
        },
        _ => None,
    }
}

/// An object with a single member.
fn single_member(name: &str, body: Json) -> (r: Json)
    ensures
        r@ == tagged(name@, body@),
{
    let mut fields: Vec<(String, Json)> = Vec::new();
    fields.push((name.to_owned(), body));
    proof {
        lemma_object_view(fields);
    }
    let r = Json::Object(fields);
    assert(member_views(fields@) =~= seq![(name@, body@)]);
    r
}

/// Writes a message as a document.
pub fn to_document(m: &Signal) -> (doc: Json)
    ensures
        doc@ == document_of(m@),
        signal_of_json(doc@) == Some(m@),
{
    proof {
        lemma_round_trip(m@);
    }
    match m {
        Signal::Offer(sdp) => single_member("Offer", Json::Text(sdp.clone())),
        Signal::Answer(sdp) => single_member("Answer", Json::Text(sdp.clone())),
        Signal::IceCandidate { mline_index, candidate } => {
            let mut inner: Vec<(String, Json)> = Vec::new();
            let index = Json::Number(Some(*mline_index as u64));
            let text = Json::Text(candidate.clone());
            assert(index@ == JsonView::Number(Some(*mline_index as u64)));
            assert(text@ == JsonView::Text(candidate@));
            inner.push(("mline_index".to_owned(), index));
            inner.push(("candidate".to_owned(), text));
            proof {
                lemma_object_view(inner);
            }
            let body = Json::Object(inner);
            assert(member_views(inner@) =~= candidate_body(*mline_index, candidate@)->Object_0);
            single_member("IceCandidate", body)
        },
    }
}

/// Encodes a message as one line of compact JSON, without the newline:
/// the text of the message's document.
pub fn encode(m: &Signal) -> (line: String)
    ensures
        line@ == json_text(document_of(m@)),
        is_one_line(line@),
{
    let doc = to_document(m);
    proof {
        lemma_round_trip(m@);
    }
    print_json(&doc)
}

/// Classifies a parsed line: a message, or the reason it is none.
pub fn classify(parsed: Option<Json>) -> (r: Result<Signal, ProtocolError>)
    ensures
        match parsed {
            Some(doc) => match decoded(Some(doc@)) {
                Ok(m) => r matches Ok(s) && s@ == m,
                Err(e) => r == Err::<Signal, ProtocolError>(e),
            },
            None => r == Err::<Signal, ProtocolError>(ProtocolError::NotJson),
        },
{
    match parsed {
        None => Err(ProtocolError::NotJson),
        Some(doc) => match from_document(&doc) {
            Some(m) => Ok(m),
            None => Err(ProtocolError::NotSignal),
        },
    }
}

/// Counts the members of the body of a document's first member.
fn count_body(doc: &Json) -> (r: usize)
    ensures
        r == body_members(doc@),
{
    match doc {
        Json::Object(fields) => {
            proof {
                lemma_object_view(*fields);
            }
            if fields.len() == 0 {
                0
            } else {
                match &fields[0].1 {
                    Json::Object(inner) => {
                        proof {
                            lemma_object_view(*inner);
                        }
                        inner.len()
                    },
                    _ => 0,
                }
            }
        },
        _ => 0,
    }
}

/// Decodes one line of text. Surrounding whitespace, the trailing newline
/// included, is the parser's to skip. A line that writes a member name
/// twice is no message, whatever the parser keeps of it.
pub fn decode(line: &str) -> (r: Result<Signal, ProtocolError>)
    ensures
        match decoded_line(line@) {
            Ok(m) => r matches Ok(s) && s@ == m,
            Err(e) => r == Err::<Signal, ProtocolError>(e),
        },
{
    let parsed = parse_json(line);
    let expected = match &parsed {
        Some(doc) => count_body(doc),
        None => 0,
    };
    match classify(parsed) {
        Ok(m) => {
            let written = count_members(line);
            if written.0 == 1 && written.1 == expected {
                Ok(m)
            } else {
                Err(ProtocolError::NotSignal)
            }
        },
        Err(e) => Err(e),
    }
}

} // verus!
