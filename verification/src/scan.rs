//! Counting the members that a line of JSON text writes down.
//!
//! A parsed document keeps one member of each name, so a name that the
//! text repeats is seen only in the text. In JSON text every member, and
//! nothing else, has a colon outside of strings: the colons at a depth are
//! the members written at that depth. The bytes that matter here are all
//! ASCII, and no byte of a longer UTF-8 sequence is.

use vstd::prelude::*;
use vstd::utf8::encode_utf8;

verus! {

/// Where a scan stands: how many brackets are open, whether a string is
/// open and its next byte escaped, and the colons seen so far at depth one
/// and at depth two.
pub struct Marks {
    pub depth: nat,
    pub in_text: bool,
    pub escaped: bool,
    pub outer: nat,
    pub inner: nat,
}

/// The scan before the first byte.
pub open spec fn start() -> Marks {
    Marks { depth: 0, in_text: false, escaped: false, outer: 0, inner: 0 }
}

/// The scan after one more byte.
pub open spec fn advance(m: Marks, b: u8) -> Marks {
    if m.in_text {
        if m.escaped {
            Marks { escaped: false, ..m }
        } else if b == 0x5c {
            Marks { escaped: true, ..m }
        } else if b == 0x22 {
            Marks { in_text: false, ..m }
        } else {
            m
        }
    } else if b == 0x22 {
        Marks { in_text: true, ..m }
    } else if b == 0x7b || b == 0x5b {
        Marks { depth: m.depth + 1, ..m }
    } else if b == 0x7d || b == 0x5d {
        Marks {
            depth: if m.depth > 0 {
                (m.depth - 1) as nat
            } else {
                0
            },
            ..m
        }
    } else if b == 0x3a && m.depth == 1 {
        Marks { outer: m.outer + 1, ..m }
    } else if b == 0x3a && m.depth == 2 {
        Marks { inner: m.inner + 1, ..m }
    } else {
        m
    }
}

/// The scan after all the bytes.
pub open spec fn scanned(bytes: Seq<u8>) -> Marks
    decreases bytes.len(),
{
    if bytes.len() == 0 {
        start()
    } else {
        advance(scanned(bytes.drop_last()), bytes.last())
    }
}

/// How many members the text writes at the top level.
pub open spec fn outer_members(text: Seq<char>) -> nat {
    scanned(encode_utf8(text)).outer
}

/// How many members the text writes one level below the top.
pub open spec fn inner_members(text: Seq<char>) -> nat {
    scanned(encode_utf8(text)).inner
}

/// Counts the members that a line writes at the top level and one level
/// below it.
pub fn count_members(line: &str) -> (r: (usize, usize))
    ensures
        r.0 == outer_members(line@),
        r.1 == inner_members(line@),
{
    let bytes = line.as_bytes();
    let mut depth: usize = 0;
    let mut in_text = false;
    let mut escaped = false;
    let mut outer: usize = 0;
    let mut inner: usize = 0;
    let mut i: usize = 0;
    assert(bytes@.take(0) =~= Seq::<u8>::empty());
    while i < bytes.len()
        invariant
            i <= bytes@.len(),
            depth <= i,
            outer <= i,
            inner <= i,
            scanned(bytes@.take(i as int)) == (Marks {
                depth: depth as nat,
                in_text,
                escaped,
                outer: outer as nat,
                inner: inner as nat,
            }),
        decreases bytes@.len() - i,
    {
        let b = bytes[i];
        assert(bytes@.take(i + 1).drop_last() =~= bytes@.take(i as int));
        assert(bytes@.take(i + 1).last() == b);
        if in_text {
            if escaped {
                escaped = false;
            } else if b == 0x5c {
                escaped = true;
            } else if b == 0x22 {
                in_text = false;
            }
        } else if b == 0x22 {
            in_text = true;
        } else if b == 0x7b || b == 0x5b {
            depth += 1;
        } else if b == 0x7d || b == 0x5d {
            if depth > 0 {
                depth -= 1;
            }
        } else if b == 0x3a && depth == 1 {
            outer += 1;
        } else if b == 0x3a && depth == 2 {
            inner += 1;
        }
        i += 1;
    }
    assert(bytes@.take(bytes@.len() as int) =~= bytes@);
    (outer, inner)
}

} // verus!
