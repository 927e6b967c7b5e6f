//! The signaling message model: a closed set of negotiation message kinds.

use vstd::prelude::*;

verus! {

/// A connectivity candidate: an opaque descriptor and the media line it
/// applies to.
#[derive(Debug, Clone, PartialEq, Eq)]
pub struct Candidate {
    pub mline_index: u32,
    pub candidate: String,
}

/// Mathematical value of a [`Candidate`].
pub struct CandidateView {
    pub mline_index: u32,
    pub candidate: Seq<char>,
}

impl View for Candidate {
    type V = CandidateView;

    open spec fn view(&self) -> CandidateView {
        CandidateView { mline_index: self.mline_index, candidate: self.candidate@ }
    }
}

/// One negotiation message as it travels between peers.
#[derive(Debug, Clone, PartialEq, Eq)]
pub enum Signal {
    Offer(String),
    Answer(String),
    IceCandidate { mline_index: u32, candidate: String },
}

/// Mathematical value of a [`Signal`].
pub enum SignalView {
    Offer(Seq<char>),
    Answer(Seq<char>),
    IceCandidate { mline_index: u32, candidate: Seq<char> },
}

impl View for Signal {
    type V = SignalView;

    open spec fn view(&self) -> SignalView {
        match self {
            Signal::Offer(sdp) => SignalView::Offer(sdp@),
            Signal::Answer(sdp) => SignalView::Answer(sdp@),
            Signal::IceCandidate { mline_index, candidate } => SignalView::IceCandidate {
                mline_index: *mline_index,
                candidate: candidate@,
            },
        }
    }
}

} // verus!
