//! Messages exchanged through the chat core: a tagged union of a text
//! payload and an opaque binary payload, with its mathematical view.
use vstd::prelude::*;

verus! {

/// Mathematical model of one message: the payload as a sequence of
/// characters (text) or bytes (binary).
pub enum MsgView {
    Text(Seq<char>),
    Binary(Seq<u8>),
}

/// One inbound or outbound chat message. Text payloads are the only ones
/// that the history retains; binary payloads are fanned out and dropped.
pub enum Msg {
    Text(String),
    Binary(Vec<u8>),
}

impl View for Msg {
    type V = MsgView;

    open spec fn view(&self) -> MsgView {
        match self {
            Msg::Text(s) => MsgView::Text(s@),
            Msg::Binary(b) => MsgView::Binary(b@),
        }
    }
}

impl Msg {
    /// Whether this message carries a text payload.
    pub fn is_text(&self) -> (r: bool)
        ensures
            r == self@ is Text,
    {
        match self {
            Msg::Text(_) => true,
            Msg::Binary(_) => false,
        }
    }
}

/// Whether the modelled message carries a text payload.
pub open spec fn is_text_view(m: MsgView) -> bool {
    match m {
        MsgView::Text(_) => true,
        MsgView::Binary(_) => false,
    }
}

/// The text payload of the modelled message; empty for a binary one.
pub open spec fn text_of(m: MsgView) -> Seq<char> {
    match m {
        MsgView::Text(s) => s,
        MsgView::Binary(_) => Seq::empty(),
    }
}

/// The history entries `h`, each seen as the text message that was
/// broadcast when it was appended.
pub open spec fn text_frames(h: Seq<Seq<char>>) -> Seq<MsgView> {
    h.map(|i: int, s: Seq<char>| MsgView::Text(s))
}

} // verus!
