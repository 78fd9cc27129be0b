//! Messages: websocket frames, and the signals that text frames carry.

use vstd::prelude::*;

verus! {

/// Why a websocket was closed.
#[derive(Debug, PartialEq, Eq)]
pub struct CloseFrame {
    pub code: u16,
    pub reason: String,
}

/// A websocket frame.
#[derive(Debug, PartialEq, Eq)]
pub enum Frame {
    Text(String),
    Binary(Vec<u8>),
    Ping(Vec<u8>),
    Pong(Vec<u8>),
    Close(Option<CloseFrame>),
}

/// What a frame holds.
pub enum FrameView {
    Text(Seq<char>),
    Binary(Seq<u8>),
    Ping(Seq<u8>),
    Pong(Seq<u8>),
    Close(Option<(u16, Seq<char>)>),
}

impl View for Frame {
    type V = FrameView;

    open spec fn view(&self) -> FrameView {
        match self {
            Frame::Text(text) => FrameView::Text(text@),
            Frame::Binary(data) => FrameView::Binary(data@),
            Frame::Ping(payload) => FrameView::Ping(payload@),
            Frame::Pong(payload) => FrameView::Pong(payload@),
            Frame::Close(Some(close)) => FrameView::Close(Some((close.code, close.reason@))),
            Frame::Close(None) => FrameView::Close(None),
        }
    }
}

impl Clone for Frame {
    fn clone(&self) -> (copy: Frame)
        ensures
            copy@ == self@,
    {
        match self {
            Frame::Text(text) => Frame::Text(text.clone()),
            Frame::Binary(data) => Frame::Binary(data.clone()),
            Frame::Ping(payload) => Frame::Ping(payload.clone()),
            Frame::Pong(payload) => Frame::Pong(payload.clone()),
            Frame::Close(Some(close)) => Frame::Close(
                Some(CloseFrame { code: close.code, reason: close.reason.clone() }),
            ),
            Frame::Close(None) => Frame::Close(None),
        }
    }
}

/// A request of a peer to the signaling server. On the wire it is a JSON object whose `type`
/// is the name of the request in lower case, with the field below beside it.
#[derive(Debug, PartialEq, Eq)]
pub enum Signal<'a> {
    /// Forward the whole message to the subscribers of `topic`.
    Publish { topic: &'a str },
    /// Subscribe the sender to each of `topics`.
    Subscribe { topics: Vec<&'a str> },
    /// Take the sender out of each of `topics`.
    Unsubscribe { topics: Vec<&'a str> },
}

/// What a signal holds.
pub enum SignalView {
    Publish { topic: Seq<char> },
    Subscribe { topics: Seq<Seq<char>> },
    Unsubscribe { topics: Seq<Seq<char>> },
}

/// The names in a list of string slices.
pub open spec fn names(list: Seq<&str>) -> Seq<Seq<char>> {
    list.map_values(|name: &str| name@)
}

/// The names in a list of strings.
pub open spec fn owned_names(list: Seq<String>) -> Seq<Seq<char>> {
    list.map_values(|name: String| name@)
}

impl<'a> View for Signal<'a> {
    type V = SignalView;

    open spec fn view(&self) -> SignalView {
        match self {
            Signal::Publish { topic } => SignalView::Publish { topic: topic@ },
            Signal::Subscribe { topics } => SignalView::Subscribe { topics: names(topics@) },
            Signal::Unsubscribe { topics } => SignalView::Unsubscribe { topics: names(topics@) },
        }
    }
}

/// A frame that arrived from a peer, a text frame together with the signal that it carries.
#[derive(Debug, PartialEq, Eq)]
pub enum Incoming<'a> {
    Text { json: &'a str, signal: Signal<'a> },
    Binary(Vec<u8>),
    Ping(Vec<u8>),
    Pong(Vec<u8>),
    Close(Option<CloseFrame>),
}

/// What of an arrived frame matters to the server.
pub enum IncomingView {
    Text { json: Seq<char>, signal: SignalView },
    Binary,
    Ping(Seq<u8>),
    Pong,
    Close,
}

impl<'a> View for Incoming<'a> {
    type V = IncomingView;

    open spec fn view(&self) -> IncomingView {
        match self {
            Incoming::Text { json, signal } => IncomingView::Text { json: json@, signal: signal@ },
            Incoming::Binary(_) => IncomingView::Binary,
            Incoming::Ping(payload) => IncomingView::Ping(payload@),
            Incoming::Pong(_) => IncomingView::Pong,
            Incoming::Close(_) => IncomingView::Close,
        }
    }
}

} // verus!
