//! Wire values: the unit in which requests and replies travel.

use bytes::Bytes;
use vstd::prelude::*;

use crate::buf::contents;

verus! {

/// One value of the wire protocol.
#[derive(Debug, PartialEq, Eq)]
pub enum Frame {
    /// A short status line.
    Simple(String),
    /// A failure, with a message for a human reader.
    Error(String),
    /// A signed 64-bit number.
    Integer(i64),
    /// A string of arbitrary bytes.
    Bulk(Bytes),
    /// The absence of a bulk string.
    Null,
    /// A sequence of values. A request is an array of bulk strings.
    Array(Vec<Frame>),
}

/// What a [`Frame`] stands for: text as characters, buffers as bytes, arrays
/// as sequences.
pub enum FrameView {
    Simple(Seq<char>),
    Error(Seq<char>),
    Integer(int),
    Bulk(Seq<u8>),
    Null,
    Array(Seq<FrameView>),
}

impl Frame {
    /// The value that this frame stands for.
    pub open spec fn model(self) -> FrameView
        decreases self,
    {
        match self {
            Frame::Simple(s) => FrameView::Simple(s@),
            Frame::Error(s) => FrameView::Error(s@),
            Frame::Integer(n) => FrameView::Integer(n as int),
            Frame::Bulk(b) => FrameView::Bulk(contents(b)),
            Frame::Null => FrameView::Null,
            Frame::Array(items) => FrameView::Array(
                Seq::new(
                    items@.len(),
                    |i: int|
                        if 0 <= i < items@.len() {
                            items@[i].model()
                        } else {
                            arbitrary()
                        },
                ),
            ),
        }
    }
}

impl View for Frame {
    type V = FrameView;

    open spec fn view(&self) -> FrameView {
        self.model()
    }
}

/// The views of a sequence of frames, element by element.
pub open spec fn views(frames: Seq<Frame>) -> Seq<FrameView> {
    Seq::new(frames.len(), |i: int| frames[i]@)
}

/// An array frame stands for the views of its elements.
pub proof fn lemma_array_view(items: Vec<Frame>)
    ensures
        Frame::Array(items)@ == FrameView::Array(views(items@)),
{
    reveal_with_fuel(Frame::model, 2);
    assert(Frame::Array(items)@->Array_0 =~= views(items@));
}

impl Frame {
    /// An array with no elements yet.
    pub fn array() -> (frame: Frame)
        ensures
            frame@ == FrameView::Array(Seq::empty()),
    {
        let items = Vec::new();
        proof {
            lemma_array_view(items);
            assert(views(items@) =~= Seq::empty());
        }
        Frame::Array(items)
    }

    /// Appends a bulk string to an array.
    pub fn push_bulk(&mut self, bytes: Bytes)
        requires
            old(self)@ is Array,
        ensures
            final(self)@ == FrameView::Array(
                old(self)@->Array_0.push(FrameView::Bulk(contents(bytes))),
            ),
    {
        match self {
            Frame::Array(items) => {
                items.push(Frame::Bulk(bytes));
            },
            _ => {},
        }
        proof {
            lemma_array_view(old(self)->Array_0);
            lemma_array_view(self->Array_0);
            assert(views(self->Array_0@) =~= views(old(self)->Array_0@).push(
                FrameView::Bulk(contents(bytes)),
            ));
        }
    }

    /// Appends a number to an array.
    pub fn push_int(&mut self, value: i64)
        requires
            old(self)@ is Array,
        ensures
            final(self)@ == FrameView::Array(
                old(self)@->Array_0.push(FrameView::Integer(value as int)),
            ),
    {
        match self {
            Frame::Array(items) => {
                items.push(Frame::Integer(value));
            },
            _ => {},
        }
        proof {
            lemma_array_view(old(self)->Array_0);
            lemma_array_view(self->Array_0);
            assert(views(self->Array_0@) =~= views(old(self)->Array_0@).push(
                FrameView::Integer(value as int),
            ));
        }
    }
}

} // verus!
