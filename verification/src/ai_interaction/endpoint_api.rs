//! What is asked of the AI endpoint, and what it answers.

use crate::database::chats::SessionType;
use crate::database::configuration::ChatConfiguration;
use crate::database::context::{
    data_views, ContextData, ContextDataView, ContextPart, ContextPartView, ContextPosition,
    WholeContext,
};
use vstd::prelude::*;

verus! {

/// A request to the AI endpoint.
#[derive(PartialEq, Eq, Debug)]
pub enum EndpointRequestVariant {
    /// Answer the dialogue `whole_context`, under `chat_settings` if given;
    /// token by token where `streaming` is set.
    RespondToFullPrompt {
        whole_context: WholeContext,
        streaming: bool,
        session_type: SessionType,
        chat_settings: Option<ChatConfiguration>,
    },
    /// Kept for later use; nothing is done.
    Continue,
}

impl EndpointRequestVariant {
    /// Whether the answer is to come token by token.
    pub fn is_stream(&self) -> (r: bool)
        ensures
            r == match self {
                EndpointRequestVariant::RespondToFullPrompt { streaming, .. } => *streaming,
                EndpointRequestVariant::Continue => false,
            },
    {
        match self {
            EndpointRequestVariant::RespondToFullPrompt { streaming, .. } => *streaming,
            EndpointRequestVariant::Continue => false,
        }
    }
}

/// An answer of the AI endpoint, or a piece of one.
#[derive(PartialEq, Eq, Debug)]
pub enum EndpointResponseVariant {
    /// The first item of a fragment that comes item by item.
    StartStream(ContextData, ContextPosition),
    /// A further item of that fragment.
    ContinueStream(ContextData, ContextPosition),
    /// The last item of a stream.
    EndStream(ContextData),
    /// A whole reply.
    Block(ContextPart),
    /// The whole dialogue, with all that the tools added to it.
    MultiTurnBlock(WholeContext),
}

/// The mathematical value of an [`EndpointResponseVariant`].
pub enum EndpointResponseView {
    StartStream(ContextDataView, ContextPosition),
    ContinueStream(ContextDataView, ContextPosition),
    EndStream(ContextDataView),
    Block(ContextPartView),
    MultiTurnBlock(Seq<ContextPartView>),
}

impl View for EndpointResponseVariant {
    type V = EndpointResponseView;

    open spec fn view(&self) -> EndpointResponseView {
        match self {
            EndpointResponseVariant::StartStream(data, position) => {
                EndpointResponseView::StartStream(data@, *position)
            },
            EndpointResponseVariant::ContinueStream(data, position) => {
                EndpointResponseView::ContinueStream(data@, *position)
            },
            EndpointResponseVariant::EndStream(data) => EndpointResponseView::EndStream(data@),
            EndpointResponseVariant::Block(part) => EndpointResponseView::Block(part@),
            EndpointResponseVariant::MultiTurnBlock(context) => {
                EndpointResponseView::MultiTurnBlock(context@)
            },
        }
    }
}

/// An answer on its way to the caller.
#[derive(PartialEq, Eq, Debug)]
pub struct EndpointResponse {
    pub variant: EndpointResponseVariant,
}

/// The values of a sequence of answers.
pub open spec fn response_views(events: Seq<EndpointResponseVariant>) -> Seq<EndpointResponseView> {
    events.map_values(|e: EndpointResponseVariant| e@)
}

/// The pieces that carry the items `data` of a fragment at `position` to a
/// caller that takes the answer item by item: one start, then continuations.
pub open spec fn stream_events(data: Seq<ContextDataView>, position: ContextPosition) -> Seq<
    EndpointResponseView,
> {
    Seq::new(
        data.len(),
        |i: int|
            if i == 0 {
                EndpointResponseView::StartStream(data[i], position)
            } else {
                EndpointResponseView::ContinueStream(data[i], position)
            },
    )
}

/// The pieces that carry `part` to a caller that takes the answer item by item.
pub fn send_context_part_streaming_blocking(part: &ContextPart) -> (r: Vec<EndpointResponseVariant>)
    ensures
        response_views(r@) == stream_events(part@.data, part@.position),
{
    let data = part.get_data();
    let position = *part.get_position();
    let mut events: Vec<EndpointResponseVariant> = Vec::new();
    let mut i: usize = 0;
    while i < data.len()
        invariant
            i <= data.len(),
            data_views(data@) == part@.data,
            position == part@.position,
            events.len() == i,
            forall|j: int|
                0 <= j < i ==> (#[trigger] events@[j])@ == stream_events(
                    part@.data,
                    part@.position,
                )[j],
        decreases data.len() - i,
    {
        proof {
            assert(data_views(data@)[i as int] == data@[i as int]@);
        }
        let item = data[i].clone();
        if i == 0 {
            events.push(EndpointResponseVariant::StartStream(item, position));
        } else {
            events.push(EndpointResponseVariant::ContinueStream(item, position));
        }
        i += 1;
    }
    proof {
        assert(response_views(events@) =~= stream_events(part@.data, part@.position));
    }
    events
}

/// Gathers the items of a reply that comes item by item, and says how each
/// is passed on to the caller.
pub struct StreamAccumulator {
    total: ContextPart,
}

impl View for StreamAccumulator {
    type V = ContextPartView;

    closed spec fn view(&self) -> ContextPartView {
        self.total@
    }
}

impl StreamAccumulator {
    /// An accumulator for a reply at `position` of which nothing has come yet.
    pub fn new(position: ContextPosition) -> (r: StreamAccumulator)
        ensures
            r@ == (ContextPartView { data: Seq::empty(), position }),
    {
        let data: Vec<ContextData> = Vec::new();
        proof {
            assert(data_views(data@) =~= Seq::empty());
        }
        StreamAccumulator { total: ContextPart::new(data, position) }
    }

    /// Takes in the next item and hands out the piece that passes it on: a
    /// start for the first item, a continuation for each later one.
    pub fn push(&mut self, data: ContextData) -> (r: EndpointResponseVariant)
        ensures
            final(self)@ == (ContextPartView {
                data: old(self)@.data.push(data@),
                position: old(self)@.position,
            }),
            r@ == if old(self)@.data.len() == 0 {
                EndpointResponseView::StartStream(data@, old(self)@.position)
            } else {
                EndpointResponseView::ContinueStream(data@, old(self)@.position)
            },
    {
        let first = self.total.get_data().len() == 0;
        let position = *self.total.get_position();
        self.total.add_data(data.clone());
        if first {
            EndpointResponseVariant::StartStream(data, position)
        } else {
            EndpointResponseVariant::ContinueStream(data, position)
        }
    }

    /// The reply as far as it has come.
    pub fn finish(self) -> (r: ContextPart)
        ensures
            r@ == self@,
    {
        self.total
    }
}

} // verus!
