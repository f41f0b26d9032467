use crate::editor::command::messages::{
    lemma_multiple_view, message_views, plain, ServerCommand, ServerCommandView,
    ServerToClientMessage, ServerToClientMessageView,
};
use crate::editor::{presence_ids, presence_views, EditorSession, Presence};
use crate::util::copy_vec;
use vstd::prelude::*;

verus! {

/// A message that waits in the dispatcher, with the presences it is for.
/// `None` stands for everybody who is connected when the dispatcher is flushed.
#[derive(Debug, PartialEq, Eq)]
pub struct DispatcherMessage {
    pub message: ServerToClientMessage,
    pub presences: Option<Vec<usize>>,
}

/// The messages that a tick has produced so far, in the order in which they
/// were scheduled.
#[derive(Debug, PartialEq, Eq)]
pub struct Dispatcher {
    messages: Vec<DispatcherMessage>,
}

/// One message to hand to the transport, with the ids of the presences that
/// get it.
#[derive(Debug, PartialEq, Eq)]
pub struct Delivery {
    pub message: ServerToClientMessage,
    pub recipients: Vec<usize>,
}

/// The value of a [`DispatcherMessage`].
pub ghost struct DispatcherMessageView {
    pub message: ServerToClientMessageView,
    pub presences: Option<Seq<usize>>,
}

/// The value of a [`Delivery`].
pub ghost struct DeliveryView {
    pub message: ServerToClientMessageView,
    pub recipients: Seq<usize>,
}

impl View for DispatcherMessage {
    type V = DispatcherMessageView;

    open spec fn view(&self) -> DispatcherMessageView {
        DispatcherMessageView {
            message: self.message@,
            presences: match self.presences {
                Some(presences) => Some(presences@),
                None => None,
            },
        }
    }
}

impl View for Delivery {
    type V = DeliveryView;

    open spec fn view(&self) -> DeliveryView {
        DeliveryView { message: self.message@, recipients: self.recipients@ }
    }
}

impl View for Dispatcher {
    type V = Seq<DispatcherMessageView>;

    closed spec fn view(&self) -> Seq<DispatcherMessageView> {
        self.messages@.map_values(|message: DispatcherMessage| message@)
    }
}

/// The values of a run of deliveries, in order.
pub open spec fn delivery_views(deliveries: Seq<Delivery>) -> Seq<DeliveryView> {
    deliveries.map_values(|delivery: Delivery| delivery@)
}

/// A command for everybody that answers no request.
pub open spec fn to_all(command: ServerCommandView) -> DispatcherMessageView {
    DispatcherMessageView { message: plain(command), presences: None }
}

impl DispatcherMessageView {
    /// A message goes out on its own if it names its recipients or answers a
    /// request.
    pub open spec fn is_immediate(self) -> bool {
        self.presences is Some || self.message.response_id is Some
    }

    /// The delivery of a message that goes out on its own: to the presences
    /// that it names, or to the whole roster if it names none.
    pub open spec fn delivery(self, roster: Seq<usize>) -> DeliveryView {
        DeliveryView {
            message: self.message,
            recipients: match self.presences {
                Some(presences) => presences,
                None => roster,
            },
        }
    }
}

/// Picks the messages that go out on their own.
pub open spec fn immediate() -> spec_fn(DispatcherMessageView) -> bool {
    |message: DispatcherMessageView| message.is_immediate()
}

/// Picks the messages that go out together.
pub open spec fn ordinary() -> spec_fn(DispatcherMessageView) -> bool {
    |message: DispatcherMessageView| !message.is_immediate()
}

/// The deliveries of the messages that go out on their own, in the order in
/// which the messages were scheduled.
pub open spec fn immediate_deliveries(
    messages: Seq<DispatcherMessageView>,
    roster: Seq<usize>,
) -> Seq<DeliveryView> {
    messages.filter(immediate()).map_values(
        |message: DispatcherMessageView| message.delivery(roster),
    )
}

/// The commands of the messages that go out together, in the order in which
/// the messages were scheduled.
pub open spec fn batched(messages: Seq<DispatcherMessageView>) -> Seq<ServerToClientMessageView> {
    messages.filter(ordinary()).map_values(
        |message: DispatcherMessageView| plain(message.message.command),
    )
}

/// The one delivery that carries the batch to the whole roster.
pub open spec fn batch_delivery(
    messages: Seq<DispatcherMessageView>,
    roster: Seq<usize>,
) -> DeliveryView {
    DeliveryView {
        message: plain(ServerCommandView::Multiple(batched(messages))),
        recipients: roster,
    }
}

/// A batch goes out when a message waits for it, and also when more than one
/// message was scheduled and none is left for the batch.
pub open spec fn sends_batch(messages: Seq<DispatcherMessageView>) -> bool {
    batched(messages).len() > 0 || messages.len() > 1
}

/// What a flush hands to the transport: first the messages that go out on
/// their own, then the batch.
pub open spec fn deliveries(messages: Seq<DispatcherMessageView>, roster: Seq<usize>) -> Seq<
    DeliveryView,
> {
    if sends_batch(messages) {
        immediate_deliveries(messages, roster).push(batch_delivery(messages, roster))
    } else {
        immediate_deliveries(messages, roster)
    }
}

/// Messages that `pick` picks one and all are all picked.
pub proof fn lemma_all_picked(
    messages: Seq<DispatcherMessageView>,
    pick: spec_fn(DispatcherMessageView) -> bool,
)
    requires
        forall|i: int| 0 <= i < messages.len() ==> pick(#[trigger] messages[i]),
    ensures
        messages.filter(pick) == messages,
    decreases messages.len(),
{
    reveal(Seq::filter);
    if messages.len() > 0 {
        let front = messages.drop_last();
        assert forall|i: int| 0 <= i < front.len() implies pick(#[trigger] front[i]) by {
            assert(front[i] == messages[i]);
        }
        lemma_all_picked(front, pick);
        assert(pick(messages[messages.len() - 1]));
        assert(front.push(messages.last()) =~= messages);
    }
}

/// Of messages that `pick` picks none of, none is picked.
pub proof fn lemma_none_picked(
    messages: Seq<DispatcherMessageView>,
    pick: spec_fn(DispatcherMessageView) -> bool,
)
    requires
        forall|i: int| 0 <= i < messages.len() ==> !pick(#[trigger] messages[i]),
    ensures
        messages.filter(pick) == Seq::<DispatcherMessageView>::empty(),
    decreases messages.len(),
{
    reveal(Seq::filter);
    if messages.len() > 0 {
        let front = messages.drop_last();
        assert forall|i: int| 0 <= i < front.len() implies !pick(#[trigger] front[i]) by {
            assert(front[i] == messages[i]);
        }
        lemma_none_picked(front, pick);
        assert(!pick(messages[messages.len() - 1]));
    }
}

/// One answer among ordinary broadcasts makes two deliveries, wherever the
/// answer stands: first the answer on its own, to its recipients, then one
/// batch with all the broadcasts in the order in which they were scheduled,
/// to the whole roster.
pub proof fn lemma_one_answer_among_broadcasts(
    before: Seq<DispatcherMessageView>,
    answer: DispatcherMessageView,
    after: Seq<DispatcherMessageView>,
    roster: Seq<usize>,
)
    requires
        answer.is_immediate(),
        forall|i: int| 0 <= i < before.len() ==> !(#[trigger] before[i]).is_immediate(),
        forall|i: int| 0 <= i < after.len() ==> !(#[trigger] after[i]).is_immediate(),
        before.len() + after.len() > 0,
    ensures
        deliveries(before + seq![answer] + after, roster) == seq![
            answer.delivery(roster),
            DeliveryView {
                message: plain(
                    ServerCommandView::Multiple(
                        (before + after).map_values(
                            |message: DispatcherMessageView| plain(message.message.command),
                        ),
                    ),
                ),
                recipients: roster,
            },
        ],
{
    let one = seq![answer];
    let all = before + one + after;
    Seq::filter_distributes_over_add(before + one, after, immediate());
    Seq::filter_distributes_over_add(before, one, immediate());
    Seq::filter_distributes_over_add(before + one, after, ordinary());
    Seq::filter_distributes_over_add(before, one, ordinary());
    lemma_none_picked(before, immediate());
    lemma_none_picked(after, immediate());
    lemma_all_picked(one, immediate());
    lemma_all_picked(before, ordinary());
    lemma_all_picked(after, ordinary());
    lemma_none_picked(one, ordinary());
    assert(all.filter(immediate()) =~= one);
    assert(all.filter(ordinary()) =~= before + after);
    assert(immediate_deliveries(all, roster) =~= seq![answer.delivery(roster)]);
    assert(batched(all).len() == before.len() + after.len());
}

/// The ids of the presences, in order.
pub fn ids_of_presences(presences: &Vec<Presence>) -> (ids: Vec<usize>)
    ensures
        ids@ == presence_ids(presence_views(presences@)),
{
    let mut ids: Vec<usize> = Vec::new();
    let mut index: usize = 0;
    while index < presences.len()
        invariant
            index <= presences.len(),
            ids@ == presence_ids(presence_views(presences@.take(index as int))),
        decreases presences.len() - index,
    {
        ids.push(presences[index].id);
        index += 1;
    }
    ids
}

impl Dispatcher {
    /// A dispatcher in which nothing waits.
    pub fn new() -> (dispatcher: Self)
        ensures
            dispatcher@ == Seq::<DispatcherMessageView>::empty(),
    {
        Dispatcher { messages: Vec::new() }
    }

    /// Schedules `command` for `presences`, or for everybody if `presences` is
    /// `None`. The message answers no request.
    pub fn broadcast(&mut self, command: ServerCommand, presences: Option<Vec<usize>>)
        ensures
            final(self)@ == old(self)@.push(
                (DispatcherMessage {
                    message: ServerToClientMessage { command, response_id: None },
                    presences,
                })@,
            ),
    {
        let message = ServerToClientMessage { command, response_id: None };
        self.schedule_message(DispatcherMessage { message, presences });
    }

    /// Schedules `command` as the answer to the request `response_id`, for
    /// `presences`, or for everybody if `presences` is `None`.
    pub fn broadcast_response(
        &mut self,
        command: ServerCommand,
        response_id: Option<String>,
        presences: Option<Vec<usize>>,
    )
        ensures
            final(self)@ == old(self)@.push(
                (DispatcherMessage {
                    message: ServerToClientMessage { command, response_id },
                    presences,
                })@,
            ),
    {
        let message = ServerToClientMessage { command, response_id };
        self.schedule_message(DispatcherMessage { message, presences });
    }

    fn schedule_message(&mut self, message: DispatcherMessage)
        ensures
            final(self)@ == old(self)@.push(message@),
    {
        self.messages.push(message);
    }

    /// Turns what waits into deliveries for the presences that `session` has
    /// now. The dispatcher keeps its messages.
    pub fn flush(&mut self, session: &EditorSession) -> (out: Vec<Delivery>)
        ensures
            delivery_views(out@) == deliveries(old(self)@, presence_ids(session@.presences)),
            final(self)@ == old(self)@,
    {
        let roster: Vec<usize> = ids_of_presences(&session.presences);
        let mut out: Vec<Delivery> = Vec::new();
        let mut batch: Vec<ServerToClientMessage> = Vec::new();
        let mut index: usize = 0;
        while index < self.messages.len()
            invariant
                index <= self.messages.len(),
                self@ == old(self)@,
                roster@ == presence_ids(session@.presences),
                delivery_views(out@) == immediate_deliveries(self@.take(index as int), roster@),
                message_views(batch@) == batched(self@.take(index as int)),
            decreases self.messages.len() - index,
        {
            let scheduled = &self.messages[index];
            proof {
                reveal(Seq::filter);
                assert(self@.take(index + 1).drop_last() == self@.take(index as int));
            }
            if scheduled.presences.is_some() || scheduled.message.response_id.is_some() {
                let recipients: Vec<usize> = match &scheduled.presences {
                    Some(presences) => copy_vec(presences),
                    None => copy_vec(&roster),
                };
                let delivery = Delivery { message: scheduled.message.clone(), recipients };
                out.push(delivery);
                assert(immediate_deliveries(self@.take(index + 1), roster@)
                    =~= immediate_deliveries(self@.take(index as int), roster@).push(
                    scheduled@.delivery(roster@),
                ));
            } else {
                let message = ServerToClientMessage {
                    response_id: None,
                    command: scheduled.message.command.clone(),
                };
                batch.push(message);
                assert(batched(self@.take(index + 1)) =~= batched(self@.take(index as int)).push(
                    plain(scheduled@.message.command),
                ));
            }
            index += 1;
        }
        assert(self@.take(index as int) == self@);
        if batch.len() > 0 || self.messages.len() > 1 {
            proof {
                lemma_multiple_view(batch);
            }
            let delivery = Delivery {
                message: ServerToClientMessage {
                    response_id: None,
                    command: ServerCommand::Multiple(batch),
                },
                recipients: roster,
            };
            out.push(delivery);
        }
        out
    }
}

} // verus!
