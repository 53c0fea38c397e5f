//! The per-stream state machine: expected-next tracking, closing, and the
//! ordered accumulation of decoded messages.

use vstd::prelude::*;
use crate::encoding::decode_spec;
use crate::record::{ParsedMessage, ParsedMessageView};

verus! {

pub type PipelineId = u8;

/// One stored message of a stream.
#[derive(Debug, Clone)]
pub struct Message {
    pub id: u8,
    pub body: String,
}

/// The mathematical image of a message.
#[verifier::ext_equal]
pub struct MessageView {
    pub id: u8,
    pub body: Seq<char>,
}

impl View for Message {
    type V = MessageView;

    open spec fn view(&self) -> MessageView {
        MessageView { id: self.id, body: self.body@ }
    }
}

/// The chain state of a stream: still open, expecting a particular next id
/// once one was declared, or closed for good.
#[derive(Debug, Clone, Copy)]
pub enum PipelineState {
    Open { expected_next: Option<u8> },
    Closed,
}

/// A stream: its id, its chain state, and its accumulated messages, kept in
/// ascending id order, insertion order among equal ids.
#[derive(Debug)]
pub struct Pipeline {
    pub id: PipelineId,
    pub state: PipelineState,
    pub messages: Vec<Message>,
}

/// The mathematical image of a stream.
#[verifier::ext_equal]
pub struct PipelineView {
    pub id: PipelineId,
    pub state: PipelineState,
    pub messages: Seq<MessageView>,
}

impl View for Pipeline {
    type V = PipelineView;

    open spec fn view(&self) -> PipelineView {
        PipelineView {
            id: self.id,
            state: self.state,
            messages: self.messages@.map_values(|m: Message| m@),
        }
    }
}

/// Messages stand in ascending id order.
pub open spec fn messages_sorted(msgs: Seq<MessageView>) -> bool {
    forall|i: int, j: int| 0 <= i < j < msgs.len() ==> msgs[i].id <= msgs[j].id
}

/// Where a message of the given id is inserted: after every message whose id
/// is at most the given one, so equal ids keep their insertion order.
pub open spec fn insert_position(msgs: Seq<MessageView>, id: u8) -> nat
    decreases msgs.len(),
{
    if msgs.len() == 0 {
        0
    } else if msgs[0].id <= id {
        1 + insert_position(msgs.drop_first(), id)
    } else {
        0
    }
}

/// What inserting one message into the ordered collection yields.
pub open spec fn insert_sorted_spec(msgs: Seq<MessageView>, m: MessageView) -> Seq<MessageView> {
    msgs.insert(insert_position(msgs, m.id) as int, m)
}

/// `insert_position` is the least position past every id at most the given one.
pub proof fn lemma_insert_position(msgs: Seq<MessageView>, id: u8)
    ensures
        insert_position(msgs, id) <= msgs.len(),
        forall|j: int| 0 <= j < insert_position(msgs, id) ==> msgs[j].id <= id,
        insert_position(msgs, id) < msgs.len() ==> msgs[insert_position(msgs, id) as int].id > id,
    decreases msgs.len(),
{
    if msgs.len() > 0 && msgs[0].id <= id {
        let t = msgs.drop_first();
        lemma_insert_position(t, id);
        assert forall|j: int| 0 <= j < insert_position(msgs, id) implies msgs[j].id <= id by {
            if j >= 1 {
                assert(msgs[j] == t[j - 1]);
            }
        }
    }
}

/// Ordered insertion keeps the collection ordered.
pub proof fn lemma_insert_sorted_keeps_order(msgs: Seq<MessageView>, m: MessageView)
    requires
        messages_sorted(msgs),
    ensures
        messages_sorted(insert_sorted_spec(msgs, m)),
{
    lemma_insert_position(msgs, m.id);
}

/// What applying one record to a stream yields.  A closed stream ignores the
/// record; an open stream whose expectation the record misses is ignored only
/// under the discard policy; every other record is chain-accepted: its
/// decoded payload (if any) is stored, and the chain state advances to the
/// record's declared next id, closing the stream on the termination sentinel.
pub open spec fn apply_spec(p: PipelineView, discard_invalid_next_id: bool, r: ParsedMessageView) -> PipelineView {
    if p.state is Closed {
        p
    } else if p.state matches PipelineState::Open { expected_next: Some(e) } && r.id != e
        && discard_invalid_next_id {
        p
    } else {
        PipelineView {
            id: p.id,
            state: match r.next_id {
                Option::None => PipelineState::Closed,
                Option::Some(n) => PipelineState::Open { expected_next: Some(n) },
            },
            messages: match decode_spec(r.encoding, r.message) {
                Ok(body) => insert_sorted_spec(p.messages, MessageView { id: r.id, body }),
                Err(_) => p.messages,
            },
        }
    }
}

/// A record is chain-accepted by a stream when the stream is open and the
/// record is not dropped by the discard policy.
pub open spec fn chain_accepts(p: PipelineView, discard_invalid_next_id: bool, r: ParsedMessageView) -> bool {
    &&& !(p.state is Closed)
    &&& !(p.state matches PipelineState::Open { expected_next: Some(e) } && r.id != e
        && discard_invalid_next_id)
}

impl Pipeline {
    /// A fresh stream: open, no expectation yet, no messages.
    pub fn new(id: PipelineId) -> (r: Pipeline)
        ensures
            r@ == new_pipeline_view(id),
    {
        let r = Pipeline {
            id,
            state: PipelineState::Open { expected_next: None },
            messages: Vec::new(),
        };
        proof {
            assert(r@ =~= new_pipeline_view(id));
        }
        r
    }

    fn insert_sorted(&mut self, m: Message)
        ensures
            final(self).id == old(self).id,
            final(self).state == old(self).state,
            final(self)@.messages == insert_sorted_spec(old(self)@.messages, m@),
    {
        let ghost msgs = self@.messages;
        let mut i: usize = 0;
        while i < self.messages.len() && self.messages[i].id <= m.id
            invariant
                0 <= i <= msgs.len(),
                msgs == self@.messages,
                self.messages@.len() == msgs.len(),
                forall|j: int| 0 <= j < i ==> msgs[j].id <= m.id,
            decreases self.messages@.len() - i,
        {
            i = i + 1;
        }
        proof {
            lemma_insert_position_is(msgs, m.id as u8, i as int);
        }
        self.messages.insert(i, m);
        proof {
            assert(self@.messages =~= insert_sorted_spec(msgs, m@));
        }
    }

    /// Applies one record to this stream, under the registry's discard policy.
    pub fn apply(&mut self, discard_invalid_next_id: bool, msg: ParsedMessage)
        ensures
            final(self)@ == apply_spec(old(self)@, discard_invalid_next_id, msg@),
    {
        match self.state {
            PipelineState::Closed => {
                return ;
            },
            PipelineState::Open { expected_next } => {
                if let Some(e) = expected_next {
                    if msg.id != e && discard_invalid_next_id {
                        return ;
                    }
                }
                let ParsedMessage { pipeline_id: _, id, encoding, message, next_id } = msg;
                match encoding.decode(message) {
                    Ok(body) => {
                        self.insert_sorted(Message { id, body });
                    },
                    Err(_) => {},
                }
                self.state = match next_id {
                    None => PipelineState::Closed,
                    Some(n) => PipelineState::Open { expected_next: Some(n) },
                };
                proof {
                    assert(self@ =~= apply_spec(old(self)@, discard_invalid_next_id, msg@));
                }
            },
        }
    }
}

/// The image of a fresh stream.
pub open spec fn new_pipeline_view(id: PipelineId) -> PipelineView {
    PipelineView {
        id,
        state: PipelineState::Open { expected_next: None },
        messages: Seq::empty(),
    }
}

/// The least position past every id at most the given one is `insert_position`.
proof fn lemma_insert_position_is(msgs: Seq<MessageView>, id: u8, k: int)
    requires
        0 <= k <= msgs.len(),
        forall|j: int| 0 <= j < k ==> msgs[j].id <= id,
        k < msgs.len() ==> msgs[k].id > id,
    ensures
        insert_position(msgs, id) == k,
    decreases msgs.len(),
{
    if msgs.len() == 0 {
    } else if msgs[0].id <= id {
        assert(k >= 1);
        let t = msgs.drop_first();
        assert(forall|j: int| 0 <= j < k - 1 ==> t[j] == msgs[j + 1] && t[j].id <= id);
        assert(k - 1 < t.len() ==> t[k - 1].id > id);
        lemma_insert_position_is(t, id, k - 1);
    } else {
        assert(k == 0);
    }
}

/// With the discard policy on, a record whose id misses an open stream's
/// expectation changes nothing: no state change, no stored message.
pub proof fn lemma_discard_policy(p: PipelineView, r: ParsedMessageView)
    requires
        p.state matches PipelineState::Open { expected_next: Some(e) } && r.id != e,
    ensures
        apply_spec(p, true, r) == p,
{
}

/// A chain-accepted record bearing the termination sentinel closes its
/// stream for good, whether or not its payload decoded.
pub proof fn lemma_sentinel_closes(
    p: PipelineView,
    discard_invalid_next_id: bool,
    r: ParsedMessageView,
)
    requires
        chain_accepts(p, discard_invalid_next_id, r),
        r.next_id is None,
    ensures
        apply_spec(p, discard_invalid_next_id, r).state is Closed,
{
}

/// A chain-accepted record whose payload does not decode still advances the
/// chain state to its declared next id, and contributes no message.
pub proof fn lemma_decode_failure_still_advances(
    p: PipelineView,
    discard_invalid_next_id: bool,
    r: ParsedMessageView,
)
    requires
        chain_accepts(p, discard_invalid_next_id, r),
        decode_spec(r.encoding, r.message) is Err,
    ensures
        apply_spec(p, discard_invalid_next_id, r).messages == p.messages,
        apply_spec(p, discard_invalid_next_id, r).state == (match r.next_id {
            Option::None => PipelineState::Closed,
            Option::Some(n) => PipelineState::Open { expected_next: Some(n) },
        }),
{
}

} // verus!
