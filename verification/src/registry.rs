//! The pipeline registry: it owns every stream, applies one record at a
//! time, and renders all streams in ascending id order.

use vstd::prelude::*;
use vstd::string::StringExecFns;
use crate::encoding::decode_spec;
use crate::pipeline::{
    apply_spec, chain_accepts, lemma_insert_sorted_keeps_order, messages_sorted,
    new_pipeline_view, MessageView, Pipeline, PipelineState, PipelineView,
};
use crate::record::{ParsedMessage, ParsedMessageView};

verus! {

/// Registry-wide configuration, immutable after construction.
#[derive(Default, Debug, Clone, Copy)]
pub struct PipelinesConfig {
    /// When true, a record whose id misses its stream's expectation is
    /// silently dropped instead of being chain-accepted.
    pub discard_invalid_next_id: bool,
}

/// The registry: every stream seen so far, in ascending id order.
#[derive(Debug)]
pub struct Pipelines {
    inner: Vec<Pipeline>,
    config: PipelinesConfig,
}

/// The mathematical image of the registry.
#[verifier::ext_equal]
pub struct PipelinesView {
    pub pipelines: Seq<PipelineView>,
    pub discard_invalid_next_id: bool,
}

impl View for Pipelines {
    type V = PipelinesView;

    closed spec fn view(&self) -> PipelinesView {
        PipelinesView {
            pipelines: self.inner@.map_values(|p: Pipeline| p@),
            discard_invalid_next_id: self.config.discard_invalid_next_id,
        }
    }
}

impl PipelinesView {
    /// Streams stand in strictly ascending id order (so ids are unique), and
    /// each stream's messages stand in ascending id order.
    pub open spec fn wf(self) -> bool {
        &&& forall|i: int, j: int|
            0 <= i < j < self.pipelines.len() ==> self.pipelines[i].id < self.pipelines[j].id
        &&& forall|i: int|
            0 <= i < self.pipelines.len() ==> messages_sorted(#[trigger] self.pipelines[i].messages)
    }
}

/// Where the stream of the given id stands, or where it would be inserted:
/// the first position whose id is at least the given one.
pub open spec fn registry_position(ps: Seq<PipelineView>, id: u8) -> nat
    decreases ps.len(),
{
    if ps.len() == 0 {
        0
    } else if ps[0].id >= id {
        0
    } else {
        1 + registry_position(ps.drop_first(), id)
    }
}

/// The stream with the given id, if any.
pub open spec fn pipeline_of(ps: Seq<PipelineView>, id: u8) -> Option<PipelineView>
    decreases ps.len(),
{
    if ps.len() == 0 {
        None
    } else if ps[0].id == id {
        Some(ps[0])
    } else {
        pipeline_of(ps.drop_first(), id)
    }
}

/// What applying one record to the registry yields: the record's stream is
/// found, or freshly created at its ordered position, and the record is
/// applied to it; no other stream changes.
pub open spec fn insert_spec(v: PipelinesView, r: ParsedMessageView) -> PipelinesView {
    let i = registry_position(v.pipelines, r.pipeline_id) as int;
    let pipelines = if i < v.pipelines.len() && v.pipelines[i].id == r.pipeline_id {
        v.pipelines.update(i, apply_spec(v.pipelines[i], v.discard_invalid_next_id, r))
    } else {
        v.pipelines.insert(
            i,
            apply_spec(new_pipeline_view(r.pipeline_id), v.discard_invalid_next_id, r),
        )
    };
    PipelinesView { pipelines, discard_invalid_next_id: v.discard_invalid_next_id }
}

/// `registry_position` is the least position whose id is at least the given one.
pub proof fn lemma_registry_position(ps: Seq<PipelineView>, id: u8)
    ensures
        registry_position(ps, id) <= ps.len(),
        forall|j: int| 0 <= j < registry_position(ps, id) ==> ps[j].id < id,
        registry_position(ps, id) < ps.len() ==> ps[registry_position(ps, id) as int].id >= id,
    decreases ps.len(),
{
    if ps.len() > 0 && ps[0].id < id {
        let t = ps.drop_first();
        lemma_registry_position(t, id);
        assert forall|j: int| 0 <= j < registry_position(ps, id) implies ps[j].id < id by {
            if j >= 1 {
                assert(ps[j] == t[j - 1]);
            }
        }
    }
}

proof fn lemma_registry_position_is(ps: Seq<PipelineView>, id: u8, k: int)
    requires
        0 <= k <= ps.len(),
        forall|j: int| 0 <= j < k ==> ps[j].id < id,
        k < ps.len() ==> ps[k].id >= id,
    ensures
        registry_position(ps, id) == k,
    decreases ps.len(),
{
    if ps.len() == 0 {
    } else if ps[0].id >= id {
        assert(k == 0);
    } else {
        assert(k >= 1);
        let t = ps.drop_first();
        assert(forall|j: int| 0 <= j < k - 1 ==> t[j] == ps[j + 1] && t[j].id < id);
        assert(k - 1 < t.len() ==> t[k - 1].id >= id);
        lemma_registry_position_is(t, id, k - 1);
    }
}

/// Applying a record keeps the stream's id and keeps its messages ordered.
proof fn lemma_apply_spec_wf(p: PipelineView, discard: bool, r: ParsedMessageView)
    requires
        messages_sorted(p.messages),
    ensures
        apply_spec(p, discard, r).id == p.id,
        messages_sorted(apply_spec(p, discard, r).messages),
{
    if chain_accepts(p, discard, r) && decode_spec(r.encoding, r.message) is Ok {
        lemma_insert_sorted_keeps_order(
            p.messages,
            MessageView { id: r.id, body: decode_spec(r.encoding, r.message)->Ok_0 },
        );
    }
}

/// However records arrive, applying one to a well-formed registry leaves it
/// well-formed: streams stay in ascending id order, and every stream's
/// messages stay in ascending message-id order, so rendering lists them so.
pub proof fn lemma_insert_spec_preserves_wf(v: PipelinesView, r: ParsedMessageView)
    requires
        v.wf(),
    ensures
        insert_spec(v, r).wf(),
{
    let ps = v.pipelines;
    let pid = r.pipeline_id;
    let i = registry_position(ps, pid) as int;
    lemma_registry_position(ps, pid);
    if i < ps.len() && ps[i].id == pid {
        let p2 = apply_spec(ps[i], v.discard_invalid_next_id, r);
        lemma_apply_spec_wf(ps[i], v.discard_invalid_next_id, r);
        let qs = ps.update(i, p2);
        assert forall|a: int, b: int| 0 <= a < b < qs.len() implies qs[a].id < qs[b].id by {
            assert(ps[a].id < ps[b].id);
        }
        assert forall|a: int| 0 <= a < qs.len() implies messages_sorted(
            #[trigger] qs[a].messages,
        ) by {
            if a != i {
                assert(qs[a] == ps[a]);
            }
        }
    } else {
        let p2 = apply_spec(new_pipeline_view(pid), v.discard_invalid_next_id, r);
        lemma_apply_spec_wf(new_pipeline_view(pid), v.discard_invalid_next_id, r);
        let qs = ps.insert(i, p2);
        assert forall|a: int, b: int| 0 <= a < b < qs.len() implies qs[a].id < qs[b].id by {
            if b < i {
                assert(qs[a] == ps[a] && qs[b] == ps[b]);
            } else if b == i {
                assert(qs[a] == ps[a] && ps[a].id < pid);
            } else if a < i {
                assert(qs[a] == ps[a] && qs[b] == ps[b - 1]);
                assert(ps[b - 1].id >= ps[i].id && ps[i].id > pid);
            } else if a == i {
                assert(qs[b] == ps[b - 1]);
                assert(ps[b - 1].id >= ps[i].id && ps[i].id > pid);
            } else {
                assert(qs[a] == ps[a - 1] && qs[b] == ps[b - 1]);
            }
        }
        assert forall|a: int| 0 <= a < qs.len() implies messages_sorted(
            #[trigger] qs[a].messages,
        ) by {
            if a < i {
                assert(qs[a] == ps[a]);
            } else if a > i {
                assert(qs[a] == ps[a - 1]);
            }
        }
    }
}

/// Records of one stream never touch another: applying a record leaves every
/// stream of a different id exactly as it was.
pub proof fn lemma_insert_isolated(v: PipelinesView, r: ParsedMessageView, other: u8)
    requires
        other != r.pipeline_id,
    ensures
        pipeline_of(insert_spec(v, r).pipelines, other) == pipeline_of(v.pipelines, other),
{
    let ps = v.pipelines;
    let i = registry_position(ps, r.pipeline_id) as int;
    lemma_registry_position(ps, r.pipeline_id);
    if i < ps.len() && ps[i].id == r.pipeline_id {
        let p2 = apply_spec(ps[i], v.discard_invalid_next_id, r);
        lemma_pipeline_of_update_other(ps, i, p2, other);
    } else {
        let p2 = apply_spec(new_pipeline_view(r.pipeline_id), v.discard_invalid_next_id, r);
        lemma_pipeline_of_insert_other(ps, i, p2, other);
    }
}

proof fn lemma_pipeline_of_update_other(ps: Seq<PipelineView>, i: int, p: PipelineView, q: u8)
    requires
        0 <= i < ps.len(),
        ps[i].id == p.id,
        q != p.id,
    ensures
        pipeline_of(ps.update(i, p), q) == pipeline_of(ps, q),
    decreases ps.len(),
{
    let us = ps.update(i, p);
    if i == 0 {
        assert(us.drop_first() =~= ps.drop_first());
    } else {
        assert(us[0] == ps[0]);
        if ps[0].id != q {
            assert(us.drop_first() =~= ps.drop_first().update(i - 1, p));
            lemma_pipeline_of_update_other(ps.drop_first(), i - 1, p, q);
        }
    }
}

proof fn lemma_pipeline_of_insert_other(ps: Seq<PipelineView>, i: int, p: PipelineView, q: u8)
    requires
        0 <= i <= ps.len(),
        q != p.id,
    ensures
        pipeline_of(ps.insert(i, p), q) == pipeline_of(ps, q),
    decreases ps.len(),
{
    let us = ps.insert(i, p);
    if i == 0 {
        assert(us[0] == p);
        assert(us.drop_first() =~= ps);
    } else {
        assert(us[0] == ps[0]);
        if ps[0].id != q {
            assert(us.drop_first() =~= ps.drop_first().insert(i - 1, p));
            lemma_pipeline_of_insert_other(ps.drop_first(), i - 1, p, q);
        }
    }
}

/// Once a stream is closed, every further record for its id leaves the whole
/// registry exactly as it was, whatever the record holds.
pub proof fn lemma_closed_pipeline_ignores_records(
    v: PipelinesView,
    r: ParsedMessageView,
    i: int,
)
    requires
        v.wf(),
        0 <= i < v.pipelines.len(),
        v.pipelines[i].id == r.pipeline_id,
        v.pipelines[i].state is Closed,
    ensures
        insert_spec(v, r) == v,
{
    let ps = v.pipelines;
    lemma_registry_position_is(ps, r.pipeline_id, i);
    assert(apply_spec(ps[i], v.discard_invalid_next_id, r) == ps[i]);
    assert(ps.update(i, ps[i]) =~= ps);
    assert(insert_spec(v, r) =~= v);
}

// ---------------------------------------------------------------------------
// Rendering
// ---------------------------------------------------------------------------

/// One decimal digit as a character.
pub open spec fn dec_digit(d: u8) -> char
    recommends
        d < 10,
{
    ((48 + d) as u8) as char
}

/// A byte written in decimal, without leading zeroes.
pub open spec fn dec_u8(n: u8) -> Seq<char> {
    if n < 10 {
        seq![dec_digit(n)]
    } else if n < 100 {
        seq![dec_digit((n / 10) as u8), dec_digit((n % 10) as u8)]
    } else {
        seq![
            dec_digit((n / 100) as u8),
            dec_digit(((n / 10) % 10) as u8),
            dec_digit((n % 10) as u8),
        ]
    }
}

/// One rendered message line: a tab, the message id, `| `, the body, a newline.
pub open spec fn render_message(m: MessageView) -> Seq<char> {
    "\t"@ + dec_u8(m.id) + "| "@ + m.body + "\n"@
}

pub open spec fn render_messages(msgs: Seq<MessageView>) -> Seq<char>
    decreases msgs.len(),
{
    if msgs.len() == 0 {
        Seq::empty()
    } else {
        render_messages(msgs.drop_last()) + render_message(msgs.last())
    }
}

/// One rendered stream: its header line, then its messages in stored order.
pub open spec fn render_pipeline(p: PipelineView) -> Seq<char> {
    "Pipeline:"@ + dec_u8(p.id) + "\n"@ + render_messages(p.messages)
}

/// The rendered registry: every stream's block, in stored (ascending id) order.
pub open spec fn render_spec(ps: Seq<PipelineView>) -> Seq<char>
    decreases ps.len(),
{
    if ps.len() == 0 {
        Seq::empty()
    } else {
        render_spec(ps.drop_last()) + render_pipeline(ps.last())
    }
}

/// Rendering reads the registry and nothing else: two renders of the same
/// state yield identical text.
pub proof fn lemma_render_idempotent(v: PipelinesView, first: Seq<char>, second: Seq<char>)
    requires
        first == render_spec(v.pipelines),
        second == render_spec(v.pipelines),
    ensures
        first == second,
{
}

fn digit_str(d: u8) -> (r: &'static str)
    requires
        d < 10,
    ensures
        r@ == seq![dec_digit(d)],
{
    match d {
        0 => {
            proof {
                reveal_strlit("0");
                assert("0"@ =~= seq![dec_digit(0)]);
            }
            "0"
        },
        1 => {
            proof {
                reveal_strlit("1");
                assert("1"@ =~= seq![dec_digit(1)]);
            }
            "1"
        },
        2 => {
            proof {
                reveal_strlit("2");
                assert("2"@ =~= seq![dec_digit(2)]);
            }
            "2"
        },
        3 => {
            proof {
                reveal_strlit("3");
                assert("3"@ =~= seq![dec_digit(3)]);
            }
            "3"
        },
        4 => {
            proof {
                reveal_strlit("4");
                assert("4"@ =~= seq![dec_digit(4)]);
            }
            "4"
        },
        5 => {
            proof {
                reveal_strlit("5");
                assert("5"@ =~= seq![dec_digit(5)]);
            }
            "5"
        },
        6 => {
            proof {
                reveal_strlit("6");
                assert("6"@ =~= seq![dec_digit(6)]);
            }
            "6"
        },
        7 => {
            proof {
                reveal_strlit("7");
                assert("7"@ =~= seq![dec_digit(7)]);
            }
            "7"
        },
        8 => {
            proof {
                reveal_strlit("8");
                assert("8"@ =~= seq![dec_digit(8)]);
            }
            "8"
        },
        _ => {
            proof {
                reveal_strlit("9");
                assert("9"@ =~= seq![dec_digit(9)]);
            }
            "9"
        },
    }
}

/// A byte written in decimal.
fn u8_to_string(n: u8) -> (r: String)
    ensures
        r@ == dec_u8(n),
{
    let mut s = String::new();
    if n >= 100 {
        s.append(digit_str(n / 100));
    }
    if n >= 10 {
        s.append(digit_str((n / 10) % 10));
    }
    s.append(digit_str(n % 10));
    proof {
        assert(s@ =~= dec_u8(n));
    }
    s
}

/// With the discard policy on, a record whose id misses its open stream's
/// expectation leaves the whole registry exactly as it was: no state change,
/// no stored message.
pub proof fn lemma_discard_policy_registry(v: PipelinesView, r: ParsedMessageView, i: int)
    requires
        v.wf(),
        v.discard_invalid_next_id,
        0 <= i < v.pipelines.len(),
        v.pipelines[i].id == r.pipeline_id,
        v.pipelines[i].state matches PipelineState::Open { expected_next: Some(e) } && r.id != e,
    ensures
        insert_spec(v, r) == v,
{
    let ps = v.pipelines;
    lemma_registry_position_is(ps, r.pipeline_id, i);
    assert(apply_spec(ps[i], v.discard_invalid_next_id, r) == ps[i]);
    assert(ps.update(i, ps[i]) =~= ps);
    assert(insert_spec(v, r) =~= v);
}

impl Pipelines {
    /// Renders every stream's block, streams in ascending id order, messages
    /// in ascending message-id order.  A point-in-time snapshot: the registry
    /// itself is left untouched.
    pub fn display(&self) -> (r: String)
        ensures
            r@ == render_spec(self@.pipelines),
    {
        let ghost ps = self@.pipelines;
        let mut out = String::new();
        proof {
            assert(ps.take(0) =~= Seq::<PipelineView>::empty());
        }
        let mut i: usize = 0;
        while i < self.inner.len()
            invariant
                0 <= i <= ps.len(),
                ps == self@.pipelines,
                self.inner@.len() == ps.len(),
                out@ == render_spec(ps.take(i as int)),
            decreases ps.len() - i,
        {
            let ghost out_start = out@;
            let ghost pv = ps[i as int];
            let p = &self.inner[i];
            out.append("Pipeline:");
            let id_str = u8_to_string(p.id);
            out.append(id_str.as_str());
            out.append("\n");
            proof {
                assert(pv.messages.take(0) =~= Seq::<MessageView>::empty());
                assert(out@ =~= out_start + "Pipeline:"@ + dec_u8(pv.id) + "\n"@
                    + render_messages(pv.messages.take(0)));
            }
            let mut j: usize = 0;
            while j < p.messages.len()
                invariant
                    0 <= j <= pv.messages.len(),
                    pv == ps[i as int],
                    p@ == pv,
                    p.messages@.len() == pv.messages.len(),
                    out@ == out_start + "Pipeline:"@ + dec_u8(pv.id) + "\n"@ + render_messages(
                        pv.messages.take(j as int),
                    ),
                decreases pv.messages.len() - j,
            {
                let m = &p.messages[j];
                out.append("\t");
                let mid_str = u8_to_string(m.id);
                out.append(mid_str.as_str());
                out.append("| ");
                out.append(m.body.as_str());
                out.append("\n");
                proof {
                    assert(pv.messages.take(j + 1).drop_last() =~= pv.messages.take(j as int));
                    assert(pv.messages.take(j + 1).last() == pv.messages[j as int]);
                    assert(out@ =~= out_start + "Pipeline:"@ + dec_u8(pv.id) + "\n"@
                        + render_messages(pv.messages.take(j + 1)));
                }
                j = j + 1;
            }
            proof {
                assert(pv.messages.take(pv.messages.len() as int) =~= pv.messages);
                assert(ps.take(i + 1).drop_last() =~= ps.take(i as int));
                assert(ps.take(i + 1).last() == ps[i as int]);
                assert(out@ =~= render_spec(ps.take(i + 1)));
            }
            i = i + 1;
        }
        proof {
            assert(ps.take(ps.len() as int) =~= ps);
        }
        out
    }

    /// A fresh registry with no streams.
    pub fn new(config: PipelinesConfig) -> (r: Pipelines)
        ensures
            r@ == (PipelinesView {
                pipelines: Seq::empty(),
                discard_invalid_next_id: config.discard_invalid_next_id,
            }),
            r@.wf(),
    {
        let r = Pipelines { inner: Vec::new(), config };
        proof {
            assert(r@ =~= PipelinesView {
                pipelines: Seq::empty(),
                discard_invalid_next_id: config.discard_invalid_next_id,
            });
        }
        r
    }

    /// Applies one record: finds or lazily creates its stream, then lets the
    /// stream's state machine judge the record.
    pub fn insert_message(&mut self, msg: ParsedMessage)
        requires
            old(self)@.wf(),
        ensures
            final(self)@ == insert_spec(old(self)@, msg@),
            final(self)@.wf(),
    {
        let ghost r = msg@;
        let ghost ps = self@.pipelines;
        let pid = msg.pipeline_id;
        let mut i: usize = 0;
        while i < self.inner.len() && self.inner[i].id < pid
            invariant
                0 <= i <= ps.len(),
                ps == self@.pipelines,
                self.inner@.len() == ps.len(),
                forall|j: int| 0 <= j < i ==> ps[j].id < pid,
            decreases ps.len() - i,
        {
            i = i + 1;
        }
        proof {
            lemma_registry_position_is(ps, pid, i as int);
            lemma_insert_spec_preserves_wf(old(self)@, r);
        }
        let discard = self.config.discard_invalid_next_id;
        if i < self.inner.len() && self.inner[i].id == pid {
            let mut p = self.inner.remove(i);
            p.apply(discard, msg);
            self.inner.insert(i, p);
            proof {
                assert(self@.pipelines =~= ps.update(
                    i as int,
                    apply_spec(ps[i as int], discard, r),
                ));
                assert(self@ =~= insert_spec(old(self)@, r));
            }
        } else {
            let mut p = Pipeline::new(pid);
            p.apply(discard, msg);
            self.inner.insert(i, p);
            proof {
                assert(self@.pipelines =~= ps.insert(
                    i as int,
                    apply_spec(new_pipeline_view(pid), discard, r),
                ));
                assert(self@ =~= insert_spec(old(self)@, r));
            }
        }
    }
}

} // verus!
