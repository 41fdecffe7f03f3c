//! Pings sibling parachains over XCM and answers their pings with pongs.
//!
//! Sending is the transport's work: a call here hands back the message to
//! send, and the outcome of sending it is handed to the matching `*_sent`
//! or `record_*` function.

use std::collections::BTreeMap;
use vstd::prelude::*;

use crate::dispatch::{ensure_root, ensure_sibling_para, DispatchError, Origin};
use crate::scale::{encode_bytes, encode_u32, encoded_bytes, le_bytes};
use crate::xcm_message::{Destination, OriginKind, OutgoingXcm, Transact, XcmError};

verus! {

/// The index of `ping` among the pallet's calls.
pub const PING_CALL_INDEX: u8 = 4;

/// The index of `pong` among the pallet's calls.
pub const PONG_CALL_INDEX: u8 = 5;

/// The most weight a ping or a pong may take on the receiving chain.
pub const TRANSACT_WEIGHT: u64 = 1_000;

/// Where the pallet stands in the runtime that holds it.
#[derive(Clone, Copy, Debug, PartialEq, Eq, Structural)]
pub struct Config {
    /// The index of the pallet in the runtime's call enum, which the
    /// sibling chains share.
    pub pallet_index: u8,
}

#[derive(Clone, Debug, PartialEq, Eq)]
pub enum Event {
    /// A ping was sent: parachain, sequence number, payload.
    PingSent(u32, u32, Vec<u8>),
    /// A ping arrived: parachain, sequence number, payload.
    Pinged(u32, u32, Vec<u8>),
    /// A pong was sent: parachain, sequence number, payload.
    PongSent(u32, u32, Vec<u8>),
    /// A pong arrived: parachain, sequence number, payload, and the blocks
    /// since the ping was sent.
    Ponged(u32, u32, Vec<u8>, u32),
    /// Sending a ping failed.
    ErrorSendingPing(XcmError, u32, u32, Vec<u8>),
    /// Sending a pong failed.
    ErrorSendingPong(XcmError, u32, u32, Vec<u8>),
    /// A pong arrived for no ping that was sent.
    UnknownPong(u32, u32, Vec<u8>),
}

/// The pallet's own error; no call of the pallet returns it.
#[derive(Clone, Copy, Debug, PartialEq, Eq)]
pub struct Error;

/// The pallet's storage.
pub struct Pallet {
    pub config: Config,
    /// The parachains to ping at the end of every block, each with its
    /// payload.
    pub targets: Vec<(u32, Vec<u8>)>,
    /// The number of pings made so far.
    pub ping_count: u32,
    /// The block at which each ping that was sent left, by its sequence
    /// number.
    pub pings: BTreeMap<u32, u32>,
}

/// The targets with their payloads as byte sequences.
pub open spec fn payloads(t: Seq<(u32, Vec<u8>)>) -> Seq<(u32, Seq<u8>)> {
    t.map_values(|x: (u32, Vec<u8>)| (x.0, x.1@))
}

/// The encoding of a call to this pallet on a sibling chain: the pallet's
/// index, the call's index, the sequence number and the payload.
pub open spec fn call_bytes(pallet_index: u8, call_index: u8, seq: u32, payload: Seq<u8>) -> Seq<
    u8,
> {
    seq![pallet_index, call_index] + le_bytes(seq as nat, 4) + encoded_bytes(payload)
}

/// A message that transacts, as the native origin, the call of index
/// `call_index` of this pallet on the sibling parachain `para`.
pub open spec fn is_call_to(
    m: OutgoingXcm,
    para: u32,
    pallet_index: u8,
    call_index: u8,
    seq: u32,
    payload: Seq<u8>,
) -> bool {
    &&& m.dest == Destination { parents: 1, parachain: para }
    &&& m.message.origin_kind == OriginKind::Native
    &&& m.message.require_weight_at_most == TRANSACT_WEIGHT
    &&& m.message.call@ == call_bytes(pallet_index, call_index, seq, payload)
}

/// The index of the first target for `para`, or the number of targets when
/// there is none.
pub open spec fn position_of_para(s: Seq<(u32, Seq<u8>)>, para: u32) -> nat
    decreases s.len(),
{
    if s.len() == 0 {
        0
    } else if s[0].0 == para {
        0
    } else {
        1 + position_of_para(s.drop_first(), para)
    }
}

/// The targets of `s` that are not for `para`, in order.
pub open spec fn without_para(s: Seq<(u32, Seq<u8>)>, para: u32) -> Seq<(u32, Seq<u8>)>
    decreases s.len(),
{
    if s.len() == 0 {
        Seq::empty()
    } else {
        let r = without_para(s.drop_last(), para);
        if s.last().0 != para {
            r.push(s.last())
        } else {
            r
        }
    }
}

/// What a pong of `seq` from `para`, arriving at block `now`, announces,
/// given the sent pings.
pub open spec fn pong_event(
    pings: Map<u32, u32>,
    para: u32,
    seq: u32,
    payload: Vec<u8>,
    now: u32,
) -> Event {
    if pings.contains_key(seq) {
        Event::Ponged(
            para,
            seq,
            payload,
            if now >= pings[seq] {
                (now - pings[seq]) as u32
            } else {
                0
            },
        )
    } else {
        Event::UnknownPong(para, seq, payload)
    }
}

/// The event that announces the outcome `sent` of ping `seq` to `para`
/// with `payload`: sent, or an error with the transport's failure.
pub open spec fn ping_event(
    e: Event,
    para: u32,
    payload: Seq<u8>,
    seq: u32,
    sent: Result<(), XcmError>,
) -> bool {
    match sent {
        Ok(()) => e matches Event::PingSent(p, s, v) && p == para && s == seq && v@ == payload,
        Err(err) => e matches Event::ErrorSendingPing(e2, p, s, v) && e2 == err && p == para && s
            == seq && v@ == payload,
    }
}

/// A ping numbered `seq` was sent among `outcomes`.
pub open spec fn sent_among(outcomes: Seq<(u32, Result<(), XcmError>)>, seq: u32) -> bool {
    exists|j: int| 0 <= j < outcomes.len() && #[trigger] outcomes[j].0 == seq && outcomes[j].1 is Ok
}

/// `after` holds what `before` held for every number that `outcomes` did
/// not send, and nothing more of such numbers.
pub open spec fn unsent_kept(
    before: Map<u32, u32>,
    after: Map<u32, u32>,
    outcomes: Seq<(u32, Result<(), XcmError>)>,
) -> bool {
    forall|seq: u32|
        !sent_among(outcomes, seq) ==> (#[trigger] after.contains_key(seq) == before.contains_key(
            seq,
        ) && (before.contains_key(seq) ==> after[seq] == before[seq]))
}

/// The position of the first target for `para` splits the targets.
pub proof fn lemma_position_of_para(s: Seq<(u32, Seq<u8>)>, para: u32)
    ensures
        position_of_para(s, para) <= s.len(),
        forall|j: int| 0 <= j < position_of_para(s, para) ==> #[trigger] s[j].0 != para,
        position_of_para(s, para) < s.len() ==> s[position_of_para(s, para) as int].0 == para,
    decreases s.len(),
{
    if s.len() > 0 && s[0].0 != para {
        let t = s.drop_first();
        lemma_position_of_para(t, para);
        assert forall|j: int| 0 <= j < position_of_para(s, para) implies #[trigger] s[j].0
            != para by {
            if j > 0 {
                assert(s[j] == t[j - 1]);
            }
        }
        if position_of_para(s, para) < s.len() {
            assert(s[position_of_para(s, para) as int] == t[position_of_para(t, para) as int]);
        }
    }
}

/// A pong answers the ping that was recorded for its number with the
/// blocks since that ping left, and forgets it: a second pong of the same
/// number is unknown.
pub proof fn law_pong_answers_recorded_ping(
    pings: Map<u32, u32>,
    seq: u32,
    sent_at: u32,
    para: u32,
    payload: Vec<u8>,
    now: u32,
)
    ensures
        pong_event(pings.insert(seq, sent_at), para, seq, payload, now) == Event::Ponged(
            para,
            seq,
            payload,
            if now >= sent_at {
                (now - sent_at) as u32
            } else {
                0
            },
        ),
        pong_event(pings.insert(seq, sent_at).remove(seq), para, seq, payload, now)
            == Event::UnknownPong(para, seq, payload),
{
}

/// Once the targets of `para` are removed, none is left, and removing them
/// leaves targets without one as they are.
pub proof fn law_without_para(s: Seq<(u32, Seq<u8>)>, para: u32)
    ensures
        forall|i: int|
            0 <= i < without_para(s, para).len() ==> #[trigger] without_para(s, para)[i].0 != para,
        (forall|i: int| 0 <= i < s.len() ==> #[trigger] s[i].0 != para) ==> without_para(s, para)
            == s,
    decreases s.len(),
{
    if s.len() > 0 {
        let t = s.drop_last();
        law_without_para(t, para);
        let r = without_para(t, para);
        assert forall|i: int| 0 <= i < without_para(s, para).len() implies #[trigger] without_para(
            s,
            para,
        )[i].0 != para by {
            if i < r.len() {
                assert(without_para(s, para)[i] == r[i]);
            }
        }
        if forall|i: int| 0 <= i < s.len() ==> #[trigger] s[i].0 != para {
            assert forall|i: int| 0 <= i < t.len() implies #[trigger] t[i].0 != para by {
                assert(t[i] == s[i]);
            }
            assert(s.last() == s[s.len() - 1]);
            assert(r.push(s.last()) =~= s);
        }
    }
}

/// A copy of `v`.
fn copy_bytes(v: &Vec<u8>) -> (r: Vec<u8>)
    ensures
        r@ == v@,
{
    let r = v.clone();
    assert(r@ =~= v@);
    r
}

/// The message that transacts the call `call_index` of this pallet, with
/// `seq` and `payload`, on the sibling parachain `para`.
fn call_message(pallet_index: u8, call_index: u8, para: u32, seq: u32, payload: &Vec<u8>) -> (r:
    OutgoingXcm)
    requires
        payload.len() <= u32::MAX,
    ensures
        is_call_to(r, para, pallet_index, call_index, seq, payload@),
{
    let mut call: Vec<u8> = Vec::new();
    call.push(pallet_index);
    call.push(call_index);
    let mut seq_bytes = encode_u32(seq);
    call.append(&mut seq_bytes);
    let mut payload_bytes = encode_bytes(payload);
    call.append(&mut payload_bytes);
    assert(call@ =~= call_bytes(pallet_index, call_index, seq, payload@));
    OutgoingXcm {
        dest: Destination { parents: 1, parachain: para },
        message: Transact {
            origin_kind: OriginKind::Native,
            require_weight_at_most: TRANSACT_WEIGHT,
            call,
        },
    }
}

impl Pallet {
    /// The pallet at genesis: no target, no ping.
    pub fn new(config: Config) -> (r: Pallet)
        ensures
            r.config == config,
            r.targets@ == Seq::<(u32, Vec<u8>)>::empty(),
            r.ping_count == 0,
            r.pings@ == Map::<u32, u32>::empty(),
    {
        Pallet { config, targets: Vec::new(), ping_count: 0, pings: BTreeMap::new() }
    }

    /// Adds `para`, with `payload`, to the targets pinged at the end of
    /// every block (root only).
    pub fn start(&mut self, origin: Origin, para: u32, payload: Vec<u8>) -> (r: Result<
        (),
        DispatchError<Error>,
    >)
        ensures
            origin != Origin::Root ==> r == Err::<(), DispatchError<Error>>(
                DispatchError::BadOrigin,
            ) && *final(self) == *old(self),
            origin == Origin::Root ==> r is Ok && final(self).targets@ == old(self).targets@.push(
                (para, payload),
            ) && *final(self) == (Pallet { targets: final(self).targets, ..*old(self) }),
    {
        ensure_root(origin)?;
        self.targets.push((para, payload));
        Ok(())
    }

    /// Adds `para`, with `payload`, `count` times to the targets (root
    /// only).
    pub fn start_many(&mut self, origin: Origin, para: u32, count: u32, payload: Vec<u8>) -> (r:
        Result<(), DispatchError<Error>>)
        ensures
            origin != Origin::Root ==> r == Err::<(), DispatchError<Error>>(
                DispatchError::BadOrigin,
            ) && *final(self) == *old(self),
            origin == Origin::Root ==> r is Ok && payloads(final(self).targets@) == payloads(
                old(self).targets@,
            ) + Seq::new(count as nat, |i: int| (para, payload@)) && *final(self) == (Pallet {
                targets: final(self).targets,
                ..*old(self)
            }),
    {
        ensure_root(origin)?;
        let mut k: u32 = 0;
        while k < count
            invariant
                k <= count,
                payloads(self.targets@) == payloads(old(self).targets@) + Seq::new(
                    k as nat,
                    |i: int| (para, payload@),
                ),
                *self == (Pallet { targets: self.targets, ..*old(self) }),
            decreases count - k,
        {
            let copy = copy_bytes(&payload);
            let ghost prev = self.targets@;
            self.targets.push((para, copy));
            assert(payloads(self.targets@) =~= payloads(prev).push((para, payload@)));
            k = k + 1;
            assert(payloads(self.targets@) =~= payloads(old(self).targets@) + Seq::new(
                k as nat,
                |i: int| (para, payload@),
            ));
        }
        Ok(())
    }

    /// Removes the first target for `para`, putting the last target in its
    /// place (root only); nothing changes when there is no target for it.
    pub fn stop(&mut self, origin: Origin, para: u32) -> (r: Result<(), DispatchError<Error>>)
        ensures
            origin != Origin::Root ==> r == Err::<(), DispatchError<Error>>(
                DispatchError::BadOrigin,
            ) && *final(self) == *old(self),
            origin == Origin::Root ==> r is Ok && *final(self) == (Pallet {
                targets: final(self).targets,
                ..*old(self)
            }) && ({
                let t = payloads(old(self).targets@);
                let i = position_of_para(t, para) as int;
                payloads(final(self).targets@) == if i < t.len() {
                    t.update(i, t.last()).drop_last()
                } else {
                    t
                }
            }),
    {
        ensure_root(origin)?;
        let ghost t = payloads(self.targets@);
        proof {
            lemma_position_of_para(t, para);
        }
        let mut i: usize = 0;
        while i < self.targets.len() && self.targets[i].0 != para
            invariant
                i <= self.targets.len(),
                t == payloads(self.targets@),
                forall|j: int| 0 <= j < i ==> #[trigger] t[j].0 != para,
            decreases self.targets.len() - i,
        {
            i = i + 1;
        }
        proof {
            let p = position_of_para(t, para) as int;
            if p < i {
                assert(t[p].0 != para);
            }
            if i < p {
                assert(t[i as int].0 != para);
            }
        }
        if i < self.targets.len() {
            self.targets.swap_remove(i);
            assert(payloads(self.targets@) =~= t.update(i as int, t.last()).drop_last());
        }
        Ok(())
    }

    /// Removes every target for `para`, keeping the others in order, or
    /// every target when no parachain is given (root only).
    pub fn stop_all(&mut self, origin: Origin, maybe_para: Option<u32>) -> (r: Result<
        (),
        DispatchError<Error>,
    >)
        ensures
            origin != Origin::Root ==> r == Err::<(), DispatchError<Error>>(
                DispatchError::BadOrigin,
            ) && *final(self) == *old(self),
            origin == Origin::Root ==> r is Ok && *final(self) == (Pallet {
                targets: final(self).targets,
                ..*old(self)
            }) && payloads(final(self).targets@) == match maybe_para {
                Some(para) => without_para(payloads(old(self).targets@), para),
                None => Seq::<(u32, Seq<u8>)>::empty(),
            },
    {
        ensure_root(origin)?;
        match maybe_para {
            Some(para) => {
                let ghost t = payloads(self.targets@);
                let mut kept: Vec<(u32, Vec<u8>)> = Vec::new();
                let mut i: usize = 0;
                while i < self.targets.len()
                    invariant
                        i <= self.targets.len(),
                        t == payloads(self.targets@),
                        payloads(kept@) == without_para(t.take(i as int), para),
                    decreases self.targets.len() - i,
                {
                    let p = self.targets[i].0;
                    if p != para {
                        let copy = copy_bytes(&self.targets[i].1);
                        kept.push((p, copy));
                    }
                    proof {
                        let s = t.take(i as int + 1);
                        assert(s.drop_last() =~= t.take(i as int));
                        assert(payloads(kept@) =~= without_para(s, para));
                    }
                    i = i + 1;
                }
                assert(t.take(self.targets.len() as int) =~= t);
                self.targets = kept;
            },
            None => {
                self.targets = Vec::new();
                assert(payloads(self.targets@) =~= Seq::<(u32, Seq<u8>)>::empty());
            },
        }
        Ok(())
    }

    /// Counts a new ping to the target at `index` and returns its sequence
    /// number with the message that carries it: a call of `ping` with that
    /// number and the target's payload. The count may not overflow.
    pub fn prepare_ping(&mut self, index: usize) -> (r: (u32, OutgoingXcm))
        requires
            index < old(self).targets.len(),
            old(self).ping_count < u32::MAX,
            old(self).targets@[index as int].1.len() <= u32::MAX,
        ensures
            final(self).ping_count == old(self).ping_count + 1,
            r.0 == final(self).ping_count,
            is_call_to(
                r.1,
                old(self).targets@[index as int].0,
                old(self).config.pallet_index,
                PING_CALL_INDEX,
                r.0,
                old(self).targets@[index as int].1@,
            ),
            *final(self) == (Pallet { ping_count: final(self).ping_count, ..*old(self) }),
    {
        self.ping_count = self.ping_count + 1;
        let seq = self.ping_count;
        let para = self.targets[index].0;
        let message = call_message(
            self.config.pallet_index,
            PING_CALL_INDEX,
            para,
            seq,
            &self.targets[index].1,
        );
        (seq, message)
    }

    /// Records the outcome of sending ping `seq` to the target at `index`
    /// at block `now`: a ping that was sent is remembered with its block.
    pub fn record_ping(
        &mut self,
        index: usize,
        seq: u32,
        now: u32,
        sent: Result<(), XcmError>,
    ) -> (r: Event)
        requires
            index < old(self).targets.len(),
        ensures
            ({
                let para = old(self).targets@[index as int].0;
                let payload = old(self).targets@[index as int].1@;
                &&& ping_event(r, para, payload, seq, sent)
                &&& final(self).pings@ == match sent {
                    Ok(()) => old(self).pings@.insert(seq, now),
                    Err(_) => old(self).pings@,
                }
            }),
            final(self).config == old(self).config,
            final(self).targets == old(self).targets,
            final(self).ping_count == old(self).ping_count,
    {
        let para = self.targets[index].0;
        let payload = copy_bytes(&self.targets[index].1);
        match sent {
            Ok(()) => {
                self.pings.insert(seq, now);
                Event::PingSent(para, seq, payload)
            },
            Err(e) => Event::ErrorSendingPing(e, para, seq, payload),
        }
    }

    /// The pings of the end of a block: every target in turn, numbered on
    /// from the count, each with the message that carries it. The count
    /// may not overflow.
    pub fn prepare_pings(&mut self) -> (r: Vec<(u32, OutgoingXcm)>)
        requires
            old(self).ping_count + old(self).targets.len() <= u32::MAX,
            forall|i: int|
                0 <= i < old(self).targets.len() ==> #[trigger] old(self).targets@[i].1.len()
                    <= u32::MAX,
        ensures
            final(self).ping_count == old(self).ping_count + old(self).targets.len(),
            r.len() == old(self).targets.len(),
            forall|i: int|
                0 <= i < r.len() ==> {
                    &&& #[trigger] r@[i].0 == old(self).ping_count + i + 1
                    &&& is_call_to(
                        r@[i].1,
                        old(self).targets@[i].0,
                        old(self).config.pallet_index,
                        PING_CALL_INDEX,
                        r@[i].0,
                        old(self).targets@[i].1@,
                    )
                },
            *final(self) == (Pallet { ping_count: final(self).ping_count, ..*old(self) }),
    {
        let mut pings: Vec<(u32, OutgoingXcm)> = Vec::new();
        let mut i: usize = 0;
        while i < self.targets.len()
            invariant
                i <= self.targets.len(),
                self.ping_count == old(self).ping_count + i,
                old(self).ping_count + old(self).targets.len() <= u32::MAX,
                forall|j: int|
                    0 <= j < old(self).targets.len() ==> #[trigger] old(self).targets@[j].1.len()
                        <= u32::MAX,
                *self == (Pallet { ping_count: self.ping_count, ..*old(self) }),
                pings.len() == i,
                forall|j: int|
                    0 <= j < i ==> {
                        &&& #[trigger] pings@[j].0 == old(self).ping_count + j + 1
                        &&& is_call_to(
                            pings@[j].1,
                            old(self).targets@[j].0,
                            old(self).config.pallet_index,
                            PING_CALL_INDEX,
                            pings@[j].0,
                            old(self).targets@[j].1@,
                        )
                    },
            decreases self.targets.len() - i,
        {
            let ping = self.prepare_ping(i);
            pings.push(ping);
            i = i + 1;
        }
        pings
    }

    /// Records the outcomes of the pings of a block at block `now`, one for
    /// each target in turn, each with its number: every ping that was sent
    /// is remembered with the block, and each outcome is announced.
    pub fn record_pings(&mut self, now: u32, outcomes: Vec<(u32, Result<(), XcmError>)>) -> (r:
        Vec<Event>)
        requires
            outcomes.len() == old(self).targets.len(),
        ensures
            r.len() == outcomes.len(),
            forall|i: int|
                0 <= i < r.len() ==> ping_event(
                    #[trigger] r@[i],
                    old(self).targets@[i].0,
                    old(self).targets@[i].1@,
                    outcomes@[i].0,
                    outcomes@[i].1,
                ),
            forall|seq: u32|
                #[trigger] sent_among(outcomes@, seq) ==> final(self).pings@.contains_key(seq)
                    && final(self).pings@[seq] == now,
            unsent_kept(old(self).pings@, final(self).pings@, outcomes@),
            final(self).config == old(self).config,
            final(self).targets == old(self).targets,
            final(self).ping_count == old(self).ping_count,
    {
        let mut events: Vec<Event> = Vec::new();
        let mut i: usize = 0;
        while i < outcomes.len()
            invariant
                i <= outcomes.len() == old(self).targets.len(),
                self.config == old(self).config,
                self.targets == old(self).targets,
                self.ping_count == old(self).ping_count,
                events.len() == i,
                forall|j: int|
                    0 <= j < i ==> ping_event(
                        #[trigger] events@[j],
                        old(self).targets@[j].0,
                        old(self).targets@[j].1@,
                        outcomes@[j].0,
                        outcomes@[j].1,
                    ),
                forall|seq: u32|
                    #[trigger] sent_among(outcomes@.take(i as int), seq) ==> self.pings@.contains_key(
                        seq,
                    ) && self.pings@[seq] == now,
                unsent_kept(old(self).pings@, self.pings@, outcomes@.take(i as int)),
            decreases outcomes.len() - i,
        {
            let (seq, sent) = outcomes[i];
            let ghost before = self.pings@;
            let event = self.record_ping(i, seq, now, sent);
            events.push(event);
            proof {
                let taken = outcomes@.take(i as int);
                let next = outcomes@.take(i as int + 1);
                assert forall|q: u32| sent_among(next, q) implies self.pings@.contains_key(q)
                    && self.pings@[q] == now by {
                    let j = choose|j: int| 0 <= j < next.len() && #[trigger] next[j].0 == q
                        && next[j].1 is Ok;
                    if j < i {
                        assert(taken[j] == next[j]);
                        assert(sent_among(taken, q));
                    }
                }
                assert forall|q: u32| !sent_among(next, q) implies (#[trigger] self.pings@.contains_key(
                    q,
                ) == old(self).pings@.contains_key(q) && (old(self).pings@.contains_key(q)
                    ==> self.pings@[q] == old(self).pings@[q])) by {
                    assert(unsent_kept(old(self).pings@, before, taken));
                    if sent_among(taken, q) {
                        let j = choose|j: int| 0 <= j < taken.len() && #[trigger] taken[j].0 == q
                            && taken[j].1 is Ok;
                        assert(next[j] == taken[j]);
                        assert(sent_among(next, q));
                    }
                    assert(!sent_among(taken, q));
                    assert(before.contains_key(q) == old(self).pings@.contains_key(q));
                    if sent is Ok {
                        assert(next[i as int] == outcomes@[i as int]);
                        if q == seq {
                            assert(sent_among(next, q));
                        }
                    }
                }
            }
            i = i + 1;
        }
        assert(outcomes@.take(outcomes.len() as int) =~= outcomes@);
        events
    }

    /// Answers a ping from a sibling parachain (only such a chain may
    /// call): announces it and returns the message that carries the pong,
    /// a call of `pong` with the same number and payload.
    pub fn ping(&self, origin: Origin, seq: u32, payload: Vec<u8>) -> (r: Result<
        (Event, OutgoingXcm),
        DispatchError<Error>,
    >)
        requires
            payload.len() <= u32::MAX,
        ensures
            match origin {
                Origin::SiblingParachain(para) => (r matches Ok((event, message)) && (
                event matches Event::Pinged(p, s, v) && p == para && s == seq && v@ == payload@)
                    && is_call_to(
                    message,
                    para,
                    self.config.pallet_index,
                    PONG_CALL_INDEX,
                    seq,
                    payload@,
                )),
                _ => r == Err::<(Event, OutgoingXcm), DispatchError<Error>>(
                    DispatchError::BadOrigin,
                ),
            },
    {
        let para = ensure_sibling_para(origin)?;
        let event = Event::Pinged(para, seq, copy_bytes(&payload));
        let message = call_message(self.config.pallet_index, PONG_CALL_INDEX, para, seq, &payload);
        Ok((event, message))
    }

    /// What the outcome of sending the pong of `seq` to `para` announces.
    pub fn pong_sent(para: u32, seq: u32, payload: Vec<u8>, sent: Result<(), XcmError>) -> (r:
        Event)
        ensures
            r == match sent {
                Ok(()) => Event::PongSent(para, seq, payload),
                Err(e) => Event::ErrorSendingPong(e, para, seq, payload),
            },
    {
        match sent {
            Ok(()) => Event::PongSent(para, seq, payload),
            Err(e) => Event::ErrorSendingPong(e, para, seq, payload),
        }
    }

    /// Takes the pong of ping `seq` from a sibling parachain (only such a
    /// chain may call) at block `now`: the ping is forgotten and the blocks
    /// since it was sent are announced, or the pong is announced as unknown
    /// when no such ping was sent.
    pub fn pong(&mut self, origin: Origin, seq: u32, payload: Vec<u8>, now: u32) -> (r: Result<
        Event,
        DispatchError<Error>,
    >)
        ensures
            match origin {
                Origin::SiblingParachain(para) => r == Ok::<Event, DispatchError<Error>>(
                    pong_event(old(self).pings@, para, seq, payload, now),
                ) && final(self).pings@ == old(self).pings@.remove(seq),
                _ => r == Err::<Event, DispatchError<Error>>(DispatchError::BadOrigin)
                    && final(self).pings@ == old(self).pings@,
            },
            final(self).config == old(self).config,
            final(self).targets == old(self).targets,
            final(self).ping_count == old(self).ping_count,
    {
        let para = ensure_sibling_para(origin)?;
        match self.pings.remove(&seq) {
            Some(sent_at) => Ok(Event::Ponged(para, seq, payload, now.saturating_sub(sent_at))),
            None => Ok(Event::UnknownPong(para, seq, payload)),
        }
    }
}

} // verus!
