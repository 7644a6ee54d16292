use vstd::prelude::*;

use crate::errors::{decode_error_text, sbus_error_of_decode, DecodeError, SBusError};
use crate::message::{lemma_message_round_trip, spec_parse_message, Message, MessageView};

verus! {

/// The next outgoing sequence number: yields the counter's value and
/// advances it, wrapping at the 16-bit boundary. Wrap-around is legal;
/// uniqueness of live outstanding values is the caller's concern.
pub fn next_sequence_number(counter: &mut u16) -> (r: u16)
    ensures
        r == *old(counter),
        *final(counter) == (if *old(counter) == u16::MAX {
            0u16
        } else {
            (*old(counter) + 1) as u16
        }),
{
    let c = *counter;
    *counter = if c == u16::MAX {
        0
    } else {
        c + 1
    };
    c
}

/// Whether no two entries share a sequence number.
spec fn unique_seqs(entries: Seq<(u16, u64)>) -> bool {
    forall|i: int, j: int|
        0 <= i < j < entries.len() ==> (#[trigger] entries[i]).0 != (#[trigger] entries[j]).0
}

/// Whether some entry carries sequence number `s`.
spec fn entries_have(entries: Seq<(u16, u64)>, s: u16) -> bool {
    exists|i: int| 0 <= i < entries.len() && (#[trigger] entries[i]).0 == s
}

/// The token of the entry carrying sequence number `s`.
spec fn entries_token(entries: Seq<(u16, u64)>, s: u16) -> u64 {
    let i = choose|i: int| 0 <= i < entries.len() && (#[trigger] entries[i]).0 == s;
    entries[i].1
}

/// With unique sequence numbers, the entry at index `i` is the one its
/// sequence number looks up.
proof fn lemma_entry_at(entries: Seq<(u16, u64)>, i: int)
    requires
        unique_seqs(entries),
        0 <= i < entries.len(),
    ensures
        entries_have(entries, entries[i].0),
        entries_token(entries, entries[i].0) == entries[i].1,
{
    let s = entries[i].0;
    assert(entries_have(entries, s));
    let j = choose|j: int| 0 <= j < entries.len() && (#[trigger] entries[j]).0 == s;
    if i != j {
        assert(entries[i].0 != entries[j].0);
    }
}

/// One-shot reply slots for in-flight requests, keyed by the sequence
/// number of the outstanding telegram. The table holds at most one
/// awaiter token per sequence number; what a token stands for (in
/// practice the send side of a one-shot channel) is the caller's
/// business.
pub struct PendingTable {
    entries: Vec<(u16, u64)>,
}

impl View for PendingTable {
    type V = Map<u16, u64>;

    closed spec fn view(&self) -> Map<u16, u64> {
        Map::new(
            |s: u16| entries_have(self.entries@, s),
            |s: u16| entries_token(self.entries@, s),
        )
    }
}

/// What the receiver decides about one incoming datagram, in
/// mathematical terms: a decodable telegram with a registered sequence
/// number is delivered to exactly that entry's token, which leaves the
/// table; anything else is fatal, and the table empties because every
/// awaiter is told.
pub ghost enum SpecReceiverOutcome {
    Deliver { token: u64, message: MessageView },
    FatalDecode { error: DecodeError },
    FatalUnexpected,
}

pub open spec fn spec_receiver_step(pending: Map<u16, u64>, datagram: Seq<u8>) -> (
    Map<u16, u64>,
    SpecReceiverOutcome,
) {
    match spec_parse_message(datagram) {
        Err(e) => (Map::empty(), SpecReceiverOutcome::FatalDecode { error: e }),
        Ok(p) => {
            if pending.dom().contains(p.0.sequence_number) {
                (
                    pending.remove(p.0.sequence_number),
                    SpecReceiverOutcome::Deliver {
                        token: pending[p.0.sequence_number],
                        message: p.0,
                    },
                )
            } else {
                (Map::empty(), SpecReceiverOutcome::FatalUnexpected)
            }
        },
    }
}

/// What the receiver does with one incoming datagram, in executable
/// terms. A `Fatal` action tells the caller to fail every listed
/// awaiter with a clone of the error and stop receiving.
pub enum ReceiverAction {
    Deliver { token: u64, message: Message },
    Fatal { error: SBusError, tokens: Vec<u64> },
}

/// Whether `tokens` is exactly a fan-out list for `pending`: it has
/// the token of every awaiter, and nothing that is not an awaiter's
/// token.
pub open spec fn tokens_cover(pending: Map<u16, u64>, tokens: Seq<u64>) -> bool {
    (forall|s: u16| #[trigger] pending.dom().contains(s) ==> tokens.contains(pending[s]))
        && (forall|i: int| #![trigger tokens[i]]
        0 <= i < tokens.len() ==> pending.contains_value(tokens[i]))
}

impl PendingTable {
    /// Well-formedness: no two entries share a sequence number. The
    /// constructor establishes it and every method preserves it.
    pub closed spec fn wf(&self) -> bool {
        unique_seqs(self.entries@)
    }

    /// A table with no awaiters.
    pub fn new() -> (r: Self)
        ensures
            r.wf(),
            r@ == Map::<u16, u64>::empty(),
    {
        let r = PendingTable { entries: Vec::new() };
        proof {
            assert(r@ =~= Map::<u16, u64>::empty());
        }
        r
    }

    /// The index of the entry carrying `s`, if any.
    fn find_index(&self, sequence_number: u16) -> (r: Option<usize>)
        ensures
            match r {
                Some(i) => i < self.entries@.len() && self.entries@[i as int].0
                    == sequence_number,
                None => !entries_have(self.entries@, sequence_number),
            },
    {
        let mut i: usize = 0;
        while i < self.entries.len()
            invariant
                i <= self.entries@.len(),
                forall|j: int| 0 <= j < i ==> (#[trigger] self.entries@[j]).0 != sequence_number,
            decreases self.entries@.len() - i,
        {
            if self.entries[i].0 == sequence_number {
                return Some(i);
            }
            i = i + 1;
        }
        None
    }

    /// Registers `token` as the awaiter of `sequence_number`,
    /// replacing any stale awaiter of the same number.
    pub fn register(&mut self, sequence_number: u16, token: u64)
        requires
            old(self).wf(),
        ensures
            final(self).wf(),
            final(self)@ == old(self)@.insert(sequence_number, token),
    {
        let ghost before = self@;
        let _ = self.take(sequence_number);
        let ghost mid = self.entries@;
        self.entries.push((sequence_number, token));
        proof {
            assert forall|k: u16| #[trigger]
                entries_have(self.entries@, k) == (entries_have(mid, k) || k
                == sequence_number) by {
                if entries_have(self.entries@, k) {
                    let i = choose|i: int|
                        0 <= i < self.entries@.len() && (#[trigger] self.entries@[i]).0 == k;
                    if i < mid.len() {
                        assert(mid[i].0 == k);
                    }
                } else {
                    if entries_have(mid, k) {
                        let i = choose|i: int|
                            0 <= i < mid.len() && (#[trigger] mid[i]).0 == k;
                        assert(self.entries@[i].0 == k);
                    }
                    if k == sequence_number {
                        assert(self.entries@[mid.len() as int].0 == k);
                    }
                }
            }
            assert(unique_seqs(self.entries@));
            assert forall|k: u16| entries_have(self.entries@, k) implies entries_token(
                self.entries@,
                k,
            ) == (if k == sequence_number {
                token
            } else {
                entries_token(mid, k)
            }) by {
                if k == sequence_number {
                    lemma_entry_at(self.entries@, mid.len() as int);
                } else {
                    let i = choose|i: int|
                        0 <= i < mid.len() && (#[trigger] mid[i]).0 == k;
                    lemma_entry_at(self.entries@, i);
                    lemma_entry_at(mid, i);
                }
            }
            assert(self@ =~= before.remove(sequence_number).insert(sequence_number, token));
            assert(before.remove(sequence_number).insert(sequence_number, token)
                =~= before.insert(sequence_number, token));
        }
    }

    /// Removes and yields the awaiter of `sequence_number`, if one is
    /// outstanding. A caller that gives up on a request uses this to
    /// reclaim its slot.
    pub fn cancel(&mut self, sequence_number: u16) -> (r: Option<u64>)
        requires
            old(self).wf(),
        ensures
            final(self).wf(),
            final(self)@ == old(self)@.remove(sequence_number),
            r == (if old(self)@.dom().contains(sequence_number) {
                Some(old(self)@[sequence_number])
            } else {
                None::<u64>
            }),
    {
        self.take(sequence_number)
    }

    /// `cancel`, under the name the rest of the table code uses.
    fn take(&mut self, sequence_number: u16) -> (r: Option<u64>)
        requires
            old(self).wf(),
        ensures
            final(self).wf(),
            final(self)@ == old(self)@.remove(sequence_number),
            !entries_have(final(self).entries@, sequence_number),
            r == (if old(self)@.dom().contains(sequence_number) {
                Some(old(self)@[sequence_number])
            } else {
                None::<u64>
            }),
    {
        let ghost before = self.entries@;
        match self.find_index(sequence_number) {
            None => {
                proof {
                    assert(self@ =~= old(self)@.remove(sequence_number));
                }
                None
            },
            Some(i) => {
                proof {
                    lemma_entry_at(before, i as int);
                }
                let (_seq, token) = self.entries.remove(i);
                proof {
                    let after = self.entries@;
                    assert(after =~= before.subrange(0, i as int) + before.subrange(
                        i + 1,
                        before.len() as int,
                    ));
                    assert forall|k: u16| #[trigger]
                        entries_have(after, k) == (entries_have(before, k) && k
                        != sequence_number) by {
                        if entries_have(after, k) {
                            let j = choose|j: int|
                                0 <= j < after.len() && (#[trigger] after[j]).0 == k;
                            if j < i {
                                assert(before[j].0 == k);
                            } else {
                                assert(before[j + 1].0 == k);
                            }
                            if k == sequence_number {
                                let j0: int = if j < i {
                                    j
                                } else {
                                    j + 1
                                };
                                assert(before[j0].0 == k && before[i as int].0 == k && j0 != i);
                            }
                        } else {
                            if entries_have(before, k) && k != sequence_number {
                                let j = choose|j: int|
                                    0 <= j < before.len() && (#[trigger] before[j]).0 == k;
                                assert(j != i);
                                if j < i {
                                    assert(after[j].0 == k);
                                } else {
                                    assert(after[j - 1].0 == k);
                                }
                            }
                        }
                    }
                    assert(unique_seqs(after));
                    assert forall|k: u16|
                        entries_have(after, k) implies entries_token(after, k) == entries_token(
                        before,
                        k,
                    ) by {
                        let j = choose|j: int|
                            0 <= j < after.len() && (#[trigger] after[j]).0 == k;
                        let j0: int = if j < i {
                            j
                        } else {
                            j + 1
                        };
                        assert(before[j0] == after[j]);
                        lemma_entry_at(after, j);
                        lemma_entry_at(before, j0);
                    }
                    assert(self@ =~= old(self)@.remove(sequence_number));
                }
                Some(token)
            },
        }
    }

    /// Removes every awaiter and yields their tokens, for fatal
    /// fan-out: each outstanding token appears in the result.
    fn drain_tokens(&mut self) -> (r: Vec<u64>)
        requires
            old(self).wf(),
        ensures
            final(self).wf(),
            final(self)@ == Map::<u16, u64>::empty(),
            tokens_cover(old(self)@, r@),
    {
        let ghost before = self.entries@;
        let mut tokens: Vec<u64> = Vec::new();
        let mut i: usize = 0;
        while i < self.entries.len()
            invariant
                before == self.entries@,
                unique_seqs(before),
                i <= before.len(),
                tokens@.len() == i,
                forall|j: int| 0 <= j < i ==> tokens@[j] == (#[trigger] before[j]).1,
            decreases before.len() - i,
        {
            tokens.push(self.entries[i].1);
            i = i + 1;
        }
        self.entries.clear();
        proof {
            assert(self@ =~= Map::<u16, u64>::empty());
            assert forall|s: u16| #[trigger] old(self)@.dom().contains(s) implies tokens@.contains(
                old(self)@[s],
            ) by {
                let j = choose|j: int| 0 <= j < before.len() && (#[trigger] before[j]).0 == s;
                lemma_entry_at(before, j);
                assert(tokens@[j] == old(self)@[s]);
            }
            assert forall|i2: int| #![trigger tokens@[i2]] 0 <= i2 < tokens@.len() implies old(self)@.contains_value(tokens@[i2]) by {
                lemma_entry_at(before, i2);
                assert(old(self)@.dom().contains(before[i2].0) && old(self)@[before[i2].0]
                    == tokens@[i2]);
            }
            assert(tokens_cover(old(self)@, tokens@));
        }
        tokens
    }

    /// Decides what to do with one received datagram, as the
    /// background receiver's loop body: decode, correlate by sequence
    /// number, and either deliver to the one matching awaiter or turn
    /// fatal and report every outstanding awaiter for error fan-out.
    pub fn on_datagram(&mut self, datagram: &[u8]) -> (r: ReceiverAction)
        requires
            old(self).wf(),
        ensures
            final(self).wf(),
            ({
                let step = spec_receiver_step(old(self)@, datagram@);
                final(self)@ == step.0 && (match r {
                    ReceiverAction::Deliver { token, message } => step.1 matches
                        SpecReceiverOutcome::Deliver { token: t, message: mv } && token == t
                        && message@ == mv,
                    ReceiverAction::Fatal { error, tokens } => (match step.1 {
                        SpecReceiverOutcome::FatalDecode { error: de } => (error matches
                            SBusError::InvalidResponse(s) && s@ == decode_error_text(de)),
                        SpecReceiverOutcome::FatalUnexpected => (error matches
                            SBusError::InvalidResponse(s) && s@
                            == "The server sent an unexpected response"@),
                        SpecReceiverOutcome::Deliver { .. } => false,
                    }) && tokens_cover(old(self)@, tokens@),
                })
            }),
    {
        let message = match Message::decode_from_bytes(datagram) {
            Ok(m) => m,
            Err(e) => {
                let tokens = self.drain_tokens();
                return ReceiverAction::Fatal { error: sbus_error_of_decode(e), tokens };
            },
        };
        match self.take(message.sequence_number) {
            Some(token) => ReceiverAction::Deliver { token, message },
            None => {
                proof {
                    assert(self@ =~= old(self)@);
                }
                let tokens = self.drain_tokens();
                ReceiverAction::Fatal {
                    error: SBusError::InvalidResponse(
                        String::from_str("The server sent an unexpected response"),
                    ),
                    tokens,
                }
            },
        }
    }
}

/// Replies may arrive in any order: with two distinct outstanding
/// sequence numbers, the later request's reply arriving first is
/// delivered to its own awaiter, and the earlier request's reply is
/// then still delivered to its own awaiter.
pub proof fn lemma_reordered_replies(pending: Map<u16, u64>, m1: MessageView, m2: MessageView)
    requires
        m1.encodable(),
        m1.telegram_attribute.canonical(),
        m2.encodable(),
        m2.telegram_attribute.canonical(),
        m1.sequence_number != m2.sequence_number,
        pending.dom().contains(m1.sequence_number),
        pending.dom().contains(m2.sequence_number),
    ensures
        ({
            let step2 = spec_receiver_step(pending, m2.spec_bytes());
            let step1 = spec_receiver_step(step2.0, m1.spec_bytes());
            step2.1 == SpecReceiverOutcome::Deliver {
                token: pending[m2.sequence_number],
                message: m2,
            } && step1.1 == SpecReceiverOutcome::Deliver {
                token: pending[m1.sequence_number],
                message: m1,
            }
        }),
{
    lemma_message_round_trip(m2);
    lemma_message_round_trip(m1);
}

/// Delivery is keyed strictly by sequence number: a reply is handed to
/// the token registered under its own sequence number and to no other,
/// and every unrelated entry survives untouched. In particular, after
/// a caller cancels its own slot, a late reply to that sequence number
/// cannot reach an unrelated awaiter.
pub proof fn lemma_delivery_isolated(pending: Map<u16, u64>, m: MessageView, other: u16)
    requires
        m.encodable(),
        m.telegram_attribute.canonical(),
        pending.dom().contains(m.sequence_number),
        other != m.sequence_number,
    ensures
        ({
            let step = spec_receiver_step(pending, m.spec_bytes());
            step.1 == SpecReceiverOutcome::Deliver {
                token: pending[m.sequence_number],
                message: m,
            } && !step.0.dom().contains(m.sequence_number) && (pending.dom().contains(other)
                ==> step.0.dom().contains(other) && step.0[other] == pending[other])
        }),
{
    lemma_message_round_trip(m);
}

/// A datagram that does not decode is fatal for every awaiter: the
/// table empties, and the outcome carries the decode failure that each
/// awaiter then observes as an invalid response.
pub proof fn lemma_decode_failure_fans_out(pending: Map<u16, u64>, datagram: Seq<u8>)
    requires
        spec_parse_message(datagram) is Err,
    ensures
        spec_receiver_step(pending, datagram).0 == Map::<u16, u64>::empty(),
        spec_receiver_step(pending, datagram).1 == (SpecReceiverOutcome::FatalDecode {
            error: spec_parse_message(datagram)->Err_0,
        }),
{
}

} // verus!
