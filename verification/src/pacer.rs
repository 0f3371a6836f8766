//! The sender's worker: when the packets that the audio callback filled go out.

use crate::rtp::SentPacket;
use crate::sender::{NetworkSender, Outgoing, SenderStatus, SEND_QUEUE_PACKETS};
use crate::stream::{bounded_wait_until, StreamLevel, WORKER_POLL_INTERVAL};
use std::collections::VecDeque;
use vstd::prelude::*;

verus! {

/// With how many packets sending starts.
pub const SEND_STARTUP_PACKETS: usize = 2;

/// How many packets a worker holds before the oldest give way.
pub const MAX_SENDER_BACKLOG_PACKETS: usize = 256;

/// What a worker does next.
#[derive(Clone, Copy, Debug, PartialEq, Eq, Structural)]
pub enum PacerStep {
    /// Waits up to so many nanoseconds for a packet to start with. Where none can come any more,
    /// it ends.
    Fill(u64),
    /// Looks for packets again.
    Again,
    /// Sends its oldest packet.
    Send,
    /// Waits up to so many nanoseconds for another packet. Where none can come any more, it sends
    /// what it has and ends.
    Wait(u64),
}

/// The packets that a worker holds, as they go out on the wire, and when the next does.
pub struct Pacing {
    pub interval: u64,
    pub backlog: Seq<Seq<u8>>,
    pub next_send_at: Option<u64>,
}

impl Pacing {
    /// No packets.
    pub open spec fn fresh(level: StreamLevel) -> Pacing {
        Pacing { interval: level.interval(), backlog: Seq::empty(), next_send_at: None }
    }

    /// When the next packet goes out, as decided at a time: sending starts then where enough
    /// packets wait.
    pub open spec fn deadline(self, now: u64) -> Option<u64> {
        if self.next_send_at is None && self.backlog.len() >= SEND_STARTUP_PACKETS {
            Some(now)
        } else {
            self.next_send_at
        }
    }

    /// What is to be done at a time.
    pub open spec fn step(self, now: u64) -> PacerStep {
        match self.deadline(now) {
            None => PacerStep::Fill(WORKER_POLL_INTERVAL),
            Some(at) => if self.backlog.len() == 0 {
                PacerStep::Again
            } else if now >= at {
                PacerStep::Send
            } else if at - now < WORKER_POLL_INTERVAL {
                PacerStep::Wait((at - now) as u64)
            } else {
                PacerStep::Wait(WORKER_POLL_INTERVAL)
            },
        }
    }

    /// Whether the oldest packet gives way to one that was there already.
    pub open spec fn is_full(self) -> bool {
        self.backlog.len() >= MAX_SENDER_BACKLOG_PACKETS
    }

    /// Without the oldest packet.
    pub open spec fn shifted(self) -> Pacing {
        Pacing {
            backlog: if self.backlog.len() > 0 {
                self.backlog.skip(1)
            } else {
                self.backlog
            },
            ..self
        }
    }

    /// With a packet that was waited for.
    pub open spec fn appended(self, packet: Seq<u8>) -> Pacing {
        Pacing { backlog: self.backlog.push(packet), ..self }
    }

    /// With a packet that was there already. Where too many wait, the oldest gives way.
    pub open spec fn accepted(self, packet: Seq<u8>) -> Pacing {
        if self.is_full() {
            self.shifted().appended(packet)
        } else {
            self.appended(packet)
        }
    }

    /// After what is to be done was decided at a time.
    pub open spec fn decided(self, now: u64) -> Pacing {
        Pacing {
            next_send_at: if self.step(now) is Again {
                None
            } else {
                self.deadline(now)
            },
            ..self
        }
    }

    /// When the packet after this one goes out: an interval after this one was due.
    pub open spec fn following(self, now: u64) -> int {
        match self.next_send_at {
            Some(at) => at + self.interval,
            None => now + self.interval,
        }
    }

    /// After the oldest packet has gone out.
    pub open spec fn completed(self, now: u64) -> Pacing {
        Pacing { next_send_at: Some(self.following(now) as u64), ..self.shifted() }
    }
}

/// The packets that a worker holds, and when the next goes out.
pub struct SenderPacer {
    level: StreamLevel,
    backlog: VecDeque<Box<SentPacket>>,
    next_send_at: Option<u64>,
}

impl View for SenderPacer {
    type V = Pacing;

    closed spec fn view(&self) -> Pacing {
        Pacing {
            interval: self.level.interval(),
            backlog: crate::sender::on_wire(self.backlog@),
            next_send_at: self.next_send_at,
        }
    }
}

impl SenderPacer {
    /// Whether every packet is in order.
    pub closed spec fn wf(&self) -> bool {
        forall|i: int| 0 <= i < self.backlog@.len() ==> (#[trigger] self.backlog@[i]).wf()
    }

    /// A worker that holds no packets.
    pub fn new(level: StreamLevel) -> (pacer: Self)
        ensures
            pacer.wf(),
            pacer@ == Pacing::fresh(level),
    {
        let pacer = SenderPacer { level, backlog: VecDeque::new(), next_send_at: None };
        proof {
            assert(pacer@.backlog =~= Seq::<Seq<u8>>::empty());
        }
        pacer
    }

    /// Takes in a packet that was there already. Where too many wait, the oldest gives way, and
    /// comes back.
    pub fn accept(&mut self, packet: Box<SentPacket>) -> (dropped: Option<Box<SentPacket>>)
        ensures
            final(self)@ == old(self)@.accepted(packet.bytes()),
            dropped is Some <==> old(self)@.is_full(),
            dropped matches Some(p) ==> p.bytes() == old(self)@.backlog[0],
            old(self).wf() && packet.wf() ==> final(self).wf(),
    {
        let ghost before = self.backlog@;
        let ghost start = self@;
        let mut dropped: Option<Box<SentPacket>> = None;
        if self.backlog.len() >= MAX_SENDER_BACKLOG_PACKETS {
            dropped = self.backlog.pop_front();
            proof {
                assert(self.backlog@ =~= before.skip(1));
            }
        }
        self.backlog.push_back(packet);
        proof {
            assert(self@.backlog =~= start.accepted(packet.bytes()).backlog);
        }
        dropped
    }

    /// Takes in a packet that was waited for.
    pub fn append(&mut self, packet: Box<SentPacket>)
        ensures
            final(self)@ == old(self)@.appended(packet.bytes()),
            old(self).wf() && packet.wf() ==> final(self).wf(),
    {
        let ghost start = self@;
        self.backlog.push_back(packet);
        proof {
            assert(self@.backlog =~= start.appended(packet.bytes()).backlog);
        }
    }

    /// Decides what is to be done. Sending starts with `SEND_STARTUP_PACKETS` packets, and has to
    /// start anew once there are none.
    pub fn decide(&mut self, now: u64) -> (step: PacerStep)
        ensures
            step == old(self)@.step(now),
            final(self)@ == old(self)@.decided(now),
            old(self).wf() ==> final(self).wf(),
    {
        if self.next_send_at.is_none() {
            if self.backlog.len() >= SEND_STARTUP_PACKETS {
                self.next_send_at = Some(now);
            } else {
                return PacerStep::Fill(WORKER_POLL_INTERVAL);
            }
        }
        if self.backlog.len() == 0 {
            self.next_send_at = None;
            return PacerStep::Again;
        }
        match self.next_send_at {
            None => PacerStep::Fill(WORKER_POLL_INTERVAL),
            Some(deadline) => {
                if now >= deadline {
                    PacerStep::Send
                } else {
                    PacerStep::Wait(bounded_wait_until(deadline, now))
                }
            },
        }
    }

    /// The packet that goes out next.
    pub fn front(&self) -> (packet: Option<&SentPacket>)
        ensures
            packet is Some <==> self@.backlog.len() > 0,
            packet matches Some(p) ==> p.bytes() == self@.backlog[0],
            packet matches Some(p) ==> self.wf() ==> p.wf(),
    {
        if self.backlog.len() == 0 {
            None
        } else {
            Some(&*self.backlog[0])
        }
    }

    /// Takes the packet that has gone out, without its payload. The next goes out an interval
    /// after this one was due, however late this one was.
    pub fn complete_send(&mut self, now: u64) -> (packet: Option<Box<SentPacket>>)
        requires
            old(self)@.following(now) <= u64::MAX,
        ensures
            final(self)@ == old(self)@.completed(now),
            packet is Some <==> old(self)@.backlog.len() > 0,
            packet matches Some(p) ==> p.wf() && p.body() == Seq::<u8>::empty(),
            old(self).wf() ==> final(self).wf(),
    {
        let packet = self.drain_next();
        let scheduled: u64 = match self.next_send_at {
            Some(at) => at,
            None => now,
        } + self.level.packet_interval();
        self.next_send_at = Some(scheduled);
        packet
    }

    /// Takes the packet that goes out next, without its payload.
    pub fn drain_next(&mut self) -> (packet: Option<Box<SentPacket>>)
        ensures
            final(self)@ == old(self)@.shifted(),
            packet is Some <==> old(self)@.backlog.len() > 0,
            packet matches Some(p) ==> p.wf() && p.body() == Seq::<u8>::empty(),
            old(self).wf() ==> final(self).wf(),
    {
        let ghost before = self.backlog@;
        let ghost start = self@;
        match self.backlog.pop_front() {
            None => None,
            Some(mut packet) => {
                proof {
                    assert(self.backlog@ =~= before.skip(1));
                    assert(self@.backlog =~= start.shifted().backlog);
                }
                packet.clear_payload();
                Some(packet)
            },
        }
    }

    /// Takes in all packets that the sender has filled. Those that give way are counted as dropped.
    pub fn take_waiting(&mut self, sender: &mut NetworkSender)
        requires
            old(self).wf(),
            old(sender).wf(),
        ensures
            final(self).wf(),
            final(sender).wf(),
            final(sender).resetting() == old(sender).resetting(),
            final(sender).spares() == old(sender).spares(),
            final(sender).outgoing() == (Outgoing {
                outbox: Seq::empty(),
                ..old(sender).outgoing()
            }),
            ({
                let worker = Worker::starting(old(self)@, old(sender).status()).after_all(
                    supplied(old(sender).outgoing().outbox),
                );
                &&& final(self)@ == worker.pacing
                &&& final(sender).status() == worker.status
            }),
    {
        let ghost start = Worker::starting(self@, sender.status());
        let ghost outbox = sender.outgoing().outbox;
        let ghost outgoing = sender.outgoing();
        let ghost mut taken: int = 0;
        proof {
            assert(outbox.skip(0) =~= outbox);
            assert(supplied(outbox.take(0)) =~= Seq::<WorkerEvent>::empty());
        }
        loop
            invariant
                self.wf(),
                sender.wf(),
                sender.resetting() == old(sender).resetting(),
                sender.spares() == old(sender).spares(),
                0 <= taken <= outbox.len(),
                sender.outgoing() == (Outgoing { outbox: outbox.skip(taken), ..outgoing }),
                self@ == start.after_all(supplied(outbox.take(taken))).pacing,
                sender.status() == start.after_all(supplied(outbox.take(taken))).status,
            ensures
                taken == outbox.len(),
            decreases outbox.len() - taken,
        {
            let packet: Box<SentPacket> = match sender.take_packet() {
                None => {
                    break;
                },
                Some(packet) => packet,
            };
            proof {
                let events = supplied(outbox.take(taken + 1));
                assert(events.drop_last() =~= supplied(outbox.take(taken)));
                assert(events.last() == WorkerEvent::Supplied(outbox[taken]));
                assert(outbox.skip(taken).skip(1) =~= outbox.skip(taken + 1));
                taken = taken + 1;
            }
            if self.accept(packet).is_some() {
                sender.note_sent(false);
            }
        }
        proof {
            assert(outbox.take(taken) =~= outbox);
            assert(outbox.skip(taken) =~= Seq::<Seq<u8>>::empty());
        }
    }

    /// Notes that the packet that was to go out has gone out, or could not. The sender gets it back
    /// to be filled again.
    pub fn finish_send(&mut self, sender: &mut NetworkSender, now: u64, sent: bool)
        requires
            old(self).wf(),
            old(sender).wf(),
            old(self)@.backlog.len() > 0,
            old(self)@.following(now) <= u64::MAX,
        ensures
            final(self).wf(),
            final(sender).wf(),
            final(sender).resetting() == old(sender).resetting(),
            final(sender).outgoing() == old(sender).outgoing(),
            final(self)@ == old(self)@.completed(now),
            final(sender).status() == old(sender).status().with_departure(sent),
            is_given_back(old(sender).spares(), final(sender).spares()),
    {
        let ghost spares = sender.spares();
        let packet = self.complete_send(now);
        sender.note_sent(sent);
        if let Some(packet) = packet {
            sender.recycle(packet);
        }
        proof {
            if spares.len() < SEND_QUEUE_PACKETS {
                assert(sender.spares().drop_last() =~= spares);
            }
        }
    }

    /// Notes that a packet that was left at the end has gone out, or could not. The sender gets it
    /// back.
    pub fn finish_drain(&mut self, sender: &mut NetworkSender, sent: bool)
        requires
            old(self).wf(),
            old(sender).wf(),
            old(self)@.backlog.len() > 0,
        ensures
            final(self).wf(),
            final(sender).wf(),
            final(sender).resetting() == old(sender).resetting(),
            final(sender).outgoing() == old(sender).outgoing(),
            final(self)@ == old(self)@.shifted(),
            final(sender).status() == old(sender).status().with_departure(sent),
            is_given_back(old(sender).spares(), final(sender).spares()),
    {
        let ghost spares = sender.spares();
        let packet = self.drain_next();
        sender.note_sent(sent);
        if let Some(packet) = packet {
            sender.recycle(packet);
        }
        proof {
            if spares.len() < SEND_QUEUE_PACKETS {
                assert(sender.spares().drop_last() =~= spares);
            }
        }
    }
}

/// Whether an empty packet was added to those that can be filled again, where there was room.
pub open spec fn is_given_back(before: Seq<Box<SentPacket>>, after: Seq<Box<SentPacket>>) -> bool {
    if before.len() < SEND_QUEUE_PACKETS {
        &&& after.len() == before.len() + 1
        &&& after.drop_last() == before
        &&& after.last().wf()
        &&& after.last().body() == Seq::<u8>::empty()
    } else {
        after == before
    }
}

/// What happens in a sender's worker.
pub enum WorkerEvent {
    /// A packet that was there already was taken in.
    Supplied(Seq<u8>),
    /// A packet that was waited for was taken in.
    Awaited(Seq<u8>),
    /// It was decided at a time what was to be done. Where a packet was to go out, `sent` tells
    /// whether it did, and `done` is the time afterwards.
    Turn { now: u64, sent: bool, done: u64 },
    /// No packet could come any more, and the oldest that was left went out, or could not.
    Drained { sent: bool },
}

/// A packet that has left a worker: sent, or dropped.
pub struct Departure {
    pub packet: Seq<u8>,
    pub sent: bool,
}

/// A sender's worker: the packets that it holds, what is reported, and what has left it.
pub struct Worker {
    pub pacing: Pacing,
    pub status: SenderStatus,
    pub departed: Seq<Departure>,
}

impl Worker {
    /// A worker that nothing has left yet.
    pub open spec fn starting(pacing: Pacing, status: SenderStatus) -> Worker {
        Worker { pacing, status, departed: Seq::empty() }
    }

    /// With the oldest packet counted as sent or dropped.
    pub open spec fn departing(self, sent: bool) -> Worker {
        Worker {
            status: self.status.with_departure(sent),
            departed: self.departed.push(Departure { packet: self.pacing.backlog[0], sent }),
            ..self
        }
    }

    /// After an event.
    pub open spec fn after(self, event: WorkerEvent) -> Worker {
        match event {
            WorkerEvent::Supplied(packet) => {
                let pacing = self.pacing.accepted(packet);
                if self.pacing.is_full() {
                    Worker { pacing, ..self.departing(false) }
                } else {
                    Worker { pacing, ..self }
                }
            },
            WorkerEvent::Awaited(packet) => Worker { pacing: self.pacing.appended(packet), ..self },
            WorkerEvent::Turn { now, sent, done } => {
                let pacing = self.pacing.decided(now);
                if self.pacing.step(now) is Send {
                    Worker { pacing: pacing.completed(done), ..self.departing(sent) }
                } else {
                    Worker { pacing, ..self }
                }
            },
            WorkerEvent::Drained { sent } => if self.pacing.backlog.len() > 0 {
                Worker { pacing: self.pacing.shifted(), ..self.departing(sent) }
            } else {
                self
            },
        }
    }

    /// After all of some events.
    pub open spec fn after_all(self, events: Seq<WorkerEvent>) -> Worker
        decreases events.len(),
    {
        if events.len() == 0 {
            self
        } else {
            self.after_all(events.drop_last()).after(events.last())
        }
    }
}

/// Packets that were there already, one after the other.
pub open spec fn supplied(packets: Seq<Seq<u8>>) -> Seq<WorkerEvent> {
    packets.map_values(|packet: Seq<u8>| WorkerEvent::Supplied(packet))
}

/// The packets that came to a worker, in the order in which they did.
pub open spec fn packets_taken(events: Seq<WorkerEvent>) -> Seq<Seq<u8>>
    decreases events.len(),
{
    if events.len() == 0 {
        Seq::empty()
    } else {
        let before = packets_taken(events.drop_last());
        match events.last() {
            WorkerEvent::Supplied(packet) => before.push(packet),
            WorkerEvent::Awaited(packet) => before.push(packet),
            _ => before,
        }
    }
}

/// How many packets have left as sent, or as dropped.
pub open spec fn departures(departed: Seq<Departure>, sent: bool) -> nat
    decreases departed.len(),
{
    if departed.len() == 0 {
        0
    } else {
        departures(departed.drop_last(), sent) + if departed.last().sent == sent {
            1nat
        } else {
            0
        }
    }
}

/// The packets that have left, in the order in which they did.
pub open spec fn departed_packets(departed: Seq<Departure>) -> Seq<Seq<u8>> {
    departed.map_values(|departure: Departure| departure.packet)
}

/// Every packet is accounted for, whatever happens in a worker. Packets leave in the order in which
/// they came, each at most once and just as it came, and what has not left is still there. Each that
/// leaves is counted once, as sent or as dropped, and nothing is counted besides.
pub proof fn law_packets_leave_in_order(level: StreamLevel, events: Seq<WorkerEvent>)
    ensures
        ({
            let start = Worker::starting(Pacing::fresh(level), SenderStatus::cleared());
            let worker = start.after_all(events);
            &&& departed_packets(worker.departed) + worker.pacing.backlog == packets_taken(events)
            &&& worker.status == (SenderStatus {
                packets_sent: crate::receiver::tally(departures(worker.departed, true)),
                packets_dropped: crate::receiver::tally(departures(worker.departed, false)),
                ..SenderStatus::cleared()
            })
            &&& departures(worker.departed, true) + departures(worker.departed, false)
                == worker.departed.len()
        }),
    decreases events.len(),
{
    let start = Worker::starting(Pacing::fresh(level), SenderStatus::cleared());
    let worker = start.after_all(events);
    if events.len() == 0 {
        assert(departed_packets(worker.departed) + worker.pacing.backlog =~= Seq::<
            Seq<u8>,
        >::empty());
        crate::receiver::lemma_tally_counts(0);
    } else {
        let before = start.after_all(events.drop_last());
        law_packets_leave_in_order(level, events.drop_last());
        crate::receiver::lemma_tally_counts(departures(before.departed, true));
        crate::receiver::lemma_tally_counts(departures(before.departed, false));
        if worker.departed.len() > before.departed.len() {
            assert(worker.departed.drop_last() =~= before.departed);
            assert(departed_packets(worker.departed) =~= departed_packets(before.departed).push(
                before.pacing.backlog[0],
            ));
        }
        assert(departed_packets(worker.departed) + worker.pacing.backlog =~= packets_taken(events));
    }
}

/// Whether a worker went on as long as packets could come.
pub open spec fn never_drained(events: Seq<WorkerEvent>) -> bool {
    forall|k: int| 0 <= k < events.len() ==> !(#[trigger] events[k] is Drained)
}

/// Nothing leaves a worker that has to start before `SEND_STARTUP_PACKETS` packets wait: neither at
/// first, nor again once it has found that none wait.
pub proof fn law_nothing_leaves_before_the_start(start: Worker, events: Seq<WorkerEvent>)
    requires
        start.pacing.next_send_at is None,
        start.pacing.backlog.len() + packets_taken(events).len() < SEND_STARTUP_PACKETS,
        never_drained(events),
    ensures
        start.after_all(events).departed == start.departed,
        start.after_all(events).pacing.next_send_at is None,
        start.after_all(events).pacing.backlog == start.pacing.backlog + packets_taken(events),
    decreases events.len(),
{
    if events.len() == 0 {
        assert(start.pacing.backlog + packets_taken(events) =~= start.pacing.backlog);
    } else {
        let earlier = events.drop_last();
        assert forall|k: int| 0 <= k < earlier.len() implies !(#[trigger] earlier[k] is Drained) by {
            assert(earlier[k] == events[k]);
        }
        assert(!(events[events.len() - 1] is Drained));
        law_nothing_leaves_before_the_start(start, earlier);
        assert(start.after_all(events).pacing.backlog =~= start.pacing.backlog + packets_taken(
            events,
        ));
    }
}

/// A worker that finds that none wait has to start anew.
pub proof fn law_an_idle_worker_starts_anew(pacing: Pacing, now: u64)
    requires
        pacing.backlog.len() == 0,
    ensures
        pacing.decided(now).next_send_at is None,
{
}

/// Nothing goes out before there are packets to start with.
pub proof fn law_sending_starts_with_enough_packets(pacing: Pacing, now: u64)
    requires
        pacing.next_send_at is None,
        pacing.backlog.len() < SEND_STARTUP_PACKETS,
    ensures
        pacing.step(now) == PacerStep::Fill(WORKER_POLL_INTERVAL),
{
}

/// After a packet that was due at a time, the next goes out an interval later or afterwards, never
/// before, however late the packet was.
pub proof fn law_packets_go_out_an_interval_apart(pacing: Pacing, due: u64, done: u64, now: u64)
    requires
        pacing.next_send_at == Some(due),
        pacing.backlog.len() > 0,
        due + pacing.interval <= u64::MAX,
    ensures
        pacing.completed(done).step(now) is Send <==> pacing.backlog.len() > 1 && now >= due
            + pacing.interval,
{
}

/// A worker that waits never sleeps past the next deadline.
pub proof fn law_waiting_ends_by_the_deadline(pacing: Pacing, now: u64)
    requires
        pacing.step(now) is Wait,
    ensures
        pacing.next_send_at is Some,
        now + pacing.step(now)->Wait_0 <= pacing.next_send_at->0,
        0 < pacing.step(now)->Wait_0 <= WORKER_POLL_INTERVAL,
{
}

/// A worker that has nothing to go by starts with two packets, at once, and waits for them 20
/// milliseconds at a time. One that has run out looks for packets again and starts anew.
pub proof fn law_two_packets_start_a_worker(pacing: Pacing, now: u64)
    ensures
        pacing.next_send_at is None && pacing.backlog.len() < 2 ==> pacing.step(now)
            == PacerStep::Fill(20_000_000) && pacing.decided(now) == pacing,
        pacing.next_send_at is None && pacing.backlog.len() >= 2 ==> pacing.step(now)
            == PacerStep::Send && pacing.decided(now) == (Pacing { next_send_at: Some(now), ..pacing }),
        pacing.next_send_at is Some && pacing.backlog.len() == 0 ==> pacing.step(now)
            == PacerStep::Again && pacing.decided(now) == (Pacing { next_send_at: None, ..pacing }),
{
}

/// A worker that sends sends its oldest packet at its time or later, never before. Until then it waits
/// exactly as long as is left, but for 20 milliseconds at most, and the time does not move.
pub proof fn law_packets_go_out_at_their_time(pacing: Pacing, due: u64, now: u64)
    requires
        pacing.next_send_at == Some(due),
        pacing.backlog.len() > 0,
    ensures
        now >= due ==> pacing.step(now) == PacerStep::Send,
        now < due <= now + 20_000_000 ==> pacing.step(now) == PacerStep::Wait((due - now) as u64),
        due > now + 20_000_000 ==> pacing.step(now) == PacerStep::Wait(20_000_000),
        pacing.decided(now) == pacing,
{
}

/// The packet behind one that was sent is due an interval after that one was, which is as long as a
/// packet's frames last. Only the oldest packet leaves.
pub proof fn law_the_next_packet_is_due_an_interval_later(
    level: StreamLevel,
    pacing: Pacing,
    due: u64,
    done: u64,
)
    requires
        pacing.interval == Pacing::fresh(level).interval,
        pacing.next_send_at == Some(due),
        pacing.backlog.len() > 0,
        due + 1_000_000 <= u64::MAX,
    ensures
        ({
            let after = pacing.completed(done);
            &&& after.next_send_at == Some(
                (due + level.frames() * 1_000_000_000 / level.rate() as nat) as u64,
            )
            &&& after.backlog.len() == pacing.backlog.len() - 1
            &&& forall|i: int|
                0 <= i < after.backlog.len() ==> #[trigger] after.backlog[i] == pacing.backlog[i + 1]
        }),
{
    crate::stream::law_packet_interval_is_packet_duration(level);
}

/// A packet goes behind those that wait. Where 256 wait, the oldest gives way to it. When packets are
/// due makes no difference to that.
pub proof fn law_packets_wait_in_line(pacing: Pacing, packet: Seq<u8>)
    ensures
        pacing.backlog.len() < 256 ==> pacing.accepted(packet).backlog == pacing.backlog.push(packet),
        pacing.backlog.len() >= 256 ==> pacing.accepted(packet).backlog == pacing.backlog.skip(
            1,
        ).push(packet),
        pacing.appended(packet).backlog == pacing.backlog.push(packet),
        pacing.accepted(packet).next_send_at == pacing.next_send_at,
        pacing.appended(packet).next_send_at == pacing.next_send_at,
        pacing.accepted(packet).interval == pacing.interval,
{
}

/// Where no time was set yet, the packet behind one that was sent is due an interval after that was done.
pub proof fn law_the_first_interval_counts_from_the_sending(pacing: Pacing, done: u64)
    requires
        pacing.next_send_at is None,
        done + pacing.interval <= u64::MAX,
    ensures
        pacing.completed(done).next_send_at == Some((done + pacing.interval) as u64),
{
}

} // verus!
