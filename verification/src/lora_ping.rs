//! Link test: one board sends numbered pings, the other echoes them, and the round trips are tallied.
//!
//! A packet is five bytes: the sequence number, little-endian, and a magic byte that tells a ping from its echo. The
//! pinger checks both before it counts a round trip, so that stray traffic cannot pollute the statistics.

use vstd::prelude::*;

verus! {

/// Tag of a ping.
pub const PING_MAGIC: u8 = 0xa5;

/// Tag of an echo.
pub const PONG_MAGIC: u8 = 0x5a;

/// Size of a packet: four bytes of sequence number and the tag.
pub const PAYLOAD_LEN: usize = 5;

/// Output power in dBm.
pub const OUTPUT_POWER_DBM: i32 = 14;

/// One ping per this period.
pub const PING_PERIOD_MS: u64 = 200;

/// How long to wait for the echo before the ping is lost.
pub const ECHO_TIMEOUT_MS: u64 = 150;

/// A summary comes every this many pings.
pub const STATS_EVERY: u32 = 10;

/// A number as four bytes, the low one first.
pub open spec fn le_bytes(n: u32) -> Seq<u8> {
    seq![(n % 256) as u8, (n / 256 % 256) as u8, (n / 65_536 % 256) as u8, (n / 16_777_216) as u8]
}

/// The packet of a ping.
pub open spec fn ping_packet(seq_no: u32) -> Seq<u8> {
    le_bytes(seq_no).push(PING_MAGIC)
}

/// The echo of a received packet: its first four bytes, zeros where it had fewer, and the echo's tag.
pub open spec fn echo_packet(received: Seq<u8>) -> Seq<u8> {
    Seq::new(4, |i: int| if i < received.len() { received[i] } else { 0u8 }).push(PONG_MAGIC)
}

/// Whether a packet is the echo of ping `seq_no`.
pub open spec fn is_echo(packet: Seq<u8>, seq_no: u32) -> bool {
    packet == le_bytes(seq_no).push(PONG_MAGIC)
}

/// The packet of a ping.
pub fn ping_payload(seq_no: u32) -> (packet: [u8; 5])
    ensures
        packet@ == ping_packet(seq_no),
{
    let packet: [u8; 5] = [
        (seq_no % 256) as u8,
        (seq_no / 256 % 256) as u8,
        (seq_no / 65_536 % 256) as u8,
        (seq_no / 16_777_216) as u8,
        PING_MAGIC,
    ];
    proof {
        assert(packet@ =~= ping_packet(seq_no));
    }
    packet
}

fn le_number(a: u8, b: u8, c: u8, d: u8) -> (n: u32)
    ensures
        n == a + b * 256 + c * 65_536 + d * 16_777_216,
        le_bytes(n) == seq![a, b, c, d],
{
    let n: u32 = a as u32 + b as u32 * 256 + c as u32 * 65_536 + d as u32 * 16_777_216;
    proof {
        assert(n % 256 == a);
        assert(n / 256 == b + c * 256 + d * 65_536);
        assert(n / 256 % 256 == b);
        assert(n / 65_536 == c + d * 256);
        assert(n / 65_536 % 256 == c);
        assert(n / 16_777_216 == d);
        assert(le_bytes(n) =~= seq![a, b, c, d]);
    }
    n
}

/// Whether a received packet is the echo of ping `expected_seq`: exactly [`PAYLOAD_LEN`] bytes, the echo's tag, and
/// the number that was sent. This rejects stray band traffic and stale echoes.
pub fn valid_echo(buf: &[u8], expected_seq: u32) -> (valid: bool)
    ensures
        valid == is_echo(buf@, expected_seq),
{
    if buf.len() != PAYLOAD_LEN || buf[4] != PONG_MAGIC {
        proof {
            assert(le_bytes(expected_seq).push(PONG_MAGIC)[4] == PONG_MAGIC);
        }
        return false;
    }
    let seq_no = le_number(buf[0], buf[1], buf[2], buf[3]);
    proof {
        let want = le_bytes(expected_seq).push(PONG_MAGIC);
        assert(buf@ =~= le_bytes(seq_no).push(PONG_MAGIC));
        if buf@ == want {
            assert(le_bytes(seq_no)[0] == want[0] && le_bytes(seq_no)[1] == want[1]);
            assert(le_bytes(seq_no)[2] == want[2] && le_bytes(seq_no)[3] == want[3]);
            lemma_le_bytes_injective(seq_no, expected_seq);
        }
    }
    seq_no == expected_seq
}

proof fn lemma_le_bytes_injective(a: u32, b: u32)
    requires
        forall|i: int| 0 <= i < 4 ==> le_bytes(a)[i] == le_bytes(b)[i],
    ensures
        a == b,
{
    assert(le_bytes(a)[0] == le_bytes(b)[0]);
    assert(le_bytes(a)[1] == le_bytes(b)[1]);
    assert(le_bytes(a)[2] == le_bytes(b)[2]);
    assert(le_bytes(a)[3] == le_bytes(b)[3]);
}

/// The number of a received ping; `None` where the packet is none.
pub fn ping_seq(packet: &[u8]) -> (seq_no: Option<u32>)
    ensures
        seq_no matches Some(n) ==> packet@ == ping_packet(n),
        seq_no is None ==> packet@.len() != PAYLOAD_LEN || packet@[4] != PING_MAGIC,
{
    if packet.len() != PAYLOAD_LEN || packet[4] != PING_MAGIC {
        return None;
    }
    let n = le_number(packet[0], packet[1], packet[2], packet[3]);
    proof {
        assert(packet@ =~= ping_packet(n));
    }
    Some(n)
}

/// The echo of whatever was received: the same number with the echo's tag, so that the pinger can match it.
pub fn echo_payload(received: &[u8]) -> (packet: [u8; 5])
    ensures
        packet@ == echo_packet(received@),
{
    let a: u8 = if received.len() > 0 {
        received[0]
    } else {
        0
    };
    let b: u8 = if received.len() > 1 {
        received[1]
    } else {
        0
    };
    let c: u8 = if received.len() > 2 {
        received[2]
    } else {
        0
    };
    let d: u8 = if received.len() > 3 {
        received[3]
    } else {
        0
    };
    let packet: [u8; 5] = [a, b, c, d, PONG_MAGIC];
    proof {
        assert(packet@ =~= echo_packet(received@));
    }
    packet
}

/// How a ping ended.
#[derive(Copy, Clone, Debug, PartialEq, Eq, Structural)]
pub enum Ping {
    /// It could not be sent: a radio problem, not a missing peer.
    NotSent,
    /// Its echo came back after this many microseconds.
    Echoed(u64),
    /// Something else came back, the radio failed, or nothing came in time.
    Lost,
}

/// What came of sending a ping and waiting for its echo.
#[derive(Copy, Clone)]
pub enum PingEvent<'a> {
    /// The radio could not send it.
    SendFailed,
    /// A packet came in this many microseconds after the ping went out.
    Received { packet: &'a [u8], rtt_us: u64 },
    /// The radio failed to receive.
    ReceiveFailed,
    /// Nothing came in time.
    Silence,
}

/// How ping `seq_no` ended: only its own echo makes a round trip, whatever else comes in is a loss.
pub open spec fn outcome_of(seq_no: u32, event: PingEvent) -> Ping {
    match event {
        PingEvent::SendFailed => Ping::NotSent,
        PingEvent::Received { packet, rtt_us } => if is_echo(packet@, seq_no) {
            Ping::Echoed(rtt_us)
        } else {
            Ping::Lost
        },
        PingEvent::ReceiveFailed | PingEvent::Silence => Ping::Lost,
    }
}

/// The round trips so far, in microseconds.
#[verifier::ext_equal]
pub struct Tally {
    pub rtts: Seq<u64>,
    pub lost: nat,
}

/// The least of a non-empty run of numbers.
pub open spec fn least(s: Seq<u64>) -> u64
    decreases s.len(),
{
    if s.len() == 0 {
        u64::MAX
    } else if s.last() < least(s.drop_last()) {
        s.last()
    } else {
        least(s.drop_last())
    }
}

/// The greatest of a run of numbers.
pub open spec fn greatest(s: Seq<u64>) -> u64
    decreases s.len(),
{
    if s.len() == 0 {
        0
    } else if s.last() > greatest(s.drop_last()) {
        s.last()
    } else {
        greatest(s.drop_last())
    }
}

/// The sum of a run of numbers.
pub open spec fn total(s: Seq<u64>) -> int
    decreases s.len(),
{
    if s.len() == 0 {
        0
    } else {
        total(s.drop_last()) + s.last()
    }
}

/// Round trips in microseconds: least, mean (rounded down) and greatest.
#[derive(Copy, Clone, Debug, PartialEq, Eq, Structural)]
pub struct Rtt {
    pub min_us: u64,
    pub avg_us: u64,
    pub max_us: u64,
}

/// A summary of the pings so far.
#[derive(Copy, Clone, Debug, PartialEq, Eq, Structural)]
pub struct Summary {
    pub pings: u32,
    pub echoes: u32,
    pub lost: u32,
    /// The round trips, once there is any.
    pub rtt: Option<Rtt>,
}

/// The pinger: the number of the next ping and the running statistics.
pub struct Pinger {
    seq_no: u32,
    min_us: u64,
    max_us: u64,
    sum_us: u64,
    recv: u32,
    lost: u32,
    rtts: Ghost<Seq<u64>>,
}

impl Pinger {
    /// The statistics are those of the round trips seen.
    pub closed spec fn wf(&self) -> bool {
        &&& self.recv == self.rtts@.len()
        &&& self.min_us == least(self.rtts@)
        &&& self.max_us == greatest(self.rtts@)
        &&& self.sum_us == total(self.rtts@)
    }

    /// The number of the next ping.
    pub closed spec fn next_seq(&self) -> u32 {
        self.seq_no
    }

    /// The round trips and losses so far.
    pub closed spec fn tally(&self) -> Tally {
        Tally { rtts: self.rtts@, lost: self.lost as nat }
    }

    /// Nothing sent yet.
    pub fn new() -> (pinger: Self)
        ensures
            pinger.wf(),
            pinger.next_seq() == 0,
            pinger.tally() == (Tally { rtts: Seq::empty(), lost: 0 }),
    {
        Pinger { seq_no: 0, min_us: 0xffff_ffff_ffff_ffff, max_us: 0, sum_us: 0, recv: 0, lost: 0, rtts: Ghost(Seq::empty()) }
    }

    /// The packet to send.
    pub fn payload(&self) -> (packet: [u8; 5])
        ensures
            packet@ == ping_packet(self.next_seq()),
    {
        ping_payload(self.seq_no)
    }

    /// Whether a received packet is the echo of the ping in flight.
    pub fn is_our_echo(&self, packet: &[u8]) -> (ours: bool)
        ensures
            ours == is_echo(packet@, self.next_seq()),
    {
        valid_echo(packet, self.seq_no)
    }

    /// How the ping in flight ended.
    pub fn outcome(&self, event: PingEvent) -> (ping: Ping)
        ensures
            ping == outcome_of(self.next_seq(), event),
    {
        match event {
            PingEvent::SendFailed => Ping::NotSent,
            PingEvent::Received { packet, rtt_us } => if self.is_our_echo(packet) {
                Ping::Echoed(rtt_us)
            } else {
                Ping::Lost
            },
            PingEvent::ReceiveFailed | PingEvent::Silence => Ping::Lost,
        }
    }

    /// Takes in how the ping in flight ended, and moves on to the next. Returns a summary after every
    /// [`STATS_EVERY`]th ping that was sent.
    pub fn done(&mut self, ping: Ping) -> (summary: Option<Summary>)
        requires
            old(self).wf(),
            ping is Lost ==> old(self).tally().lost < u32::MAX,
            ping matches Ping::Echoed(rtt_us) ==> old(self).tally().rtts.len() < u32::MAX && total(old(self).tally().rtts)
                + rtt_us <= u64::MAX,
            ping !is NotSent ==> old(self).next_seq() < u32::MAX,
        ensures
            final(self).wf(),
            final(self).next_seq() == (old(self).next_seq() + 1) % 0x1_0000_0000,
            final(self).tally() == (match ping {
                Ping::NotSent => old(self).tally(),
                Ping::Echoed(rtt_us) => Tally { rtts: old(self).tally().rtts.push(rtt_us), ..old(self).tally() },
                Ping::Lost => Tally { lost: old(self).tally().lost + 1, ..old(self).tally() },
            }),
            summary is Some <==> ping !is NotSent && (old(self).next_seq() + 1) % (STATS_EVERY as int) == 0,
            summary is Some <==> ping !is NotSent && (old(self).next_seq() + 1) % 10 == 0,
            summary matches Some(s) ==> {
                let rtts = final(self).tally().rtts;
                &&& s.pings == old(self).next_seq() + 1
                &&& s.echoes == rtts.len()
                &&& s.lost == final(self).tally().lost
                &&& s.rtt == if rtts.len() == 0 {
                    None
                } else {
                    Some(
                        Rtt {
                            min_us: least(rtts),
                            avg_us: (total(rtts) / (rtts.len() as int)) as u64,
                            max_us: greatest(rtts),
                        },
                    )
                }
            },
    {
        let seq_no = self.seq_no;
        self.seq_no = seq_no.wrapping_add(1);
        match ping {
            Ping::NotSent => {
                return None;
            },
            Ping::Echoed(rtt_us) => {
                proof {
                    assert(self.rtts@.push(rtt_us).drop_last() =~= self.rtts@);
                }
                self.recv += 1;
                self.sum_us += rtt_us;
                if rtt_us < self.min_us {
                    self.min_us = rtt_us;
                }
                if rtt_us > self.max_us {
                    self.max_us = rtt_us;
                }
                self.rtts = Ghost(self.rtts@.push(rtt_us));
            },
            Ping::Lost => {
                self.lost += 1;
            },
        }
        if (seq_no + 1) % STATS_EVERY != 0 {
            return None;
        }
        let rtt = if self.recv > 0 {
            Some(Rtt { min_us: self.min_us, avg_us: self.sum_us / self.recv as u64, max_us: self.max_us })
        } else {
            None
        };
        Some(Summary { pings: seq_no + 1, echoes: self.recv, lost: self.lost, rtt })
    }
}

// ---------------------------------------------------------------------------------------------------------------
// Laws
// ---------------------------------------------------------------------------------------------------------------

/// The echo of a ping is recognized as that ping's echo, and as no other's.
pub proof fn law_echo_matches_its_ping(seq_no: u32, other: u32)
    ensures
        is_echo(echo_packet(ping_packet(seq_no)), other) <==> seq_no == other,
{
    let echo = echo_packet(ping_packet(seq_no));
    assert(echo =~= le_bytes(seq_no).push(PONG_MAGIC));
    let want = le_bytes(other).push(PONG_MAGIC);
    if echo == want {
        assert forall|i: int| 0 <= i < 4 implies le_bytes(seq_no)[i] == le_bytes(other)[i] by {
            assert(echo[i] == want[i]);
        }
        lemma_le_bytes_injective(seq_no, other);
    }
}

/// Stray traffic cannot pollute the statistics: a round trip is counted exactly for a packet that is the echo of the ping
/// in flight, with the time that it took.
pub proof fn law_only_echoes_are_round_trips(seq_no: u32, event: PingEvent, rtt_us: u64)
    ensures
        outcome_of(seq_no, event) == Ping::Echoed(rtt_us) <==> (event matches PingEvent::Received { packet, rtt_us: took }
            && is_echo(packet@, seq_no) && took == rtt_us),
{
}

/// A ping that leaks back is not taken for its echo.
pub proof fn law_own_ping_is_no_echo(seq_no: u32, other: u32)
    ensures
        !is_echo(ping_packet(seq_no), other),
{
    assert(ping_packet(seq_no)[4] == PING_MAGIC);
    assert(le_bytes(other).push(PONG_MAGIC)[4] == PONG_MAGIC);
}

/// A ping is five bytes: its number, the low byte first, and 0xa5. Its echo is the same with 0x5a.
pub proof fn law_ping_layout(seq_no: u32)
    ensures
        ({
            let p = ping_packet(seq_no);
            &&& p.len() == 5
            &&& p[0] + p[1] * 256 + p[2] * 65_536 + p[3] * 16_777_216 == seq_no
            &&& p[4] == 0xa5
            &&& echo_packet(p).len() == 5
            &&& echo_packet(p)[0] == p[0] && echo_packet(p)[1] == p[1]
            &&& echo_packet(p)[2] == p[2] && echo_packet(p)[3] == p[3]
            &&& echo_packet(p)[4] == 0x5a
        }),
{
}

/// Whatever came in is echoed in five bytes: its first four, zeros where it had fewer, and 0x5a.
pub proof fn law_anything_is_echoed(received: Seq<u8>, i: int)
    requires
        0 <= i < 4,
    ensures
        echo_packet(received).len() == 5,
        i < received.len() ==> echo_packet(received)[i] == received[i],
        i >= received.len() ==> echo_packet(received)[i] == 0,
        echo_packet(received)[4] == 0x5a,
{
}

/// A packet is the echo of a ping exactly where it has five bytes, ends in 0x5a, and its first four write the number.
pub proof fn law_echo_is_told_by_number_and_tag(packet: Seq<u8>, seq_no: u32)
    ensures
        is_echo(packet, seq_no) <==> packet.len() == 5 && packet[4] == 0x5a && packet[0] + packet[1] * 256 + packet[2]
            * 65_536 + packet[3] * 16_777_216 == seq_no,
{
    let want = le_bytes(seq_no).push(PONG_MAGIC);
    assert(want.len() == 5);
    lemma_low_byte_first(want[0] as int, want[1] as int, want[2] as int, want[3] as int, seq_no as int);
    if packet.len() == 5 && packet[4] == 0x5a && packet[0] + packet[1] * 256 + packet[2] * 65_536 + packet[3] * 16_777_216
        == seq_no {
        lemma_low_byte_first(packet[0] as int, packet[1] as int, packet[2] as int, packet[3] as int, seq_no as int);
        assert(packet =~= want);
    }
}

/// Four bytes, the low one first, write a number exactly where they are its digits in base 256.
proof fn lemma_low_byte_first(a: int, b: int, c: int, d: int, n: int)
    requires
        0 <= a < 256,
        0 <= b < 256,
        0 <= c < 256,
        0 <= d < 256,
        n >= 0,
    ensures
        a + b * 256 + c * 65_536 + d * 16_777_216 == n <==> a == n % 256 && b == n / 256 % 256 && c == n / 65_536 % 256 && d
            == n / 16_777_216,
{
    let p = n / 256;
    let q = n / 65_536;
    assert(q == p / 256);
    assert(n / 16_777_216 == q / 256);
    if a + b * 256 + c * 65_536 + d * 16_777_216 == n {
        assert(p == b + c * 256 + d * 65_536);
        assert(q == c + d * 256);
    }
}

/// A ping counts as not sent exactly where the radio could not send it, and as lost where anything but its echo came of
/// it.
pub proof fn law_pings_end_one_way(seq_no: u32, event: PingEvent)
    ensures
        outcome_of(seq_no, event) is NotSent <==> event is SendFailed,
        event is ReceiveFailed || event is Silence ==> outcome_of(seq_no, event) is Lost,
{
}

/// The least and greatest round trips are among those seen and bound them all; the sum of two runs is the sum of their
/// sums.
pub proof fn law_statistics_are_of_the_round_trips(s: Seq<u64>, t: Seq<u64>, i: int)
    requires
        0 <= i < s.len(),
    ensures
        least(s) <= s[i] <= greatest(s),
        s.contains(least(s)),
        s.contains(greatest(s)),
        total(s + t) == total(s) + total(t),
        total(seq![s[i]]) == s[i],
{
    lemma_extremes(s);
    lemma_total(s, t);
    assert(seq![s[i]].drop_last() =~= Seq::<u64>::empty());
    assert(total(seq![s[i]].drop_last()) == 0);
}

proof fn lemma_extremes(s: Seq<u64>)
    requires
        s.len() > 0,
    ensures
        forall|i: int| 0 <= i < s.len() ==> least(s) <= (#[trigger] s[i]) <= greatest(s),
        s.contains(least(s)),
        s.contains(greatest(s)),
    decreases s.len(),
{
    let init = s.drop_last();
    let n = s.len() - 1;
    assert(s[n] == s.last());
    if n > 0 {
        lemma_extremes(init);
        let a = init.index_of(least(init));
        let b = init.index_of(greatest(init));
        assert(s[a] == least(init));
        assert(s[b] == greatest(init));
        assert forall|i: int| 0 <= i < s.len() implies least(s) <= (#[trigger] s[i]) <= greatest(s) by {
            if i < n {
                assert(init[i] == s[i]);
            }
        }
    } else {
        assert(least(init) == u64::MAX);
        assert(greatest(init) == 0);
    }
}

proof fn lemma_total(s: Seq<u64>, t: Seq<u64>)
    ensures
        total(s + t) == total(s) + total(t),
    decreases t.len(),
{
    if t.len() == 0 {
        assert(s + t =~= s);
    } else {
        assert((s + t).drop_last() =~= s + t.drop_last());
        lemma_total(s, t.drop_last());
    }
}

} // verus!
