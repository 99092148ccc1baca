//! Fragmentation of byte strings into BLE-sized packets and their reassembly.
//!
//! Each packet starts with a two-byte header: the first byte holds the
//! end-of-message flag (0x80) and the top five bits of a 13-bit sequence
//! number, the second byte its low eight bits.
use vstd::prelude::*;
use crate::error::QuestError;

verus! {

/// Bytes that the ATT layer and the framer header take from each BLE write.
pub const HEADER_OVERHEAD: usize = 5;

/// Sequence numbers wrap modulo this value (13 bits).
pub const SEQ_SPACE: usize = 8192;

/// Payload bytes carried by each packet for a given MTU (`max(0, mtu - 5)`).
pub open spec fn chunk_size(mtu: int) -> int {
    if mtu >= 5 { mtu - 5 } else { 0 }
}

/// Number of packets that a payload of `len` bytes takes at chunk size `c > 0`.
pub open spec fn packet_count(len: int, c: int) -> int {
    (len + c - 1) / c
}

/// First header byte of packet `i` out of `n`.
pub open spec fn header_hi(i: int, n: int) -> u8 {
    ((if i == n - 1 { 0x80int } else { 0int }) + (i % 8192) / 256) as u8
}

/// Second header byte of packet `i`.
pub open spec fn header_lo(i: int) -> u8 {
    ((i % 8192) % 256) as u8
}

/// The payload bytes carried by packet `i`.
pub open spec fn chunk_of(p: Seq<u8>, c: int, i: int) -> Seq<u8> {
    p.subrange(i * c, if (i + 1) * c < p.len() { (i + 1) * c } else { p.len() as int })
}

/// Packet `i` of the fragmentation of `p` at chunk size `c`.
pub open spec fn packet_at(p: Seq<u8>, c: int, i: int) -> Seq<u8> {
    seq![header_hi(i, packet_count(p.len() as int, c)), header_lo(i)] + chunk_of(p, c, i)
}

/// All packets of the fragmentation of `p` at chunk size `c > 0`.
pub open spec fn fragments(p: Seq<u8>, c: int) -> Seq<Seq<u8>> {
    Seq::new(packet_count(p.len() as int, c) as nat, |i: int| packet_at(p, c, i))
}

/// For `c > 0`: chunk `i` starts inside the payload exactly when `i` is below the packet count.
pub proof fn lemma_chunk_start(len: int, c: int, i: int)
    requires
        len >= 0,
        c > 0,
        i >= 0,
    ensures
        (i * c < len) == (i < packet_count(len, c)),
        packet_count(len, c) >= 0,
        len > 0 ==> packet_count(len, c) >= 1,
        packet_count(len, c) <= len,
{
    let n = packet_count(len, c);
    assert(n >= 0) by (nonlinear_arith)
        requires
            n == (len + c - 1) / c,
            len >= 0,
            c > 0,
    ;
    assert((i * c < len) == (i < n)) by (nonlinear_arith)
        requires
            n == (len + c - 1) / c,
            len >= 0,
            c > 0,
            i >= 0,
    ;
    assert(len > 0 ==> n >= 1) by (nonlinear_arith)
        requires
            n == (len + c - 1) / c,
            c > 0,
    ;
    assert(n <= len) by (nonlinear_arith)
        requires
            n == (len + c - 1) / c,
            len >= 0,
            c > 0,
    ;
}

/// Splits `data` into packets for a link of the given MTU.
///
/// Fails with `ConfigError` when the MTU leaves no room for payload bytes.
/// An empty `data` gives no packets.
pub fn fragment_message(data: &[u8], mtu: usize) -> (r: Result<Vec<Vec<u8>>, QuestError>)
    ensures
        chunk_size(mtu as int) == 0 <==> r is Err,
        r is Err ==> r == Err::<Vec<Vec<u8>>, QuestError>(QuestError::ConfigError),
        r is Ok ==> {
            let packets = r->Ok_0;
            &&& packets@.len() == packet_count(data@.len() as int, chunk_size(mtu as int))
            &&& forall|i: int|
                0 <= i < packets@.len() ==> #[trigger] packets@[i]@ == packet_at(
                    data@,
                    chunk_size(mtu as int),
                    i,
                )
        },
{
    let c: usize = mtu.saturating_sub(HEADER_OVERHEAD);
    if c == 0 {
        return Err(QuestError::ConfigError);
    }
    let ghost p = data@;
    let ghost len = data@.len() as int;
    let ghost n = packet_count(len, c as int);
    proof {
        lemma_chunk_start(len, c as int, 0);
    }
    let mut packets: Vec<Vec<u8>> = Vec::new();
    let mut offset: usize = 0;
    let mut i: usize = 0;
    while offset < data.len()
        invariant
            c == chunk_size(mtu as int),
            c > 0,
            p == data@,
            len == p.len(),
            n == packet_count(len, c as int),
            i <= n,
            offset <= data.len(),
            i < n ==> offset == i * c,
            i == n ==> offset == data.len(),
            packets@.len() == i,
            forall|j: int| 0 <= j < i ==> #[trigger] packets@[j]@ == packet_at(p, c as int, j),
        decreases data.len() - offset,
    {
        proof {
            lemma_chunk_start(len, c as int, i as int);
            lemma_chunk_start(len, c as int, i as int + 1);
            assert((i + 1) * c == i * c + c) by (nonlinear_arith);
        }
        let end: usize = if data.len() - offset > c {
            offset + c
        } else {
            data.len()
        };
        let is_last = end == data.len();
        let seq: usize = i % SEQ_SPACE;
        let flag: u8 = if is_last { 0x80 } else { 0 };
        assert(seq / 256 < 32);
        let mut packet: Vec<u8> = Vec::new();
        packet.push(flag + (seq / 256) as u8);
        packet.push((seq % 256) as u8);
        let mut k: usize = offset;
        while k < end
            invariant
                offset <= k <= end,
                end <= data.len(),
                p == data@,
                packet@.len() == 2 + (k - offset),
                packet@[0] == flag + (seq / 256) as u8,
                packet@[1] == (seq % 256) as u8,
                forall|t: int| 0 <= t < k - offset ==> #[trigger] packet@[2 + t] == p[offset + t],
            decreases end - k,
        {
            packet.push(data[k]);
            k = k + 1;
        }
        proof {
            assert(is_last == (i as int == n - 1));
            assert(end == if (i + 1) * c < len { (i + 1) * c } else { len });
            let expect = packet_at(p, c as int, i as int);
            assert(expect[0] == packet@[0]);
            assert(expect[1] == packet@[1]);
            assert forall|t: int| 2 <= t < packet@.len() implies packet@[t] == expect[t] by {
                assert(packet@[2 + (t - 2)] == p[offset + (t - 2)]);
            }
            assert(packet@ =~= expect);
        }
        packets.push(packet);
        offset = end;
        i = i + 1;
    }
    proof {
        if i < n {
            lemma_chunk_start(len, c as int, i as int);
        }
    }
    Ok(packets)
}

/// The sequence number that a packet's header carries.
pub open spec fn packet_seq(pkt: Seq<u8>) -> int {
    (pkt[0] % 32) as int * 256 + pkt[1] as int
}

/// Whether a packet's header carries the end-of-message flag.
pub open spec fn packet_is_end(pkt: Seq<u8>) -> bool {
    pkt[0] >= 0x80
}

/// The payload of a packet: what follows its two header bytes.
pub open spec fn packet_payload(pkt: Seq<u8>) -> Seq<u8> {
    pkt.subrange(2, pkt.len() as int)
}

/// The reassembler's state: the bytes gathered so far and the expected next sequence number.
pub struct AssemblyState {
    pub buffer: Seq<u8>,
    pub next: int,
}

/// The state before any packet, and after each completed message.
pub open spec fn assembly_start() -> AssemblyState {
    AssemblyState { buffer: Seq::empty(), next: 0 }
}

/// A state that the assembler can be in: expecting sequence number 0 means
/// holding nothing.
pub open spec fn assembly_wf(s: AssemblyState) -> bool {
    s.next == 0 ==> s.buffer.len() == 0
}

/// One reassembly step: the state after `pkt` and the message it completes, if any.
pub open spec fn assembly_step(s: AssemblyState, pkt: Seq<u8>) -> (AssemblyState, Option<Seq<u8>>) {
    if pkt.len() < 2 {
        (s, None)
    } else if packet_seq(pkt) != s.next {
        if packet_seq(pkt) == 0 {
            if packet_is_end(pkt) {
                (assembly_start(), Some(packet_payload(pkt)))
            } else {
                (AssemblyState { buffer: packet_payload(pkt), next: 1 }, None)
            }
        } else {
            (assembly_start(), None)
        }
    } else if packet_is_end(pkt) {
        (assembly_start(), Some(s.buffer + packet_payload(pkt)))
    } else {
        (AssemblyState { buffer: s.buffer + packet_payload(pkt), next: s.next + 1 }, None)
    }
}

/// Feeds packets in order: the final state and what each packet produced.
pub open spec fn assembly_run(s: AssemblyState, pkts: Seq<Seq<u8>>) -> (
    AssemblyState,
    Seq<Option<Seq<u8>>>,
)
    decreases pkts.len(),
{
    if pkts.len() == 0 {
        (s, Seq::empty())
    } else {
        let (mid, outs) = assembly_run(s, pkts.drop_last());
        let (last, out) = assembly_step(mid, pkts.last());
        (last, outs.push(out))
    }
}

/// Reassembles messages from inbound packets.
pub struct PacketAssembler {
    buffer: Vec<u8>,
    next_seq: u16,
}

impl PacketAssembler {
    /// The reassembly state that this assembler holds.
    pub closed spec fn state(&self) -> AssemblyState {
        AssemblyState { buffer: self.buffer@, next: self.next_seq as int }
    }

    /// An assembler that expects the first packet of a message.
    pub fn new() -> (r: Self)
        ensures
            r.state() == assembly_start(),
            assembly_wf(r.state()),
    {
        PacketAssembler { buffer: Vec::new(), next_seq: 0 }
    }

    /// The sequence number expected on the next packet.
    pub fn next_seq(&self) -> (r: u16)
        ensures
            r as int == self.state().next,
    {
        self.next_seq
    }

    /// Takes one inbound packet; returns the message that it completes, if any.
    ///
    /// Packets shorter than two bytes are dropped. A packet whose sequence
    /// number is not the expected one resets the assembler; when that number
    /// is 0 the packet starts a new message.
    pub fn handle_notification(&mut self, data: &[u8]) -> (r: Option<Vec<u8>>)
        ensures
            ({
                let (s, out) = assembly_step(old(self).state(), data@);
                &&& final(self).state() == s
                &&& assembly_wf(old(self).state()) ==> assembly_wf(s)
                &&& match r {
                    Some(m) => out == Some(m@),
                    None => out is None,
                }
            }),
    {
        if data.len() < 2 {
            return None;
        }
        let byte0 = data[0];
        let byte1 = data[1];
        let end_flag = byte0 >= 0x80;
        let seq: u16 = (byte0 % 32) as u16 * 256 + byte1 as u16;
        if seq != self.next_seq {
            self.buffer = Vec::new();
            self.next_seq = 0;
            if seq == 0 {
                self.append_payload(data);
                self.next_seq = 1;
                if end_flag {
                    return Some(self.take_message());
                }
            }
            return None;
        }
        self.append_payload(data);
        self.next_seq = self.next_seq + 1;
        if end_flag {
            Some(self.take_message())
        } else {
            None
        }
    }

    /// Appends the payload of `pkt` (what follows its header) to the buffer.
    fn append_payload(&mut self, pkt: &[u8])
        requires
            pkt@.len() >= 2,
        ensures
            final(self).buffer@ == old(self).buffer@ + packet_payload(pkt@),
            final(self).next_seq == old(self).next_seq,
    {
        let mut k: usize = 2;
        let ghost start = self.buffer@;
        while k < pkt.len()
            invariant
                2 <= k <= pkt@.len(),
                self.buffer@ == start + pkt@.subrange(2, k as int),
                self.next_seq == old(self).next_seq,
            decreases pkt@.len() - k,
        {
            self.buffer.push(pkt[k]);
            k = k + 1;
            assert(self.buffer@ =~= start + pkt@.subrange(2, k as int));
        }
    }

    /// Hands out the gathered message and returns to the start state.
    fn take_message(&mut self) -> (r: Vec<u8>)
        ensures
            r@ == old(self).buffer@,
            final(self).state() == assembly_start(),
    {
        let mut out: Vec<u8> = Vec::new();
        std::mem::swap(&mut out, &mut self.buffer);
        self.next_seq = 0;
        out
    }
}

impl Default for PacketAssembler {
    fn default() -> (r: Self)
        ensures
            r.state() == assembly_start(),
    {
        Self::new()
    }
}

/// Packet `i` of a message of at most 8192 packets carries `i` as its sequence
/// number, the end flag exactly when it is the last, and chunk `i` as payload.
pub proof fn lemma_packet_fields(p: Seq<u8>, c: int, i: int)
    requires
        c > 0,
        0 <= i < packet_count(p.len() as int, c),
        packet_count(p.len() as int, c) <= 8192,
    ensures
        packet_at(p, c, i).len() >= 2,
        packet_seq(packet_at(p, c, i)) == i,
        packet_is_end(packet_at(p, c, i)) == (i == packet_count(p.len() as int, c) - 1),
        packet_payload(packet_at(p, c, i)) == chunk_of(p, c, i),
{
    let n = packet_count(p.len() as int, c);
    lemma_chunk_start(p.len() as int, c, i);
    lemma_chunk_start(p.len() as int, c, i + 1);
    assert((i + 1) * c == i * c + c) by (nonlinear_arith);
    let pkt = packet_at(p, c, i);
    assert(i % 8192 == i);
    assert(pkt[0] == header_hi(i, n));
    assert(pkt[1] == header_lo(i));
    assert(packet_payload(pkt) =~= chunk_of(p, c, i));
}

/// Feeding all packets of a message but the last leaves the assembler holding
/// the chunks so far, expecting the next sequence number, with nothing produced.
proof fn lemma_run_prefix(p: Seq<u8>, c: int, k: int)
    requires
        c > 0,
        p.len() > 0,
        packet_count(p.len() as int, c) <= 8192,
        0 <= k < packet_count(p.len() as int, c),
    ensures
        assembly_run(assembly_start(), fragments(p, c).take(k)).0 == (AssemblyState {
            buffer: p.take(k * c),
            next: k,
        }),
        assembly_run(assembly_start(), fragments(p, c).take(k)).1 == Seq::new(
            k as nat,
            |j: int| None::<Seq<u8>>,
        ),
    decreases k,
{
    let pk = fragments(p, c);
    if k == 0 {
        assert(pk.take(0) =~= Seq::<Seq<u8>>::empty());
        assert(p.take(0) =~= Seq::<u8>::empty());
        assert(Seq::new(0, |j: int| None::<Seq<u8>>) =~= Seq::<Option<Seq<u8>>>::empty());
    } else {
        lemma_run_prefix(p, c, k - 1);
        assert(pk.take(k).drop_last() =~= pk.take(k - 1));
        lemma_packet_fields(p, c, k - 1);
        lemma_chunk_start(p.len() as int, c, k);
        assert(k * c == (k - 1) * c + c) by (nonlinear_arith);
        assert(p.take((k - 1) * c) + chunk_of(p, c, k - 1) =~= p.take(k * c));
        assert(Seq::new((k - 1) as nat, |j: int| None::<Seq<u8>>).push(None) =~= Seq::new(
            k as nat,
            |j: int| None::<Seq<u8>>,
        ));
    }
}

/// Reassembling the packets of a message gives the message back.
///
/// For a payload of 1 to 10 000 bytes and an MTU from 7 to 512, the
/// fragmentation has `ceil(len / (mtu - 5))` packets, exactly the last of
/// which carries the end flag; fed to a fresh assembler, every packet but the
/// last produces nothing, the last produces the payload, and the assembler is
/// back at its start state.
pub proof fn lemma_fragment_round_trip(p: Seq<u8>, mtu: int)
    requires
        0 < p.len() <= 10000,
        7 <= mtu <= 512,
    ensures
        ({
            let c = chunk_size(mtu);
            let pk = fragments(p, c);
            let n = packet_count(p.len() as int, c);
            &&& pk.len() == n
            &&& forall|i: int| 0 <= i < n ==> (packet_is_end(#[trigger] pk[i]) <==> i == n - 1)
            &&& assembly_run(assembly_start(), pk).0 == assembly_start()
            &&& assembly_run(assembly_start(), pk).1 == Seq::new(
                (n - 1) as nat,
                |j: int| None::<Seq<u8>>,
            ).push(Some(p))
        }),
{
    let c = chunk_size(mtu);
    let pk = fragments(p, c);
    let n = packet_count(p.len() as int, c);
    lemma_chunk_start(p.len() as int, c, 0);
    assert(n <= 8192) by (nonlinear_arith)
        requires
            n == (p.len() + c - 1) / c,
            c >= 2,
            p.len() <= 10000,
    ;
    assert forall|i: int| 0 <= i < n implies (packet_is_end(#[trigger] pk[i]) <==> i == n - 1) by {
        lemma_packet_fields(p, c, i);
    }
    lemma_run_prefix(p, c, n - 1);
    assert(pk.take(n - 1) =~= pk.drop_last());
    lemma_packet_fields(p, c, n - 1);
    lemma_chunk_start(p.len() as int, c, n);
    assert(n * c == (n - 1) * c + c) by (nonlinear_arith);
    lemma_chunk_start(p.len() as int, c, n - 1);
    assert(chunk_of(p, c, n - 1) == p.subrange((n - 1) * c, p.len() as int));
    assert(p.take((n - 1) * c) + chunk_of(p, c, n - 1) =~= p);
}

proof fn lemma_header_bits(h: u8, lo: u8)
    requires
        h < 32,
    ensures
        h & 0x1F == h,
        h & 0x80 == 0,
        ((h + 0x80) as u8) & 0x1F == h,
        ((h + 0x80) as u8) & 0x80 != 0,
        (((h & 0x1F) as u16) << 8u16) | (lo as u16) == (h as u16) * 256 + (lo as u16),
{
    assert(h & 0x1F == h && h & 0x80 == 0) by (bit_vector)
        requires
            h < 32,
    ;
    assert(((h + 0x80) as u8) & 0x1F == h && ((h + 0x80) as u8) & 0x80 != 0) by (bit_vector)
        requires
            h < 32,
    ;
    assert((((h & 0x1F) as u16) << 8u16) | (lo as u16) == (h as u16) * 256 + (lo as u16))
        by (bit_vector)
        requires
            h < 32,
    ;
}

/// Every packet's header encodes its index modulo 8192 in its thirteen
/// sequence bits, and sets the end flag exactly on the last packet.
pub proof fn lemma_fragment_headers(p: Seq<u8>, mtu: int)
    requires
        chunk_size(mtu) > 0,
    ensures
        ({
            let c = chunk_size(mtu);
            let pk = fragments(p, c);
            forall|i: int|
                0 <= i < pk.len() ==> {
                    &&& (((#[trigger] pk[i])[0] & 0x1F) as u16) << 8u16 | (pk[i][1] as u16) == (i
                        % 8192) as u16
                    &&& (pk[i][0] & 0x80 != 0) == (i == pk.len() - 1)
                }
        }),
{
    let c = chunk_size(mtu);
    let pk = fragments(p, c);
    let n = packet_count(p.len() as int, c);
    assert forall|i: int| 0 <= i < pk.len() implies {
        &&& (((#[trigger] pk[i])[0] & 0x1F) as u16) << 8u16 | (pk[i][1] as u16) == (i
            % 8192) as u16
        &&& (pk[i][0] & 0x80 != 0) == (i == pk.len() - 1)
    } by {
        let h = ((i % 8192) / 256) as u8;
        let lo = header_lo(i);
        lemma_header_bits(h, lo);
        assert(pk[i][1] == lo);
        assert(pk[i][0] == header_hi(i, n));
    }
}

/// A single-packet message always comes through whole after a broken one.
///
/// When packets `0..=k` of a message `a` that is not yet complete are followed
/// by the only packet of a message `b`, that packet delivers exactly `b`, the
/// partial buffer of `a` is dropped and the assembler is back at its start.
pub proof fn lemma_resync(a: Seq<u8>, b: Seq<u8>, mtu: int, k: int)
    requires
        chunk_size(mtu) > 0,
        packet_count(a.len() as int, chunk_size(mtu)) <= 8192,
        0 <= k,
        k + 1 < packet_count(a.len() as int, chunk_size(mtu)),
        0 < b.len() <= chunk_size(mtu),
    ensures
        ({
            let c = chunk_size(mtu);
            let run = assembly_run(
                assembly_start(),
                fragments(a, c).take(k + 1).push(fragments(b, c)[0]),
            );
            &&& fragments(b, c).len() == 1
            &&& run.0 == assembly_start()
            &&& run.1 == Seq::new((k + 1) as nat, |j: int| None::<Seq<u8>>).push(Some(b))
        }),
{
    let c = chunk_size(mtu);
    let pks = fragments(a, c).take(k + 1).push(fragments(b, c)[0]);
    lemma_chunk_start(a.len() as int, c, 0);
    lemma_run_prefix(a, c, k + 1);
    assert(pks.drop_last() =~= fragments(a, c).take(k + 1));
    lemma_chunk_start(b.len() as int, c, 1);
    lemma_chunk_start(b.len() as int, c, 0);
    assert(packet_count(b.len() as int, c) == 1);
    lemma_packet_fields(b, c, 0);
    assert(chunk_of(b, c, 0) =~= b);
}

} // verus!
