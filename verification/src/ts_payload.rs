//! Locating the payload of an MPEG-TS packet and the H.264 NAL units in it,
//! and the buffer that collects packets for the demultiplexer.

use vstd::prelude::*;

verus! {

// ---------------------------------------------------------------------------
// Packet header
// ---------------------------------------------------------------------------

/// The two-bit adaptation_field_control of a TS header byte (the fourth byte
/// of the packet).
pub open spec fn adaptation_field_control(b: u8) -> u8 {
    (b & 0x30u8) >> 4u8
}

/// Whether the decoder takes a packet `[packet_start, packet_end)` of a
/// capture buffer: it is at most `packet_size` bytes long and longer than
/// four bytes.
pub open spec fn packet_accepted(packet_start: int, packet_end: int, packet_size: int) -> bool {
    packet_end - packet_start <= packet_size && packet_start + 4 < packet_end
}

pub fn ts_packet_accepted(packet_start: usize, packet_end: usize, packet_size: usize) -> (r: bool)
    requires
        packet_start <= packet_end,
    ensures
        r == packet_accepted(packet_start as int, packet_end as int, packet_size as int),
{
    if packet_end - packet_start > packet_size {
        return false;
    }
    if packet_end - packet_start <= 4 {
        return false;
    }
    true
}

/// Where the decoder starts looking for NAL units in a packet, or `None` when
/// it skips the packet: packets that hold only an adaptation field are
/// skipped; the payload starts at byte 4, or after the adaptation field whose
/// length is byte `packet_start + 4` when one is present; a payload start at
/// or after `packet_end`, or with fewer than four bytes after it, is refused.
/// The offsets 4 and 5 + length are taken from the start of the buffer, as
/// the decoder computes them.
pub open spec fn payload_start(packet: Seq<u8>, packet_start: int, packet_end: int) -> Option<int> {
    let afc = adaptation_field_control(packet[packet_start + 3]);
    if afc == 2 {
        None
    } else {
        let start: int = if afc != 1 {
            5 + packet[packet_start + 4]
        } else {
            4
        };
        if start >= packet_end || packet_end - start < 4 {
            None
        } else {
            Some(start)
        }
    }
}

pub fn ts_payload_start(packet: &[u8], packet_start: usize, packet_end: usize) -> (r: Option<
    usize,
>)
    requires
        packet_start + 4 < packet_end <= packet@.len(),
    ensures
        r matches Some(s) ==> payload_start(packet@, packet_start as int, packet_end as int) == Some(
            s as int,
        ),
        r is None ==> payload_start(packet@, packet_start as int, packet_end as int) is None,
{
    let afc = (packet[packet_start + 3] & 0x30u8) >> 4u8;
    if afc == 2 {
        return None;
    }
    let start: usize = if afc != 1 {
        5 + packet[packet_start + 4] as usize
    } else {
        4
    };
    if start >= packet_end || packet_end - start < 4 {
        None
    } else {
        Some(start)
    }
}

// ---------------------------------------------------------------------------
// NAL units
// ---------------------------------------------------------------------------

/// A four-byte start code `00 00 00 01` at `i`, inside `[0, end)`.
pub open spec fn long_code_at(p: Seq<u8>, end: int, i: int) -> bool {
    i + 4 <= end && p[i] == 0 && p[i + 1] == 0 && p[i + 2] == 0 && p[i + 3] == 1
}

/// A three-byte start code `00 00 01` at `i`.
pub open spec fn short_code_at(p: Seq<u8>, i: int) -> bool {
    p[i] == 0 && p[i + 1] == 0 && p[i + 2] == 1
}

/// While reading a NAL unit that began at `nal_start`, the reader stops at
/// `pos` (more than three bytes in) on a three-byte start code, on a byte
/// `0xff` right after `pos`, or on three zero bytes.
pub open spec fn body_stop(p: Seq<u8>, nal_start: int, pos: int) -> bool {
    pos > nal_start + 3 && (short_code_at(p, pos) || p[pos + 1] == 0xff || (p[pos] == 0 && p[pos
        + 1] == 0 && p[pos + 2] == 0))
}

/// The first position from `pos` on at which the reader leaves the body of a
/// NAL unit: fewer than four bytes left before `end`, a four-byte start code,
/// or a stop (`body_stop`).
pub open spec fn body_end(p: Seq<u8>, end: int, nal_start: int, pos: int) -> int
    decreases end - pos,
{
    if pos + 4 <= end && !long_code_at(p, end, pos) && !body_stop(p, nal_start, pos) {
        body_end(p, end, nal_start, pos + 1)
    } else {
        pos
    }
}

/// Near the end of the packet the reader takes the remaining bytes, up to a
/// byte `0xff` or up to two zero bytes that are followed by a further byte.
pub open spec fn tail_end(p: Seq<u8>, end: int, pos: int) -> int
    decreases end - pos,
{
    if pos < end && p[pos] != 0xff && !(pos + 2 < end && p[pos] == 0 && p[pos + 1] == 0) {
        tail_end(p, end, pos + 1)
    } else {
        pos
    }
}

/// The end of the NAL unit that starts at `nal_start`, whose start code ends
/// at `body_start`.
pub open spec fn nal_end(p: Seq<u8>, end: int, nal_start: int, body_start: int) -> int {
    let q = body_end(p, end, nal_start, body_start);
    if q + 4 >= end {
        tail_end(p, end, q)
    } else {
        q
    }
}

proof fn lemma_body_end_bounds(p: Seq<u8>, end: int, nal_start: int, pos: int)
    ensures
        pos <= body_end(p, end, nal_start, pos),
        pos <= end ==> body_end(p, end, nal_start, pos) <= end,
    decreases end - pos,
{
    if pos + 4 <= end && !long_code_at(p, end, pos) && !body_stop(p, nal_start, pos) {
        lemma_body_end_bounds(p, end, nal_start, pos + 1);
    }
}

proof fn lemma_tail_end_bounds(p: Seq<u8>, end: int, pos: int)
    ensures
        pos <= tail_end(p, end, pos),
        pos <= end ==> tail_end(p, end, pos) <= end,
    decreases end - pos,
{
    if pos < end && p[pos] != 0xff && !(pos + 2 < end && p[pos] == 0 && p[pos + 1] == 0) {
        lemma_tail_end_bounds(p, end, pos + 1);
    }
}

/// A NAL unit ends at or after the start of its body, and not after the
/// end of the packet.
pub proof fn lemma_nal_end_bounds(p: Seq<u8>, end: int, nal_start: int, body_start: int)
    ensures
        body_start <= nal_end(p, end, nal_start, body_start),
        body_start <= end ==> nal_end(p, end, nal_start, body_start) <= end,
{
    lemma_body_end_bounds(p, end, nal_start, body_start);
    lemma_tail_end_bounds(p, end, body_end(p, end, nal_start, body_start));
}

/// The NAL units, as `(start, end)` byte ranges, that the decoder finds from
/// `pos` on: at a three-byte start code (when short start codes are parsed)
/// or a four-byte start code a unit begins, it ends at `nal_end`, and it is
/// kept when it is longer than three bytes; scanning goes on from its end.
/// Elsewhere the scan moves on by one byte. It stops when four or fewer bytes
/// are left before `end`.
pub open spec fn nal_units_from(p: Seq<u8>, end: int, short: bool, pos: int) -> Seq<(int, int)>
    decreases end - pos,
{
    if !(pos + 4 < end) {
        seq![]
    } else if short && short_code_at(p, pos) {
        let e = nal_end(p, end, pos, pos + 3);
        proof {
            lemma_nal_end_bounds(p, end, pos, pos + 3);
        }
        (if e - pos > 3 {
            seq![(pos, e)]
        } else {
            seq![]
        }) + nal_units_from(p, end, short, e)
    } else if long_code_at(p, end, pos) {
        let e = nal_end(p, end, pos, pos + 4);
        proof {
            lemma_nal_end_bounds(p, end, pos, pos + 4);
        }
        (if e - pos > 3 {
            seq![(pos, e)]
        } else {
            seq![]
        }) + nal_units_from(p, end, short, e)
    } else {
        nal_units_from(p, end, short, pos + 1)
    }
}

/// The ranges as pairs of integers.
pub open spec fn int_ranges(v: Seq<(usize, usize)>) -> Seq<(int, int)> {
    v.map_values(|r: (usize, usize)| (r.0 as int, r.1 as int))
}

fn body_end_exec(p: &[u8], end: usize, nal_start: usize, start: usize) -> (r: usize)
    requires
        nal_start <= start <= end <= p@.len(),
    ensures
        r == body_end(p@, end as int, nal_start as int, start as int),
{
    let mut pos = start;
    while end - pos >= 4
        invariant
            nal_start <= start <= pos <= end <= p@.len(),
            body_end(p@, end as int, nal_start as int, pos as int) == body_end(
                p@,
                end as int,
                nal_start as int,
                start as int,
            ),
        ensures
            nal_start <= start <= pos <= end <= p@.len(),
            body_end(p@, end as int, nal_start as int, pos as int) == pos,
            body_end(p@, end as int, nal_start as int, pos as int) == body_end(
                p@,
                end as int,
                nal_start as int,
                start as int,
            ),
        decreases end - pos,
    {
        if p[pos] == 0 && p[pos + 1] == 0 && p[pos + 2] == 0 && p[pos + 3] == 1 {
            break;
        }
        let past = pos - nal_start > 3;
        if past && p[pos] == 0 && p[pos + 1] == 0 && p[pos + 2] == 1 {
            break;
        } else if past && p[pos + 1] == 0xff {
            break;
        } else if past && p[pos] == 0 && p[pos + 1] == 0 && p[pos + 2] == 0 {
            break;
        }
        pos = pos + 1;
    }
    pos
}

fn tail_end_exec(p: &[u8], end: usize, start: usize) -> (r: usize)
    requires
        start <= end <= p@.len(),
    ensures
        r == tail_end(p@, end as int, start as int),
{
    let mut pos = start;
    while pos < end
        invariant
            start <= pos <= end <= p@.len(),
            tail_end(p@, end as int, pos as int) == tail_end(p@, end as int, start as int),
        ensures
            tail_end(p@, end as int, pos as int) == pos,
            tail_end(p@, end as int, pos as int) == tail_end(p@, end as int, start as int),
        decreases end - pos,
    {
        if p[pos] == 0xff {
            break;
        } else if end - pos > 2 && p[pos] == 0 && p[pos + 1] == 0 {
            break;
        }
        pos = pos + 1;
    }
    pos
}

fn nal_end_exec(p: &[u8], end: usize, nal_start: usize, body_start: usize) -> (r: usize)
    requires
        nal_start <= body_start <= end <= p@.len(),
    ensures
        r == nal_end(p@, end as int, nal_start as int, body_start as int),
{
    let q = body_end_exec(p, end, nal_start, body_start);
    proof {
        lemma_body_end_bounds(p@, end as int, nal_start as int, body_start as int);
    }
    if end - q <= 4 {
        tail_end_exec(p, end, q)
    } else {
        q
    }
}

/// The NAL units of a packet's payload, as the decoder hands them to the
/// H.264 reader: the byte ranges `nal_units_from(packet, packet_end,
/// parse_short_nals, payload_start)`. Each range lies in
/// `[payload_start, packet_end)`, is longer than three bytes and begins with
/// a start code, and the ranges follow each other without overlap.
pub fn nal_unit_ranges(
    packet: &[u8],
    payload_start: usize,
    packet_end: usize,
    parse_short_nals: bool,
) -> (r: Vec<(usize, usize)>)
    requires
        payload_start <= packet_end <= packet@.len(),
    ensures
        int_ranges(r@) == nal_units_from(
            packet@,
            packet_end as int,
            parse_short_nals,
            payload_start as int,
        ),
        forall|k: int|
            #![trigger r@[k]]
            0 <= k < r@.len() ==> {
                &&& payload_start <= r@[k].0
                &&& r@[k].0 + 3 < r@[k].1 <= packet_end
                &&& (parse_short_nals && short_code_at(packet@, r@[k].0 as int)) || long_code_at(
                    packet@,
                    packet_end as int,
                    r@[k].0 as int,
                )
            },
        forall|k: int| 0 <= k < r@.len() - 1 ==> #[trigger] r@[k].1 <= r@[k + 1].0,
{
    let ghost p = packet@;
    let ghost end = packet_end as int;
    let ghost all = nal_units_from(p, end, parse_short_nals, payload_start as int);
    let mut out: Vec<(usize, usize)> = Vec::new();
    let mut pos = payload_start;
    assert(int_ranges(out@) + all =~= all);
    while packet_end - pos > 4
        invariant
            p == packet@,
            end == packet_end,
            all == nal_units_from(p, end, parse_short_nals, payload_start as int),
            payload_start <= pos <= packet_end <= packet@.len(),
            int_ranges(out@) + nal_units_from(p, end, parse_short_nals, pos as int) == all,
        decreases packet_end - pos,
    {
        let ghost before = int_ranges(out@);
        if parse_short_nals && packet[pos] == 0 && packet[pos + 1] == 0 && packet[pos + 2] == 1 {
            let nal_start = pos;
            let e = nal_end_exec(packet, packet_end, nal_start, pos + 3);
            proof {
                lemma_nal_end_bounds(p, end, nal_start as int, nal_start + 3);
            }
            if e - nal_start > 3 {
                out.push((nal_start, e));
                assert(int_ranges(out@) =~= before.push((nal_start as int, e as int)));
            } else {
                assert(int_ranges(out@) =~= before);
            }
            pos = e;
        } else if packet[pos] == 0 && packet[pos + 1] == 0 && packet[pos + 2] == 0 && packet[pos
            + 3] == 1 {
            let nal_start = pos;
            let e = nal_end_exec(packet, packet_end, nal_start, pos + 4);
            proof {
                lemma_nal_end_bounds(p, end, nal_start as int, nal_start + 4);
            }
            if e - nal_start > 3 {
                out.push((nal_start, e));
                assert(int_ranges(out@) =~= before.push((nal_start as int, e as int)));
            } else {
                assert(int_ranges(out@) =~= before);
            }
            pos = e;
        } else {
            pos = pos + 1;
        }
    }
    assert(int_ranges(out@) =~= int_ranges(out@) + seq![]);
    proof {
        lemma_nal_units_shape(p, end, parse_short_nals, payload_start as int);
        assert forall|k: int| #![trigger out@[k]] 0 <= k < out@.len() implies {
            &&& payload_start <= out@[k].0
            &&& out@[k].0 + 3 < out@[k].1 <= packet_end
            &&& (parse_short_nals && short_code_at(packet@, out@[k].0 as int)) || long_code_at(
                packet@,
                packet_end as int,
                out@[k].0 as int,
            )
        } by {
            assert(all[k] == (out@[k].0 as int, out@[k].1 as int));
        }
        assert forall|k: int| 0 <= k < out@.len() - 1 implies #[trigger] out@[k].1 <= out@[k
            + 1].0 by {
            assert(all[k] == (out@[k].0 as int, out@[k].1 as int));
            assert(all[k + 1] == (out@[k + 1].0 as int, out@[k + 1].1 as int));
        }
    }
    out
}

/// The NAL units found from `pos` on lie in `[pos, end)`, are longer than
/// three bytes, begin with a start code, and follow each other in order.
pub proof fn lemma_nal_units_shape(p: Seq<u8>, end: int, short: bool, pos: int)
    ensures
        forall|k: int|
            #![trigger nal_units_from(p, end, short, pos)[k]]
            0 <= k < nal_units_from(p, end, short, pos).len() ==> {
                let r = nal_units_from(p, end, short, pos)[k];
                &&& pos <= r.0
                &&& r.0 + 3 < r.1 <= end
                &&& (short && short_code_at(p, r.0)) || long_code_at(p, end, r.0)
            },
        forall|k: int|
            0 <= k < nal_units_from(p, end, short, pos).len() - 1 ==> #[trigger] nal_units_from(
                p,
                end,
                short,
                pos,
            )[k].1 <= nal_units_from(p, end, short, pos)[k + 1].0,
    decreases end - pos,
{
    let all = nal_units_from(p, end, short, pos);
    if !(pos + 4 < end) {
    } else {
        let is_short = short && short_code_at(p, pos);
        if is_short || long_code_at(p, end, pos) {
            let body = if is_short {
                pos + 3
            } else {
                pos + 4
            };
            let e = nal_end(p, end, pos, body);
            lemma_nal_end_bounds(p, end, pos, body);
            lemma_nal_units_shape(p, end, short, e);
            let rest = nal_units_from(p, end, short, e);
            let head: Seq<(int, int)> = if e - pos > 3 {
                seq![(pos, e)]
            } else {
                seq![]
            };
            assert(all == head + rest);
            assert forall|k: int| #![trigger all[k]] 0 <= k < all.len() implies {
                let r = all[k];
                &&& pos <= r.0
                &&& r.0 + 3 < r.1 <= end
                &&& (short && short_code_at(p, r.0)) || long_code_at(p, end, r.0)
            } by {
                if k >= head.len() {
                    assert(all[k] == rest[k - head.len()]);
                }
            }
            assert forall|k: int| 0 <= k < all.len() - 1 implies #[trigger] all[k].1 <= all[k
                + 1].0 by {
                if k >= head.len() {
                    assert(all[k] == rest[k - head.len()]);
                    assert(all[k + 1] == rest[k + 1 - head.len()]);
                } else {
                    assert(all[k + 1] == rest[0]);
                }
            }
        } else {
            lemma_nal_units_shape(p, end, short, pos + 1);
            assert(all == nal_units_from(p, end, short, pos + 1));
        }
    }
}

// ---------------------------------------------------------------------------
// Demultiplexer input buffer
// ---------------------------------------------------------------------------

/// The fixed-size buffer in which received packets are collected for the
/// demultiplexer: it holds the packets received since it last ran out of
/// room.
pub struct DemuxBuffer {
    data: Vec<u8>,
    end: usize,
}

impl View for DemuxBuffer {
    type V = Seq<u8>;

    /// The bytes collected so far.
    closed spec fn view(&self) -> Seq<u8> {
        self.data@.subrange(0, self.end as int)
    }
}

impl DemuxBuffer {
    /// How many bytes the buffer holds at most.
    pub closed spec fn capacity(&self) -> nat {
        self.data@.len()
    }

    /// The buffer's fill level lies within its storage.
    pub closed spec fn wf(&self) -> bool {
        self.end <= self.data@.len()
    }

    /// An empty buffer of `capacity` bytes.
    pub fn new(capacity: usize) -> (r: Self)
        ensures
            r.wf(),
            r@ == Seq::<u8>::empty(),
            r.capacity() == capacity,
    {
        let mut data: Vec<u8> = Vec::new();
        let mut i: usize = 0;
        while i < capacity
            invariant
                i <= capacity,
                data@.len() == i,
            decreases capacity - i,
        {
            data.push(0);
            i = i + 1;
        }
        let r = DemuxBuffer { data, end: 0 };
        assert(r@ =~= Seq::<u8>::empty());
        r
    }

    /// Adds a packet. When the room left is smaller than the packet, the
    /// collected bytes are dropped first; the buffer never holds more than
    /// its capacity.
    pub fn push(&mut self, packet: &[u8])
        requires
            old(self).wf(),
            packet@.len() <= old(self).capacity(),
        ensures
            final(self).wf(),
            final(self).capacity() == old(self).capacity(),
            final(self)@ == (if old(self).capacity() - old(self)@.len() < packet@.len() {
                Seq::<u8>::empty()
            } else {
                old(self)@
            }) + packet@,
            final(self)@.len() <= final(self).capacity(),
    {
        let ghost before = self@;
        let packet_len = packet.len();
        let space_left = self.data.len() - self.end;
        if space_left < packet_len {
            self.end = 0;
        }
        let ghost kept = self.data@.subrange(0, self.end as int);
        assert(kept == (if old(self).capacity() - before.len() < packet@.len() {
            Seq::<u8>::empty()
        } else {
            before
        }));
        let start = self.end;
        let cap = self.data.len();
        let mut k: usize = 0;
        while k < packet_len
            invariant
                cap == self.data@.len(),
                packet_len == packet@.len(),
                start + packet_len <= self.data@.len(),
                self.data@.len() == old(self).capacity(),
                k <= packet_len,
                self.data@.subrange(0, start as int) == kept,
                self.data@.subrange(start as int, start + k) == packet@.subrange(0, k as int),
            decreases packet_len - k,
        {
            let ghost d0 = self.data@;
            self.data.set(start + k, packet[k]);
            assert(self.data@.subrange(0, start as int) =~= d0.subrange(0, start as int));
            assert(self.data@.subrange(start as int, start + k + 1) =~= packet@.subrange(
                0,
                k + 1,
            ));
            k = k + 1;
        }
        assert(packet@.subrange(0, packet_len as int) =~= packet@);
        assert(self.data@.subrange(0, start + packet_len) =~= self.data@.subrange(0, start as int)
            + self.data@.subrange(start as int, start + packet_len));
        self.end = start + packet_len;
    }

    /// The bytes collected so far.
    pub fn contents(&self) -> (r: &[u8])
        requires
            self.wf(),
        ensures
            r@ == self@,
    {
        vstd::slice::slice_subrange(self.data.as_slice(), 0, self.end)
    }
}

} // verus!
