//! Transport-stream analysis: CEA-608 caption decoding and the ITU-T T.35
//! payloads that carry the captions, SCTE-35 splice timing, the
//! clock-reference slots of programs, the choice of a demultiplexer filter
//! for each stream, the length of elementary-stream packets, and which NAL
//! units the reader reports.

use vstd::prelude::*;
use h264_reader::nal::sei::user_data_registered_itu_t_t35::ItuTT35;
use h264_reader::nal::sei::{HeaderType, SeiMessage};
use crate::numfmt::{hex_padded, push_hex_padded};
use crate::text::{append_str, chars_of, contains_exec, contains_seq, string_of};

verus! {

// ---------------------------------------------------------------------------
// CEA-608 captions
// ---------------------------------------------------------------------------

/// A byte in the standard ASCII range 0x20 to 0x7F.
pub open spec fn standard_ascii(b: u8) -> bool {
    0x20 <= b && b <= 0x7F
}

/// A byte pair that carries XDS data: 0x01 and a standard ASCII byte.
pub open spec fn xds_pair(b1: u8, b2: u8) -> bool {
    b1 == 0x01 && 0x20 <= b2 && b2 <= 0x7F
}

/// What a CEA-608 byte pair decodes to: its two characters when both bytes
/// are standard ASCII, "[Clear Caption]" for 0x14 0x2C, "[Roll-Up Caption]"
/// for 0x14 0x20, and nothing otherwise.
pub open spec fn decoded_pair(b1: u8, b2: u8) -> Option<Seq<char>> {
    if standard_ascii(b1) && standard_ascii(b2) {
        Some(seq![b1 as char, b2 as char])
    } else if b1 == 0x14 && b2 == 0x2C {
        Some("[Clear Caption]"@)
    } else if b1 == 0x14 && b2 == 0x20 {
        Some("[Roll-Up Caption]"@)
    } else {
        None
    }
}

/// The text of an XDS byte pair: "XDS: " and both bytes as two upper-case
/// hex digits separated by a space.
pub open spec fn xds_text(b1: u8, b2: u8) -> Seq<char> {
    "XDS: "@ + hex_padded(b1 as nat, 2, true) + seq![' '] + hex_padded(b2 as nat, 2, true)
}

pub fn is_standard_ascii(byte: u8) -> (r: bool)
    ensures
        r == standard_ascii(byte),
{
    byte >= 0x20 && byte <= 0x7F
}

pub fn is_xds(byte1: u8, byte2: u8) -> (r: bool)
    ensures
        r == xds_pair(byte1, byte2),
{
    byte1 == 0x01 && byte2 >= 0x20 && byte2 <= 0x7F
}

/// Decodes a CEA-608 byte pair, control codes included (see
/// `decoded_pair`).
pub fn decode_character(byte1: u8, byte2: u8) -> (r: Option<String>)
    ensures
        r matches Some(s) ==> decoded_pair(byte1, byte2) == Some(s@),
        r is None ==> decoded_pair(byte1, byte2) is None,
{
    if is_standard_ascii(byte1) && is_standard_ascii(byte2) {
        let mut out: Vec<char> = Vec::new();
        out.push(byte1 as char);
        out.push(byte2 as char);
        assert(out@ =~= seq![byte1 as char, byte2 as char]);
        return Some(string_of(out.as_slice()));
    }
    if byte1 == 0x14 && byte2 == 0x2C {
        let mut out: Vec<char> = Vec::new();
        append_str(&mut out, "[Clear Caption]");
        assert(out@ =~= "[Clear Caption]"@);
        Some(string_of(out.as_slice()))
    } else if byte1 == 0x14 && byte2 == 0x20 {
        let mut out: Vec<char> = Vec::new();
        append_str(&mut out, "[Roll-Up Caption]");
        assert(out@ =~= "[Roll-Up Caption]"@);
        Some(string_of(out.as_slice()))
    } else {
        None
    }
}

/// Decodes a CC1 or CC2 caption byte pair (see `decoded_pair`).
pub fn decode_cea_608_cc1_cc2(byte1: u8, byte2: u8) -> (r: Option<String>)
    ensures
        r matches Some(s) ==> decoded_pair(byte1, byte2) == Some(s@),
        r is None ==> decoded_pair(byte1, byte2) is None,
{
    decode_character(byte1, byte2)
}

/// The text of an XDS byte pair (see `xds_text`), or `None` when the pair
/// is not XDS data.
pub fn decode_cea_608_xds(byte1: u8, byte2: u8) -> (r: Option<String>)
    ensures
        r matches Some(s) ==> xds_pair(byte1, byte2) && s@ == xds_text(byte1, byte2),
        r is None ==> !xds_pair(byte1, byte2),
{
    if is_xds(byte1, byte2) {
        let mut out: Vec<char> = Vec::new();
        append_str(&mut out, "XDS: ");
        push_hex_padded(&mut out, byte1 as usize, 2, true);
        out.push(' ');
        push_hex_padded(&mut out, byte2 as usize, 2, true);
        Some(string_of(out.as_slice()))
    } else {
        None
    }
}

/// The CC1 captions, CC2 captions and XDS texts decoded from caption data,
/// as lists of texts.
pub struct CaptionTexts {
    pub cc1: Seq<Seq<char>>,
    pub cc2: Seq<Seq<char>>,
    pub xds: Seq<Seq<char>>,
}

/// The captions of the first `n` three-byte groups of `data`. A group that
/// starts with 0x04 adds its decoded pair to CC1, or else its XDS text to the
/// XDS list; one that starts with 0x05 adds its decoded pair to CC2; other
/// groups add nothing.
pub open spec fn captions_upto(data: Seq<u8>, n: int) -> CaptionTexts
    decreases n,
{
    if n <= 0 {
        CaptionTexts { cc1: seq![], cc2: seq![], xds: seq![] }
    } else {
        let prev = captions_upto(data, n - 1);
        let c0 = data[3 * (n - 1)];
        let b1 = data[3 * (n - 1) + 1];
        let b2 = data[3 * (n - 1) + 2];
        if c0 == 0x04 {
            match decoded_pair(b1, b2) {
                Some(t) => CaptionTexts { cc1: prev.cc1.push(t), ..prev },
                None => if xds_pair(b1, b2) {
                    CaptionTexts { xds: prev.xds.push(xds_text(b1, b2)), ..prev }
                } else {
                    prev
                },
            }
        } else if c0 == 0x05 {
            match decoded_pair(b1, b2) {
                Some(t) => CaptionTexts { cc2: prev.cc2.push(t), ..prev },
                None => prev,
            }
        } else {
            prev
        }
    }
}

/// The views of some strings.
pub open spec fn string_views(v: Seq<String>) -> Seq<Seq<char>> {
    v.map_values(|s: String| s@)
}

/// Decodes CEA-608 caption data, three bytes at a time; a trailing group of
/// fewer than three bytes is ignored (see `captions_upto`). At most one text
/// comes from each group.
pub fn decode_cea_608(data: &[u8]) -> (r: (Vec<String>, Vec<String>, Vec<String>))
    ensures
        string_views(r.0@) == captions_upto(data@, (data@.len() / 3) as int).cc1,
        string_views(r.1@) == captions_upto(data@, (data@.len() / 3) as int).cc2,
        string_views(r.2@) == captions_upto(data@, (data@.len() / 3) as int).xds,
        r.0@.len() + r.1@.len() + r.2@.len() <= data@.len() / 3,
{
    let mut cc1: Vec<String> = Vec::new();
    let mut cc2: Vec<String> = Vec::new();
    let mut xds: Vec<String> = Vec::new();
    let dlen = data.len();
    let groups = dlen / 3;
    let mut g: usize = 0;
    while g < groups
        invariant
            dlen == data@.len(),
            groups == data@.len() / 3,
            g <= groups,
            string_views(cc1@) == captions_upto(data@, g as int).cc1,
            string_views(cc2@) == captions_upto(data@, g as int).cc2,
            string_views(xds@) == captions_upto(data@, g as int).xds,
            cc1@.len() + cc2@.len() + xds@.len() <= g,
        decreases groups - g,
    {
        assert(3 * g + 2 < data@.len()) by (nonlinear_arith)
            requires
                g < groups,
                groups == data@.len() / 3,
        ;
        let c0 = data[3 * g];
        let b1 = data[3 * g + 1];
        let b2 = data[3 * g + 2];
        let ghost v1 = string_views(cc1@);
        let ghost v2 = string_views(cc2@);
        let ghost vx = string_views(xds@);
        if c0 == 0x04 {
            match decode_cea_608_cc1_cc2(b1, b2) {
                Some(t) => {
                    let ghost tv = t@;
                    cc1.push(t);
                    assert(string_views(cc1@) =~= v1.push(tv));
                },
                None => match decode_cea_608_xds(b1, b2) {
                    Some(t) => {
                        let ghost tv = t@;
                        xds.push(t);
                        assert(string_views(xds@) =~= vx.push(tv));
                    },
                    None => {},
                },
            }
        } else if c0 == 0x05 {
            match decode_cea_608_cc1_cc2(b1, b2) {
                Some(t) => {
                    let ghost tv = t@;
                    cc2.push(t);
                    assert(string_views(cc2@) =~= v2.push(tv));
                },
                None => {},
            }
        }
        g = g + 1;
    }
    (cc1, cc2, xds)
}

/// Reads ITU-T T.35 user data with h264-reader's `ItuTT35::read`. The
/// crate's source fails when the payload is empty, or when its first byte is
/// 0xFF (an extended country code) and no second byte follows; otherwise it
/// gives the country that the first byte codes, 0xB5 being the United
/// States, and the payload after that first byte. The result is whether the
/// country is the United States, and those remaining bytes.
#[verifier::external_body]
fn read_itu_t35(payload: &[u8]) -> (r: Option<(bool, Vec<u8>)>)
    ensures
        r is None <==> (payload@.len() == 0 || (payload@[0] == 0xff && payload@.len() < 2)),
        r matches Some(p) ==> p.0 == (payload@[0] == 0xb5) && p.1@ == payload@.drop_first(),
{
    let msg = SeiMessage { payload_type: HeaderType::UserDataRegisteredItuTT35, payload };
    match ItuTT35::read(&msg) {
        Ok((ItuTT35::UnitedStates, rest)) => Some((true, rest.to_vec())),
        Ok((_, rest)) => Some((false, rest.to_vec())),
        Err(_) => None,
    }
}

/// What an SEI message of ITU-T T.35 user data yields.
#[derive(Debug)]
pub enum T35Captions {
    /// The payload is too short to hold a country code.
    Unreadable,
    /// The country is not the United States, so the data is not CEA-608.
    OtherCountry,
    /// The CC1 captions, CC2 captions and XDS texts of the data after the
    /// country code.
    Captions(Vec<String>, Vec<String>, Vec<String>),
}

/// Whether ITU-T T.35 user data is too short to read: it is empty, or
/// starts with the extension byte 0xFF and has nothing after it.
pub open spec fn t35_unreadable(payload: Seq<u8>) -> bool {
    payload.len() == 0 || (payload[0] == 0xff && payload.len() < 2)
}

/// Decodes the CEA-608 captions of an SEI message of ITU-T T.35 user data:
/// unreadable when the payload is too short (see `t35_unreadable`), no
/// captions when the country code is not that of the United States, and
/// otherwise the captions of the bytes after the country code, as
/// `decode_cea_608` decodes them.
pub fn t35_captions(payload: &[u8]) -> (r: T35Captions)
    ensures
        r is Unreadable <==> t35_unreadable(payload@),
        r is OtherCountry <==> !t35_unreadable(payload@) && payload@[0] != 0xb5,
        r matches T35Captions::Captions(cc1, cc2, xds) ==> {
            let rest = payload@.drop_first();
            let all = captions_upto(rest, (rest.len() / 3) as int);
            &&& !t35_unreadable(payload@)
            &&& payload@[0] == 0xb5
            &&& string_views(cc1@) == all.cc1
            &&& string_views(cc2@) == all.cc2
            &&& string_views(xds@) == all.xds
        },
{
    match read_itu_t35(payload) {
        None => T35Captions::Unreadable,
        Some((united_states, rest)) => {
            if united_states {
                let (cc1, cc2, xds) = decode_cea_608(rest.as_slice());
                T35Captions::Captions(cc1, cc2, xds)
            } else {
                T35Captions::OtherCountry
            }
        },
    }
}

/// The lists of `x` followed, list by list, by those of `y`.
pub open spec fn caption_texts_concat(x: CaptionTexts, y: CaptionTexts) -> CaptionTexts {
    CaptionTexts { cc1: x.cc1 + y.cc1, cc2: x.cc2 + y.cc2, xds: x.xds + y.xds }
}

proof fn lemma_push_concat(s1: Seq<Seq<char>>, s2: Seq<Seq<char>>, t: Seq<char>)
    ensures
        (s1 + s2).push(t) == s1 + s2.push(t),
{
    assert((s1 + s2).push(t) =~= s1 + s2.push(t));
}

proof fn lemma_captions_prefix(a: Seq<u8>, b: Seq<u8>, k: int)
    requires
        0 <= k <= a.len() / 3,
    ensures
        captions_upto(a + b, k) == captions_upto(a, k),
    decreases k,
{
    if k > 0 {
        lemma_captions_prefix(a, b, k - 1);
        assert(3 * (k - 1) + 2 < a.len()) by (nonlinear_arith)
            requires
                1 <= k <= a.len() / 3,
        ;
        assert((a + b)[3 * (k - 1)] == a[3 * (k - 1)]);
        assert((a + b)[3 * (k - 1) + 1] == a[3 * (k - 1) + 1]);
        assert((a + b)[3 * (k - 1) + 2] == a[3 * (k - 1) + 2]);
    }
}

proof fn lemma_captions_shift(a: Seq<u8>, b: Seq<u8>, m: int)
    requires
        a.len() % 3 == 0,
        0 <= m <= b.len() / 3,
    ensures
        captions_upto(a + b, (a.len() / 3) as int + m) == caption_texts_concat(
            captions_upto(a, (a.len() / 3) as int),
            captions_upto(b, m),
        ),
    decreases m,
{
    let n = (a.len() / 3) as int;
    let x = captions_upto(a, n);
    if m == 0 {
        lemma_captions_prefix(a, b, n);
        assert(x.cc1 + Seq::<Seq<char>>::empty() =~= x.cc1);
        assert(x.cc2 + Seq::<Seq<char>>::empty() =~= x.cc2);
        assert(x.xds + Seq::<Seq<char>>::empty() =~= x.xds);
    } else {
        lemma_captions_shift(a, b, m - 1);
        assert(3 * n == a.len() && 3 * (m - 1) + 2 < b.len()) by (nonlinear_arith)
            requires
                a.len() % 3 == 0,
                n == a.len() / 3,
                1 <= m <= b.len() / 3,
        ;
        let i = 3 * (m - 1);
        assert(3 * (n + m - 1) == a.len() + i);
        assert((a + b)[a.len() + i] == b[i]);
        assert((a + b)[a.len() + i + 1] == b[i + 1]);
        assert((a + b)[a.len() + i + 2] == b[i + 2]);
        let y0 = captions_upto(b, m - 1);
        let c0 = b[i];
        let b1 = b[i + 1];
        let b2 = b[i + 2];
        if c0 == 0x04 {
            match decoded_pair(b1, b2) {
                Some(t) => {
                    lemma_push_concat(x.cc1, y0.cc1, t);
                },
                None => {
                    if xds_pair(b1, b2) {
                        lemma_push_concat(x.xds, y0.xds, xds_text(b1, b2));
                    }
                },
            }
        } else if c0 == 0x05 {
            match decoded_pair(b1, b2) {
                Some(t) => {
                    lemma_push_concat(x.cc2, y0.cc2, t);
                },
                None => {},
            }
        }
    }
}

proof fn lemma_captions_count(d: Seq<u8>, n: int)
    requires
        0 <= n,
    ensures
        captions_upto(d, n).cc1.len() + captions_upto(d, n).cc2.len() + captions_upto(d, n).xds.len()
            <= n,
    decreases n,
{
    if n > 0 {
        lemma_captions_count(d, n - 1);
    }
}

/// Decoding caption data splits over whole groups: when `a` is made of
/// whole three-byte groups, the captions of `a` followed by `b` are the
/// captions of `a` followed, list by list, by those of `b`; and each group
/// adds at most one text.
pub proof fn lemma_captions_concat(a: Seq<u8>, b: Seq<u8>)
    requires
        a.len() % 3 == 0,
    ensures
        captions_upto(a + b, ((a.len() + b.len()) / 3) as int) == caption_texts_concat(
            captions_upto(a, (a.len() / 3) as int),
            captions_upto(b, (b.len() / 3) as int),
        ),
        captions_upto(a, (a.len() / 3) as int).cc1.len() + captions_upto(a, (a.len() / 3) as int).cc2.len()
            + captions_upto(a, (a.len() / 3) as int).xds.len() <= a.len() / 3,
{
    assert((a.len() + b.len()) / 3 == a.len() / 3 + b.len() / 3) by (nonlinear_arith)
        requires
            a.len() % 3 == 0,
            b.len() >= 0,
    ;
    lemma_captions_shift(a, b, (b.len() / 3) as int);
    lemma_captions_count(a, (a.len() / 3) as int);
}

// ---------------------------------------------------------------------------
// SCTE-35 splice timing
// ---------------------------------------------------------------------------

/// Calls `mpeg2ts_reader::packet::ClockRef::from_parts(time, 0)` and reads
/// back its `base()`: the crate's source stores the base unchanged, and
/// panics when it is not below 2^33, which `requires` leaves out.
#[verifier::external_body]
fn clock_base_of(time: u64) -> (r: u64)
    requires
        time < 0x2_0000_0000,
    ensures
        r == time,
{
    mpeg2ts_reader::packet::ClockRef::from_parts(time, 0).base()
}

/// How many milliseconds after the last PCR a splice is timed, from the
/// 90 kHz splice time and PCR base: the difference divided by 90, where a
/// negative difference is first increased by `u64::MAX / 2`.
pub open spec fn splice_offset(splice_time: int, pcr_base: int) -> int {
    let diff = splice_time - pcr_base;
    let adjusted = if diff < 0 {
        diff + 0x7fff_ffff_ffff_ffff
    } else {
        diff
    };
    adjusted / 90
}

/// The time of a splice-insert command relative to the last PCR of its
/// program, in milliseconds (see `splice_offset`).
pub fn splice_time_offset_ms(splice_time: u64, last_pcr_base: u64) -> (r: i64)
    requires
        splice_time < 0x2_0000_0000,
        last_pcr_base < 0x2_0000_0000,
    ensures
        r as int == splice_offset(splice_time as int, last_pcr_base as int),
{
    let time_base = clock_base_of(splice_time);
    let mut diff: i64 = time_base as i64 - last_pcr_base as i64;
    if diff < 0 {
        diff = diff + (u64::MAX / 2) as i64;
    }
    diff / 90
}

// ---------------------------------------------------------------------------
// Clock-reference slots of programs
// ---------------------------------------------------------------------------

/// The slot of the latest registration of `program_pid` among the
/// registrations `pids`, in order; `None` when it was never registered.
pub open spec fn latest_slot(pids: Seq<u16>, program_pid: u16) -> Option<nat>
    decreases pids.len(),
{
    if pids.len() == 0 {
        None
    } else if pids.last() == program_pid {
        Some((pids.len() - 1) as nat)
    } else {
        latest_slot(pids.drop_last(), program_pid)
    }
}

/// Where the last clock reference of each program is kept. Each time a
/// program's PMT filter is made, a fresh slot is registered for it, and the
/// filters of its streams read the program's latest slot. Slot `i` is the
/// `i`-th registration.
pub struct PcrSlots {
    pids: Vec<u16>,
}

impl View for PcrSlots {
    type V = Seq<u16>;

    /// The program PIDs registered, in order.
    closed spec fn view(&self) -> Seq<u16> {
        self.pids@
    }
}

impl PcrSlots {
    /// No program registered.
    pub fn new() -> (r: PcrSlots)
        ensures
            r@ == Seq::<u16>::empty(),
    {
        PcrSlots { pids: Vec::new() }
    }

    /// Registers a fresh slot for a program and returns it: the number of
    /// earlier registrations.
    pub fn register(&mut self, program_pid: u16) -> (slot: usize)
        ensures
            final(self)@ == old(self)@.push(program_pid),
            slot == old(self)@.len(),
    {
        let slot = self.pids.len();
        self.pids.push(program_pid);
        slot
    }

    /// The latest slot registered for a program (see `latest_slot`).
    pub fn slot_of(&self, program_pid: u16) -> (r: Option<usize>)
        ensures
            r matches Some(i) ==> latest_slot(self@, program_pid) == Some(i as nat),
            r is None ==> latest_slot(self@, program_pid) is None,
    {
        let mut i: usize = self.pids.len();
        assert(self@.take(i as int) =~= self@);
        while i > 0
            invariant
                i <= self@.len(),
                latest_slot(self@, program_pid) == latest_slot(self@.take(i as int), program_pid),
            decreases i,
        {
            assert(self@.take(i as int).drop_last() =~= self@.take(i - 1));
            if self.pids[i - 1] == program_pid {
                return Some(i - 1);
            }
            i = i - 1;
        }
        None
    }
}

/// A registration makes the registered slot the program's latest, and
/// leaves the latest slot of every other program as it was.
pub proof fn lemma_register_then_lookup(pids: Seq<u16>, registered: u16, other: u16)
    requires
        other != registered,
    ensures
        latest_slot(pids.push(registered), registered) == Some(pids.len()),
        latest_slot(pids.push(registered), other) == latest_slot(pids, other),
{
    assert(pids.push(registered).drop_last() =~= pids);
}

// ---------------------------------------------------------------------------
// Demultiplexer filters
// ---------------------------------------------------------------------------

/// Calls `u16::from(mpeg2ts_reader::packet::Pid::PAT)`; the crate defines
/// the PAT PID as 0.
#[verifier::external_body]
fn pat_pid() -> (r: u16)
    ensures
        r == 0,
{
    u16::from(mpeg2ts_reader::packet::Pid::PAT)
}

/// Calls `u16::from(mpeg2ts_reader::STUFFING_PID)`; the crate defines the
/// stuffing PID as 0x1fff.
#[verifier::external_body]
fn stuffing_pid() -> (r: u16)
    ensures
        r == 0x1fff,
{
    u16::from(mpeg2ts_reader::STUFFING_PID)
}

/// Reads the number of `mpeg2ts_reader::StreamType::H264`; the crate defines
/// it as 0x1b.
#[verifier::external_body]
fn h264_stream_type() -> (r: u8)
    ensures
        r == 0x1b,
{
    mpeg2ts_reader::StreamType::H264.0
}

/// Reads the number of `scte35_reader::SCTE35_STREAM_TYPE`; the crate
/// defines it as 0x86.
#[verifier::external_body]
fn scte35_stream_type() -> (r: u8)
    ensures
        r == 0x86,
{
    scte35_reader::SCTE35_STREAM_TYPE.0
}

/// A request of the demultiplexer for a filter, by the plain values that the
/// choice depends on.
#[derive(Clone, Copy, Debug, PartialEq, Eq)]
pub enum FilterRequestKind {
    /// A PID not announced by the PAT or a PMT.
    ByPid { pid: u16 },
    /// A stream that a PMT announced; `scte35_registered` tells whether the
    /// PMT carries the 'CUEI' registration of SCTE-35 content.
    ByStream { program_pid: u16, stream_type: u8, elementary_pid: u16, scte35_registered: bool },
    /// A PID that holds a PMT.
    Pmt { pid: u16, program_number: u16 },
    /// A PID that holds the NIT.
    Nit { pid: u16 },
}

/// The filter that the demultiplexer installs for a request.
#[derive(Clone, Copy, Debug, PartialEq, Eq)]
pub enum FilterChoice {
    /// Reads the PAT.
    Pat,
    /// Ignores the packets.
    Null,
    /// Dumps PTS/DTS of an H.264 elementary stream.
    Pes { elementary_pid: u16 },
    /// Handles an SCTE-35 stream, with the PCR of its program.
    Scte35 { program_pid: u16, elementary_pid: u16 },
    /// Watches the PCR of a program.
    Pcr { program_pid: u16 },
    /// Reads a PMT and records a PCR slot for its program.
    Pmt { pid: u16, program_number: u16 },
}

/// The filter for each request: the PAT reader for PID 0, nothing for the
/// stuffing PID 0x1fff and for other unannounced PIDs, a PTS dumper for
/// H.264 streams (type 0x1b), SCTE-35 handling for streams of type 0x86 whose
/// PMT registers SCTE-35 content (and nothing for those whose PMT does not),
/// a PCR watch for every other stream, a PMT reader for PMT PIDs, and nothing
/// for the NIT.
pub open spec fn filter_for(req: FilterRequestKind) -> FilterChoice {
    match req {
        FilterRequestKind::ByPid { pid } => if pid == 0 {
            FilterChoice::Pat
        } else {
            FilterChoice::Null
        },
        FilterRequestKind::ByStream { program_pid, stream_type, elementary_pid, scte35_registered } => {
            if stream_type == 0x1b {
                FilterChoice::Pes { elementary_pid }
            } else if stream_type == 0x86 {
                if scte35_registered {
                    FilterChoice::Scte35 { program_pid, elementary_pid }
                } else {
                    FilterChoice::Null
                }
            } else {
                FilterChoice::Pcr { program_pid }
            }
        },
        FilterRequestKind::Pmt { pid, program_number } => FilterChoice::Pmt { pid, program_number },
        FilterRequestKind::Nit { .. } => FilterChoice::Null,
    }
}

/// Chooses the filter that the demultiplexer installs for a request (see
/// `filter_for`).
pub fn choose_filter(req: FilterRequestKind) -> (r: FilterChoice)
    ensures
        r == filter_for(req),
{
    match req {
        FilterRequestKind::ByPid { pid } => {
            if pid == pat_pid() {
                FilterChoice::Pat
            } else if pid == stuffing_pid() {
                FilterChoice::Null
            } else {
                FilterChoice::Null
            }
        },
        FilterRequestKind::ByStream { program_pid, stream_type, elementary_pid, scte35_registered } => {
            if stream_type == h264_stream_type() {
                FilterChoice::Pes { elementary_pid }
            } else if stream_type == scte35_stream_type() {
                if scte35_registered {
                    FilterChoice::Scte35 { program_pid, elementary_pid }
                } else {
                    FilterChoice::Null
                }
            } else {
                FilterChoice::Pcr { program_pid }
            }
        },
        FilterRequestKind::Pmt { pid, program_number } => FilterChoice::Pmt { pid, program_number },
        FilterRequestKind::Nit { .. } => FilterChoice::Null,
    }
}

// ---------------------------------------------------------------------------
// Elementary-stream packet length
// ---------------------------------------------------------------------------

/// The PTS-dumping consumer of an H.264 elementary stream: its PID and the
/// length of the PES packet read so far, once a packet with a payload began.
pub struct PtsDumpElementaryStreamConsumer {
    pub pid: u16,
    pub len: Option<usize>,
}

impl PtsDumpElementaryStreamConsumer {
    /// A consumer for the stream on `pid`, before any packet.
    pub fn construct(pid: u16) -> (r: Self)
        ensures
            r.pid == pid,
            r.len is None,
    {
        PtsDumpElementaryStreamConsumer { pid, len: None }
    }

    /// A PES packet begins; `payload_len` is the length of its payload when
    /// the header was parsed with a payload or held a raw payload, and `None`
    /// when the header was parsed without one (the length is then kept).
    pub fn begin_packet(&mut self, payload_len: Option<usize>)
        ensures
            final(self).pid == old(self).pid,
            final(self).len == (match payload_len {
                Some(l) => Some(l),
                None => old(self).len,
            }),
    {
        if let Some(l) = payload_len {
            self.len = Some(l);
        }
    }

    /// More data of the current PES packet: its length is added to the
    /// length read so far, if a packet began.
    pub fn continue_packet(&mut self, data_len: usize)
        requires
            old(self).len matches Some(l) ==> l + data_len <= usize::MAX,
        ensures
            final(self).pid == old(self).pid,
            final(self).len == (match old(self).len {
                Some(l) => Some((l + data_len) as usize),
                None => None,
            }),
    {
        if let Some(l) = self.len {
            self.len = Some(l + data_len);
        }
    }
}

// ---------------------------------------------------------------------------
// Reported NAL units
// ---------------------------------------------------------------------------

/// Whether the reader reports NAL units of `kind` ("sps", "pps", "slice",
/// "sei", ...): the list of kinds to report holds `kind` or "all".
pub fn nal_type_selected(debug_nal_types: &str, kind: &str) -> (r: bool)
    ensures
        r == (contains_seq(debug_nal_types@, kind@) || contains_seq(debug_nal_types@, "all"@)),
{
    let d = chars_of(debug_nal_types);
    let k = chars_of(kind);
    let all = chars_of("all");
    contains_exec(d.as_slice(), k.as_slice()) || contains_exec(d.as_slice(), all.as_slice())
}

} // verus!
