//! Hex dumps of packet bytes, sixteen bytes to a line.

use vstd::prelude::*;
use crate::numfmt::{dec_digits, hex_padded, push_dec_digits, push_hex_padded};
use crate::text::{append_str, string_of};

verus! {

/// How a byte shows in the ASCII column: itself when printable (32 to 126),
/// a dot otherwise.
pub open spec fn printable(b: u8) -> char {
    if 32 <= b && b <= 126 {
        b as char
    } else {
        '.'
    }
}

/// The ASCII column of some bytes.
pub open spec fn ascii_column(p: Seq<u8>) -> Seq<char> {
    p.map_values(|b: u8| printable(b))
}

/// The start of the line for offset `i`: a line break, the offset as four
/// lower-case hex digits (or more when it needs more), and ": ".
pub open spec fn line_head(i: int) -> Seq<char> {
    seq!['\n'] + hex_padded(i as nat, 4, false) + seq![':', ' ']
}

/// What byte `i` adds to a plain dump: a line head at every sixteenth byte,
/// then the byte as two lower-case hex digits and a space.
pub open spec fn plain_piece(p: Seq<u8>, i: int) -> Seq<char> {
    (if i % 16 == 0 {
        line_head(i)
    } else {
        seq![]
    }) + hex_padded(p[i] as nat, 2, false) + seq![' ']
}

/// What byte `i` adds to a dump with an ASCII column: as in a plain dump,
/// and at the end of each line (after byte 15 of the line, or after the last
/// byte) " | " and the ASCII column of that line.
pub open spec fn ascii_piece(p: Seq<u8>, i: int) -> Seq<char> {
    plain_piece(p, i) + (if i % 16 == 15 || i == p.len() - 1 {
        seq![' ', '|', ' '] + ascii_column(p.subrange(i / 16 * 16, i + 1))
    } else {
        seq![]
    })
}

/// The plain dump of the first `n` bytes.
pub open spec fn plain_dump(p: Seq<u8>, n: int) -> Seq<char>
    decreases n,
{
    if n <= 0 {
        seq![]
    } else {
        plain_dump(p, n - 1) + plain_piece(p, n - 1)
    }
}

/// The dump with ASCII columns of the first `n` bytes.
pub open spec fn ascii_dump(p: Seq<u8>, n: int) -> Seq<char>
    decreases n,
{
    if n <= 0 {
        seq![]
    } else {
        ascii_dump(p, n - 1) + ascii_piece(p, n - 1)
    }
}

fn printable_exec(b: u8) -> (c: char)
    ensures
        c == printable(b),
{
    if 32 <= b && b <= 126 {
        b as char
    } else {
        '.'
    }
}

fn push_plain_piece(out: &mut Vec<char>, p: &[u8], i: usize)
    requires
        i < p@.len(),
    ensures
        final(out)@ == old(out)@ + plain_piece(p@, i as int),
{
    let ghost o0 = out@;
    if i % 16 == 0 {
        out.push('\n');
        push_hex_padded(out, i, 4, false);
        out.push(':');
        out.push(' ');
    }
    push_hex_padded(out, p[i] as usize, 2, false);
    out.push(' ');
    assert(out@ =~= o0 + plain_piece(p@, i as int));
}

/// The bytes `packet[offset..offset + len]` written as a plain hex dump:
/// for each line of sixteen bytes a line break, the offset in the slice as
/// (at least) four lower-case hex digits and ": ", then each byte as two hex
/// digits and a space.
pub fn hexdump_lines(packet: &[u8], offset: usize, len: usize) -> (r: String)
    requires
        offset + len <= packet@.len(),
    ensures
        r@ == plain_dump(packet@.subrange(offset as int, offset + len), len as int),
{
    let plen = packet.len();
    let end = offset + len;
    let mut p: Vec<u8> = Vec::new();
    let mut k: usize = offset;
    while k < end
        invariant
            end == offset + len,
            offset <= k <= offset + len <= packet@.len(),
            p@ == packet@.subrange(offset as int, k as int),
        decreases offset + len - k,
    {
        p.push(packet[k]);
        k = k + 1;
    }
    let mut out: Vec<char> = Vec::new();
    let mut i: usize = 0;
    while i < len
        invariant
            p@.len() == len,
            i <= len,
            out@ == plain_dump(p@, i as int),
        decreases len - i,
    {
        push_plain_piece(&mut out, p.as_slice(), i);
        i = i + 1;
    }
    string_of(out.as_slice())
}

/// The report that `hexdump` prints: a header line with the offset and
/// length in decimal, the plain dump, and a closing line.
pub open spec fn hexdump_report_text(packet: Seq<u8>, offset: nat, len: nat) -> Seq<char> {
    "--- Packet Offset "@ + dec_digits(offset) + " Packet Length "@ + dec_digits(len) + " ---\n"@
        + plain_dump(packet.subrange(offset as int, (offset + len) as int), len as int) + "\n---"@
}

/// The text that `hexdump` prints for `packet[offset..offset + len]` (see
/// `hexdump_report_text`).
pub fn hexdump_report(packet: &[u8], offset: usize, len: usize) -> (r: String)
    requires
        offset + len <= packet@.len(),
    ensures
        r@ == hexdump_report_text(packet@, offset as nat, len as nat),
{
    let lines = hexdump_lines(packet, offset, len);
    let mut out: Vec<char> = Vec::new();
    append_str(&mut out, "--- Packet Offset ");
    push_dec_digits(&mut out, offset);
    append_str(&mut out, " Packet Length ");
    push_dec_digits(&mut out, len);
    append_str(&mut out, " ---\n");
    append_str(&mut out, lines.as_str());
    append_str(&mut out, "\n---");
    string_of(out.as_slice())
}

/// The bytes `packet[packet_offset..packet_offset + packet_len]` as a hex
/// dump with an ASCII column: each line holds up to sixteen bytes as in
/// `hexdump_lines`, followed by " | " and the bytes as characters, with a dot
/// for each byte that is not printable.
pub fn hexdump_ascii(packet: &[u8], packet_offset: usize, packet_len: usize) -> (r: String)
    requires
        packet_offset + packet_len <= packet@.len(),
    ensures
        r@ == ascii_dump(
            packet@.subrange(packet_offset as int, packet_offset + packet_len),
            packet_len as int,
        ),
{
    let plen = packet.len();
    let end = packet_offset + packet_len;
    let mut p: Vec<u8> = Vec::new();
    let mut k: usize = packet_offset;
    while k < end
        invariant
            end == packet_offset + packet_len,
            packet_offset <= k <= packet_offset + packet_len <= packet@.len(),
            p@ == packet@.subrange(packet_offset as int, k as int),
        decreases packet_offset + packet_len - k,
    {
        p.push(packet[k]);
        k = k + 1;
    }
    let len = p.len();
    let mut out: Vec<char> = Vec::new();
    let mut i: usize = 0;
    while i < len
        invariant
            p@.len() == len,
            i <= len,
            out@ == ascii_dump(p@, i as int),
        decreases len - i,
    {
        let ghost o0 = out@;
        push_plain_piece(&mut out, p.as_slice(), i);
        let ghost o1 = out@;
        if i % 16 == 15 || i == len - 1 {
            out.push(' ');
            out.push('|');
            out.push(' ');
            let start = i / 16 * 16;
            let mut j: usize = start;
            let ghost o2 = out@;
            while j <= i
                invariant
                    start <= j <= i + 1,
                    i < p@.len(),
                    p@.len() == len,
                    len <= usize::MAX,
                    out@ == o2 + ascii_column(p@.subrange(start as int, j as int)),
                decreases i + 1 - j,
            {
                let c = printable_exec(p[j]);
                out.push(c);
                assert(ascii_column(p@.subrange(start as int, j + 1)) =~= ascii_column(
                    p@.subrange(start as int, j as int),
                ).push(c));
                j = j + 1;
            }
            assert(out@ =~= o1 + seq![' ', '|', ' '] + ascii_column(
                p@.subrange(i / 16 * 16, i + 1),
            ));
        }
        assert(out@ =~= o0 + ascii_piece(p@, i as int));
        i = i + 1;
    }
    string_of(out.as_slice())
}


/// At the end of each line of a dump with an ASCII column (after byte 15 of
/// the line, or after the last byte) come " | " and one character for each
/// byte of the line, in order: the byte itself when it is from 32 (space)
/// to 126, and '.' otherwise.
pub proof fn lemma_ascii_column_of_line(p: Seq<u8>, i: int)
    requires
        0 <= i < p.len(),
        i % 16 == 15 || i == p.len() - 1,
    ensures
        ({
            let d = ascii_dump(p, i + 1);
            let start = i / 16 * 16;
            let w = i + 1 - start;
            &&& d.len() >= w + 3
            &&& d.subrange(d.len() - w - 3, d.len() - w) == seq![' ', '|', ' ']
            &&& forall|j: int|
                0 <= j < w ==> #[trigger] d[d.len() - w + j] == if 32 <= p[start + j] && p[start + j]
                    <= 126 {
                    p[start + j] as char
                } else {
                    '.'
                }
        }),
{
    let d = ascii_dump(p, i + 1);
    let start = i / 16 * 16;
    let w = i + 1 - start;
    let col = ascii_column(p.subrange(start, i + 1));
    let tail = seq![' ', '|', ' '] + col;
    assert(0 <= start <= i) by (nonlinear_arith)
        requires
            0 <= i,
            start == i / 16 * 16,
    ;
    assert(d == ascii_dump(p, i) + plain_piece(p, i) + tail);
    assert(col.len() == w);
    assert(d.subrange(d.len() - w - 3, d.len() - w) =~= seq![' ', '|', ' ']);
    assert forall|j: int| 0 <= j < w implies #[trigger] d[d.len() - w + j] == if 32 <= p[start + j]
        && p[start + j] <= 126 {
        p[start + j] as char
    } else {
        '.'
    } by {
        assert(d[d.len() - w + j] == col[j]);
        assert(p.subrange(start, i + 1)[j] == p[start + j]);
    }
}

} // verus!
