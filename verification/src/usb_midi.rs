//! USB MIDI event-packet framing: splitting a SysEx message into 4-byte
//! USB MIDI packets, and the receive buffer that hands out the packets of a
//! bulk transfer one by one.

use vstd::prelude::*;

verus! {

/// Code index number: SysEx starts or continues (3 bytes).
pub const CIN_SYSEX_CONTINUE: u8 = 0x4;
/// Code index number: SysEx ends with the following byte.
pub const CIN_SYSEX_END1: u8 = 0x5;
/// Code index number: SysEx ends with the following two bytes.
pub const CIN_SYSEX_END2: u8 = 0x6;
/// Code index number: SysEx ends with the following three bytes.
pub const CIN_SYSEX_END3: u8 = 0x7;

/// End-of-exclusive status byte.
pub const SYSEX_END: u8 = 0xF7;

/// The USB MIDI packet that carries the bytes of `data` from offset `i` on:
/// three bytes per packet, the last one or two bytes in an end packet. A
/// final 3-byte group ending in `F7` uses the 3-byte end code, also when it
/// is the first packet, so a complete message is always ended.
pub open spec fn sysex_packet_at(data: Seq<u8>, i: int) -> Seq<u8> {
    let remain = data.len() - i;
    if remain >= 3 {
        if remain == 3 && data[i + 2] == SYSEX_END {
            seq![CIN_SYSEX_END3, data[i], data[i + 1], data[i + 2]]
        } else {
            seq![CIN_SYSEX_CONTINUE, data[i], data[i + 1], data[i + 2]]
        }
    } else if remain == 2 {
        seq![CIN_SYSEX_END2, data[i], data[i + 1], 0]
    } else {
        seq![CIN_SYSEX_END1, data[i], 0, 0]
    }
}

/// Number of packets for a message of `len` bytes: one per 3 bytes, rounded up.
pub open spec fn sysex_packet_count(len: int) -> int {
    (len + 2) / 3
}

/// The packets of a SysEx message, in sending order.
pub open spec fn sysex_frames(data: Seq<u8>) -> Seq<Seq<u8>> {
    Seq::new(sysex_packet_count(data.len() as int) as nat, |k: int| sysex_packet_at(data, 3 * k))
}

/// The byte views of a list of packets.
pub open spec fn packets_view(v: Seq<[u8; 4]>) -> Seq<Seq<u8>> {
    v.map_values(|a: [u8; 4]| a@)
}

/// Split a complete SysEx message into USB MIDI event packets, in sending order.
pub fn sysex_packets(data: &[u8]) -> (packets: Vec<[u8; 4]>)
    ensures
        packets_view(packets@) == sysex_frames(data@),
{
    let mut packets: Vec<[u8; 4]> = Vec::new();
    let len = data.len();
    let mut i: usize = 0;
    while i < len
        invariant
            len == data@.len(),
            i % 3 == 0,
            i <= len + 2,
            packets@.len() == i / 3,
            forall|k: int|
                0 <= k < packets@.len() ==> #[trigger] packets@[k]@ == sysex_packet_at(
                    data@,
                    3 * k,
                ),
        decreases len + 3 - i,
    {
        let remain = len - i;
        let packet: [u8; 4] = if remain >= 3 {
            if remain == 3 && data[i + 2] == SYSEX_END {
                [CIN_SYSEX_END3, data[i], data[i + 1], data[i + 2]]
            } else {
                [CIN_SYSEX_CONTINUE, data[i], data[i + 1], data[i + 2]]
            }
        } else if remain == 2 {
            [CIN_SYSEX_END2, data[i], data[i + 1], 0]
        } else {
            [CIN_SYSEX_END1, data[i], 0, 0]
        };
        assert(packet@ =~= sysex_packet_at(data@, i as int));
        packets.push(packet);
        i += 3;
    }
    proof {
        assert(packets@.len() == sysex_packet_count(len as int));
        assert(packets_view(packets@) =~= sysex_frames(data@));
    }
    packets
}

/// A complete message is always ended: every packet but the last starts or
/// continues the message (code index 4), and the last one, when the message
/// ends in `F7`, is an end packet whose code index (5, 6 or 7) counts its
/// data bytes, even when it is also the first packet.
pub proof fn lemma_sysex_frames_ended(data: Seq<u8>)
    requires
        data.len() >= 1,
        data[data.len() - 1] == SYSEX_END,
    ensures
        ({
            let frames = sysex_frames(data);
            let last = sysex_packet_count(data.len() as int) - 1;
            &&& frames.len() == last + 1
            &&& forall|k: int| 0 <= k < last ==> #[trigger] frames[k][0] == CIN_SYSEX_CONTINUE
            &&& frames[last][0] == CIN_SYSEX_CONTINUE + (data.len() - 3 * last)
            &&& 1 <= data.len() - 3 * last <= 3
        }),
{
    let frames = sysex_frames(data);
    let len = data.len() as int;
    let last = sysex_packet_count(len) - 1;
    assert(3 * last < len <= 3 * last + 3);
    assert forall|k: int| 0 <= k < last implies #[trigger] frames[k][0] == CIN_SYSEX_CONTINUE by {
        assert(frames[k] == sysex_packet_at(data, 3 * k));
        assert(len - 3 * k > 3);
    }
    assert(frames[last] == sysex_packet_at(data, 3 * last));
}

/// The data bytes a SysEx packet carries: its code index number says how
/// many (one or two for the short end packets, three otherwise).
pub open spec fn packet_payload(p: Seq<u8>) -> Seq<u8> {
    let n = if p[0] == CIN_SYSEX_END1 {
        1int
    } else if p[0] == CIN_SYSEX_END2 {
        2int
    } else {
        3int
    };
    p.subrange(1, 1 + n)
}

/// The data bytes of packets `k..` of a packet list, concatenated.
pub open spec fn payloads_from(frames: Seq<Seq<u8>>, k: int) -> Seq<u8>
    decreases frames.len() - k,
{
    if k < 0 || k >= frames.len() {
        seq![]
    } else {
        packet_payload(frames[k]) + payloads_from(frames, k + 1)
    }
}

/// Framing loses nothing: the data bytes of the packets of a SysEx message,
/// read in sending order, are the message.
pub proof fn lemma_sysex_frames_payload(data: Seq<u8>)
    ensures
        payloads_from(sysex_frames(data), 0) == data,
{
    let count = sysex_packet_count(data.len() as int);
    assert(3 * count >= data.len() && 3 * count < data.len() + 3);
    lemma_payloads_suffix(data, count);
    assert(data_from(data, 0) =~= data);
}

/// The bytes of `data` from offset `i` on (none once `i` is past the end).
spec fn data_from(data: Seq<u8>, i: int) -> Seq<u8> {
    if i >= data.len() {
        seq![]
    } else {
        data.subrange(i, data.len() as int)
    }
}

proof fn lemma_payloads_suffix(data: Seq<u8>, k: int)
    requires
        0 <= k <= sysex_packet_count(data.len() as int),
    ensures
        payloads_from(sysex_frames(data), sysex_packet_count(data.len() as int) - k)
            == data_from(data, 3 * (sysex_packet_count(data.len() as int) - k)),
    decreases k,
{
    let len = data.len() as int;
    let count = sysex_packet_count(len);
    let frames = sysex_frames(data);
    let j = count - k;
    assert(3 * count >= len && 3 * count < len + 3);
    if k > 0 {
        lemma_payloads_suffix(data, k - 1);
        let i = 3 * j;
        assert(frames[j] == sysex_packet_at(data, i));
        let remain = len - i;
        assert(remain >= 1);
        let n = if remain >= 3 {
            3int
        } else {
            remain
        };
        assert(packet_payload(frames[j]) =~= data.subrange(i, i + n));
        if remain > 3 {
            assert(data.subrange(i, i + 3) + data.subrange(i + 3, len) =~= data.subrange(i, len));
        } else {
            assert(data.subrange(i, i + n) + Seq::<u8>::empty() =~= data.subrange(i, len));
        }
    }
}

// ── Receive buffer ────────────────────────────────────────────────────────────

/// Size of one bulk OUT transfer buffer.
pub const READ_BUF_LEN: usize = 64;

/// The abstract state of a [`PacketReader`]: the bytes of the last bulk
/// transfer and the offset of the next packet to hand out.
pub struct ReaderState {
    pub bytes: Seq<u8>,
    pub pos: int,
}

pub open spec fn reader_wf(v: ReaderState) -> bool {
    &&& v.bytes.len() <= READ_BUF_LEN
    &&& 0 <= v.pos <= v.bytes.len()
}

/// A whole packet is still buffered.
pub open spec fn has_buffered(v: ReaderState) -> bool {
    v.pos + 4 <= v.bytes.len()
}

/// The next buffered packet.
pub open spec fn next_packet(v: ReaderState) -> Seq<u8> {
    v.bytes.subrange(v.pos, v.pos + 4)
}

/// The state after handing out the next buffered packet.
pub open spec fn after_take(v: ReaderState) -> ReaderState {
    if has_buffered(v) {
        ReaderState { pos: v.pos + 4, ..v }
    } else {
        v
    }
}

/// The state after putting the last packet handed out back.
pub open spec fn after_unread(v: ReaderState) -> ReaderState {
    if v.pos >= 4 {
        ReaderState { pos: v.pos - 4, ..v }
    } else {
        v
    }
}

/// The state after a bulk transfer of `n` bytes was read into the buffer:
/// a transfer shorter than one packet leaves nothing buffered, otherwise the
/// first packet is handed out at once.
pub open spec fn after_load(data: Seq<u8>, n: int) -> ReaderState {
    if n >= 4 {
        ReaderState { bytes: data.subrange(0, n), pos: 4 }
    } else {
        ReaderState { bytes: seq![], pos: 0 }
    }
}

/// Receive buffer of the MIDI bulk OUT endpoint: one transfer holds up to
/// 16 packets, handed out one at a time; the last one can be put back.
pub struct PacketReader {
    read_buf: [u8; READ_BUF_LEN],
    read_len: usize,
    read_pos: usize,
}

impl View for PacketReader {
    type V = ReaderState;

    closed spec fn view(&self) -> ReaderState {
        ReaderState { bytes: self.read_buf@.subrange(0, self.read_len as int), pos: self.read_pos as int }
    }
}

impl PacketReader {
    /// Internal invariant: length and offset within the buffer.
    pub closed spec fn wf(&self) -> bool {
        &&& self.read_len <= READ_BUF_LEN
        &&& self.read_pos <= self.read_len
    }

    /// The well-formed state has a well-formed view.
    pub proof fn lemma_wf(&self)
        requires
            self.wf(),
        ensures
            reader_wf(self@),
    {
    }

    /// An empty buffer.
    pub fn new() -> (r: PacketReader)
        ensures
            r.wf(),
            r@.bytes == Seq::<u8>::empty(),
            r@.pos == 0,
    {
        let r = PacketReader { read_buf: [0u8; READ_BUF_LEN], read_len: 0, read_pos: 0 };
        assert(r@.bytes =~= Seq::<u8>::empty());
        r
    }

    /// Hand out the next packet still buffered from the last transfer, if any.
    pub fn take_buffered(&mut self) -> (p: Option<[u8; 4]>)
        requires
            old(self).wf(),
        ensures
            final(self).wf(),
            final(self)@ == after_take(old(self)@),
            match p {
                Some(b) => has_buffered(old(self)@) && b@ == next_packet(old(self)@),
                None => !has_buffered(old(self)@),
            },
    {
        if self.read_pos + 4 <= self.read_len {
            let pos = self.read_pos;
            let buf = [
                self.read_buf[pos],
                self.read_buf[pos + 1],
                self.read_buf[pos + 2],
                self.read_buf[pos + 3],
            ];
            self.read_pos = pos + 4;
            assert(buf@ =~= next_packet(old(self)@));
            Some(buf)
        } else {
            None
        }
    }

    /// Take in a bulk transfer of `bytes_read` bytes read into `data`, and
    /// hand out its first packet; a transfer shorter than one packet empties
    /// the buffer.
    pub fn load(&mut self, data: [u8; READ_BUF_LEN], bytes_read: usize) -> (p: Option<[u8; 4]>)
        requires
            bytes_read <= READ_BUF_LEN,
        ensures
            final(self).wf(),
            final(self)@ == after_load(data@, bytes_read as int),
            match p {
                Some(b) => bytes_read >= 4 && b@ == data@.subrange(0, 4),
                None => bytes_read < 4,
            },
    {
        self.read_buf = data;
        if bytes_read >= 4 {
            self.read_len = bytes_read;
            self.read_pos = 4;
            let buf = [data[0], data[1], data[2], data[3]];
            assert(buf@ =~= data@.subrange(0, 4));
            Some(buf)
        } else {
            self.read_len = 0;
            self.read_pos = 0;
            assert(self@.bytes =~= Seq::<u8>::empty());
            None
        }
    }

    /// Put the last packet handed out back, so the next read returns it again.
    pub fn unread(&mut self)
        requires
            old(self).wf(),
        ensures
            final(self).wf(),
            final(self)@ == after_unread(old(self)@),
    {
        if self.read_pos >= 4 {
            self.read_pos -= 4;
        }
    }
}

/// Putting back a packet just handed out restores the buffer, and the next
/// read hands out the same packet again.
pub proof fn lemma_unread_undoes_take(v: ReaderState)
    requires
        reader_wf(v),
        has_buffered(v),
    ensures
        after_unread(after_take(v)) == v,
        has_buffered(after_unread(after_take(v))),
        next_packet(after_unread(after_take(v))) == next_packet(v),
{
}

/// After a transfer of at least one packet, putting back the packet handed
/// out makes it the next packet read.
pub proof fn lemma_unread_after_load(data: Seq<u8>, n: int)
    requires
        data.len() == READ_BUF_LEN,
        4 <= n <= READ_BUF_LEN,
    ensures
        after_unread(after_load(data, n)).pos == 0,
        has_buffered(after_unread(after_load(data, n))),
        next_packet(after_unread(after_load(data, n))) == data.subrange(0, 4),
{
    assert(next_packet(after_unread(after_load(data, n))) =~= data.subrange(0, 4));
}

} // verus!
