use vstd::prelude::*;

use crate::panel::{PanelBitmap, PANEL_BYTES};

verus! {

/// Maximum payload bytes carried by one bitmap-chunk report.
pub const CHUNK_SIZE: usize = 24;

/// Header bytes before the payload: report kind, command, offset (2 bytes,
/// little-endian), length (2 bytes, little-endian), panel selector.
pub const HEADER_LEN: usize = 7;

/// Chunks per 512-byte panel: 21 full 24-byte chunks and a final 8-byte one.
pub const CHUNKS_PER_PANEL: usize = 22;

/// Command byte of a bitmap-chunk report.
pub const COMMAND_BITMAP_CHUNK: u8 = 1;

/// Command byte of the commit report that makes the device render the
/// freshly transmitted buffer.
pub const COMMAND_COMMIT: u8 = 2;

/// Which physical half of the display a chunk is destined for.
#[derive(Clone, Copy, Debug, PartialEq, Eq, Structural)]
pub enum Side {
    Left,
    Right,
}

impl Side {
    /// The wire value of the panel-selector header field.
    pub open spec fn selector_spec(self) -> u8 {
        if self is Left {
            1
        } else {
            0
        }
    }

    pub fn selector(self) -> (s: u8)
        ensures
            s == self.selector_spec(),
    {
        match self {
            Side::Left => 1,
            Side::Right => 0,
        }
    }
}

/// One HID report: header fields plus the payload chunk. Constructed per
/// chunk, written immediately, and discarded.
pub struct ReportPacket {
    pub command: u8,
    pub offset: u16,
    pub length: u16,
    pub panel_selector: u8,
    pub payload: Vec<u8>,
}

/// The 7 header bytes of a report: a leading zero report-kind byte, the
/// command, the offset and length as little-endian 16-bit values, and the
/// panel selector.
pub open spec fn header_bytes(command: u8, offset: u16, length: u16, selector: u8) -> Seq<u8> {
    seq![
        0u8,
        command,
        (offset % 256) as u8,
        (offset / 256) as u8,
        (length % 256) as u8,
        (length / 256) as u8,
        selector,
    ]
}

impl ReportPacket {
    /// The length field is honest and no chunk exceeds the chunk size.
    pub open spec fn wf(&self) -> bool {
        &&& self.payload@.len() == self.length
        &&& self.length <= CHUNK_SIZE
    }

    /// The packet's wire form: header, then the payload verbatim.
    pub open spec fn encoding(&self) -> Seq<u8> {
        header_bytes(self.command, self.offset, self.length, self.panel_selector) + self.payload@
    }

    /// Serializes the packet for one transport write.
    pub fn encode(&self) -> (r: Vec<u8>)
        ensures
            r@ == self.encoding(),
    {
        let mut r: Vec<u8> = Vec::new();
        r.push(0);
        r.push(self.command);
        r.push((self.offset % 256) as u8);
        r.push((self.offset / 256) as u8);
        r.push((self.length % 256) as u8);
        r.push((self.length / 256) as u8);
        r.push(self.panel_selector);
        let mut j: usize = 0;
        while j < self.payload.len()
            invariant
                j <= self.payload@.len(),
                r@.len() == HEADER_LEN + j,
                r@.subrange(0, HEADER_LEN as int) == header_bytes(
                    self.command,
                    self.offset,
                    self.length,
                    self.panel_selector,
                ),
                forall|t: int| 0 <= t < j ==> r@[HEADER_LEN + t] == self.payload@[t],
            decreases self.payload@.len() - j,
        {
            r.push(self.payload[j]);
            j = j + 1;
        }
        proof {
            assert(r@ =~= self.encoding());
        }
        r
    }
}

/// Payload bytes of chunk `i`: 24 for every chunk but the last, which takes
/// the 8-byte remainder of the 512-byte panel.
pub open spec fn chunk_len(i: int) -> int {
    if i < CHUNKS_PER_PANEL - 1 {
        CHUNK_SIZE as int
    } else {
        PANEL_BYTES - (CHUNKS_PER_PANEL - 1) * CHUNK_SIZE
    }
}

/// What the framer promises of chunk `i` of a panel with contents `panel`
/// destined for `side`: command, nominal offset `24 * i`, honest length,
/// selector, and the payload copied verbatim from the panel.
pub open spec fn is_chunk_packet(p: ReportPacket, panel: Seq<u8>, side: Side, i: int) -> bool {
    &&& p.command == COMMAND_BITMAP_CHUNK
    &&& p.offset == CHUNK_SIZE * i
    &&& p.length == chunk_len(i)
    &&& p.panel_selector == side.selector_spec()
    &&& p.payload@ == panel.subrange(CHUNK_SIZE * i, CHUNK_SIZE * i + chunk_len(i))
}

/// Splits a packed panel into its ordered sequence of bitmap-chunk reports,
/// ascending offsets, no gaps. Pure: nothing is written here.
pub fn frame(panel: &PanelBitmap, side: Side) -> (packets: Vec<ReportPacket>)
    requires
        panel.wf(),
    ensures
        packets@.len() == CHUNKS_PER_PANEL,
        forall|i: int|
            0 <= i < CHUNKS_PER_PANEL ==> (#[trigger] packets@[i]).wf() && is_chunk_packet(
                packets@[i],
                panel@,
                side,
                i,
            ),
{
    let mut packets: Vec<ReportPacket> = Vec::new();
    let mut i: usize = 0;
    while i < CHUNKS_PER_PANEL
        invariant
            panel.wf(),
            i <= CHUNKS_PER_PANEL,
            packets@.len() == i,
            forall|k: int|
                0 <= k < i ==> (#[trigger] packets@[k]).wf() && is_chunk_packet(
                    packets@[k],
                    panel@,
                    side,
                    k,
                ),
        decreases CHUNKS_PER_PANEL - i,
    {
        let start = i * CHUNK_SIZE;
        let len = if i < CHUNKS_PER_PANEL - 1 {
            CHUNK_SIZE
        } else {
            PANEL_BYTES - (CHUNKS_PER_PANEL - 1) * CHUNK_SIZE
        };
        let mut payload: Vec<u8> = Vec::new();
        let mut j: usize = 0;
        while j < len
            invariant
                panel.wf(),
                i < CHUNKS_PER_PANEL,
                start == i * CHUNK_SIZE,
                len == chunk_len(i as int),
                start + len <= PANEL_BYTES,
                j <= len,
                payload@.len() == j,
                forall|t: int| 0 <= t < j ==> payload@[t] == panel@[start + t],
            decreases len - j,
        {
            payload.push(panel.byte_at(start + j));
            j = j + 1;
        }
        proof {
            assert(payload@ =~= panel@.subrange(
                CHUNK_SIZE * i as int,
                CHUNK_SIZE * i as int + chunk_len(i as int),
            ));
        }
        let packet = ReportPacket {
            command: COMMAND_BITMAP_CHUNK,
            offset: (start as u16),
            length: (len as u16),
            panel_selector: side.selector(),
            payload,
        };
        packets.push(packet);
        i = i + 1;
    }
    packets
}

/// The payloads of a packet sequence, concatenated in emission order.
pub open spec fn concat_payloads(packets: Seq<ReportPacket>) -> Seq<u8>
    decreases packets.len(),
{
    if packets.len() == 0 {
        Seq::empty()
    } else {
        concat_payloads(packets.drop_last()) + packets.last().payload@
    }
}

proof fn lemma_chunks_prefix(packets: Seq<ReportPacket>, panel: Seq<u8>, side: Side, k: int)
    requires
        panel.len() == PANEL_BYTES,
        packets.len() == CHUNKS_PER_PANEL,
        forall|i: int|
            0 <= i < CHUNKS_PER_PANEL ==> is_chunk_packet(#[trigger] packets[i], panel, side, i),
        0 <= k <= CHUNKS_PER_PANEL,
    ensures
        concat_payloads(packets.take(k)) == panel.subrange(
            0,
            if k < CHUNKS_PER_PANEL {
                CHUNK_SIZE * k
            } else {
                PANEL_BYTES as int
            },
        ),
    decreases k,
{
    let end: int = if k < CHUNKS_PER_PANEL {
        CHUNK_SIZE * k
    } else {
        PANEL_BYTES as int
    };
    if k == 0 {
        assert(packets.take(0) =~= Seq::<ReportPacket>::empty());
        assert(concat_payloads(packets.take(0)) =~= panel.subrange(0, 0));
    } else {
        lemma_chunks_prefix(packets, panel, side, k - 1);
        let prev_end: int = CHUNK_SIZE * (k - 1);
        assert(packets.take(k).drop_last() =~= packets.take(k - 1));
        assert(packets.take(k).last() == packets[k - 1]);
        assert(is_chunk_packet(packets[k - 1], panel, side, k - 1));
        assert(prev_end + chunk_len(k - 1) == end);
        assert(panel.subrange(0, prev_end) + panel.subrange(prev_end, end) =~= panel.subrange(
            0,
            end,
        ));
    }
}

/// Reassembly law: the concatenation of a panel's chunk payloads, in
/// emission order, is exactly the panel's 512 bytes.
pub proof fn lemma_chunks_reassemble(packets: Seq<ReportPacket>, panel: Seq<u8>, side: Side)
    requires
        panel.len() == PANEL_BYTES,
        packets.len() == CHUNKS_PER_PANEL,
        forall|i: int|
            0 <= i < CHUNKS_PER_PANEL ==> is_chunk_packet(#[trigger] packets[i], panel, side, i),
    ensures
        concat_payloads(packets) == panel,
{
    lemma_chunks_prefix(packets, panel, side, CHUNKS_PER_PANEL as int);
    assert(packets.take(CHUNKS_PER_PANEL as int) =~= packets);
    assert(panel.subrange(0, PANEL_BYTES as int) =~= panel);
}

} // verus!
