use vstd::prelude::*;

use crate::luma::{LumaBuffer, IMAGE_HEIGHT, IMAGE_WIDTH};

verus! {

/// Bytes in one packed panel bitmap: 128 byte-columns of 4 bytes each.
pub const PANEL_BYTES: usize = 512;

/// Pixel rows covered by one panel.
pub const PANEL_ROWS: usize = 32;

/// First source row packed into the left panel.
pub const LEFT_BASE_ROW: usize = 0;

/// First source row packed into the right panel.
pub const RIGHT_BASE_ROW: usize = 32;

/// Whether bit `b` (0 = least significant) of `v` is set.
pub open spec fn nth_bit(v: u8, b: u8) -> bool {
    (v >> b) & 1 == 1
}

/// The contribution of pixel `(i % 128, base_row + (i / 128) * 8 + b)` to
/// byte `i` of a panel: `1 << b` when the pixel is lit, else 0.
pub open spec fn on_bit(luma: &LumaBuffer, base_row: int, i: int, b: u8) -> u8 {
    if luma.pixel_on(i % 128, base_row + (i / 128) * 8 + b) {
        1u8 << b
    } else {
        0u8
    }
}

/// Byte `i` of the panel whose source rows start at `base_row`: 8 vertically
/// adjacent pixels of byte-column `i % 128`, least significant bit topmost.
pub open spec fn packed_byte(luma: &LumaBuffer, base_row: int, i: int) -> u8 {
    on_bit(luma, base_row, i, 0) | on_bit(luma, base_row, i, 1) | on_bit(luma, base_row, i, 2)
        | on_bit(luma, base_row, i, 3) | on_bit(luma, base_row, i, 4)
        | on_bit(luma, base_row, i, 5) | on_bit(luma, base_row, i, 6)
        | on_bit(luma, base_row, i, 7)
}

/// The packed form of the 32 source rows starting at `base_row`.
pub open spec fn packed_panel(luma: &LumaBuffer, base_row: int) -> Seq<u8> {
    Seq::new(PANEL_BYTES as nat, |i: int| packed_byte(luma, base_row, i))
}

/// The packing rule, bit by bit: byte `i`, bit `b` of the panel shows pixel
/// `(i % 128, base_row + (i / 128) * 8 + b)` of the source.
pub open spec fn panel_packs(panel: Seq<u8>, luma: &LumaBuffer, base_row: int) -> bool {
    &&& panel.len() == PANEL_BYTES
    &&& forall|i: int, b: u8|
        0 <= i < PANEL_BYTES && b < 8 ==> #[trigger] nth_bit(panel[i], b) == luma.pixel_on(
            i % 128,
            base_row + (i / 128) * 8 + b,
        )
}

proof fn lemma_zero_bit(j: u8)
    by (bit_vector)
    ensures
        !nth_bit(0u8, j),
{
}

proof fn lemma_or_sets_bit(v: u8, b: u8, j: u8)
    by (bit_vector)
    requires
        b < 8,
        j < 8,
    ensures
        nth_bit(v | (1u8 << b), j) == (nth_bit(v, j) || j == b),
{
}

/// Two bytes that agree on all eight bits are equal.
pub proof fn lemma_bits_determine_byte(v: u8, w: u8)
    requires
        forall|b: u8| b < 8 ==> #[trigger] nth_bit(v, b) == nth_bit(w, b),
    ensures
        v == w,
{
    assert(nth_bit(v, 0) == nth_bit(w, 0));
    assert(nth_bit(v, 1) == nth_bit(w, 1));
    assert(nth_bit(v, 2) == nth_bit(w, 2));
    assert(nth_bit(v, 3) == nth_bit(w, 3));
    assert(nth_bit(v, 4) == nth_bit(w, 4));
    assert(nth_bit(v, 5) == nth_bit(w, 5));
    assert(nth_bit(v, 6) == nth_bit(w, 6));
    assert(nth_bit(v, 7) == nth_bit(w, 7));
    assert((nth_bit(v, 0) == nth_bit(w, 0) && nth_bit(v, 1) == nth_bit(w, 1) && nth_bit(v, 2)
        == nth_bit(w, 2) && nth_bit(v, 3) == nth_bit(w, 3) && nth_bit(v, 4) == nth_bit(w, 4)
        && nth_bit(v, 5) == nth_bit(w, 5) && nth_bit(v, 6) == nth_bit(w, 6) && nth_bit(v, 7)
        == nth_bit(w, 7)) ==> v == w) by (bit_vector);
}

/// Bit `b` of a packed byte is exactly the thresholded pixel it packs.
pub proof fn lemma_packed_byte_bits(luma: &LumaBuffer, base_row: int, i: int, b: u8)
    requires
        b < 8,
    ensures
        nth_bit(packed_byte(luma, base_row, i), b) == luma.pixel_on(
            i % 128,
            base_row + (i / 128) * 8 + b,
        ),
{
    let t0 = on_bit(luma, base_row, i, 0);
    let t1 = on_bit(luma, base_row, i, 1);
    let t2 = on_bit(luma, base_row, i, 2);
    let t3 = on_bit(luma, base_row, i, 3);
    let t4 = on_bit(luma, base_row, i, 4);
    let t5 = on_bit(luma, base_row, i, 5);
    let t6 = on_bit(luma, base_row, i, 6);
    let t7 = on_bit(luma, base_row, i, 7);
    assert((1u8 << 0) == 1 && (1u8 << 1) == 2 && (1u8 << 2) == 4 && (1u8 << 3) == 8 && (1u8 << 4)
        == 16 && (1u8 << 5) == 32 && (1u8 << 6) == 64 && (1u8 << 7) == 128) by (bit_vector);
    assert(nth_bit(t0 | t1 | t2 | t3 | t4 | t5 | t6 | t7, b) == ((b == 0 && t0 != 0) || (b == 1
        && t1 != 0) || (b == 2 && t2 != 0) || (b == 3 && t3 != 0) || (b == 4 && t4 != 0) || (b == 5
        && t5 != 0) || (b == 6 && t6 != 0) || (b == 7 && t7 != 0))) by (bit_vector)
        requires
            (t0 == 0 || t0 == 1) && (t1 == 0 || t1 == 2) && (t2 == 0 || t2 == 4) && (t3 == 0 || t3
                == 8) && (t4 == 0 || t4 == 16) && (t5 == 0 || t5 == 32) && (t6 == 0 || t6 == 64)
                && (t7 == 0 || t7 == 128) && b < 8,
    ;
}

/// The packed panel obeys the bit-by-bit packing rule.
pub proof fn lemma_packed_panel_packs(luma: &LumaBuffer, base_row: int)
    ensures
        panel_packs(packed_panel(luma, base_row), luma, base_row),
{
    let panel = packed_panel(luma, base_row);
    assert forall|i: int, b: u8| 0 <= i < PANEL_BYTES && b < 8 implies #[trigger] nth_bit(
        panel[i],
        b,
    ) == luma.pixel_on(i % 128, base_row + (i / 128) * 8 + b) by {
        lemma_packed_byte_bits(luma, base_row, i, b);
    }
}

/// The addressing rule as the wire format states it: pixel `(x, y)` of a
/// panel's local 0..32 row range lands in byte `x + (y / 8) * 128`, bit
/// `y % 8`.
pub proof fn lemma_pixel_addressing(panel: Seq<u8>, luma: &LumaBuffer, base_row: int, x: int, y: int)
    requires
        panel_packs(panel, luma, base_row),
        0 <= x < 128,
        0 <= y < 32,
    ensures
        nth_bit(panel[x + (y / 8) * 128], (y % 8) as u8) == luma.pixel_on(x, base_row + y),
{
    let i = x + (y / 8) * 128;
    assert(0 <= y / 8 < 4 && y / 8 * 8 + y % 8 == y && 0 <= y % 8 < 8);
    assert(i % 128 == x && i / 128 == y / 8) by (nonlinear_arith)
        requires
            0 <= x < 128,
            0 <= y / 8 < 4,
            i == x + (y / 8) * 128,
    ;
    let b = (y % 8) as u8;
    assert(nth_bit(panel[i], b) == luma.pixel_on(i % 128, base_row + (i / 128) * 8 + b));
}

/// One physical half of the display: exactly 512 bytes, 128 byte-columns of
/// 4 bytes, each byte packing 8 vertically adjacent pixels. Read-only once
/// packing has returned it.
pub struct PanelBitmap {
    bytes: Vec<u8>,
}

impl View for PanelBitmap {
    type V = Seq<u8>;

    closed spec fn view(&self) -> Seq<u8> {
        self.bytes@
    }
}

impl PanelBitmap {
    pub open spec fn wf(&self) -> bool {
        self@.len() == PANEL_BYTES
    }

    /// Wraps a byte vector; rejects any vector that is not exactly 512 bytes.
    pub fn from_bytes(bytes: Vec<u8>) -> (r: Option<PanelBitmap>)
        ensures
            match r {
                Some(p) => p.wf() && p@ == bytes@,
                None => bytes@.len() != PANEL_BYTES,
            },
    {
        if bytes.len() == PANEL_BYTES {
            Some(PanelBitmap { bytes })
        } else {
            None
        }
    }

    pub fn byte_at(&self, i: usize) -> (v: u8)
        requires
            self.wf(),
            i < PANEL_BYTES,
        ensures
            v == self@[i as int],
    {
        self.bytes[i]
    }

    pub fn len(&self) -> (n: usize)
        ensures
            n == self@.len(),
    {
        self.bytes.len()
    }
}

/// Packs the 32 source rows starting at `base_row` into one panel. Every
/// byte is rebuilt from zero, so no stale bit survives: each pixel's bit is
/// set or cleared unconditionally.
fn pack_panel(luma: &LumaBuffer, base_row: usize) -> (p: PanelBitmap)
    requires
        luma.wf(),
        base_row + PANEL_ROWS <= IMAGE_HEIGHT,
    ensures
        p.wf(),
        p@ == packed_panel(luma, base_row as int),
{
    let mut bytes: Vec<u8> = Vec::new();
    let mut i: usize = 0;
    while i < PANEL_BYTES
        invariant
            luma.wf(),
            base_row + PANEL_ROWS <= IMAGE_HEIGHT,
            i <= PANEL_BYTES,
            bytes@.len() == i,
            forall|k: int| 0 <= k < i ==> bytes@[k] == packed_byte(luma, base_row as int, k),
        decreases PANEL_BYTES - i,
    {
        let x = i % IMAGE_WIDTH;
        let grp = i / IMAGE_WIDTH;
        let mut v: u8 = 0;
        let mut b: u8 = 0;
        proof {
            assert forall|j: u8| j < 8 implies !nth_bit(0u8, j) by { lemma_zero_bit(j) }
        }
        while b < 8
            invariant
                luma.wf(),
                base_row + PANEL_ROWS <= IMAGE_HEIGHT,
                i < PANEL_BYTES,
                x == i % IMAGE_WIDTH,
                grp == i / IMAGE_WIDTH,
                b <= 8,
                forall|j: u8|
                    j < b ==> #[trigger] nth_bit(v, j) == luma.pixel_on(
                        i as int % 128,
                        base_row as int + (i as int / 128) * 8 + j,
                    ),
                forall|j: u8| b <= j < 8 ==> !#[trigger] nth_bit(v, j),
            decreases 8 - b,
        {
            let y = base_row + grp * 8 + (b as usize);
            if luma.sample(x, y) > 127 {
                let ghost v0 = v;
                v = v | (1u8 << b);
                proof {
                    assert forall|j: u8| j < 8 implies #[trigger] nth_bit(v, j) == (nth_bit(v0, j)
                        || j == b) by {
                        lemma_or_sets_bit(v0, b, j);
                    }
                }
            }
            b = b + 1;
        }
        proof {
            let pb = packed_byte(luma, base_row as int, i as int);
            assert forall|j: u8| j < 8 implies #[trigger] nth_bit(v, j) == nth_bit(pb, j) by {
                lemma_packed_byte_bits(luma, base_row as int, i as int, j);
            }
            lemma_bits_determine_byte(v, pb);
        }
        bytes.push(v);
        i = i + 1;
    }
    proof {
        assert(bytes@ =~= packed_panel(luma, base_row as int));
    }
    PanelBitmap { bytes }
}

/// Converts a 128x64 intensity buffer into the two packed panels: left
/// (source rows 0..32) and right (rows 32..64). Total over well-formed
/// input; both buffers are complete when the call returns.
pub fn pack(luma: &LumaBuffer) -> (r: (PanelBitmap, PanelBitmap))
    requires
        luma.wf(),
    ensures
        r.0.wf(),
        r.1.wf(),
        r.0@ == packed_panel(luma, LEFT_BASE_ROW as int),
        r.1@ == packed_panel(luma, RIGHT_BASE_ROW as int),
{
    let lhs = pack_panel(luma, LEFT_BASE_ROW);
    let rhs = pack_panel(luma, RIGHT_BASE_ROW);
    (lhs, rhs)
}

/// A source with every pixel dark packs to an all-zero panel.
pub proof fn lemma_pack_all_off(luma: &LumaBuffer, base_row: int)
    requires
        luma.wf(),
        0 <= base_row,
        base_row + PANEL_ROWS <= IMAGE_HEIGHT,
        forall|x: int, y: int| 0 <= x < 128 && 0 <= y < 64 ==> !#[trigger] luma.pixel_on(x, y),
    ensures
        forall|i: int| 0 <= i < PANEL_BYTES ==> #[trigger] packed_panel(luma, base_row)[i] == 0,
{
    assert forall|i: int| 0 <= i < PANEL_BYTES implies #[trigger] packed_panel(luma, base_row)[i]
        == 0 by {
        assert(0 <= i % 128 < 128 && 0 <= i / 128 <= 3);
        assert(packed_byte(luma, base_row, i) == 0u8 | 0u8 | 0u8 | 0u8 | 0u8 | 0u8 | 0u8 | 0u8);
        assert(0u8 | 0u8 | 0u8 | 0u8 | 0u8 | 0u8 | 0u8 | 0u8 == 0u8) by (bit_vector);
    }
}

/// A source with every pixel lit packs to an all-0xFF panel.
pub proof fn lemma_pack_all_on(luma: &LumaBuffer, base_row: int)
    requires
        luma.wf(),
        0 <= base_row,
        base_row + PANEL_ROWS <= IMAGE_HEIGHT,
        forall|x: int, y: int| 0 <= x < 128 && 0 <= y < 64 ==> #[trigger] luma.pixel_on(x, y),
    ensures
        forall|i: int| 0 <= i < PANEL_BYTES ==> #[trigger] packed_panel(luma, base_row)[i] == 0xFF,
{
    assert forall|i: int| 0 <= i < PANEL_BYTES implies #[trigger] packed_panel(luma, base_row)[i]
        == 0xFF by {
        assert(0 <= i % 128 < 128 && 0 <= i / 128 <= 3);
        assert(packed_byte(luma, base_row, i) == (1u8 << 0) | (1u8 << 1) | (1u8 << 2) | (1u8 << 3)
            | (1u8 << 4) | (1u8 << 5) | (1u8 << 6) | (1u8 << 7));
        assert((1u8 << 0) | (1u8 << 1) | (1u8 << 2) | (1u8 << 3) | (1u8 << 4) | (1u8 << 5) | (1u8
            << 6) | (1u8 << 7) == 0xFF) by (bit_vector);
    }
}

} // verus!
