use vstd::prelude::*;

use crate::luma::LumaBuffer;
use crate::panel::{packed_panel, LEFT_BASE_ROW, RIGHT_BASE_ROW};
use crate::report::{
    chunk_len, frame, header_bytes, is_chunk_packet, ReportPacket, Side, CHUNKS_PER_PANEL,
    CHUNK_SIZE, COMMAND_BITMAP_CHUNK, COMMAND_COMMIT,
};
use crate::panel::pack;

verus! {

/// How many times each packet kind is written. Two firmware variants are
/// known: one expects each chunk duplicated and an explicit commit, the
/// other renders on the last chunk alone and takes no commit. Which one
/// matches a given keyboard is the caller's choice; nothing here guesses.
#[derive(Clone, Copy, Debug, PartialEq, Eq, Structural)]
pub struct ProtocolProfile {
    /// Times each bitmap-chunk report is written in immediate succession.
    pub chunk_writes: u8,
    /// Times the commit report is written after all chunks; zero means no
    /// commit packet is sent at all.
    pub commit_writes: u8,
}

impl ProtocolProfile {
    /// Every chunk written twice, then one explicit commit.
    pub fn duplicated_with_commit() -> (p: ProtocolProfile)
        ensures
            p.chunk_writes == 2,
            p.commit_writes == 1,
    {
        ProtocolProfile { chunk_writes: 2, commit_writes: 1 }
    }

    /// Every chunk written twice, no commit packet: the device renders when
    /// the last chunk arrives.
    pub fn duplicated_without_commit() -> (p: ProtocolProfile)
        ensures
            p.chunk_writes == 2,
            p.commit_writes == 0,
    {
        ProtocolProfile { chunk_writes: 2, commit_writes: 0 }
    }
}

/// The commit report's wire form: command 2, zero offset and length, no
/// panel selector semantics, no payload.
pub open spec fn commit_encoding() -> Seq<u8> {
    header_bytes(COMMAND_COMMIT, 0, 0, 0)
}

/// The commit report, which makes the device render the buffer it was just
/// sent.
pub fn commit_packet() -> (p: ReportPacket)
    ensures
        p.wf(),
        p.command == COMMAND_COMMIT,
        p.offset == 0,
        p.length == 0,
        p.panel_selector == 0,
        p.payload@ == Seq::<u8>::empty(),
        p.encoding() == commit_encoding(),
{
    let p = ReportPacket {
        command: COMMAND_COMMIT,
        offset: 0,
        length: 0,
        panel_selector: 0,
        payload: Vec::new(),
    };
    proof {
        assert(p.encoding() =~= commit_encoding());
    }
    p
}

/// The views of a vector of raw write buffers.
pub open spec fn write_views(w: Seq<Vec<u8>>) -> Seq<Seq<u8>> {
    w.map_values(|v: Vec<u8>| v@)
}

/// `n` successive writes of the same byte string.
pub open spec fn repeat_write(bytes: Seq<u8>, n: int) -> Seq<Seq<u8>>
    decreases n,
{
    if n <= 0 {
        Seq::empty()
    } else {
        repeat_write(bytes, n - 1).push(bytes)
    }
}

/// The chunk part of the write sequence: each packet's encoding, in packet
/// order, written `n` times in immediate succession.
pub open spec fn chunk_writes_seq(packets: Seq<ReportPacket>, n: int) -> Seq<Seq<u8>>
    decreases packets.len(),
{
    if packets.len() == 0 {
        Seq::empty()
    } else {
        chunk_writes_seq(packets.drop_last(), n) + repeat_write(packets.last().encoding(), n)
    }
}

/// Every raw transport write for one packet sequence under `profile`: the
/// chunk writes in order, then the commit writes.
pub open spec fn writes_seq(packets: Seq<ReportPacket>, profile: ProtocolProfile) -> Seq<Seq<u8>> {
    chunk_writes_seq(packets, profile.chunk_writes as int) + repeat_write(
        commit_encoding(),
        profile.commit_writes as int,
    )
}

proof fn lemma_repeat_write_props(bytes: Seq<u8>, n: int)
    requires
        0 <= n,
    ensures
        repeat_write(bytes, n).len() == n,
        forall|j: int| 0 <= j < n ==> #[trigger] repeat_write(bytes, n)[j] == bytes,
    decreases n,
{
    if n > 0 {
        lemma_repeat_write_props(bytes, n - 1);
    }
}

proof fn lemma_chunk_writes_len(packets: Seq<ReportPacket>, n: int)
    requires
        0 <= n,
    ensures
        chunk_writes_seq(packets, n).len() == packets.len() * n,
    decreases packets.len(),
{
    if packets.len() > 0 {
        lemma_chunk_writes_len(packets.drop_last(), n);
        lemma_repeat_write_props(packets.last().encoding(), n);
        assert((packets.len() - 1) * n + n == packets.len() * n) by (nonlinear_arith);
    }
}

proof fn lemma_chunk_writes_index(packets: Seq<ReportPacket>, n: int, i: int, r: int)
    requires
        0 <= n,
        0 <= i < packets.len(),
        0 <= r < n,
    ensures
        chunk_writes_seq(packets, n)[i * n + r] == packets[i].encoding(),
    decreases packets.len(),
{
    lemma_chunk_writes_len(packets.drop_last(), n);
    lemma_repeat_write_props(packets.last().encoding(), n);
    if i == packets.len() - 1 {
        assert(i * n + r - (packets.len() - 1) * n == r);
    } else {
        lemma_chunk_writes_index(packets.drop_last(), n, i, r);
        assert(i * n + r < (packets.len() - 1) * n) by (nonlinear_arith)
            requires
                0 <= i,
                i < packets.len() - 1,
                0 <= r < n,
        ;
    }
}

/// How many raw writes one packet sequence takes under `profile`.
pub proof fn lemma_write_count(packets: Seq<ReportPacket>, profile: ProtocolProfile)
    ensures
        writes_seq(packets, profile).len() == packets.len() * (profile.chunk_writes as int) + (
        profile.commit_writes as int),
{
    lemma_chunk_writes_len(packets, profile.chunk_writes as int);
    lemma_repeat_write_props(commit_encoding(), profile.commit_writes as int);
}

/// Duplication law: the writes numbered `i * chunk_writes` through
/// `i * chunk_writes + chunk_writes - 1` all carry chunk `i`'s encoding —
/// under the duplicating profiles, exactly two successive writes per
/// bitmap-chunk report, and nothing else carries it a third time.
pub proof fn lemma_chunk_duplication(
    packets: Seq<ReportPacket>,
    profile: ProtocolProfile,
    i: int,
    r: int,
)
    requires
        0 <= i < packets.len(),
        0 <= r < profile.chunk_writes,
    ensures
        writes_seq(packets, profile)[i * (profile.chunk_writes as int) + r] == packets[
            i
        ].encoding(),
{
    let n = profile.chunk_writes as int;
    lemma_chunk_writes_len(packets, n);
    lemma_chunk_writes_index(packets, n, i, r);
    assert(i * n + r < packets.len() * n) by (nonlinear_arith)
        requires
            0 <= i < packets.len(),
            0 <= r < n,
    ;
}

/// Commit law: the `commit_writes` writes after every chunk write carry the
/// commit report's encoding.
pub proof fn lemma_commit_position(packets: Seq<ReportPacket>, profile: ProtocolProfile, j: int)
    requires
        0 <= j < profile.commit_writes,
    ensures
        writes_seq(packets, profile)[packets.len() * (profile.chunk_writes as int) + j]
            == commit_encoding(),
{
    lemma_chunk_writes_len(packets, profile.chunk_writes as int);
    lemma_repeat_write_props(commit_encoding(), profile.commit_writes as int);
}

/// Serializes every transport write for `packets` under `profile`. The
/// transport itself lives outside this crate: the caller performs the
/// writes in this exact order, stops at the first failure, and surfaces
/// that failure; a partial transfer leaves the device's buffer undefined
/// and is not compensated for here.
pub fn plan_writes(packets: &Vec<ReportPacket>, profile: &ProtocolProfile) -> (w: Vec<Vec<u8>>)
    ensures
        write_views(w@) == writes_seq(packets@, *profile),
        w@.len() == packets@.len() * (profile.chunk_writes as int) + (profile.commit_writes as int),
{
    let ghost n = profile.chunk_writes as int;
    let mut w: Vec<Vec<u8>> = Vec::new();
    let mut i: usize = 0;
    proof {
        assert(write_views(w@) =~= chunk_writes_seq(packets@.take(0), n));
    }
    while i < packets.len()
        invariant
            i <= packets@.len(),
            n == profile.chunk_writes as int,
            write_views(w@) == chunk_writes_seq(packets@.take(i as int), n),
        decreases packets@.len() - i,
    {
        let mut r: u8 = 0;
        proof {
            assert(write_views(w@) =~= chunk_writes_seq(packets@.take(i as int), n) + repeat_write(
                packets@[i as int].encoding(),
                0,
            ));
        }
        while r < profile.chunk_writes
            invariant
                i < packets@.len(),
                n == profile.chunk_writes as int,
                r <= profile.chunk_writes,
                write_views(w@) == chunk_writes_seq(packets@.take(i as int), n) + repeat_write(
                    packets@[i as int].encoding(),
                    r as int,
                ),
            decreases profile.chunk_writes as int - r,
        {
            let ghost prev = write_views(w@);
            w.push(packets[i].encode());
            proof {
                assert(write_views(w@) =~= prev.push(packets@[i as int].encoding()));
                assert(prev.push(packets@[i as int].encoding()) =~= chunk_writes_seq(
                    packets@.take(i as int),
                    n,
                ) + repeat_write(packets@[i as int].encoding(), r as int + 1));
            }
            r = r + 1;
        }
        proof {
            assert(packets@.take(i as int + 1).drop_last() =~= packets@.take(i as int));
            assert(packets@.take(i as int + 1).last() == packets@[i as int]);
        }
        i = i + 1;
    }
    proof {
        assert(packets@.take(packets@.len() as int) =~= packets@);
    }
    let commit = commit_packet();
    let mut j: u8 = 0;
    proof {
        assert(write_views(w@) =~= chunk_writes_seq(packets@, n) + repeat_write(
            commit_encoding(),
            0,
        ));
    }
    while j < profile.commit_writes
        invariant
            n == profile.chunk_writes as int,
            j <= profile.commit_writes,
            commit.encoding() == commit_encoding(),
            write_views(w@) == chunk_writes_seq(packets@, n) + repeat_write(
                commit_encoding(),
                j as int,
            ),
        decreases profile.commit_writes as int - j,
    {
        let ghost prev = write_views(w@);
        w.push(commit.encode());
        proof {
            assert(write_views(w@) =~= prev.push(commit_encoding()));
            assert(prev.push(commit_encoding()) =~= chunk_writes_seq(packets@, n) + repeat_write(
                commit_encoding(),
                j as int + 1,
            ));
        }
        j = j + 1;
    }
    proof {
        lemma_write_count(packets@, *profile);
        assert(write_views(w@).len() == w@.len());
    }
    w
}

/// Chunk `i`'s wire form for a panel with contents `panel` on `side`.
pub open spec fn chunk_encoding(panel: Seq<u8>, side: Side, i: int) -> Seq<u8> {
    header_bytes(
        COMMAND_BITMAP_CHUNK,
        (CHUNK_SIZE * i) as u16,
        chunk_len(i) as u16,
        side.selector_spec(),
    ) + panel.subrange(CHUNK_SIZE * i, CHUNK_SIZE * i + chunk_len(i))
}

/// The first `k` chunks' writes for one panel, each `n` times in immediate
/// succession.
pub open spec fn panel_writes_upto(panel: Seq<u8>, side: Side, n: int, k: int) -> Seq<Seq<u8>>
    decreases k,
{
    if k <= 0 {
        Seq::empty()
    } else {
        panel_writes_upto(panel, side, n, k - 1) + repeat_write(
            chunk_encoding(panel, side, k - 1),
            n,
        )
    }
}

/// Every raw write that one frame takes under `profile`: the left panel's
/// 22 chunks, then the right panel's, each written `chunk_writes` times in
/// immediate succession, then the commit writes.
pub open spec fn frame_writes_seq(luma: &LumaBuffer, profile: ProtocolProfile) -> Seq<Seq<u8>> {
    panel_writes_upto(
        packed_panel(luma, LEFT_BASE_ROW as int),
        Side::Left,
        profile.chunk_writes as int,
        CHUNKS_PER_PANEL as int,
    ) + panel_writes_upto(
        packed_panel(luma, RIGHT_BASE_ROW as int),
        Side::Right,
        profile.chunk_writes as int,
        CHUNKS_PER_PANEL as int,
    ) + repeat_write(commit_encoding(), profile.commit_writes as int)
}

proof fn lemma_chunk_writes_concat(a: Seq<ReportPacket>, b: Seq<ReportPacket>, n: int)
    ensures
        chunk_writes_seq(a + b, n) == chunk_writes_seq(a, n) + chunk_writes_seq(b, n),
    decreases b.len(),
{
    if b.len() == 0 {
        assert(a + b =~= a);
        assert(chunk_writes_seq(a, n) + chunk_writes_seq(b, n) =~= chunk_writes_seq(a, n));
    } else {
        lemma_chunk_writes_concat(a, b.drop_last(), n);
        assert((a + b).drop_last() =~= a + b.drop_last());
        assert((a + b).last() == b.last());
        assert(chunk_writes_seq(a, n) + (chunk_writes_seq(b.drop_last(), n) + repeat_write(
            b.last().encoding(),
            n,
        )) =~= (chunk_writes_seq(a, n) + chunk_writes_seq(b.drop_last(), n)) + repeat_write(
            b.last().encoding(),
            n,
        ));
    }
}

proof fn lemma_frame_packets_writes(
    packets: Seq<ReportPacket>,
    panel: Seq<u8>,
    side: Side,
    n: int,
    k: int,
)
    requires
        packets.len() == CHUNKS_PER_PANEL,
        forall|i: int|
            0 <= i < CHUNKS_PER_PANEL ==> is_chunk_packet(#[trigger] packets[i], panel, side, i),
        0 <= n,
        0 <= k <= CHUNKS_PER_PANEL,
    ensures
        chunk_writes_seq(packets.take(k), n) == panel_writes_upto(panel, side, n, k),
    decreases k,
{
    if k == 0 {
        assert(packets.take(0) =~= Seq::<ReportPacket>::empty());
    } else {
        lemma_frame_packets_writes(packets, panel, side, n, k - 1);
        assert(packets.take(k).drop_last() =~= packets.take(k - 1));
        assert(packets.take(k).last() == packets[k - 1]);
        assert(is_chunk_packet(packets[k - 1], panel, side, k - 1));
        assert(0 <= CHUNK_SIZE * (k - 1) < 65536);
        assert(packets[k - 1].encoding() == chunk_encoding(panel, side, k - 1));
    }
}

proof fn lemma_panel_writes_upto_len(panel: Seq<u8>, side: Side, n: int, k: int)
    requires
        0 <= n,
        0 <= k,
    ensures
        panel_writes_upto(panel, side, n, k).len() == k * n,
    decreases k,
{
    if k > 0 {
        lemma_panel_writes_upto_len(panel, side, n, k - 1);
        lemma_repeat_write_props(chunk_encoding(panel, side, k - 1), n);
        assert(panel_writes_upto(panel, side, n, k) == panel_writes_upto(panel, side, n, k - 1)
            + repeat_write(chunk_encoding(panel, side, k - 1), n));
        assert(panel_writes_upto(panel, side, n, k).len() == (k - 1) * n + n);
        assert((k - 1) * n + n == k * n) by (nonlinear_arith);
    } else {
        assert(panel_writes_upto(panel, side, n, k).len() == 0);
        assert(k * n == 0) by (nonlinear_arith)
            requires
                k == 0,
        ;
    }
}

/// One frame takes `44 * chunk_writes + commit_writes` raw writes: 22
/// chunks for each of the two panels, each duplicated per the profile, and
/// the commit writes after them.
pub proof fn lemma_frame_write_count(luma: &LumaBuffer, profile: ProtocolProfile)
    ensures
        frame_writes_seq(luma, profile).len() == 2 * (CHUNKS_PER_PANEL as int) * (
        profile.chunk_writes as int) + (profile.commit_writes as int),
{
    let n = profile.chunk_writes as int;
    lemma_panel_writes_upto_len(
        packed_panel(luma, LEFT_BASE_ROW as int),
        Side::Left,
        n,
        CHUNKS_PER_PANEL as int,
    );
    lemma_panel_writes_upto_len(
        packed_panel(luma, RIGHT_BASE_ROW as int),
        Side::Right,
        n,
        CHUNKS_PER_PANEL as int,
    );
    lemma_repeat_write_props(commit_encoding(), profile.commit_writes as int);
}

/// Everything the transport must be told to display one frame: packs the
/// buffer, frames the left panel then the right in that fixed order, and
/// plans the raw writes under `profile`. The caller hands each buffer to
/// the transport in sequence order and stops at the first failure.
pub fn display_frame_writes(luma: &LumaBuffer, profile: &ProtocolProfile) -> (w: Vec<Vec<u8>>)
    requires
        luma.wf(),
    ensures
        write_views(w@) == frame_writes_seq(luma, *profile),
        w@.len() == 2 * (CHUNKS_PER_PANEL as int) * (profile.chunk_writes as int) + (
        profile.commit_writes as int),
{
    let (lhs, rhs) = pack(luma);
    let mut packets = frame(&lhs, Side::Left);
    let mut packets_right = frame(&rhs, Side::Right);
    let ghost pl = packets@;
    let ghost pr = packets_right@;
    packets.append(&mut packets_right);
    let w = plan_writes(&packets, profile);
    proof {
        let n = profile.chunk_writes as int;
        lemma_chunk_writes_concat(pl, pr, n);
        assert(pl.take(CHUNKS_PER_PANEL as int) =~= pl);
        assert(pr.take(CHUNKS_PER_PANEL as int) =~= pr);
        lemma_frame_packets_writes(pl, lhs@, Side::Left, n, CHUNKS_PER_PANEL as int);
        lemma_frame_packets_writes(pr, rhs@, Side::Right, n, CHUNKS_PER_PANEL as int);
        assert(writes_seq(pl + pr, *profile) =~= frame_writes_seq(luma, *profile));
        lemma_frame_write_count(luma, *profile);
    }
    w
}

} // verus!
