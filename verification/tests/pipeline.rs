use shrekboard::luma::LumaBuffer;
use shrekboard::panel::{pack, PanelBitmap};
use shrekboard::playback::{PipelineError, PlaybackAction, PlaybackEvent, PlaybackLoop};
use shrekboard::report::{frame, ReportPacket, Side};
use shrekboard::writer::{commit_packet, display_frame_writes, plan_writes, ProtocolProfile};
use shrekboard::DeviceSelector;

fn luma_of(samples: Vec<u8>) -> LumaBuffer {
    LumaBuffer::from_samples(samples).unwrap()
}

#[test]
fn luma_rejects_wrong_size() {
    assert!(LumaBuffer::from_samples(vec![0u8; 100]).is_none());
    assert!(LumaBuffer::from_samples(vec![0u8; 128 * 64 - 1]).is_none());
    assert!(LumaBuffer::from_samples(vec![0u8; 128 * 64]).is_some());
}

#[test]
fn panel_rejects_wrong_size() {
    assert!(PanelBitmap::from_bytes(vec![0u8; 511]).is_none());
    assert!(PanelBitmap::from_bytes(vec![0u8; 513]).is_none());
    assert!(PanelBitmap::from_bytes(vec![0u8; 512]).is_some());
}

#[test]
fn pack_all_zero_gives_zero_panels() {
    let (lhs, rhs) = pack(&luma_of(vec![0u8; 128 * 64]));
    assert_eq!(lhs.len(), 512);
    assert_eq!(rhs.len(), 512);
    for i in 0..512 {
        assert_eq!(lhs.byte_at(i), 0x00);
        assert_eq!(rhs.byte_at(i), 0x00);
    }
}

#[test]
fn pack_all_bright_gives_full_panels() {
    let (lhs, rhs) = pack(&luma_of(vec![255u8; 128 * 64]));
    for i in 0..512 {
        assert_eq!(lhs.byte_at(i), 0xFF);
        assert_eq!(rhs.byte_at(i), 0xFF);
    }
}

#[test]
fn pack_threshold_is_strictly_above_127() {
    let (lhs, _) = pack(&luma_of(vec![127u8; 128 * 64]));
    assert_eq!(lhs.byte_at(0), 0x00);
    let (lhs, rhs) = pack(&luma_of(vec![128u8; 128 * 64]));
    assert_eq!(lhs.byte_at(511), 0xFF);
    assert_eq!(rhs.byte_at(0), 0xFF);
}

#[test]
fn pack_pixel_origin_sets_bit_zero_of_left_panel() {
    let mut samples = vec![0u8; 128 * 64];
    samples[0] = 255;
    let (lhs, rhs) = pack(&luma_of(samples));
    assert_eq!(lhs.byte_at(0), 0x01);
    for i in 1..512 {
        assert_eq!(lhs.byte_at(i), 0x00);
    }
    for i in 0..512 {
        assert_eq!(rhs.byte_at(i), 0x00);
    }
}

#[test]
fn pack_first_right_panel_row_sets_bit_zero_of_right_panel() {
    let mut samples = vec![0u8; 128 * 64];
    samples[32 * 128] = 255;
    let (lhs, rhs) = pack(&luma_of(samples));
    assert_eq!(rhs.byte_at(0), 0x01);
    for i in 1..512 {
        assert_eq!(rhs.byte_at(i), 0x00);
    }
    for i in 0..512 {
        assert_eq!(lhs.byte_at(i), 0x00);
    }
}

#[test]
fn pack_addressing_matches_column_and_bit() {
    // pixel (x = 5, y = 19): local row 19 of the left panel, so byte
    // 5 + (19 / 8) * 128 = 261, bit 19 % 8 = 3.
    let mut samples = vec![0u8; 128 * 64];
    samples[19 * 128 + 5] = 255;
    let (lhs, _) = pack(&luma_of(samples));
    assert_eq!(lhs.byte_at(261), 0x08);
    // pixel (x = 127, y = 63): local row 31 of the right panel, so byte
    // 127 + (31 / 8) * 128 = 511, bit 31 % 8 = 7.
    let mut samples = vec![0u8; 128 * 64];
    samples[63 * 128 + 127] = 255;
    let (_, rhs) = pack(&luma_of(samples));
    assert_eq!(rhs.byte_at(511), 0x80);
}

fn counting_panel() -> PanelBitmap {
    let mut bytes = Vec::new();
    for i in 0..512usize {
        bytes.push((i % 256) as u8);
    }
    PanelBitmap::from_bytes(bytes).unwrap()
}

#[test]
fn frame_yields_22_chunks_with_fixed_offsets_and_lengths() {
    let packets = frame(&counting_panel(), Side::Left);
    assert_eq!(packets.len(), 22);
    for (i, p) in packets.iter().enumerate() {
        assert_eq!(p.command, 1);
        assert_eq!(p.offset as usize, i * 24);
        if i < 21 {
            assert_eq!(p.length, 24);
        } else {
            assert_eq!(p.length, 8);
        }
        assert_eq!(p.payload.len(), p.length as usize);
        assert_eq!(p.panel_selector, 1);
    }
    let packets = frame(&counting_panel(), Side::Right);
    for p in packets.iter() {
        assert_eq!(p.panel_selector, 0);
    }
}

#[test]
fn frame_payloads_reassemble_the_panel() {
    let panel = counting_panel();
    let packets = frame(&panel, Side::Right);
    let mut rebuilt: Vec<u8> = Vec::new();
    for p in packets.iter() {
        rebuilt.extend_from_slice(&p.payload);
    }
    assert_eq!(rebuilt.len(), 512);
    for i in 0..512 {
        assert_eq!(rebuilt[i], panel.byte_at(i));
    }
}

#[test]
fn encode_lays_out_header_little_endian() {
    let p = ReportPacket {
        command: 1,
        offset: 0x1234,
        length: 3,
        panel_selector: 1,
        payload: vec![0xAA, 0xBB, 0xCC],
    };
    let bytes = p.encode();
    assert_eq!(bytes, vec![0x00, 0x01, 0x34, 0x12, 0x03, 0x00, 0x01, 0xAA, 0xBB, 0xCC]);
}

#[test]
fn commit_packet_encodes_to_bare_header() {
    let c = commit_packet();
    assert_eq!(c.command, 2);
    assert_eq!(c.encode(), vec![0x00, 0x02, 0x00, 0x00, 0x00, 0x00, 0x00]);
}

#[test]
fn plan_writes_duplicates_each_chunk_and_commits_once() {
    let packets = frame(&counting_panel(), Side::Left);
    let profile = ProtocolProfile::duplicated_with_commit();
    let writes = plan_writes(&packets, &profile);
    assert_eq!(writes.len(), 22 * 2 + 1);
    for i in 0..22 {
        let expected = packets[i].encode();
        assert_eq!(writes[2 * i], expected);
        assert_eq!(writes[2 * i + 1], expected);
    }
    assert_eq!(writes[44], vec![0x00, 0x02, 0x00, 0x00, 0x00, 0x00, 0x00]);
}

#[test]
fn plan_writes_can_omit_the_commit() {
    let packets = frame(&counting_panel(), Side::Left);
    let profile = ProtocolProfile::duplicated_without_commit();
    let writes = plan_writes(&packets, &profile);
    assert_eq!(writes.len(), 44);
    assert_eq!(*writes.last().unwrap(), packets[21].encode());
}

#[test]
fn dark_frame_produces_88_duplicated_zero_writes_and_a_commit() {
    let luma = luma_of(vec![0u8; 128 * 64]);
    let profile = ProtocolProfile::duplicated_with_commit();
    let writes = display_frame_writes(&luma, &profile);
    assert_eq!(writes.len(), 89);
    for i in 0..44 {
        // each chunk write appears twice in immediate succession
        assert_eq!(writes[2 * i], writes[2 * i + 1]);
        let w = &writes[2 * i];
        let chunk = i % 22;
        let expected_len = if chunk < 21 { 24 } else { 8 };
        assert_eq!(w.len(), 7 + expected_len);
        assert_eq!(w[0], 0x00);
        assert_eq!(w[1], 0x01);
        assert_eq!(w[2] as usize + 256 * w[3] as usize, chunk * 24);
        assert_eq!(w[4] as usize + 256 * w[5] as usize, expected_len);
        assert_eq!(w[6], if i < 22 { 1 } else { 0 });
        for b in &w[7..] {
            assert_eq!(*b, 0x00);
        }
    }
    assert_eq!(writes[88], vec![0x00, 0x02, 0x00, 0x00, 0x00, 0x00, 0x00]);
}

#[test]
fn playback_without_looping_stops_on_exhaustion() {
    let mut lp = PlaybackLoop::new(false);
    assert_eq!(
        lp.step(PlaybackEvent::FrameReady { delay_ms: 40 }),
        PlaybackAction::EmitThenWait { delay_ms: 40 }
    );
    assert_eq!(lp.step(PlaybackEvent::SourceExhausted), PlaybackAction::Stop);
    // no decode is ever requested again, whatever arrives
    assert_eq!(
        lp.step(PlaybackEvent::FrameReady { delay_ms: 10 }),
        PlaybackAction::Stop
    );
    assert_eq!(lp.step(PlaybackEvent::SourceExhausted), PlaybackAction::Stop);
}

#[test]
fn playback_with_looping_rewinds_and_keeps_running() {
    let mut lp = PlaybackLoop::new(true);
    assert_eq!(lp.step(PlaybackEvent::SourceExhausted), PlaybackAction::Rewind);
    assert_eq!(
        lp.step(PlaybackEvent::FrameReady { delay_ms: 16 }),
        PlaybackAction::EmitThenWait { delay_ms: 16 }
    );
    assert_eq!(lp.step(PlaybackEvent::SourceExhausted), PlaybackAction::Rewind);
}

#[test]
fn playback_stops_on_any_failure() {
    let mut lp = PlaybackLoop::new(true);
    assert_eq!(
        lp.step(PlaybackEvent::Failed { error: PipelineError::TransportError }),
        PlaybackAction::Stop
    );
    assert_eq!(
        lp.step(PlaybackEvent::FrameReady { delay_ms: 5 }),
        PlaybackAction::Stop
    );
    let mut lp = PlaybackLoop::new(false);
    assert_eq!(
        lp.step(PlaybackEvent::Failed { error: PipelineError::DecodeError }),
        PlaybackAction::Stop
    );
}

#[test]
fn device_selector_matches_exact_triple_only() {
    let sel = DeviceSelector::keyboard_default();
    assert!(sel.matches(0xFC32, 0x0287, 1));
    assert!(!sel.matches(0xFC32, 0x0287, 0));
    assert!(!sel.matches(0xFC32, 0x0288, 1));
    assert!(!sel.matches(0xFC31, 0x0287, 1));
}
