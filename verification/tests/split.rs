use prism::Packet;
use prism::PacketHeader;
use prism::Stats;
use prism::WriterAction;
use prism::shard_index;
use prism::split;
use prism::timeval;
use prism::writer_configs;
use prism::writer_step;

/// An Ethernet/IPv4 frame for the given address pair, with a marker byte in
/// the payload so frames can be told apart byte for byte.
fn frame(src: u32, dst: u32, marker: u8) -> Packet {
    let mut bytes = [0u8; 1500];
    bytes[12] = 0x08;
    bytes[13] = 0x00;
    bytes[26..30].copy_from_slice(&src.to_be_bytes());
    bytes[30..34].copy_from_slice(&dst.to_be_bytes());
    bytes[100] = marker;
    Packet {
        header: PacketHeader {
            ts: timeval { tv_sec: 7, tv_usec: 11 },
            caplen: 128,
            len: 128,
        },
        bytes,
    }
}

/// The same address pair behind an 802.1Q VLAN tag: the IPv4 header starts
/// at offset 18 instead of 14.
fn vlan_frame(src: u32, dst: u32, marker: u8) -> Packet {
    let mut bytes = [0u8; 1500];
    bytes[12] = 0x81;
    bytes[13] = 0x00;
    bytes[16] = 0x08;
    bytes[17] = 0x00;
    bytes[30..34].copy_from_slice(&src.to_be_bytes());
    bytes[34..38].copy_from_slice(&dst.to_be_bytes());
    bytes[100] = marker;
    Packet {
        header: PacketHeader {
            ts: timeval { tv_sec: 7, tv_usec: 11 },
            caplen: 128,
            len: 128,
        },
        bytes,
    }
}

fn same_packet(a: &Packet, b: &Packet) -> bool {
    a.bytes[..] == b.bytes[..]
        && a.header.caplen == b.header.caplen
        && a.header.len == b.header.len
        && a.header.ts.tv_sec == b.header.ts.tv_sec
        && a.header.ts.tv_usec == b.header.ts.tv_usec
}

const FLOW_A: (u32, u32) = (0x0A000001, 0x0A000002);
const FLOW_B: (u32, u32) = (0x0A000003, 0x0A000009);

#[test]
fn keeps_single_flow_together() {
    let mut frames = Vec::new();
    for i in 0..10u8 {
        if i % 2 == 0 {
            frames.push(frame(FLOW_A.0, FLOW_A.1, i));
        } else {
            frames.push(frame(FLOW_A.1, FLOW_A.0, i));
        }
    }
    let expected: Vec<Packet> = frames.clone();
    let (outputs, _stats) = split(frames, 2, 64);
    assert!(outputs[0].is_empty() || outputs[1].is_empty());
    assert_eq!(outputs[0].len() + outputs[1].len(), expected.len());
    let full = if outputs[0].is_empty() { &outputs[1] } else { &outputs[0] };
    for (got, want) in full.iter().zip(expected.iter()) {
        assert!(same_packet(got, want));
    }
}

#[test]
fn splits_many_flows() {
    let mut frames = Vec::new();
    for i in 0..10u8 {
        if i % 2 == 0 {
            frames.push(frame(FLOW_A.0, FLOW_A.1, i));
        } else {
            frames.push(frame(FLOW_B.0, FLOW_B.1, i));
        }
    }
    let total = frames.len();
    let (outputs, _stats) = split(frames, 2, 64);
    assert!(outputs[0].len() != 0);
    assert!(outputs[1].len() != 0);
    assert_eq!(outputs[0].len() + outputs[1].len(), total);
    // Each flow's frames are all in one file: markers of flow A are even.
    for p in outputs[0].iter() {
        assert!(p.bytes[100] % 2 == 0);
    }
    for p in outputs[1].iter() {
        assert!(p.bytes[100] % 2 == 1);
    }
}

#[test]
fn bidirectional_flow_shares_a_shard() {
    let f1 = frame(0xC0A80001, 0xC0A80002, 1);
    let f2 = frame(0xC0A80002, 0xC0A80001, 2);
    let (outputs, _stats) = split(vec![f1, f2], 2, 16);
    assert!(outputs[0].is_empty() || outputs[1].is_empty());
    let full = if outputs[0].is_empty() { &outputs[1] } else { &outputs[0] };
    assert_eq!(full.len(), 2);
    assert_eq!(full[0].bytes[100], 1);
    assert_eq!(full[1].bytes[100], 2);
}

#[test]
fn vlan_tag_does_not_change_the_shard() {
    let plain = frame(FLOW_A.0, FLOW_A.1, 1);
    let tagged = vlan_frame(FLOW_A.0, FLOW_A.1, 2);
    for n in 1..7usize {
        assert_eq!(shard_index(&plain.bytes, n), shard_index(&tagged.bytes, n));
    }
    let (outputs, _stats) = split(vec![plain, tagged], 2, 16);
    assert!(outputs[0].is_empty() || outputs[1].is_empty());
}

#[test]
fn conservation_under_backpressure() {
    // Rings of 4 slots hold 3 frames; 120 frames must still all come out.
    let mut frames = Vec::new();
    for i in 0..120u8 {
        if i % 2 == 0 {
            frames.push(frame(FLOW_A.0, FLOW_A.1, i));
        } else {
            frames.push(frame(FLOW_B.0, FLOW_B.1, i));
        }
    }
    let (outputs, stats) = split(frames, 2, 4);
    assert_eq!(outputs[0].len() + outputs[1].len(), 120);
    assert_eq!(outputs[0].len(), 60);
    assert_eq!(outputs[1].len(), 60);
    // Order per shard follows the input order.
    for out in outputs.iter() {
        for w in out.windows(2) {
            assert!(w[0].bytes[100] < w[1].bytes[100]);
        }
    }
    // Telemetry: every accepted frame was counted; the gauge saw a full ring.
    assert_eq!(stats[0].rx_frames, 60);
    assert_eq!(stats[1].rx_frames, 60);
    assert_eq!(stats[0].capacity, 0);
    assert_eq!(stats[1].capacity, 0);
}

#[test]
fn identical_runs_produce_identical_outputs() {
    let build = || {
        let mut frames = Vec::new();
        for i in 0..30u8 {
            match i % 3 {
                0 => frames.push(frame(FLOW_A.0, FLOW_A.1, i)),
                1 => frames.push(frame(FLOW_B.1, FLOW_B.0, i)),
                _ => frames.push(vlan_frame(FLOW_A.1, FLOW_A.0, i)),
            }
        }
        frames
    };
    let (out1, stats1) = split(build(), 3, 8);
    let (out2, stats2) = split(build(), 3, 8);
    assert_eq!(out1.len(), out2.len());
    for (a, b) in out1.iter().zip(out2.iter()) {
        assert_eq!(a.len(), b.len());
        for (x, y) in a.iter().zip(b.iter()) {
            assert!(same_packet(x, y));
        }
    }
    assert_eq!(stats1, stats2);
}

#[test]
fn telemetry_counts_match_routing() {
    let frames = vec![
        frame(FLOW_A.0, FLOW_A.1, 0),
        frame(FLOW_A.1, FLOW_A.0, 1),
        frame(FLOW_A.0, FLOW_A.1, 2),
    ];
    let (outputs, stats) = split(frames, 2, 8);
    // Flow A classifies to shard 0 here: three frames counted, none elsewhere.
    assert_eq!(outputs[0].len(), 3);
    assert_eq!(outputs[1].len(), 0);
    assert_eq!(stats[0], Stats { capacity: 4, rx_frames: 3 });
    assert_eq!(stats[1], Stats { capacity: 8, rx_frames: 0 });
}

#[test]
fn writer_configs_propagate_link_type() {
    let configs = writer_configs(1, 65535, 3);
    assert_eq!(configs.len(), 3);
    for c in configs.iter() {
        assert_eq!(*c, (1, 65535));
    }
}

#[test]
fn writer_step_decisions() {
    assert_eq!(writer_step(true, false), WriterAction::WriteFrame);
    assert_eq!(writer_step(true, true), WriterAction::WriteFrame);
    assert_eq!(writer_step(false, true), WriterAction::Exit);
    assert_eq!(writer_step(false, false), WriterAction::Sleep);
}
