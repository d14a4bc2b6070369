//! Chunks.

use oxideav_rtmp::chunk::{ChunkReader, ChunkWriter, Message};
use oxideav_rtmp::error::Error;

#[test]
fn chunk_roundtrip_short_message() {
    let buf = {
        let mut w = ChunkWriter::new(Vec::new());
        w.write_message(
            3,
            &Message {
                msg_type_id: 20,
                msg_stream_id: 0,
                timestamp: 12345,
                payload: b"hello world".to_vec(),
            },
        )
        .unwrap();
        std::mem::take(w.inner_mut())
    };
    let mut r = ChunkReader::new(buf.clone());
    let msg = r.read_message().unwrap();
    assert_eq!(msg.msg_type_id, 20);
    assert_eq!(msg.timestamp, 12345);
    assert_eq!(msg.payload, b"hello world");
}

#[test]
fn chunk_roundtrip_multi_chunk_message() {
    let payload: Vec<u8> = (0..4096u16).map(|i| (i & 0xFF) as u8).collect();
    let buf = {
        let mut w = ChunkWriter::new(Vec::new());
        w.set_chunk_size(128);
        w.write_message(
            3,
            &Message {
                msg_type_id: 9,
                msg_stream_id: 1,
                timestamp: 7000,
                payload: payload.clone(),
            },
        )
        .unwrap();
        std::mem::take(w.inner_mut())
    };
    let mut r = ChunkReader::new(buf.clone());
    r.set_chunk_size(128);
    let msg = r.read_message().unwrap();
    assert_eq!(msg.payload, payload);
    assert_eq!(msg.msg_type_id, 9);
    assert_eq!(msg.timestamp, 7000);
}

#[test]
fn received_bytes_counts_full_wire_size() {
    let buf = {
        let mut w = ChunkWriter::new(Vec::new());
        w.write_message(
            3,
            &Message {
                msg_type_id: 20,
                msg_stream_id: 0,
                timestamp: 1000,
                payload: b"abcdef".to_vec(),
            },
        )
        .unwrap();
        std::mem::take(w.inner_mut())
    };
    let wire_len = buf.len() as u32;
    let mut r = ChunkReader::new(buf.clone());
    assert_eq!(r.received_bytes(), 0);
    let _ = r.read_message().unwrap();
    assert_eq!(r.received_bytes(), wire_len);
}

#[test]
fn ack_not_due_without_window() {
    let buf = {
        let mut w = ChunkWriter::new(Vec::new());
        w.write_message(
            3,
            &Message {
                msg_type_id: 20,
                msg_stream_id: 0,
                timestamp: 0,
                payload: vec![0u8; 500],
            },
        )
        .unwrap();
        std::mem::take(w.inner_mut())
    };
    let mut r = ChunkReader::new(buf.clone());
    let _ = r.read_message().unwrap();
    assert_eq!(r.window_ack_size(), 0);
    assert_eq!(r.ack_due(), None);
}

#[test]
fn ack_due_fires_once_per_window() {
    let buf = {
        let mut w = ChunkWriter::new(Vec::new());
        for ts in [10u32, 20] {
            w.write_message(
                4,
                &Message {
                    msg_type_id: 8,
                    msg_stream_id: 1,
                    timestamp: ts,
                    payload: vec![0xAB; 200],
                },
            )
            .unwrap();
        }
        std::mem::take(w.inner_mut())
    };
    let mut r = ChunkReader::new(buf.clone());
    r.set_window_ack_size(150);
    assert_eq!(r.window_ack_size(), 150);

    let _ = r.read_message().unwrap();
    let first = r.ack_due().expect("first ack due after window crossed");
    assert_eq!(first, r.received_bytes());
    assert_eq!(r.ack_due(), None, "ack must not re-fire within a window");

    let _ = r.read_message().unwrap();
    let second = r.ack_due().expect("second ack due after second window");
    assert!(second > first);
    assert_eq!(second, r.received_bytes());
}

#[test]
fn set_window_rebases_accounting() {
    let buf = {
        let mut w = ChunkWriter::new(Vec::new());
        w.write_message(
            4,
            &Message {
                msg_type_id: 8,
                msg_stream_id: 1,
                timestamp: 0,
                payload: vec![0u8; 400],
            },
        )
        .unwrap();
        std::mem::take(w.inner_mut())
    };
    let mut r = ChunkReader::new(buf.clone());
    let _ = r.read_message().unwrap();
    r.set_window_ack_size(100);
    assert_eq!(r.ack_due(), None);
}

#[test]
fn abort_partial_discards_in_flight_message() {
    let payload: Vec<u8> = (0..200u16).map(|i| (i & 0xFF) as u8).collect();
    let full = {
        let mut w = ChunkWriter::new(Vec::new());
        w.set_chunk_size(128);
        w.write_message(
            5,
            &Message {
                msg_type_id: 9,
                msg_stream_id: 1,
                timestamp: 1000,
                payload: payload.clone(),
            },
        )
        .unwrap();
        std::mem::take(w.inner_mut())
    };
    let first_chunk = &full[..12 + 128];
    let mut r = ChunkReader::new(first_chunk.to_vec());
    r.set_chunk_size(128);
    let err = r.read_message().unwrap_err();
    assert!(matches!(err, Error::Io(_) | Error::UnexpectedEof));
    assert!(r.abort_partial(5), "first abort should discard 128 bytes");
    assert!(!r.abort_partial(5), "second abort has nothing to discard");
    assert!(!r.abort_partial(9));
}

fn msg(ty: u8, stream: u32, ts: u32, len: usize) -> Message {
    Message {
        msg_type_id: ty,
        msg_stream_id: stream,
        timestamp: ts,
        payload: vec![0xAA; len],
    }
}

fn roundtrip(msgs: &[(u32, Message)], chunk_size: Option<usize>) -> Vec<Message> {
    let buf = {
        let mut w = ChunkWriter::new(Vec::new());
        if let Some(cs) = chunk_size {
            w.set_chunk_size(cs);
        }
        for (csid, m) in msgs {
            w.write_message(*csid, m).unwrap();
        }
        std::mem::take(w.inner_mut())
    };
    let mut r = ChunkReader::new(buf.clone());
    if let Some(cs) = chunk_size {
        r.set_chunk_size(cs);
    }
    msgs.iter().map(|_| r.read_message().unwrap()).collect()
}

#[test]
fn constant_spacing_uses_fmt3_and_roundtrips() {
    let msgs: Vec<(u32, Message)> = vec![
        (5, msg(9, 1, 1000, 32)),
        (5, msg(9, 1, 2000, 32)),
        (5, msg(9, 1, 3000, 32)),
    ];
    let buf = {
        let mut w = ChunkWriter::new(Vec::new());
        for (csid, m) in &msgs {
            w.write_message(*csid, m).unwrap();
        }
        std::mem::take(w.inner_mut())
    };
    assert_eq!(buf[1 + 11 + 32], 0xC5);
    assert_eq!(buf[(1 + 11 + 32) + (1 + 32)], 0xC5);
    let mut r = ChunkReader::new(buf.clone());
    for (_, m) in &msgs {
        let got = r.read_message().unwrap();
        assert_eq!(got.timestamp, m.timestamp);
        assert_eq!(got.payload, m.payload);
    }
}

#[test]
fn same_timestamp_repeat_does_not_desync() {
    let got = roundtrip(&[(5, msg(9, 1, 1000, 32)), (5, msg(9, 1, 1000, 32))], None);
    assert_eq!(got[0].timestamp, 1000);
    assert_eq!(got[1].timestamp, 1000);
}

#[test]
fn ext_timestamp_multi_chunk_roundtrip() {
    let payload: Vec<u8> = (0..1000u16).map(|i| (i & 0xFF) as u8).collect();
    let m = Message {
        msg_type_id: 9,
        msg_stream_id: 1,
        timestamp: 0x0100_0000,
        payload: payload.clone(),
    };
    let got = roundtrip(&[(3, m)], Some(128));
    assert_eq!(got[0].timestamp, 0x0100_0000);
    assert_eq!(got[0].payload, payload);
}

#[test]
fn ext_timestamp_exact_boundary() {
    let buf = {
        let mut w = ChunkWriter::new(Vec::new());
        w.write_message(3, &msg(20, 0, 0x00FF_FFFF, 8)).unwrap();
        std::mem::take(w.inner_mut())
    };
    assert_eq!(&buf[1..4], &[0xFF, 0xFF, 0xFF]);
    assert_eq!(&buf[12..16], &[0x00, 0xFF, 0xFF, 0xFF]);
    let mut r = ChunkReader::new(buf.clone());
    assert_eq!(r.read_message().unwrap().timestamp, 0x00FF_FFFF);
}

#[test]
fn ext_delta_fmt2_then_fmt3_head_roundtrip() {
    let got = roundtrip(
        &[
            (5, msg(9, 1, 0, 16)),
            (5, msg(9, 1, 0x0100_0000, 16)),
            (5, msg(9, 1, 0x0200_0000, 16)),
        ],
        None,
    );
    assert_eq!(got[0].timestamp, 0);
    assert_eq!(got[1].timestamp, 0x0100_0000);
    assert_eq!(got[2].timestamp, 0x0200_0000);
}

#[test]
fn ext_delta_fmt1_roundtrip() {
    let got = roundtrip(
        &[(5, msg(9, 1, 100, 16)), (5, msg(8, 1, 0x0100_0064, 24))],
        None,
    );
    assert_eq!(got[1].timestamp, 0x0100_0064);
    assert_eq!(got[1].msg_type_id, 8);
}

#[test]
fn ext_delta_multi_chunk_roundtrip() {
    let payload: Vec<u8> = (0..600u16).map(|i| (i & 0xFF) as u8).collect();
    let m2 = Message {
        msg_type_id: 9,
        msg_stream_id: 1,
        timestamp: 0x0100_0000,
        payload: payload.clone(),
    };
    let got = roundtrip(&[(5, msg(9, 1, 0, 16)), (5, m2)], Some(128));
    assert_eq!(got[1].timestamp, 0x0100_0000);
    assert_eq!(got[1].payload, payload);
}

#[test]
fn multiplexed_message_streams_one_csid() {
    let got = roundtrip(
        &[
            (3, msg(8, 1, 500, 16)),
            (3, msg(8, 2, 400, 16)),
            (3, msg(8, 1, 600, 16)),
        ],
        None,
    );
    assert_eq!(
        got.iter()
            .map(|m| (m.msg_stream_id, m.timestamp))
            .collect::<Vec<_>>(),
        vec![(1, 500), (2, 400), (1, 600)]
    );
}

#[test]
fn interleaved_csids_chunk_by_chunk() {
    let wire_a = {
        let mut w = ChunkWriter::new(Vec::new());
        w.set_chunk_size(128);
        let payload: Vec<u8> = (0..200u16).map(|i| (i & 0xFF) as u8).collect();
        w.write_message(
            3,
            &Message {
                msg_type_id: 9,
                msg_stream_id: 1,
                timestamp: 10,
                payload,
            },
        )
        .unwrap();
        std::mem::take(w.inner_mut())
    };
    let wire_b = {
        let mut w = ChunkWriter::new(Vec::new());
        w.set_chunk_size(128);
        w.write_message(4, &msg(8, 1, 20, 16)).unwrap();
        std::mem::take(w.inner_mut())
    };
    let split = 12 + 128;
    let mut spliced = Vec::new();
    spliced.extend_from_slice(&wire_a[..split]);
    spliced.extend_from_slice(&wire_b);
    spliced.extend_from_slice(&wire_a[split..]);
    let mut r = ChunkReader::new(spliced.clone());
    r.set_chunk_size(128);
    let first = r.read_message().unwrap();
    assert_eq!(first.msg_type_id, 8, "csid-4 message completes first");
    assert_eq!(first.timestamp, 20);
    let second = r.read_message().unwrap();
    assert_eq!(second.msg_type_id, 9);
    assert_eq!(second.timestamp, 10);
    assert_eq!(second.payload.len(), 200);
}
