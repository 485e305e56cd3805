use rustboard::stream::{
    fill_buffers, sample_to_le_bytes, Chunk, DataBuf, FillStatus, PlayBuf, CHAN_SIZE, DEFAULT_CHANNELS,
    DEFAULT_RATE,
};

fn block(len: usize, fill: u8) -> DataBuf {
    DataBuf { bytes: Some(vec![fill; len]), chunk: Chunk { offset: 7, stride: 9, size: 11 } }
}

fn le(samples: &[i16]) -> Vec<u8> {
    samples.iter().flat_map(|v| v.to_le_bytes()).collect()
}

#[test]
fn constants() {
    assert_eq!(DEFAULT_RATE, 44100);
    assert_eq!(DEFAULT_CHANNELS, 2);
    assert_eq!(CHAN_SIZE, std::mem::size_of::<i16>());
}

#[test]
fn sample_bytes_match_std() {
    for v in [0i16, 1, -1, 255, 256, -256, 0x1234, i16::MAX, i16::MIN, -12345] {
        let (lo, hi) = sample_to_le_bytes(v);
        assert_eq!([lo, hi], v.to_le_bytes(), "sample {}", v);
    }
}

#[test]
fn fill_copies_samples_from_cursor() {
    let samples: Vec<i16> = vec![1, -2, 300, -400, 5000, -6000];
    let mut cursor = 1usize;
    let mut datas = vec![block(6, 0xAA)];
    let status = fill_buffers(&samples, &mut cursor, &mut datas);
    assert_eq!(status, FillStatus::Filled);
    assert_eq!(datas[0].bytes.as_ref().unwrap(), &le(&samples[1..4]));
    assert_eq!(datas[0].chunk, Chunk { offset: 0, stride: 2, size: 6 });
    assert_eq!(cursor, 4);
}

#[test]
fn fill_near_the_end_keeps_old_bytes_behind_the_samples() {
    let samples: Vec<i16> = vec![10, 20, 30];
    let mut cursor = 2usize;
    let mut datas = vec![block(8, 0xAA)];
    let status = fill_buffers(&samples, &mut cursor, &mut datas);
    assert_eq!(status, FillStatus::Filled);
    let mut expected = le(&[30]);
    expected.extend_from_slice(&[0xAA; 6]);
    assert_eq!(datas[0].bytes.as_ref().unwrap(), &expected);
    assert_eq!(datas[0].chunk, Chunk { offset: 0, stride: 2, size: 8 });
    // the cursor advances by the block's frames, past the end of the sound
    assert_eq!(cursor, 6);
}

#[test]
fn fill_at_the_end_writes_no_samples() {
    let samples: Vec<i16> = vec![10, 20];
    let mut cursor = 2usize;
    let mut datas = vec![block(4, 0x55)];
    assert_eq!(fill_buffers(&samples, &mut cursor, &mut datas), FillStatus::Filled);
    assert_eq!(datas[0].bytes.as_ref().unwrap(), &vec![0x55u8; 4]);
    assert_eq!(datas[0].chunk, Chunk { offset: 0, stride: 2, size: 4 });
    assert_eq!(cursor, 4);
}

#[test]
fn past_the_end_silences_and_keeps_cursor() {
    let samples: Vec<i16> = vec![10, 20];
    let mut cursor = 3usize;
    let mut datas = vec![block(4, 0x55), DataBuf { bytes: None, chunk: Chunk { offset: 1, stride: 2, size: 3 } }];
    assert_eq!(fill_buffers(&samples, &mut cursor, &mut datas), FillStatus::Exhausted);
    assert_eq!(datas[0].bytes.as_ref().unwrap(), &vec![0u8; 4]);
    assert_eq!(datas[0].chunk, Chunk { offset: 7, stride: 9, size: 11 });
    assert!(datas[1].bytes.is_none());
    assert_eq!(datas[1].chunk, Chunk { offset: 1, stride: 2, size: 3 });
    assert_eq!(cursor, 3);
}

#[test]
fn every_block_starts_at_the_same_cursor_and_the_last_one_moves_it() {
    let samples: Vec<i16> = (0..20).map(|v| v * 100 - 900).collect();
    let mut cursor = 2usize;
    let mut datas = vec![block(4, 0), block(10, 0)];
    assert_eq!(fill_buffers(&samples, &mut cursor, &mut datas), FillStatus::Filled);
    assert_eq!(datas[0].bytes.as_ref().unwrap(), &le(&samples[2..4]));
    assert_eq!(datas[1].bytes.as_ref().unwrap(), &le(&samples[2..7]));
    assert_eq!(datas[0].chunk.size, 4);
    assert_eq!(datas[1].chunk.size, 10);
    assert_eq!(cursor, 7);
}

#[test]
fn unmapped_last_block_leaves_cursor() {
    let samples: Vec<i16> = vec![1, 2, 3, 4];
    let mut cursor = 0usize;
    let mut datas = vec![block(4, 0), DataBuf { bytes: None, chunk: Chunk { offset: 5, stride: 5, size: 5 } }];
    assert_eq!(fill_buffers(&samples, &mut cursor, &mut datas), FillStatus::Filled);
    assert_eq!(datas[0].bytes.as_ref().unwrap(), &le(&samples[0..2]));
    assert_eq!(datas[1].chunk, Chunk { offset: 0, stride: 2, size: 0 });
    assert_eq!(cursor, 0);
}

#[test]
fn odd_block_counts_whole_frames() {
    let samples: Vec<i16> = vec![-1, -2, -3];
    let mut cursor = 0usize;
    let mut datas = vec![block(5, 0xEE)];
    assert_eq!(fill_buffers(&samples, &mut cursor, &mut datas), FillStatus::Filled);
    let mut expected = le(&samples[0..2]);
    expected.push(0xEE);
    assert_eq!(datas[0].bytes.as_ref().unwrap(), &expected);
    assert_eq!(datas[0].chunk.size, 4);
    assert_eq!(cursor, 2);
}

#[test]
fn empty_buffer_changes_nothing() {
    let samples: Vec<i16> = vec![1];
    let mut cursor = 0usize;
    let mut datas: Vec<DataBuf> = Vec::new();
    assert_eq!(fill_buffers(&samples, &mut cursor, &mut datas), FillStatus::Filled);
    assert_eq!(cursor, 0);
}

#[test]
fn consecutive_fills_play_the_sound_in_order() {
    let samples: Vec<i16> = (0..11).map(|v| (v * 3001 - 15000) as i16).collect();
    let mut cursor = 0usize;
    let mut played: Vec<u8> = Vec::new();
    let mut status = FillStatus::Filled;
    let mut calls = 0;
    while status == FillStatus::Filled {
        let before = cursor;
        let mut datas = vec![block(8, 0)];
        status = fill_buffers(&samples, &mut cursor, &mut datas);
        if status == FillStatus::Filled {
            let written = 2 * (samples.len().min(before + 4) - before);
            played.extend_from_slice(&datas[0].bytes.as_ref().unwrap()[..written]);
        } else {
            assert_eq!(datas[0].bytes.as_ref().unwrap(), &vec![0u8; 8]);
        }
        calls += 1;
    }
    assert_eq!(played, le(&samples));
    assert_eq!(calls, 4);
    assert_eq!(cursor, 12);
}

#[test]
fn play_buf_clones() {
    let p = PlayBuf { target: "t".to_string(), buf: vec![1, 2] };
    let q = p.clone();
    assert_eq!(q.target, "t");
    assert_eq!(q.buf, vec![1, 2]);
}
