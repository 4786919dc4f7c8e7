use opd::{
    norm_denominator, parse, parse_centroid, plan_frames, Frame, FrameMeta, Frames, FormatError,
    OpdHeader, OpdHeaderDirective, OpdHeaderDirectiveMeta, OpdHeaderDirectiveOrigin,
};

fn make_header(
    num_centroids: Option<usize>,
    num_points: Option<usize>,
    precision: usize,
    frames: Vec<FrameMeta>,
) -> OpdHeader {
    OpdHeader {
        version: String::from("1.0"),
        compressed: None,
        ty: String::from("opd"),
        directive: OpdHeaderDirective {
            version: String::from("1.0"),
            meta: OpdHeaderDirectiveMeta {
                project_id: String::from("p-1"),
                project_name: String::from("demo"),
            },
            num_centroids,
            has_centroid_volumes: None,
            num_points,
            origin: OpdHeaderDirectiveOrigin { x_bits: 0, y_bits: 0, z_bits: 0 },
            precision,
            scale_bits: [1.0f32.to_bits(), 1.0f32.to_bits(), 1.0f32.to_bits()],
            frames,
            index: None,
            sub_centroids: None,
            last_frame_corrected: None,
        },
    }
}

/// Magic tag, big-endian length prefix, `json` bytes, then `payload`.
fn make_buffer(json: &[u8], payload: &[u8]) -> Vec<u8> {
    let mut buf = Vec::new();
    buf.extend_from_slice(b".opd");
    buf.extend_from_slice(&(json.len() as u32).to_be_bytes());
    buf.extend_from_slice(json);
    buf.extend_from_slice(payload);
    buf
}

const JSON: &[u8] = b"{\"version\":\"1.0\"}";

#[test]
fn short_buffer_is_bad_magic() {
    let h = make_header(Some(0), None, 2, vec![]);
    assert_eq!(parse(&[], h), Err(FormatError::BadMagic));
    let h = make_header(Some(0), None, 2, vec![]);
    assert_eq!(parse(&[0x2e, 0x6f, 0x70, 0x64, 0, 0, 0], h), Err(FormatError::BadMagic));
}

#[test]
fn wrong_tag_is_bad_magic() {
    let h = make_header(Some(0), None, 2, vec![]);
    let mut buf = make_buffer(JSON, &[]);
    buf[0] = b'x';
    assert_eq!(parse(&buf, h), Err(FormatError::BadMagic));
}

#[test]
fn header_span_locates_json() {
    let buf = make_buffer(JSON, &[1, 2, 3]);
    let hs = opd::header_span(&buf).unwrap();
    assert_eq!(hs.json_start, 8);
    assert_eq!(hs.json_end, 8 + JSON.len());
    assert_eq!(&buf[hs.json_start..hs.json_end], JSON);
}

#[test]
fn header_length_past_end_is_truncated() {
    let mut buf = make_buffer(JSON, &[]);
    buf[7] = 0xff;
    let h = make_header(Some(0), None, 2, vec![]);
    assert_eq!(parse(&buf, h), Err(FormatError::Truncated));
}

#[test]
fn precision_three_is_invalid_header() {
    let buf = make_buffer(JSON, &[0; 16]);
    for p in [0usize, 3, 5, 7, 16] {
        let h = make_header(Some(1), None, p, vec![]);
        assert_eq!(parse(&buf, h), Err(FormatError::InvalidHeader));
    }
}

#[test]
fn missing_count_is_invalid_header() {
    let buf = make_buffer(JSON, &[0; 16]);
    let h = make_header(None, None, 2, vec![]);
    assert_eq!(parse(&buf, h), Err(FormatError::InvalidHeader));
}

#[test]
fn num_points_stands_in_for_num_centroids() {
    let buf = make_buffer(JSON, &[0; 16]);
    let h = make_header(None, Some(1), 2, vec![]);
    let (file, trailing) = parse(&buf, h).unwrap();
    assert_eq!(file.centroids.len(), 1);
    assert_eq!(trailing, 0);
}

#[test]
fn truncated_centroid_block() {
    // 17 bytes where two 16-byte records are declared.
    let buf = make_buffer(JSON, &[0xab; 17]);
    let h = make_header(Some(2), None, 2, vec![]);
    assert_eq!(parse(&buf, h), Err(FormatError::Truncated));
}

#[test]
fn centroid_fields_decode_big_endian() {
    let mut rec = Vec::new();
    rec.extend_from_slice(&7u32.to_be_bytes());
    rec.extend_from_slice(&1.0f32.to_bits().to_be_bytes());
    rec.extend_from_slice(&(-2.0f32).to_bits().to_be_bytes());
    rec.extend_from_slice(&0.5f32.to_bits().to_be_bytes());
    let c = parse_centroid(&rec, 0).unwrap();
    assert_eq!(c.parent_id, 7);
    assert_eq!(c.offset_bits, [1.0f32.to_bits(), (-2.0f32).to_bits(), 0.5f32.to_bits()]);
    assert_eq!(parse_centroid(&rec, 1), Err(FormatError::Truncated));
}

#[test]
fn misaligned_offset_reports_frame_and_offset() {
    // One centroid: block is 16 bytes; offset 19 is one byte past a sample
    // boundary at precision 2.
    let payload = [0u8; 22];
    let buf = make_buffer(JSON, &payload);
    let frames = vec![FrameMeta { time_bits: 0, offset: 16 }, FrameMeta {
        time_bits: 1,
        offset: 19,
    }];
    let h = make_header(Some(1), None, 2, frames);
    assert_eq!(
        parse(&buf, h),
        Err(FormatError::MisalignedOffset { frame: 1, offset: 19 })
    );
}

#[test]
fn offset_before_centroid_block_is_invalid_header() {
    let payload = [0u8; 22];
    let buf = make_buffer(JSON, &payload);
    let frames = vec![FrameMeta { time_bits: 0, offset: 14 }];
    let h = make_header(Some(1), None, 2, frames);
    assert_eq!(parse(&buf, h), Err(FormatError::InvalidHeader));
}

#[test]
fn inner_range_not_triple_is_invalid_frame_length() {
    // Ranges [0, 2) and [2, ...): two samples is not a multiple of three.
    let payload = [0u8; 16 + 12];
    let buf = make_buffer(JSON, &payload);
    let frames = vec![FrameMeta { time_bits: 0, offset: 16 }, FrameMeta {
        time_bits: 1,
        offset: 20,
    }];
    let h = make_header(Some(1), None, 2, frames);
    assert_eq!(parse(&buf, h), Err(FormatError::InvalidFrameLength { samples: 2 }));
}

#[test]
fn empty_final_range_is_invalid_frame_length() {
    // The single frame starts exactly at the end of the buffer.
    let payload = [0u8; 16];
    let buf = make_buffer(JSON, &payload);
    let frames = vec![FrameMeta { time_bits: 0, offset: 16 }];
    let h = make_header(Some(1), None, 2, frames);
    assert_eq!(parse(&buf, h), Err(FormatError::InvalidFrameLength { samples: 0 }));
}

#[test]
fn ragged_tail_is_trailing_bytes() {
    // Four bytes after the last frame's start at precision 1: one byte past
    // a whole triplet.
    let payload = [0u8; 16 + 4];
    let buf = make_buffer(JSON, &payload);
    let frames = vec![FrameMeta { time_bits: 0, offset: 16 }];
    let h = make_header(Some(1), None, 1, frames);
    assert_eq!(parse(&buf, h), Err(FormatError::TrailingBytes { extra: 1 }));
}

#[test]
fn frame_start_past_buffer_is_truncated() {
    let payload = [0u8; 16];
    let buf = make_buffer(JSON, &payload);
    let frames = vec![FrameMeta { time_bits: 0, offset: 64 }];
    let h = make_header(Some(1), None, 2, frames);
    assert_eq!(parse(&buf, h), Err(FormatError::Truncated));
}

#[test]
fn example_one_centroid_two_frames() {
    // Header: one centroid, precision 2, frame offsets 16 and 22; payload:
    // one 16-byte record, then three 16-bit samples per frame.
    let mut payload = Vec::new();
    payload.extend_from_slice(&3u32.to_be_bytes());
    payload.extend_from_slice(&0.25f32.to_bits().to_be_bytes());
    payload.extend_from_slice(&0.5f32.to_bits().to_be_bytes());
    payload.extend_from_slice(&0.75f32.to_bits().to_be_bytes());
    for v in [100i16, -200, 300, -1, 0, 32767] {
        payload.extend_from_slice(&v.to_be_bytes());
    }
    let buf = make_buffer(JSON, &payload);
    let frames = vec![
        FrameMeta { time_bits: 0.0f32.to_bits(), offset: 16 },
        FrameMeta { time_bits: 1.0f32.to_bits(), offset: 22 },
    ];
    let h = make_header(Some(1), None, 2, frames);
    let (file, trailing) = parse(&buf, h).unwrap();
    assert_eq!(trailing, 0);
    assert_eq!(file.centroids.len(), 1);
    assert_eq!(file.centroids[0].parent_id, 3);
    match &file.frames {
        Frames::I16(fs) => {
            assert_eq!(fs.len(), 2);
            assert_eq!(f32::from_bits(fs[0].time_bits), 0.0);
            assert_eq!(f32::from_bits(fs[1].time_bits), 1.0);
            assert_eq!(fs[0].data, vec![100, -200, 300]);
            assert_eq!(fs[1].data, vec![-1, 0, 32767]);
        },
        _ => panic!("precision 2 must decode as 16-bit frames"),
    }
}

#[test]
fn each_width_decodes_signed_big_endian() {
    // One triplet per width, single frame starting at the block's end.
    let h8 = make_header(Some(0), None, 1, vec![FrameMeta { time_bits: 0, offset: 0 }]);
    let buf8 = make_buffer(JSON, &[0xff, 0x00, 0x7f]);
    match parse(&buf8, h8).unwrap().0.frames {
        Frames::I8(fs) => assert_eq!(fs[0].data, vec![-1, 0, 127]),
        _ => panic!("wrong width"),
    }

    let h32 = make_header(Some(0), None, 4, vec![FrameMeta { time_bits: 0, offset: 0 }]);
    let mut p32 = Vec::new();
    for v in [-1i32, i32::MIN, i32::MAX] {
        p32.extend_from_slice(&v.to_be_bytes());
    }
    match parse(&make_buffer(JSON, &p32), h32).unwrap().0.frames {
        Frames::I32(fs) => assert_eq!(fs[0].data, vec![-1, i32::MIN, i32::MAX]),
        _ => panic!("wrong width"),
    }

    let h64 = make_header(Some(0), None, 8, vec![FrameMeta { time_bits: 0, offset: 0 }]);
    let mut p64 = Vec::new();
    for v in [i64::MIN, -2i64, i64::MAX] {
        p64.extend_from_slice(&v.to_be_bytes());
    }
    match parse(&make_buffer(JSON, &p64), h64).unwrap().0.frames {
        Frames::I64(fs) => assert_eq!(fs[0].data, vec![i64::MIN, -2, i64::MAX]),
        _ => panic!("wrong width"),
    }
}

#[test]
fn empty_frame_table_leaves_payload_unread() {
    let payload = [0u8; 16 + 10];
    let buf = make_buffer(JSON, &payload);
    let h = make_header(Some(1), None, 2, vec![]);
    let (file, trailing) = parse(&buf, h).unwrap();
    match file.frames {
        Frames::I16(fs) => assert_eq!(fs.len(), 0),
        _ => panic!("wrong width"),
    }
    assert_eq!(trailing, 10);
}

#[test]
fn plan_lengths_sum_to_total_samples() {
    // Two centroids (32 bytes), precision 4, three frames; the stream holds
    // 15 samples of 4 bytes.
    for p in [1usize, 2, 4, 8] {
        let metas = vec![
            FrameMeta { time_bits: 0, offset: 32 },
            FrameMeta { time_bits: 1, offset: 32 + 3 * p },
            FrameMeta { time_bits: 2, offset: 32 + 9 * p },
        ];
        let body_len = 15 * p;
        let spans = plan_frames(&metas, 32, p, body_len).unwrap();
        let total: usize = spans.iter().map(|s| s.count).sum();
        assert_eq!(spans[0].start + total, body_len / p);
        for s in &spans {
            assert_eq!(s.count % 3, 0);
            assert!(s.count > 0);
        }
        assert_eq!(total, 15);
    }
}

#[test]
fn round_trip_synthetic_container() {
    // Encode a synthetic container by hand, decode it, and compare every
    // field with the original.
    let centroids = [
        (4u32, [1.5f32, -0.25, 3.0]),
        (9u32, [0.0f32, 2.0, -8.5]),
    ];
    let samples: [[i16; 3]; 3] = [[10, -20, 30], [i16::MIN, 0, i16::MAX], [-3, -2, -1]];
    let mut payload = Vec::new();
    for (pid, xyz) in &centroids {
        payload.extend_from_slice(&pid.to_be_bytes());
        for c in xyz {
            payload.extend_from_slice(&c.to_bits().to_be_bytes());
        }
    }
    for triple in &samples {
        for v in triple {
            payload.extend_from_slice(&v.to_be_bytes());
        }
    }
    let buf = make_buffer(JSON, &payload);
    // Frame 0 holds two triplets, frame 1 the last one.
    let metas = vec![
        FrameMeta { time_bits: 0.0f32.to_bits(), offset: 32 },
        FrameMeta { time_bits: 0.5f32.to_bits(), offset: 32 + 12 },
    ];
    let h = make_header(Some(2), None, 2, metas.clone());
    let expected = make_header(Some(2), None, 2, metas);
    let (file, trailing) = parse(&buf, h).unwrap();
    assert_eq!(trailing, 0);
    assert_eq!(file.header, expected);
    assert_eq!(file.centroids.len(), 2);
    for (i, (pid, xyz)) in centroids.iter().enumerate() {
        assert_eq!(file.centroids[i].parent_id, *pid);
        assert_eq!(
            file.centroids[i].offset_bits,
            [xyz[0].to_bits(), xyz[1].to_bits(), xyz[2].to_bits()]
        );
    }
    match &file.frames {
        Frames::I16(fs) => {
            assert_eq!(fs.len(), 2);
            assert_eq!(fs[0].data, vec![10, -20, 30, i16::MIN, 0, i16::MAX]);
            assert_eq!(fs[1].data, vec![-3, -2, -1]);
        },
        _ => panic!("wrong width"),
    }
}

#[test]
fn normalization_maps_signed_max_to_one_and_zero_to_zero() {
    let d = norm_denominator(1);
    assert_eq!(d, 127);
    assert_eq!(127i8 as f32 / d as f32, 1.0);
    assert_eq!(0i8 as f32 / d as f32, 0.0);
    assert_eq!(norm_denominator(2), 32767);
    assert_eq!(norm_denominator(4), 0x7fff_ffff);
    assert_eq!(norm_denominator(8), 0x7fff_ffff_ffff_ffff);
}

#[test]
fn frame_iterator_walks_triplets_and_restarts() {
    let f = Frame { time_bits: 0, data: vec![1i16, 2, 3, 4, 5, 6] };
    let mut it = f.iter().unwrap();
    assert_eq!(it.next(), Some([1, 2, 3]));
    assert_eq!(it.next(), Some([4, 5, 6]));
    assert_eq!(it.next(), None);
    let mut again = f.iter().unwrap();
    assert_eq!(again.next(), Some([1, 2, 3]));
}

#[test]
fn frame_iterator_refuses_ragged_data() {
    let f = Frame { time_bits: 0, data: vec![1i8, 2, 3, 4] };
    match f.iter() {
        Err(FormatError::InvalidFrameLength { samples }) => assert_eq!(samples, 4),
        _ => panic!("a sample count off the triplet grid must be refused"),
    }
}
