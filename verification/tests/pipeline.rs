use ambilight::blank::compute_vertical_blank_offset;
use ambilight::frame::Triplet;
use ambilight::layout::LayoutConfig;
use ambilight::payload::compute_serial_payload;
use ambilight::payload::encode_payload;
use ambilight::payload::EncodeError;
use ambilight::zones::check_frame_geometry;

const HEADER: [u8; 4] = [0xA1, 0xB2, 0xC3, 0xD4];
const FOOTER: [u8; 4] = [0x0F, 0x1E, 0x2D, 0x3C];

/// The 14-LED strip layout: 4 on top, 2 per side, 3 per bottom half.
fn cfg14() -> LayoutConfig {
    LayoutConfig {
        leds_top: 4,
        leds_left: 2,
        leds_right: 2,
        leds_bottom_left: 3,
        leds_bottom_right: 3,
        header: HEADER,
        footer: FOOTER,
    }
}

/// A frame buffer uniformly filled with one color, in BGRA byte order.
fn solid(width: usize, height: usize, rgb: (u8, u8, u8)) -> Vec<u8> {
    let mut buf = Vec::with_capacity(width * height * 4);
    for _ in 0..width * height {
        buf.push(rgb.2);
        buf.push(rgb.1);
        buf.push(rgb.0);
        buf.push(255);
    }
    buf
}

fn set_px(buf: &mut Vec<u8>, width: usize, row: usize, col: usize, rgb: (u8, u8, u8)) {
    let i = 4 * (row * width + col);
    buf[i] = rgb.2;
    buf[i + 1] = rgb.1;
    buf[i + 2] = rgb.0;
    buf[i + 3] = 255;
}

#[test]
fn blank_offset_of_letterboxed_frame() {
    // 64x64: the detector samples column 16 over the top 8 rows.
    let width = 64;
    let height = 64;
    let mut buf = solid(width, height, (0, 0, 0));
    for row in 3..height {
        set_px(&mut buf, width, row, 16, (10, 20, 30));
    }
    assert_eq!(compute_vertical_blank_offset(width, height, &buf), 3);
}

#[test]
fn blank_offset_of_unletterboxed_frame_is_zero() {
    let width = 64;
    let height = 64;
    let buf = solid(width, height, (7, 7, 7));
    assert_eq!(compute_vertical_blank_offset(width, height, &buf), 0);
}

#[test]
fn blank_offset_of_black_frame_is_an_eighth() {
    let width = 64;
    let height = 64;
    let buf = solid(width, height, (0, 0, 0));
    assert_eq!(compute_vertical_blank_offset(width, height, &buf), height / 8);
}

#[test]
fn blank_offset_uses_single_column_heuristic() {
    // Black only at the sampled column of an otherwise lit frame: the
    // single-scanline heuristic still reports letterbox bars.
    let width = 64;
    let height = 64;
    let mut buf = solid(width, height, (9, 9, 9));
    for row in 0..2 {
        set_px(&mut buf, width, row, 16, (0, 0, 0));
    }
    assert_eq!(compute_vertical_blank_offset(width, height, &buf), 2);
}

#[test]
fn payload_size_matches_layout() {
    let cfg = cfg14();
    let triplets = vec![Triplet { r: 0, g: 0, b: 0 }; 14];
    let payload = encode_payload(&cfg, &triplets).unwrap();
    assert_eq!(payload.len(), 8 + 3 * 14);

    let small = LayoutConfig {
        leds_top: 1,
        leds_left: 0,
        leds_right: 0,
        leds_bottom_left: 0,
        leds_bottom_right: 0,
        header: HEADER,
        footer: FOOTER,
    };
    let one = vec![Triplet { r: 1, g: 2, b: 3 }];
    let payload = encode_payload(&small, &one).unwrap();
    assert_eq!(payload.len(), 11);
    let mut expected = HEADER.to_vec();
    expected.extend_from_slice(&[1, 2, 3]);
    expected.extend_from_slice(&FOOTER);
    assert_eq!(payload, expected);
}

#[test]
fn encode_rejects_count_mismatch() {
    let cfg = cfg14();
    let triplets = vec![Triplet { r: 0, g: 0, b: 0 }; 13];
    assert_eq!(encode_payload(&cfg, &triplets), Err(EncodeError::CountMismatch));
}

#[test]
fn uniform_frame_yields_uniform_triplets() {
    let cfg = cfg14();
    let width = 100;
    let height = 60;
    let buf = solid(width, height, (200, 30, 90));
    assert!(check_frame_geometry(width, height, &cfg));
    let payload = compute_serial_payload(width, height, &buf, &cfg);
    assert_eq!(payload.len(), 50);
    for i in 0..14 {
        assert_eq!(payload[4 + 3 * i], 200);
        assert_eq!(payload[4 + 3 * i + 1], 30);
        assert_eq!(payload[4 + 3 * i + 2], 90);
    }
}

#[test]
fn end_to_end_mid_gray() {
    // 640x360, no letterbox, uniform mid-gray: every triplet is
    // (128,128,128), the payload is 50 bytes, markers are intact.
    let cfg = cfg14();
    let width = 640;
    let height = 360;
    let buf = solid(width, height, (128, 128, 128));
    assert!(check_frame_geometry(width, height, &cfg));
    let payload = compute_serial_payload(width, height, &buf, &cfg);
    assert_eq!(payload.len(), 50);
    assert_eq!(&payload[0..4], &HEADER);
    assert_eq!(&payload[46..50], &FOOTER);
    for i in 0..14 {
        assert_eq!(&payload[4 + 3 * i..4 + 3 * i + 3], &[128, 128, 128]);
    }
}

#[test]
fn segment_ordering_round_trip() {
    // 17x8 is the smallest geometry of the 14-LED layout whose five edge
    // segments sample disjoint pixels (depth 1, both pitches 2), so each
    // segment can carry its own flat color:
    //   bottom-right: row 7, cols 9..15   -> blue
    //   right:        rows 2..6, col 16   -> green
    //   top:          row 0, cols 7..15   -> red
    //   left:         rows 2..6, col 0    -> yellow
    //   bottom-left:  row 7, cols 2..8    -> cyan
    let cfg = cfg14();
    let width = 17;
    let height = 8;
    let red = (255, 0, 0);
    let green = (0, 255, 0);
    let blue = (0, 0, 255);
    let yellow = (255, 255, 0);
    let cyan = (0, 255, 255);
    let mut buf = solid(width, height, (0, 0, 0));
    for col in 9..15 {
        set_px(&mut buf, width, 7, col, blue);
    }
    for row in 2..6 {
        set_px(&mut buf, width, row, 16, green);
    }
    for col in 7..15 {
        set_px(&mut buf, width, 0, col, red);
    }
    // The blank detector samples column 4 of the top row; keep it lit so
    // no letterbox is reported.
    set_px(&mut buf, width, 0, 4, red);
    for row in 2..6 {
        set_px(&mut buf, width, row, 0, yellow);
    }
    for col in 2..8 {
        set_px(&mut buf, width, 7, col, cyan);
    }
    assert!(check_frame_geometry(width, height, &cfg));
    assert_eq!(compute_vertical_blank_offset(width, height, &buf), 0);
    let payload = compute_serial_payload(width, height, &buf, &cfg);
    assert_eq!(payload.len(), 50);
    assert_eq!(&payload[0..4], &HEADER);
    assert_eq!(&payload[46..50], &FOOTER);
    let mut expected: Vec<(u8, u8, u8)> = Vec::new();
    expected.extend([blue; 3]);
    expected.extend([green; 2]);
    expected.extend([red; 4]);
    expected.extend([yellow; 2]);
    expected.extend([cyan; 3]);
    for (i, rgb) in expected.iter().enumerate() {
        assert_eq!(&payload[4 + 3 * i..4 + 3 * i + 3], &[rgb.0, rgb.1, rgb.2]);
    }
}

#[test]
fn payload_stays_in_bounds_on_odd_geometries() {
    let cfg = cfg14();
    for (width, height) in [(17, 8), (31, 17), (100, 60), (123, 77), (640, 360), (1920, 1080)] {
        assert!(check_frame_geometry(width, height, &cfg), "{}x{}", width, height);
        let buf = solid(width, height, (1, 2, 3));
        let payload = compute_serial_payload(width, height, &buf, &cfg);
        assert_eq!(payload.len(), 50);
    }
}

#[test]
fn geometry_check_rejects_deep_zones() {
    // Extremely wide and flat: the sampling depth exceeds the height.
    let cfg = cfg14();
    assert!(!check_frame_geometry(10000, 8, &cfg));
}
