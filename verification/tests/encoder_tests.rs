use panel_driver::encoder::encode_command;
use panel_driver::encoder::encode_command_writes;
use panel_driver::encoder::encode_frame;
use panel_driver::encoder::FRAME_START_OUTPUT;
use panel_driver::encoder::IDLE_OUTPUT;
use panel_driver::encoder::SCL_BIT;
use panel_driver::encoder::SCS_BIT;
use panel_driver::encoder::SDA_BIT;

/// The panel's view of a write sequence: the data-line level at every rising
/// clock edge, starting from the register value `prev`.
fn sample_rising_edges(prev: u8, writes: &[u8]) -> Vec<bool> {
    let mut bits = Vec::new();
    let mut last = prev;
    for &w in writes {
        if last & SCL_BIT == 0 && w & SCL_BIT != 0 {
            bits.push(w & SDA_BIT != 0);
        }
        last = w;
    }
    bits
}

/// The nine bits a frame must clock out: mode bit, then the byte MSB first.
fn expected_bits(b: u8, is_command: bool) -> Vec<bool> {
    let mut bits = vec![!is_command];
    for i in (0..8).rev() {
        bits.push((b >> i) & 1 == 1);
    }
    bits
}

#[test]
fn frame_all_zero_command_exact_writes() {
    // Byte 0x00 as a command: every bit is 0, so the data line never moves
    // after the frame start and every data write is skipped as redundant.
    let w = encode_frame(0x00, true);
    let mut expected = vec![0xF1];
    for _ in 0..9 {
        expected.extend_from_slice(&[0xF1, 0xF5]);
    }
    expected.extend_from_slice(&[0xF1, 0xF1, 0xF3]);
    assert_eq!(w, expected);
}

#[test]
fn frame_a5_parameter_exact_writes() {
    // Byte 0xA5 as a parameter: mode bit 1, then 1010_0101 MSB first.
    let w = encode_frame(0xA5, false);
    let expected = vec![
        0xF1, // frame start: chip-select asserted, clock and data low
        0xF9, 0xF9, 0xFD, // mode bit 1
        0xF9, 0xFD, // bit 7 = 1, data write skipped
        0xF5, 0xF1, 0xF5, // bit 6 = 0
        0xFD, 0xF9, 0xFD, // bit 5 = 1
        0xF5, 0xF1, 0xF5, // bit 4 = 0
        0xF1, 0xF5, // bit 3 = 0, data write skipped
        0xFD, 0xF9, 0xFD, // bit 2 = 1
        0xF5, 0xF1, 0xF5, // bit 1 = 0
        0xFD, 0xF9, 0xFD, // bit 0 = 1
        0xF9, 0xF1, 0xF3, // tail: clock low, data low, chip-select deasserted
    ];
    assert_eq!(w, expected);
}

#[test]
fn every_frame_clocks_out_its_nine_bits() {
    for &b in &[0x00u8, 0x01, 0x55, 0xAA, 0x80, 0xFF, 0x11, 0x29, 0xF0] {
        for &is_command in &[true, false] {
            let w = encode_frame(b, is_command);
            let sampled = sample_rising_edges(IDLE_OUTPUT, &w);
            assert_eq!(sampled.len(), 9);
            assert_eq!(sampled, expected_bits(b, is_command));
        }
    }
}

#[test]
fn frame_starts_asserted_ends_deasserted() {
    for &b in &[0x00u8, 0x7E, 0xFF] {
        let w = encode_frame(b, true);
        assert_eq!(w[0], FRAME_START_OUTPUT);
        assert_eq!(*w.last().unwrap(), IDLE_OUTPUT);
        assert_eq!(w[0] & SCS_BIT, 0, "chip-select active (low) at frame start");
        assert_ne!(*w.last().unwrap() & SCS_BIT, 0, "chip-select deasserted after frame");
    }
}

#[test]
fn command_with_k_parameters_emits_k_plus_1_frames() {
    let params = vec![0x12u8, 0x34, 0x56];
    let frames = encode_command(0xC1, &params);
    assert_eq!(frames.len(), params.len() + 1);
    assert_eq!(frames[0], encode_frame(0xC1, true));
    for (i, &p) in params.iter().enumerate() {
        assert_eq!(frames[i + 1], encode_frame(p, false));
    }
}

#[test]
fn init_table_first_entry_frames() {
    // The panel's first table entry: opcode 0xF0 with five parameters must
    // give six frames, the opcode's first with mode bit 0, then each
    // parameter in order with mode bit 1.
    let params = vec![0x55u8, 0xAA, 0x52, 0x08, 0x00];
    let frames = encode_command(0xF0, &params);
    assert_eq!(frames.len(), 6);
    let opcode_bits = sample_rising_edges(IDLE_OUTPUT, &frames[0]);
    assert_eq!(opcode_bits[0], false, "opcode frame carries mode bit 0");
    assert_eq!(opcode_bits, expected_bits(0xF0, true));
    for (i, &p) in params.iter().enumerate() {
        let bits = sample_rising_edges(IDLE_OUTPUT, &frames[i + 1]);
        assert_eq!(bits[0], true, "parameter frame carries mode bit 1");
        assert_eq!(bits, expected_bits(p, false));
    }
}

#[test]
fn command_writes_are_frames_concatenated() {
    let params = vec![0x5A, 0x87];
    let flat = encode_command_writes(0xF6, &params);
    let mut expected = encode_frame(0xF6, true);
    expected.extend(encode_frame(0x5A, false));
    expected.extend(encode_frame(0x87, false));
    assert_eq!(flat, expected);
}

#[test]
fn board_control_bits_never_move() {
    let board_mask = !(SCS_BIT | SCL_BIT | SDA_BIT);
    for &b in &[0x00u8, 0x3A, 0x66, 0xFF] {
        for &is_command in &[true, false] {
            for w in encode_frame(b, is_command) {
                assert_eq!(w & board_mask, IDLE_OUTPUT & board_mask);
            }
        }
    }
}
