use fitgen::crc::crc16;
use fitgen::fit_writer::FitError;
use fitgen::fit_writer::FitWriter;
use fitgen::Workout;

fn read_le16(f: &[u8], off: usize) -> u16 {
    (f[off] as u16) | ((f[off + 1] as u16) << 8)
}

fn read_le32(f: &[u8], off: usize) -> u32 {
    (f[off] as u32)
        | ((f[off + 1] as u32) << 8)
        | ((f[off + 2] as u32) << 16)
        | ((f[off + 3] as u32) << 24)
}

fn write_file(w: &Workout) -> Vec<u8> {
    let mut writer = FitWriter::new();
    writer.write_workout(w).unwrap();
    writer.sink
}

/// Re-checks a generated file from the outside: fixed header fields, the
/// stored payload length against the real one, and both checksums.
fn check_file(f: &[u8]) {
    assert!(f.len() >= 16);
    assert_eq!(f[0], 14);
    assert_eq!(f[1], 0x10);
    assert_eq!(read_le16(f, 2), 100);
    let payload_len = read_le32(f, 4) as usize;
    assert_eq!(&f[8..12], b".FIT");
    assert_eq!(f.len(), 16 + payload_len);
    assert_eq!(read_le16(f, 12), crc16(&f[0..12]));
    assert_eq!(read_le16(f, 14 + payload_len), crc16(&f[14..14 + payload_len]));
}

/// Walks the payload by the records' declared widths and returns the number
/// of records found, or panics when the layout is not the expected one.
fn count_records(payload: &[u8], title_len: usize) -> usize {
    let mut count: usize = 0;
    assert_eq!(payload[0], 0x00);
    assert_eq!(&payload[1..7], b"FILEID");
    count += 1;
    assert_eq!(payload[7], 0x01);
    count += 1;
    let mut pos: usize = 8 + title_len;
    while pos < payload.len() {
        assert_eq!(payload[pos], 0x02);
        let name_len = payload[pos + 9] as usize;
        pos += 10 + name_len;
        count += 1;
    }
    assert_eq!(pos, payload.len());
    count
}

#[test]
fn workout_construction() {
    let mut w = Workout::new("Morning ride");
    assert_eq!(w.title, "Morning ride");
    assert_eq!(w.steps.len(), 0);
    w.add_step("Warmup", 600, 140, 160);
    w.add_step("Effort", 1200, 220, 240);
    assert_eq!(w.steps.len(), 2);
    assert_eq!(w.steps[0].name, "Warmup");
    assert_eq!(w.steps[0].duration_secs, 600);
    assert_eq!(w.steps[1].target_power_low, 220);
    assert_eq!(w.steps[1].target_power_high, 240);
}

#[test]
fn empty_workout_emits_two_records() {
    let w = Workout::new("");
    let f = write_file(&w);
    check_file(&f);
    // payload: the 7-byte file-identity record and the 1-byte summary record
    assert_eq!(read_le32(&f, 4), 8);
    assert_eq!(f.len(), 24);
    assert_eq!(count_records(&f[14..14 + 8], 0), 2);
}

#[test]
fn header_known_bytes_for_empty_payload_length() {
    let w = Workout::new("");
    let f = write_file(&w);
    // with payload length 8 the first twelve bytes are fixed
    assert_eq!(
        &f[0..12],
        &[0x0E, 0x10, 0x64, 0x00, 0x08, 0x00, 0x00, 0x00, 0x2E, 0x46, 0x49, 0x54]
    );
    assert_eq!(read_le16(&f, 12), crc16(&f[0..12]));
}

#[test]
fn self_consistency_across_sizes() {
    // payload lengths from the minimum up past 65536
    let sizes: [usize; 5] = [0, 1, 10, 255, 300];
    for &n_steps in sizes.iter() {
        let mut w = Workout::new("size sweep");
        let name = "x".repeat(250);
        for i in 0..n_steps {
            w.add_step(&name, i as u32, 100, 200);
        }
        let f = write_file(&w);
        check_file(&f);
        let payload_len = read_le32(&f, 4) as usize;
        assert_eq!(payload_len, 8 + "size sweep".len() + n_steps * 260);
    }
}

#[test]
fn record_count_is_steps_plus_two() {
    let title = "counted";
    let mut w = Workout::new(title);
    for i in 0..9u32 {
        w.add_step(&format!("step {}", i), 60 * i, 100, 120);
    }
    let f = write_file(&w);
    check_file(&f);
    let payload_len = read_le32(&f, 4) as usize;
    assert_eq!(count_records(&f[14..14 + payload_len], title.len()), 9 + 2);
}

#[test]
fn step_name_of_255_bytes_is_accepted() {
    let mut w = Workout::new("long name");
    let name = "n".repeat(255);
    w.add_step(&name, 60, 100, 120);
    let f = write_file(&w);
    check_file(&f);
    let payload_len = read_le32(&f, 4) as usize;
    assert_eq!(payload_len, 8 + "long name".len() + 10 + 255);
}

#[test]
fn step_name_of_256_bytes_is_rejected_without_output() {
    let mut w = Workout::new("overflow");
    w.add_step("ok step", 60, 100, 120);
    let name = "n".repeat(256);
    w.add_step(&name, 60, 100, 120);
    let mut writer = FitWriter::new();
    let r = writer.write_workout(&w);
    assert_eq!(r, Err(FitError::FieldOverflow));
    assert_eq!(writer.sink.len(), 0);
}

#[test]
fn multibyte_title_is_measured_in_bytes() {
    // a title of five characters but six UTF-8 bytes
    let w = Workout::new("h\u{e9}llo");
    let f = write_file(&w);
    check_file(&f);
    assert_eq!(read_le32(&f, 4), 8 + 6);
}

#[test]
fn end_to_end_sweet_spot() {
    let mut w = Workout::new("Sweet Spot 3x12");
    w.add_step("Warmup", 600, 140, 160);
    w.add_step("Sweet Spot 1", 720, 223, 235);
    w.add_step("Recovery", 300, 120, 140);
    w.add_step("Sweet Spot 2", 720, 223, 235);
    w.add_step("Recovery", 300, 120, 140);
    w.add_step("Sweet Spot 3", 720, 223, 235);
    w.add_step("Recovery", 300, 120, 140);
    w.add_step("Cool Down", 300, 130, 150);
    let f = write_file(&w);
    check_file(&f);

    // each record's exact encoded width, summed
    let payload_len = read_le32(&f, 4) as usize;
    assert_eq!(payload_len, 178);
    assert_eq!(f.len(), 16 + 178);

    let payload = &f[14..14 + payload_len];
    assert_eq!(count_records(payload, "Sweet Spot 3x12".len()), 8 + 2);
    assert_eq!(&payload[8..23], b"Sweet Spot 3x12");

    // the first step record, byte for byte
    let first_step = &payload[23..23 + 16];
    assert_eq!(first_step[0], 0x02);
    assert_eq!(read_le32(first_step, 1), 600);
    assert_eq!(read_le16(first_step, 5), 140);
    assert_eq!(read_le16(first_step, 7), 160);
    assert_eq!(first_step[9], 6);
    assert_eq!(&first_step[10..16], b"Warmup");
}

#[test]
fn writer_appends_consecutive_files() {
    let w1 = Workout::new("one");
    let w2 = Workout::new("two");
    let mut writer = FitWriter::new();
    writer.write_workout(&w1).unwrap();
    let first_len = writer.sink.len();
    writer.write_workout(&w2).unwrap();
    check_file(&writer.sink[0..first_len]);
    check_file(&writer.sink[first_len..]);
}
