use snowflake::flake::{encode_points, Flake, StoredPoint, MAX_BUFFERED_POINTS};

fn stored(x: f64, y: f64) -> StoredPoint {
    StoredPoint { x_bits: x.to_bits(), y_bits: y.to_bits() }
}

// Adds `point` as a run would, appending to `file` whenever the buffer fills up.
fn add(flake: &mut Flake, file: &mut Vec<u8>, point: StoredPoint) {
    if let Some(bytes) = flake.add_point(point) {
        file.extend(bytes);
    }
}

#[test]
fn get_points_for_empty_file() {
    let file: Vec<u8> = Vec::new();
    assert_eq!(0, Flake::get_points(&file).len());
}

#[test]
fn write_points_to_new_file() {
    let mut file: Vec<u8> = Vec::new();
    let mut flake = Flake::new("test.flake");
    add(&mut flake, &mut file, stored(0.0, 0.0));
    file.extend(flake.flush());
    assert_eq!(16, file.len());
}

#[test]
fn write_points_to_existing_file() {
    let mut file: Vec<u8> = Vec::new();

    let mut flake = Flake::new("test.flake");
    add(&mut flake, &mut file, stored(0.0, 0.0));
    file.extend(flake.flush());

    // Do the same thing but with a new store
    let mut flake = Flake::new("test.flake");
    add(&mut flake, &mut file, stored(1.0, 1.0));
    file.extend(flake.flush());

    let points = Flake::get_points(&file);
    assert_eq!(vec![stored(0.0, 0.0), stored(1.0, 1.0)], points);
}

#[test]
fn roundtrip() {
    let mut file: Vec<u8> = Vec::new();
    let mut flake = Flake::new("test.flake");

    let num_points = 1500;
    for i in 0..num_points {
        add(&mut flake, &mut file, stored(i as f64, i as f64));
    }
    file.extend(flake.flush());

    let points = Flake::get_points(&file);
    assert_eq!(num_points, points.len());
    for i in 0..num_points {
        assert_eq!(i as f64, f64::from_bits(points[i].x_bits));
        assert_eq!(i as f64, f64::from_bits(points[i].y_bits));
    }
}

#[test]
fn flake_keeps_its_file_name() {
    let flake = Flake::new("snow/test.flake");
    assert_eq!("snow/test.flake", flake.flake_file());
}

#[test]
fn full_buffer_is_written_out() {
    let mut flake = Flake::new("test.flake");
    let mut expected = Vec::new();
    for i in 1..MAX_BUFFERED_POINTS {
        expected.push(stored(i as f64, 0.0));
        assert_eq!(None, flake.add_point(stored(i as f64, 0.0)));
    }
    expected.push(stored(0.0, 0.5));
    let bytes = flake.add_point(stored(0.0, 0.5)).unwrap();
    assert_eq!(16 * MAX_BUFFERED_POINTS, bytes.len());
    assert_eq!(expected, Flake::get_points(&bytes));
    assert_eq!(0, flake.flush().len());
}

#[test]
fn records_are_big_endian() {
    let bytes = encode_points(&vec![StoredPoint { x_bits: 0x0102030405060708, y_bits: 0x1112131415161718 }]);
    assert_eq!(
        vec![1, 2, 3, 4, 5, 6, 7, 8, 0x11, 0x12, 0x13, 0x14, 0x15, 0x16, 0x17, 0x18],
        bytes
    );
    let bytes = encode_points(&vec![stored(1.0, -2.0)]);
    assert_eq!(vec![0x3f, 0xf0, 0, 0, 0, 0, 0, 0, 0xc0, 0, 0, 0, 0, 0, 0, 0], bytes);
}

#[test]
fn trailing_fragment_is_ignored() {
    let mut bytes = encode_points(&vec![stored(3.5, -7.25), stored(0.5, 9.0)]);
    bytes.extend(vec![0x40, 0x01, 0x02]);
    assert_eq!(vec![stored(3.5, -7.25), stored(0.5, 9.0)], Flake::get_points(&bytes));
    assert_eq!(0, Flake::get_points(&vec![0u8; 15]).len());
}

#[test]
fn round_trip_is_bit_exact() {
    let points = vec![
        stored(-0.0, 0.0),
        stored(f64::NAN, f64::INFINITY),
        stored(f64::MIN_POSITIVE, f64::MAX),
        StoredPoint { x_bits: u64::MAX, y_bits: 1 },
    ];
    let mut file: Vec<u8> = Vec::new();
    let mut flake = Flake::new("test.flake");
    for point in &points {
        add(&mut flake, &mut file, *point);
    }
    file.extend(flake.flush());
    assert_eq!(points, Flake::get_points(&file));
}
