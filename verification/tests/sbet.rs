use sbet::{bracket, decimate, decode, encode, estimate_number_of_points, filter_by_time};
use sbet::{Error, Point, Reader, Writer, RECORD_SIZE};

/// A point whose seventeen fields all hold the encoding of `v`.
fn uniform(v: f64) -> Point {
    let bits = v.to_bits();
    Point {
        time: bits,
        latitude: bits,
        longitude: bits,
        altitude: bits,
        x_velocity: bits,
        y_velocity: bits,
        z_velocity: bits,
        roll: bits,
        pitch: bits,
        yaw: bits,
        wander_angle: bits,
        x_acceleration: bits,
        y_acceleration: bits,
        z_acceleration: bits,
        x_angular_rate: bits,
        y_angular_rate: bits,
        z_angular_rate: bits,
    }
}

/// An otherwise-zero point at the given time.
fn at_time(time: f64) -> Point {
    let mut p = Point::default();
    p.time = time.to_bits();
    p
}

#[test]
fn read() {
    let mut writer = Writer::new();
    writer.write_one(uniform(1.0));
    writer.write_one(uniform(2.0));
    let mut reader = Reader::new(writer.into_bytes());
    let points = reader.read_all().unwrap();
    assert_eq!(2, points.len());
}

#[test]
fn interpolate_errors() {
    assert!(bracket(&vec![], 0f64.to_bits()).is_err());
    assert!(bracket(&vec![Default::default()], 0f64.to_bits()).is_err());
    let first = at_time(1.0);
    let second = at_time(2.0);
    let points = vec![first, second];
    assert!(bracket(&points, 0f64.to_bits()).is_err());
    assert!(bracket(&points, 0.9f64.to_bits()).is_err());
    assert!(bracket(&points, 1f64.to_bits()).is_ok());
    assert!(bracket(&points, 2f64.to_bits()).is_ok());
    assert!(bracket(&points, 2.1f64.to_bits()).is_err());
}

#[test]
fn record_round_trip() {
    let mut p = uniform(1.25);
    p.latitude = (-0.75f64).to_bits();
    p.altitude = 1.0e300f64.to_bits();
    p.z_angular_rate = (-0.0f64).to_bits();
    let bytes = encode(&p);
    assert_eq!(RECORD_SIZE, bytes.len());
    let q = decode(&bytes);
    assert_eq!(p, q);
}

#[test]
fn record_layout_little_endian() {
    let mut p = Point::default();
    p.time = 1.0f64.to_bits();
    let bytes = encode(&p);
    // 1.0 is 0x3FF0_0000_0000_0000; little-endian puts the low bytes first.
    assert_eq!(&bytes[0..8], &[0, 0, 0, 0, 0, 0, 0xF0, 0x3F]);
    assert_eq!(&bytes[8..16], &[0; 8]);
}

#[test]
fn count_law() {
    let points = vec![uniform(1.0), uniform(2.0), uniform(3.0)];
    let mut writer = Writer::new();
    writer.write_all(&points);
    let bytes = writer.into_bytes();
    assert_eq!(3 * RECORD_SIZE, bytes.len());
    let mut reader = Reader::new(bytes);
    let back = reader.read_all().unwrap();
    assert_eq!(points, back);
    assert_eq!(Ok(None), reader.read_one());
}

#[test]
fn estimate_from_size() {
    assert_eq!(2, estimate_number_of_points(2 * RECORD_SIZE as u64));
    assert_eq!(1, estimate_number_of_points(RECORD_SIZE as u64));
    assert_eq!(0, estimate_number_of_points(0));
    assert_eq!(0, estimate_number_of_points(RECORD_SIZE as u64 - 1));
    assert_eq!(5, estimate_number_of_points(5 * RECORD_SIZE as u64 + 17));
}

#[test]
fn truncated_record() {
    let mut reader = Reader::new(vec![0u8; 100]);
    assert_eq!(Err(Error::TruncatedRecord), reader.read_one());
    let mut bytes = encode(&uniform(4.0));
    bytes.push(0xAB);
    let mut reader = Reader::new(bytes);
    assert_eq!(Ok(Some(uniform(4.0))), reader.read_one());
    assert_eq!(Err(Error::TruncatedRecord), reader.read_one());
    let mut bytes = encode(&uniform(4.0));
    bytes.push(0xAB);
    let mut reader = Reader::new(bytes);
    assert_eq!(Err(Error::TruncatedRecord), reader.read_all());
}

#[test]
fn decimation_law() {
    let points: Vec<Point> = (0..7).map(|i| at_time(i as f64)).collect();
    let every = decimate(&points, 1);
    assert_eq!(points, every);
    let half = decimate(&points, 2);
    assert_eq!(
        vec![points[0], points[2], points[4], points[6]],
        half
    );
    let third = decimate(&points, 3);
    assert_eq!(vec![points[0], points[3], points[6]], third);
    let sparse = decimate(&points, 10);
    assert_eq!(vec![points[0]], sparse);
    let none = decimate(&Vec::new(), 4);
    assert!(none.is_empty());
}

#[test]
fn filter_law() {
    let points: Vec<Point> = [1.0, 2.0, 3.0, 4.0, 5.0]
        .iter()
        .map(|&t| at_time(t))
        .collect();
    let kept = filter_by_time(&points, 2.0f64.to_bits(), 4.0f64.to_bits());
    assert_eq!(vec![points[1], points[2], points[3]], kept);

    // The boundaries are inclusive and the order is the source order.
    let all = filter_by_time(&points, f64::NEG_INFINITY.to_bits(), f64::INFINITY.to_bits());
    assert_eq!(points, all);
    let nothing = filter_by_time(&points, 6.0f64.to_bits(), 7.0f64.to_bits());
    assert!(nothing.is_empty());

    // The retained subsequence re-encodes and decodes back identically.
    let mut writer = Writer::new();
    writer.write_all(&kept);
    let mut reader = Reader::new(writer.into_bytes());
    assert_eq!(kept, reader.read_all().unwrap());
}

#[test]
fn bracket_boundaries() {
    let first = uniform(1.0);
    let second = uniform(2.0);
    let points = vec![first, second];
    assert_eq!(Ok((first, second)), bracket(&points, 1.0f64.to_bits()));
    assert_eq!(Ok((first, second)), bracket(&points, 2.0f64.to_bits()));
    assert_eq!(Ok((first, second)), bracket(&points, 1.5f64.to_bits()));
}

#[test]
fn bracket_interior_tie() {
    let points = vec![at_time(1.0), at_time(2.0), at_time(3.0)];
    // A query equal to an interior time is bracketed by the pair before it.
    assert_eq!(
        Ok((points[0], points[1])),
        bracket(&points, 2.0f64.to_bits())
    );
    assert_eq!(
        Ok((points[1], points[2])),
        bracket(&points, 2.5f64.to_bits())
    );
}

#[test]
fn bracket_first_match_wins() {
    // On input that is not sorted, the first pair that straddles the query
    // is taken, as the linear scan has it.
    let points = vec![at_time(1.0), at_time(3.0), at_time(2.0), at_time(4.0)];
    assert_eq!(
        Ok((points[0], points[1])),
        bracket(&points, 2.5f64.to_bits())
    );
}

#[test]
fn extrapolation_payload() {
    let points = vec![at_time(1.0), at_time(2.0)];
    let early = bracket(&points, 0.5f64.to_bits());
    assert_eq!(
        Err(Error::Extrapolation {
            time: 0.5f64.to_bits(),
            start_time: 1.0f64.to_bits(),
            end_time: 2.0f64.to_bits(),
        }),
        early
    );
    let late = bracket(&points, 9.0f64.to_bits());
    assert_eq!(
        Err(Error::Extrapolation {
            time: 9.0f64.to_bits(),
            start_time: 1.0f64.to_bits(),
            end_time: 2.0f64.to_bits(),
        }),
        late
    );
    assert_eq!(Err(Error::NoPoints), bracket(&Vec::new(), 0.5f64.to_bits()));
    assert_eq!(
        Err(Error::OnePoint),
        bracket(&vec![at_time(1.0)], 1.0f64.to_bits())
    );
}

#[test]
fn default_point_is_all_zero() {
    let p = Point::default();
    assert_eq!(p, uniform(0.0));
    assert_eq!(0.0, f64::from_bits(p.time));
}

#[test]
fn time_key_orders_like_doubles() {
    let times = [
        f64::NEG_INFINITY,
        -1.0e300,
        -2.5,
        -1.0,
        1.0,
        2.5,
        1.0e300,
        f64::INFINITY,
    ];
    for pair in times.windows(2) {
        let lower = sbet::point::time_key(pair[0].to_bits());
        let upper = sbet::point::time_key(pair[1].to_bits());
        assert!(lower < upper);
    }
}

#[test]
fn filter_keeps_equal_times() {
    let twin_a = at_time(2.0);
    let mut twin_b = at_time(2.0);
    twin_b.roll = 0.5f64.to_bits();
    let points = vec![at_time(1.0), twin_a, twin_b, at_time(3.0)];
    let kept = filter_by_time(&points, 2.0f64.to_bits(), 2.0f64.to_bits());
    assert_eq!(vec![twin_a, twin_b], kept);
}
