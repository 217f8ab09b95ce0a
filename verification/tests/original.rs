use mp4parse::{fourcc_to_string, read_box_header, read_elst, read_ftyp, read_mdhd, ByteReader};

#[test]
fn test_read_box_header() {
    let mut test: Vec<u8> = vec![0, 0, 0, 8]; // minimal box length
    test.extend_from_slice(b"test"); // box type
    let mut stream = ByteReader::new(&test);
    let parsed = read_box_header(&mut stream).unwrap();
    assert_eq!(parsed.name, 1952805748);
    assert_eq!(parsed.size, 8);
    println!("box {:?}", parsed);
}

#[test]
fn test_read_box_header_long() {
    let mut test: Vec<u8> = vec![0, 0, 0, 1]; // long box extension code
    test.extend("long".to_string().into_bytes()); // box type
    test.extend(vec![0, 0, 0, 0, 0, 0, 16, 0]); // 64 bit size
    // Skip generating box content.
    let mut stream = ByteReader::new(&test);
    let parsed = read_box_header(&mut stream).unwrap();
    assert_eq!(parsed.name, 1819242087);
    assert_eq!(parsed.size, 4096);
    println!("box {:?}", parsed);
}

#[test]
fn test_read_ftyp() {
    let mut test: Vec<u8> = vec![0, 0, 0, 24]; // size
    test.extend_from_slice(b"ftyp"); // type
    test.extend_from_slice(b"mp42"); // major brand
    test.extend(vec![0, 0, 0, 0]); // minor version
    test.extend_from_slice(b"isom"); // compatible brands...
    test.extend_from_slice(b"mp42");
    assert_eq!(test.len(), 24);

    let mut stream = ByteReader::new(&test);
    let header = read_box_header(&mut stream).unwrap();
    let parsed = read_ftyp(&mut stream, &header).unwrap();
    assert_eq!(parsed.name, 1718909296);
    assert_eq!(parsed.size, 24);
    assert_eq!(parsed.major_brand, 1836069938);
    assert_eq!(parsed.minor_version, 0);
    assert_eq!(parsed.compatible_brands.len(), 2);
    assert_eq!(parsed.compatible_brands[0], 1769172845);
    assert_eq!(fourcc_to_string(parsed.compatible_brands[1]), "mp42");
    println!("box {:?}", parsed);
}

#[test]
fn test_read_elst_v0() {
    let mut test: Vec<u8> = vec![0, 0, 0, 28]; // size
    test.extend_from_slice(b"elst"); // type
    test.extend(vec![0, 0, 0, 0]); // fullbox
    test.extend(vec![0, 0, 0, 1]); // count
    test.extend(vec![1, 2, 3, 4, 5, 6, 7, 8, 9, 10, 11, 12]);
    assert_eq!(test.len(), 28);

    let mut stream = ByteReader::new(&test);
    let header = read_box_header(&mut stream).unwrap();
    let parsed = read_elst(&mut stream, &header).unwrap();
    assert_eq!(parsed.name, 1701606260);
    assert_eq!(parsed.size, 28);
    assert_eq!(parsed.edits.len(), 1);
    assert_eq!(parsed.edits[0].segment_duration, 16909060);
    assert_eq!(parsed.edits[0].media_time, 84281096);
    assert_eq!(parsed.edits[0].media_rate_integer, 2314);
    assert_eq!(parsed.edits[0].media_rate_fraction, 2828);
    println!("box {:?}", parsed);
}

#[test]
fn test_read_elst_v1() {
    let mut test: Vec<u8> = vec![0, 0, 0, 56]; // size
    test.extend_from_slice(b"elst"); // type
    test.extend(vec![1, 0, 0, 0]); // fullbox
    test.extend(vec![0, 0, 0, 2]); // count
    test.extend(vec![
        1, 2, 3, 4, 1, 2, 3, 4, 5, 6, 7, 8, 5, 6, 7, 8, 9, 10, 11, 12,
    ]);
    test.extend(vec![
        1, 2, 3, 4, 1, 2, 3, 4, 5, 6, 7, 8, 5, 6, 7, 8, 9, 10, 11, 12,
    ]);
    assert_eq!(test.len(), 56);

    let mut stream = ByteReader::new(&test);
    let header = read_box_header(&mut stream).unwrap();
    let parsed = read_elst(&mut stream, &header).unwrap();
    assert_eq!(parsed.name, 1701606260);
    assert_eq!(parsed.size, 56);
    assert_eq!(parsed.edits.len(), 2);
    assert_eq!(parsed.edits[1].segment_duration, 72623859723010820);
    assert_eq!(parsed.edits[1].media_time, 361984551075317512);
    assert_eq!(parsed.edits[1].media_rate_integer, 2314);
    assert_eq!(parsed.edits[1].media_rate_fraction, 2828);
    println!("box {:?}", parsed);
}

#[test]
fn test_read_mdhd_v0() {
    let mut test: Vec<u8> = vec![0, 0, 0, 32]; // size
    test.extend_from_slice(b"mdhd"); // type
    test.extend(vec![0, 0, 0, 0]); // fullbox
    test.extend(vec![
        0, 0, 0, 0, 0, 0, 0, 0, 1, 2, 3, 4, 5, 6, 7, 8, 0, 0, 0, 0,
    ]);
    assert_eq!(test.len(), 32);

    let mut stream = ByteReader::new(&test);
    let header = read_box_header(&mut stream).unwrap();
    let parsed = read_mdhd(&mut stream, &header).unwrap();
    assert_eq!(parsed.name, 1835296868);
    assert_eq!(parsed.size, 32);
    assert_eq!(parsed.timescale, 16909060);
    assert_eq!(parsed.duration, 84281096);
    println!("box {:?}", parsed);
}

#[test]
fn test_read_mdhd_v1() {
    let mut test: Vec<u8> = vec![0, 0, 0, 44]; // size
    test.extend_from_slice(b"mdhd"); // type
    test.extend(vec![1, 0, 0, 0]); // fullbox
    test.extend(vec![
        0, 0, 0, 0, 0, 0, 0, 0, 0, 0, 0, 0, 0, 0, 0, 0, 1, 2, 3, 4, 5, 6, 7, 8, 5, 6, 7, 8, 0, 0,
        0, 0,
    ]);
    assert_eq!(test.len(), 44);

    let mut stream = ByteReader::new(&test);
    let header = read_box_header(&mut stream).unwrap();
    let parsed = read_mdhd(&mut stream, &header).unwrap();
    assert_eq!(parsed.name, 1835296868);
    assert_eq!(parsed.size, 44);
    assert_eq!(parsed.timescale, 16909060);
    assert_eq!(parsed.duration, 361984551075317512);
    println!("box {:?}", parsed);
}
