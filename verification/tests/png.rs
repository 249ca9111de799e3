use lotus_racer::png::{chunk, encode_png, filter_scanlines, png_from_stream};
use std::io::Read;

/// Bitwise CRC-32 (IEEE), independent of the encoder's.
fn crc(data: &[u8]) -> u32 {
    let mut c = 0xFFFF_FFFFu32;
    for &b in data {
        c ^= b as u32;
        for _ in 0..8 {
            c = if c & 1 == 1 { (c >> 1) ^ 0xEDB8_8320 } else { c >> 1 };
        }
    }
    !c
}

/// Split a PNG file into (type, data) chunks after checking each CRC.
fn chunks(file: &[u8]) -> Vec<([u8; 4], Vec<u8>)> {
    assert_eq!(&file[..8], &[137, 80, 78, 71, 13, 10, 26, 10]);
    let mut out = Vec::new();
    let mut i = 8;
    while i < file.len() {
        let len = u32::from_be_bytes(file[i..i + 4].try_into().unwrap()) as usize;
        let typ: [u8; 4] = file[i + 4..i + 8].try_into().unwrap();
        let data = file[i + 8..i + 8 + len].to_vec();
        let got = u32::from_be_bytes(file[i + 8 + len..i + 12 + len].try_into().unwrap());
        assert_eq!(got, crc(&file[i + 4..i + 8 + len]));
        out.push((typ, data));
        i += 12 + len;
    }
    out
}

#[test]
fn iend_chunk_bytes() {
    assert_eq!(chunk(&[], b"IEND"), vec![0, 0, 0, 0, 73, 69, 78, 68, 0xAE, 0x42, 0x60, 0x82]);
}

#[test]
fn chunk_checksum_covers_type_and_data() {
    let c = chunk(&[1, 2, 3], b"abcd");
    assert_eq!(&c[..11], &[0, 0, 0, 3, 97, 98, 99, 100, 1, 2, 3]);
    assert_eq!(u32::from_be_bytes(c[11..15].try_into().unwrap()), crc(b"abcd\x01\x02\x03"));
    assert_ne!(chunk(&[1, 2, 4], b"abcd")[11..], c[11..]);
}

#[test]
fn scanlines_get_filter_byte() {
    let rgba: Vec<u8> = (0..16).collect();
    assert_eq!(
        filter_scanlines(&rgba, 2, 2),
        vec![0, 0, 1, 2, 3, 4, 5, 6, 7, 0, 8, 9, 10, 11, 12, 13, 14, 15]
    );
    assert!(filter_scanlines(&rgba, 3, 0).is_empty());
}

#[test]
fn file_layout_around_a_stream() {
    let f = png_from_stream(300, 2, &[9, 9]);
    let cs = chunks(&f);
    assert_eq!(cs.len(), 3);
    assert_eq!(&cs[0].0, b"IHDR");
    assert_eq!(cs[0].1, vec![0, 0, 1, 44, 0, 0, 0, 2, 8, 6, 0, 0, 0]);
    assert_eq!((&cs[1].0, cs[1].1.clone()), (b"IDAT", vec![9, 9]));
    assert_eq!((&cs[2].0, cs[2].1.len()), (b"IEND", 0));
}

#[test]
fn encoded_image_decompresses_to_filtered_rows() {
    let (w, h) = (3usize, 2usize);
    let rgba: Vec<u8> = (0..(w * h * 4) as u32).map(|i| (i * 7 % 256) as u8).collect();
    let file = encode_png(&rgba, w, h).expect("encode");
    let cs = chunks(&file);
    assert_eq!(&cs[1].0, b"IDAT");
    let mut raw = Vec::new();
    flate2::read::ZlibDecoder::new(&cs[1].1[..]).read_to_end(&mut raw).unwrap();
    assert_eq!(raw, filter_scanlines(&rgba, w, h));
    assert_ne!(cs[1].1, raw);
}
