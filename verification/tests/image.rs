use qoi::{DecodeError, Header, Image, Reader};

fn stream(width: u32, height: u32, opcodes: &[u8]) -> Vec<u8> {
    let mut bytes = vec![0x71, 0x6f, 0x69, 0x66];
    bytes.extend_from_slice(&width.to_be_bytes());
    bytes.extend_from_slice(&height.to_be_bytes());
    bytes.push(4);
    bytes.push(0);
    bytes.extend_from_slice(opcodes);
    bytes
}

/// An encoder of its own, for round trips: it picks among all six opcodes.
fn encode(width: u32, height: u32, pixels: &[[u8; 4]]) -> Vec<u8> {
    let mut out = Vec::new();
    let mut cache = [[0u8; 4]; 64];
    let mut last = [0u8, 0, 0, 255];
    let mut run = 0u8;
    for (n, &px) in pixels.iter().enumerate() {
        if px == last {
            run += 1;
            if run == 62 || n + 1 == pixels.len() {
                out.push(0xc0 | (run - 1));
                run = 0;
            }
            continue;
        }
        if run > 0 {
            out.push(0xc0 | (run - 1));
            run = 0;
        }
        let slot = (px[0] as usize * 3 + px[1] as usize * 5 + px[2] as usize * 7
            + px[3] as usize * 11) % 64;
        if cache[slot] == px {
            out.push(slot as u8);
        } else {
            cache[slot] = px;
            if px[3] == last[3] {
                let dr = px[0].wrapping_sub(last[0]) as i8;
                let dg = px[1].wrapping_sub(last[1]) as i8;
                let db = px[2].wrapping_sub(last[2]) as i8;
                let dr_dg = dr.wrapping_sub(dg);
                let db_dg = db.wrapping_sub(dg);
                if (-2..=1).contains(&dr) && (-2..=1).contains(&dg) && (-2..=1).contains(&db) {
                    out.push(0x40 | ((dr + 2) as u8) << 4 | ((dg + 2) as u8) << 2 | (db + 2) as u8);
                } else if (-32..=31).contains(&dg) && (-8..=7).contains(&dr_dg)
                    && (-8..=7).contains(&db_dg)
                {
                    out.push(0x80 | (dg + 32) as u8);
                    out.push(((dr_dg + 8) as u8) << 4 | (db_dg + 8) as u8);
                } else {
                    out.extend_from_slice(&[0xfe, px[0], px[1], px[2]]);
                }
            } else {
                out.extend_from_slice(&[0xff, px[0], px[1], px[2], px[3]]);
            }
        }
        last = px;
    }
    stream(width, height, &out)
}

fn picture(width: usize, height: usize) -> Vec<[u8; 4]> {
    let mut seed: u32 = 0x2545_f491;
    let mut pixels = Vec::new();
    let mut last = [0u8, 0, 0, 255];
    let mut palette: Vec<[u8; 4]> = Vec::new();
    while pixels.len() < width * height {
        seed = seed.wrapping_mul(1_664_525).wrapping_add(1_013_904_223);
        let choice = (seed >> 24) % 8;
        let bytes = seed.to_le_bytes();
        let px = match choice {
            0 | 1 => last,
            2 => [
                last[0].wrapping_add(bytes[0] % 4).wrapping_sub(2),
                last[1].wrapping_add(bytes[1] % 4).wrapping_sub(2),
                last[2].wrapping_add(bytes[2] % 4).wrapping_sub(2),
                last[3],
            ],
            3 => [
                last[0].wrapping_add(bytes[0] % 40).wrapping_sub(20),
                last[1].wrapping_add(bytes[1] % 40).wrapping_sub(20),
                last[2].wrapping_add(bytes[2] % 40).wrapping_sub(20),
                last[3],
            ],
            4 if !palette.is_empty() => palette[bytes[0] as usize % palette.len()],
            5 => [bytes[0], bytes[1], bytes[2], last[3]],
            _ => [bytes[0], bytes[1], bytes[2], bytes[0] ^ bytes[1]],
        };
        if palette.len() < 16 {
            palette.push(px);
        }
        let repeat = if choice == 0 { 1 + (bytes[1] as usize % 150) } else { 1 };
        for _ in 0..repeat {
            if pixels.len() < width * height {
                pixels.push(px);
            }
        }
        last = px;
    }
    pixels
}

#[test]
fn one_literal_pixel() {
    let bytes = stream(1, 1, &[0xff, 0x10, 0x20, 0x30, 0x40]);
    assert_eq!(
        bytes,
        [
            0x71, 0x6f, 0x69, 0x66, 0, 0, 0, 1, 0, 0, 0, 1, 4, 0, 0xff, 0x10, 0x20, 0x30, 0x40
        ]
    );
    let mut reader = Reader::new(&bytes);
    let image = Image::from_reader(&mut reader).unwrap();
    assert_eq!(image.header, Header { width: 1, height: 1, channels: 4, colorspace: 0 });
    assert_eq!(image.buffer, vec![0x10, 0x20, 0x30, 0x40]);
    assert_eq!(reader.position(), 19);
}

#[test]
fn a_run_crosses_the_rows_of_a_two_by_two_image() {
    let bytes = stream(2, 2, &[0xfe, 5, 6, 7, 0xc2]);
    let mut reader = Reader::new(&bytes);
    let image = Image::from_reader(&mut reader).unwrap();
    assert_eq!(image.buffer, vec![5, 6, 7, 255, 5, 6, 7, 255, 5, 6, 7, 255, 5, 6, 7, 255]);
}

#[test]
fn rows_are_laid_out_top_to_bottom() {
    let bytes = stream(
        2,
        3,
        &[0xff, 1, 1, 1, 1, 0xff, 2, 2, 2, 2, 0xff, 3, 3, 3, 3, 0xc0, 0xfe, 5, 5, 5, 0x00],
    );
    let mut reader = Reader::new(&bytes);
    let image = Image::from_reader(&mut reader).unwrap();
    assert_eq!(image.header.width, 2);
    assert_eq!(image.header.height, 3);
    assert_eq!(
        image.buffer,
        vec![1, 1, 1, 1, 2, 2, 2, 2, 3, 3, 3, 3, 3, 3, 3, 3, 5, 5, 5, 3, 0, 0, 0, 0]
    );
}

#[test]
fn the_end_marker_is_left_unread() {
    let mut bytes = stream(1, 2, &[0xfe, 1, 2, 3, 0xc0]);
    let end = bytes.len();
    bytes.extend_from_slice(&[0, 0, 0, 0, 0, 0, 0, 1]);
    let mut reader = Reader::new(&bytes);
    let image = Image::from_reader(&mut reader).unwrap();
    assert_eq!(image.buffer.len(), 8);
    assert_eq!(reader.position(), end);
}

#[test]
fn a_run_longer_than_the_image_is_cut_off() {
    let bytes = stream(1, 2, &[0xfd]);
    let mut reader = Reader::new(&bytes);
    let image = Image::from_reader(&mut reader).unwrap();
    assert_eq!(image.buffer, vec![0, 0, 0, 255, 0, 0, 0, 255]);
}

#[test]
fn an_image_without_pixels_reads_no_opcode() {
    for &(width, height) in [(0u32, 0u32), (0, 5), (5, 0), (0, 100_000), (u32::MAX, 0)].iter() {
        let bytes = stream(width, height, &[0xff, 1, 2, 3, 4]);
        let mut reader = Reader::new(&bytes);
        let image = Image::from_reader(&mut reader).unwrap();
        assert_eq!(image.header.width, width as usize);
        assert_eq!(image.header.height, height as usize);
        assert!(image.buffer.is_empty());
        assert_eq!(reader.position(), 14);
    }
}

#[test]
fn a_bad_magic_fails_the_image_before_any_pixel() {
    let mut bytes = stream(1, 1, &[0xff, 0x10, 0x20, 0x30, 0x40]);
    bytes[0] = 0;
    bytes[1] = 0;
    bytes[2] = 0;
    bytes[3] = 0;
    let mut reader = Reader::new(&bytes);
    assert_eq!(Image::from_reader(&mut reader), Err(DecodeError::BadMagic));
    assert_eq!(reader.position(), 4);
}

#[test]
fn a_truncated_header_fails_the_image() {
    let bytes = stream(1, 1, &[]);
    let mut reader = Reader::new(&bytes[..9]);
    assert_eq!(Image::from_reader(&mut reader), Err(DecodeError::UnexpectedEof));
    assert_eq!(reader.position(), 8);
}

#[test]
fn too_few_opcodes_fail_the_image_at_the_end_of_the_source() {
    let bytes = stream(2, 2, &[0xff, 1, 2, 3, 4, 0xc1]);
    let mut reader = Reader::new(&bytes);
    assert_eq!(Image::from_reader(&mut reader), Err(DecodeError::UnexpectedEof));
    assert_eq!(reader.position(), bytes.len());
}

#[test]
fn an_image_of_pixels_and_no_opcodes_fails() {
    let bytes = stream(3, 3, &[]);
    let mut reader = Reader::new(&bytes);
    assert_eq!(Image::from_reader(&mut reader), Err(DecodeError::UnexpectedEof));
    assert_eq!(reader.position(), 14);
}

#[test]
fn every_cut_of_a_stream_fails_and_the_whole_decodes() {
    let pixels = picture(7, 5);
    let bytes = encode(7, 5, &pixels);
    for cut in 0..bytes.len() {
        let mut reader = Reader::new(&bytes[..cut]);
        assert_eq!(Image::from_reader(&mut reader), Err(DecodeError::UnexpectedEof));
        if cut >= 14 {
            assert_eq!(reader.position(), cut);
        }
    }
    let mut reader = Reader::new(&bytes);
    assert!(Image::from_reader(&mut reader).is_ok());
    assert_eq!(reader.position(), bytes.len());
}

#[test]
fn an_image_too_large_to_address_is_turned_down() {
    let bytes = stream(u32::MAX, u32::MAX, &[0xfd]);
    let mut reader = Reader::new(&bytes);
    assert_eq!(Image::from_reader(&mut reader), Err(DecodeError::TooLarge));
    assert_eq!(reader.position(), 14);
}

#[test]
fn an_image_over_the_largest_buffer_is_turned_down() {
    // 2^31 * 2^30 * 4 bytes is one more than `isize::MAX` where `usize` has
    // 64 bits, and far more where it has fewer.
    let bytes = stream(1 << 31, 1 << 30, &[0xfd]);
    let mut reader = Reader::new(&bytes);
    assert_eq!(Image::from_reader(&mut reader), Err(DecodeError::TooLarge));
    assert_eq!(reader.position(), 14);
}

#[test]
fn a_bad_magic_comes_before_the_size() {
    let mut bytes = stream(u32::MAX, u32::MAX, &[]);
    bytes[3] = b'g';
    let mut reader = Reader::new(&bytes);
    assert_eq!(Image::from_reader(&mut reader), Err(DecodeError::BadMagic));
}

#[test]
fn an_encoded_picture_decodes_to_its_pixels() {
    for &(width, height) in [(1usize, 1usize), (3, 4), (16, 16), (64, 3), (5, 200), (100, 40)].iter()
    {
        let pixels = picture(width, height);
        let bytes = encode(width as u32, height as u32, &pixels);
        let mut reader = Reader::new(&bytes);
        let image = Image::from_reader(&mut reader).unwrap();
        let expected: Vec<u8> = pixels.iter().flat_map(|px| px.iter().copied()).collect();
        assert_eq!(image.header.width, width);
        assert_eq!(image.header.height, height);
        assert_eq!(image.buffer.len(), width * height * 4);
        assert_eq!(image.buffer, expected);
        assert_eq!(reader.position(), bytes.len());
    }
}

#[test]
fn the_encoded_picture_uses_every_opcode() {
    let bytes = encode(100, 40, &picture(100, 40));
    let mut seen = [false; 6];
    let mut at = 14;
    while at < bytes.len() {
        let tag = bytes[at];
        let (kind, len) = match tag {
            0xfe => (0, 4),
            0xff => (1, 5),
            _ => match tag >> 6 {
                0 => (2, 1),
                1 => (3, 1),
                2 => (4, 2),
                _ => (5, 1),
            },
        };
        seen[kind] = true;
        at += len;
    }
    assert_eq!(seen, [true; 6]);
}
