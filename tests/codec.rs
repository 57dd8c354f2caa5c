use inochi2d::codec::{read_array, read_be_u32, read_u8, CompressedTexture, Container, Error};

fn sample() -> Container {
    Container {
        descriptor: b"{\"a\":1}".to_vec(),
        textures: vec![
            CompressedTexture::Png(vec![1, 2, 3]),
            CompressedTexture::Tga(vec![]),
            CompressedTexture::Bc7(vec![9; 5]),
        ],
    }
}

#[test]
fn container_round_trip() {
    let c = sample();
    let bytes = c.serialize();
    let back = Container::parse(&bytes).unwrap();
    assert_eq!(back.descriptor, c.descriptor);
    assert_eq!(back.textures, c.textures);
}

#[test]
fn container_layout_is_exact() {
    let c = Container { descriptor: b"{}".to_vec(), textures: vec![CompressedTexture::Tga(vec![7])] };
    let bytes = c.serialize();
    let mut expected = b"TRNSRTS\0".to_vec();
    expected.extend_from_slice(&[0, 0, 0, 2]);
    expected.extend_from_slice(b"{}");
    expected.extend_from_slice(b"TEX_SECT");
    expected.extend_from_slice(&[0, 0, 0, 1]);
    expected.extend_from_slice(&[0, 0, 0, 1, 1, 7]);
    assert_eq!(bytes, expected);
}

#[test]
fn trailing_bytes_are_ignored() {
    let c = sample();
    let mut bytes = c.serialize();
    bytes.extend_from_slice(&[1, 2, 3]);
    let back = Container::parse(&bytes).unwrap();
    assert_eq!(back.textures.len(), 3);
}

#[test]
fn bad_magic_is_a_format_error() {
    let mut bytes = sample().serialize();
    bytes[0] = b'X';
    assert_eq!(Container::parse(&bytes).unwrap_err(), Error::Format);
}

#[test]
fn bad_texture_magic_is_a_format_error() {
    let c = Container { descriptor: vec![], textures: vec![] };
    let mut bytes = c.serialize();
    bytes[12] = b'X';
    assert_eq!(Container::parse(&bytes).unwrap_err(), Error::Format);
}

#[test]
fn unknown_texture_tag_is_a_format_error() {
    let c = Container { descriptor: vec![], textures: vec![CompressedTexture::Png(vec![5])] };
    let mut bytes = c.serialize();
    let tag_at = 8 + 4 + 8 + 4 + 4;
    assert_eq!(bytes[tag_at], 0);
    bytes[tag_at] = 3;
    assert_eq!(Container::parse(&bytes).unwrap_err(), Error::Format);
}

#[test]
fn short_input_is_truncated() {
    let bytes = sample().serialize();
    for cut in [0, 5, 8, 11, 14, 20, 27, bytes.len() - 1] {
        assert_eq!(Container::parse(&bytes[..cut]).unwrap_err(), Error::Truncated, "cut at {cut}");
    }
}

#[test]
fn descriptor_longer_than_input_is_truncated() {
    let mut bytes = b"TRNSRTS\0".to_vec();
    bytes.extend_from_slice(&[0, 0, 1, 0]);
    bytes.extend_from_slice(b"{}");
    assert_eq!(Container::parse(&bytes).unwrap_err(), Error::Truncated);
}

#[test]
fn readers_follow_the_position() {
    let data = [0x12u8, 0x34, 0x56, 0x78, 0x9a, 1, 2];
    let mut pos = 0usize;
    assert_eq!(read_be_u32(&data, &mut pos), Ok(0x12345678));
    assert_eq!(pos, 4);
    assert_eq!(read_u8(&data, &mut pos), Ok(0x9a));
    assert_eq!(read_array(&data, &mut pos, 2), Ok(vec![1, 2]));
    assert_eq!(read_u8(&data, &mut pos), Err(Error::Truncated));
    assert_eq!(pos, 7);
    let mut pos = 5usize;
    assert_eq!(read_be_u32(&data, &mut pos), Err(Error::Truncated));
    assert_eq!(read_array(&data, &mut pos, 3), Err(Error::Truncated));
}
