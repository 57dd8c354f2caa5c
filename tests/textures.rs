use inochi2d::codec::{CompressedTexture, Error};
use inochi2d::decode::{worker_count, worker_of, ImageFormat, TextureSlots};
use inochi2d::model::Texture;
use inochi2d::tga;

fn header(w: u16, h: u16, depth: u8) -> Vec<u8> {
    let mut v = vec![0u8; 18];
    v[2] = 10;
    v[12..14].copy_from_slice(&w.to_le_bytes());
    v[14..16].copy_from_slice(&h.to_le_bytes());
    v[16] = depth;
    v
}

#[test]
fn tga_runs_and_raw_packets() {
    let mut b = header(3, 1, 24);
    b.extend_from_slice(&[0x81, 1, 2, 3]); // run of two
    b.extend_from_slice(&[0x00, 4, 5, 6]); // one raw pixel
    let (w, h, d) = tga::decode(&b).unwrap();
    assert_eq!((w, h), (3, 1));
    assert_eq!(d, vec![1, 2, 3, 255, 1, 2, 3, 255, 4, 5, 6, 255]);
}

#[test]
fn tga_32_bit_keeps_alpha_and_stops_at_the_image_size() {
    let mut b = header(1, 2, 32);
    b.extend_from_slice(&[0x82, 9, 8, 7, 6]); // run of three, only two needed
    b.extend_from_slice(&[0; 26]);
    let (_, _, d) = tga::decode(&b).unwrap();
    assert_eq!(d, vec![9, 8, 7, 6, 9, 8, 7, 6]);
}

#[test]
fn tga_errors() {
    assert_eq!(tga::decode(&[0; 10]), Err(Error::Truncated));
    assert_eq!(tga::decode(&header(1, 1, 16)), Err(Error::Unsupported));
    let mut b = header(2, 1, 24);
    b.extend_from_slice(&[0x01, 1, 2, 3]);
    assert_eq!(tga::decode(&b), Err(Error::Truncated));
}

#[test]
fn decode_dispatches_on_format() {
    let mut b = header(1, 1, 24);
    b.extend_from_slice(&[0x00, 1, 2, 3]);
    match CompressedTexture::Tga(b).decode().unwrap() {
        Texture::Rgba { width, height, data } => {
            assert_eq!((width, height), (1, 1));
            assert_eq!(data, vec![1, 2, 3, 255]);
        }
    }
    assert_eq!(CompressedTexture::Bc7(vec![1, 2]).decode().unwrap_err(), Error::Unsupported);
    assert_eq!(CompressedTexture::Png(vec![1, 2, 3]).decode().unwrap_err(), Error::Format);
}

#[test]
fn png_payload_decodes_to_rgba() {
    let img = image::RgbImage::from_raw(2, 1, vec![10, 20, 30, 40, 50, 60]).unwrap();
    let mut bytes = std::io::Cursor::new(Vec::new());
    img.write_to(&mut bytes, image::ImageFormat::Png).unwrap();
    match CompressedTexture::Png(bytes.into_inner()).decode().unwrap() {
        Texture::Rgba { width, height, data } => {
            assert_eq!((width, height), (2, 1));
            assert_eq!(data, vec![10, 20, 30, 255, 40, 50, 60, 255]);
        }
    }
}

#[test]
fn workers_and_round_robin() {
    assert_eq!(worker_count(8, 100), 7);
    assert_eq!(worker_count(8, 3), 3);
    assert_eq!(worker_count(1, 5), 1);
    assert_eq!(worker_count(4, 0), 0);
    assert_eq!((0..5).map(|i| worker_of(i, 2)).collect::<Vec<_>>(), vec![0, 1, 0, 1, 0]);
}

fn tex(n: u8) -> Texture {
    Texture::Rgba { width: n as u32, height: 1, data: vec![n] }
}

#[test]
fn slots_keep_input_order_whatever_the_arrival_order() {
    let mut slots = TextureSlots::new(4);
    for i in [2usize, 0, 3, 1] {
        assert!(slots.place(i, tex(i as u8)));
    }
    assert!(!slots.place(4, tex(9)));
    let out = slots.finish().unwrap();
    let widths: Vec<u32> = out.iter().map(|t| match t { Texture::Rgba { width, .. } => *width }).collect();
    assert_eq!(widths, vec![0, 1, 2, 3]);
}

#[test]
fn missing_result_leaves_the_pipeline_unfinished() {
    let mut slots = TextureSlots::new(2);
    slots.place(1, tex(1));
    assert!(slots.finish().is_none());
}

#[test]
fn encode_round_trips() {
    let t = Texture::Rgba { width: 2, height: 1, data: vec![1, 2, 3, 4, 5, 6, 7, 8] };
    let c = t.encode(ImageFormat::Png).unwrap();
    assert!(matches!(c, CompressedTexture::Png(_)));
    match c.decode().unwrap() {
        Texture::Rgba { width, height, data } => {
            assert_eq!((width, height), (2, 1));
            assert_eq!(data, vec![1, 2, 3, 4, 5, 6, 7, 8]);
        }
    }
    let c = t.encode(ImageFormat::Tga).unwrap();
    assert!(matches!(c, CompressedTexture::Tga(_)));
    // The file stores blue, green, red, alpha; decoding keeps the file order.
    match c.decode().unwrap() {
        Texture::Rgba { width, height, data } => {
            assert_eq!((width, height), (2, 1));
            assert_eq!(data, vec![3, 2, 1, 4, 7, 6, 5, 8]);
        }
    }
}
