use heic2jpg::transcode::{
    decoded_image, encode, encoded, rgb_buffer_len, transcode, DecodeError, DecodedImage, DecoderReport,
    InterleavedPlane, TranscodeError,
};

fn gradient(width: u32, height: u32) -> Vec<u8> {
    let mut pixels = Vec::new();
    for y in 0..height {
        for x in 0..width {
            pixels.push((x * 255 / width.max(1)) as u8);
            pixels.push((y * 255 / height.max(1)) as u8);
            pixels.push(((x + y) % 256) as u8);
        }
    }
    pixels
}

fn packed(width: u32, height: u32) -> DecoderReport {
    DecoderReport::Decoded {
        width,
        height,
        plane: Some(InterleavedPlane { stride: width as usize * 3, data: gradient(width, height) }),
    }
}

#[test]
fn buffer_length_is_three_bytes_a_pixel() {
    assert_eq!(rgb_buffer_len(0, 0), 0);
    assert_eq!(rgb_buffer_len(1, 1), 3);
    assert_eq!(rgb_buffer_len(4, 2), 24);
    assert_eq!(rgb_buffer_len(4032, 3024), 36_578_304);
    assert_eq!(rgb_buffer_len(u32::MAX, u32::MAX), 55_340_232_195_358_851_075);
}

#[test]
fn decoder_errors_keep_their_name() {
    assert_eq!(decoded_image(DecoderReport::InvalidContainer).err(), Some(DecodeError::InvalidContainer));
    assert_eq!(decoded_image(DecoderReport::NoPrimaryImage).err(), Some(DecodeError::NoPrimaryImage));
    assert_eq!(decoded_image(DecoderReport::DecodeFailure).err(), Some(DecodeError::DecodeFailure));
}

#[test]
fn decoded_picture_holds_three_bytes_a_pixel() {
    let image = decoded_image(packed(5, 3)).unwrap();
    assert_eq!(image.width(), 5);
    assert_eq!(image.height(), 3);
    assert_eq!(image.pixels().len(), 5 * 3 * 3);
    assert_eq!(image.pixels(), &gradient(5, 3));
}

#[test]
fn missing_plane_is_a_decode_failure() {
    let report = DecoderReport::Decoded { width: 4, height: 4, plane: None };
    assert_eq!(decoded_image(report).err(), Some(DecodeError::DecodeFailure));
}

#[test]
fn padded_plane_is_a_decode_failure() {
    let report = DecoderReport::Decoded {
        width: 5,
        height: 2,
        plane: Some(InterleavedPlane { stride: 16, data: vec![0; 32] }),
    };
    assert_eq!(decoded_image(report).err(), Some(DecodeError::DecodeFailure));
}

#[test]
fn plane_of_another_size_is_a_decode_failure() {
    let short = DecoderReport::Decoded {
        width: 4,
        height: 4,
        plane: Some(InterleavedPlane { stride: 12, data: vec![0; 47] }),
    };
    assert_eq!(decoded_image(short).err(), Some(DecodeError::DecodeFailure));
    let long = DecoderReport::Decoded {
        width: 4,
        height: 4,
        plane: Some(InterleavedPlane { stride: 12, data: vec![0; 49] }),
    };
    assert_eq!(decoded_image(long).err(), Some(DecodeError::DecodeFailure));
    let reshaped = DecoderReport::Decoded {
        width: 2,
        height: 3,
        plane: Some(InterleavedPlane { stride: 9, data: vec![0; 18] }),
    };
    assert_eq!(decoded_image(reshaped).err(), Some(DecodeError::DecodeFailure));
}

#[test]
fn picture_is_made_only_of_a_full_buffer() {
    assert!(DecodedImage::new(2, 2, vec![7; 12]).is_ok());
    assert_eq!(DecodedImage::new(2, 2, vec![7; 11]).err(), Some(DecodeError::DecodeFailure));
    assert_eq!(DecodedImage::new(2, 2, vec![7; 13]).err(), Some(DecodeError::DecodeFailure));
    assert_eq!(DecodedImage::new(2, 2, Vec::new()).err(), Some(DecodeError::DecodeFailure));
    assert!(DecodedImage::new(0, 9, Vec::new()).is_ok());
}

#[test]
fn jpeg_reports_the_dimensions_of_the_picture() {
    let jpeg = transcode(packed(37, 21)).unwrap();
    assert_eq!(&jpeg[..2], &[0xff, 0xd8]);
    assert_eq!(&jpeg[jpeg.len() - 2..], &[0xff, 0xd9]);
    let again = image::load_from_memory(&jpeg).unwrap();
    assert_eq!(again.width(), 37);
    assert_eq!(again.height(), 21);
}

#[test]
fn jpeg_shows_the_picture() {
    let mut pixels = Vec::new();
    for _ in 0..16 * 16 {
        pixels.extend_from_slice(&[200, 30, 30]);
    }
    let image = DecodedImage::new(16, 16, pixels).unwrap();
    let jpeg = encode(&image).unwrap();
    let again = image::load_from_memory(&jpeg).unwrap().to_rgb8();
    let pixel = again.get_pixel(8, 8);
    assert!(pixel[0] > 170 && pixel[1] < 60 && pixel[2] < 60);
}

#[test]
fn transcoding_twice_gives_the_same_bytes() {
    let first = transcode(packed(64, 48)).unwrap();
    let second = transcode(packed(64, 48)).unwrap();
    assert_eq!(first, second);
}

#[test]
fn transcode_passes_decode_errors_on() {
    assert_eq!(
        transcode(DecoderReport::InvalidContainer),
        Err(TranscodeError::Decode(DecodeError::InvalidContainer))
    );
    assert_eq!(
        transcode(DecoderReport::NoPrimaryImage),
        Err(TranscodeError::Decode(DecodeError::NoPrimaryImage))
    );
    assert_eq!(
        transcode(DecoderReport::DecodeFailure),
        Err(TranscodeError::Decode(DecodeError::DecodeFailure))
    );
    assert_eq!(
        transcode(DecoderReport::Decoded { width: 3, height: 3, plane: None }),
        Err(TranscodeError::Decode(DecodeError::DecodeFailure))
    );
}

#[test]
fn picture_that_the_encoder_refuses_is_an_io_error() {
    let empty = DecodedImage::new(0, 0, Vec::new()).unwrap();
    assert_eq!(encode(&empty), Err(TranscodeError::Io));
    let wide = DecodedImage::new(70_000, 1, vec![0; 210_000]).unwrap();
    assert_eq!(encode(&wide), Err(TranscodeError::Io));
    let flat = DecodedImage::new(7, 0, Vec::new()).unwrap();
    assert_eq!(encode(&flat), Err(TranscodeError::Io));
    let tall = DecodedImage::new(1, 65_536, vec![0; 196_608]).unwrap();
    assert_eq!(encode(&tall), Err(TranscodeError::Io));
}

#[test]
fn widest_picture_that_a_jpeg_holds_is_encoded() {
    let widest = DecodedImage::new(65_535, 1, vec![90; 196_605]).unwrap();
    let jpeg = encode(&widest).unwrap();
    let again = image::load_from_memory(&jpeg).unwrap();
    assert_eq!((again.width(), again.height()), (65_535, 1));
}

#[test]
fn encoder_outcome_maps_to_the_transcoder_result() {
    assert_eq!(encoded(Ok(vec![1, 2, 3])), Ok(vec![1, 2, 3]));
    let failure = image::ImageError::IoError(std::io::Error::other("disk full"));
    assert_eq!(encoded(Err(failure)), Err(TranscodeError::Io));
}
