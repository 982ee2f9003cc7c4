//! The image transcoder: checks what the HEIF decoder reported for one payload and
//! encodes the decoded picture as a baseline JPEG.
//!
//! Decoding is the caller's part. The caller hands over a [`DecoderReport`]; the
//! library decides whether it holds a usable picture, and which error it stands for
//! where it does not. The JPEG is made by the `image` crate and returned as bytes.
use vstd::prelude::*;

verus! {

/// `image::ImageError`, the error of the JPEG encoder.
#[verifier::external_type_specification]
#[verifier::external_body]
pub struct ExImageError(image::ImageError);

/// The number of bytes of an interleaved 8-bit RGB picture without padding: three for
/// each pixel.
pub open spec fn rgb_len(width: u32, height: u32) -> int {
    width * height * 3
}

/// The bytes that `image::write_buffer_with_format` writes for an 8-bit RGB picture in
/// the JPEG format, or `None` where it returns an error.
pub uninterp spec fn jpeg_encoding(pixels: Seq<u8>, width: u32, height: u32) -> Option<Seq<u8>>;

/// Whether a JPEG can hold a picture of these dimensions: each side has at least one
/// pixel and at most 65535.
pub open spec fn fits_jpeg(width: u32, height: u32) -> bool {
    1 <= width <= 65535 && 1 <= height <= 65535
}

/// Calls `image::write_buffer_with_format` with the colour type `Rgb8` and the format
/// `Jpeg`, writing into memory. Trusted: what it writes depends on the pixels and the
/// dimensions alone, and it refuses a picture that no JPEG can hold. That it accepts
/// every other picture is not claimed: its remaining errors are those of the writer.
/// The buffer must hold three bytes for each pixel, since the encoder panics on any
/// other length.
#[verifier::external_body]
fn encode_jpeg(pixels: &Vec<u8>, width: u32, height: u32) -> (r: Result<Vec<u8>, image::ImageError>)
    requires
        pixels@.len() == rgb_len(width, height),
    ensures
        match r {
            Ok(jpeg) => jpeg_encoding(pixels@, width, height) == Some(jpeg@),
            Err(_) => jpeg_encoding(pixels@, width, height) is None,
        },
        !fits_jpeg(width, height) ==> r is Err,
{
    let mut out = std::io::Cursor::new(Vec::new());
    image::write_buffer_with_format(
        &mut out,
        pixels,
        width,
        height,
        image::ColorType::Rgb8,
        image::ImageFormat::Jpeg,
    )?;
    Ok(out.into_inner())
}

/// Why a HEIC payload gave no picture.
#[derive(Debug, Clone, Copy, PartialEq, Eq, Structural)]
pub enum DecodeError {
    /// The bytes are no valid HEIF container.
    InvalidContainer,
    /// The container designates no primary image.
    NoPrimaryImage,
    /// The decoder reported an error, or what it returned is no packed RGB buffer of
    /// the declared dimensions.
    DecodeFailure,
}

/// Why a HEIC payload gave no JPEG.
#[derive(Debug, Clone, Copy, PartialEq, Eq, Structural)]
pub enum TranscodeError {
    /// The payload could not be decoded.
    Decode(DecodeError),
    /// The JPEG could not be produced or written.
    Io,
}

/// The interleaved plane of a decoded picture, as the decoder handed it out.
#[derive(Debug)]
pub struct InterleavedPlane {
    /// The number of bytes from the start of one row to the start of the next.
    pub stride: usize,
    /// The bytes of all rows.
    pub data: Vec<u8>,
}

/// What the HEIF decoder reported for one payload.
#[derive(Debug)]
pub enum DecoderReport {
    /// It refused the bytes as a HEIF container.
    InvalidContainer,
    /// It found no primary image in the container.
    NoPrimaryImage,
    /// It could not decode the primary image.
    DecodeFailure,
    /// It decoded the primary image to RGB. `width` and `height` are the dimensions
    /// that the container declares; `plane` is the interleaved plane of the decoded
    /// picture, if it has one.
    Decoded { width: u32, height: u32, plane: Option<InterleavedPlane> },
}

/// An [`InterleavedPlane`] as plain data.
pub struct PlaneView {
    pub stride: usize,
    pub data: Seq<u8>,
}

impl View for InterleavedPlane {
    type V = PlaneView;

    open spec fn view(&self) -> PlaneView {
        PlaneView { stride: self.stride, data: self.data@ }
    }
}

/// A [`DecoderReport`] as plain data.
pub enum ReportView {
    InvalidContainer,
    NoPrimaryImage,
    DecodeFailure,
    Decoded { width: u32, height: u32, plane: Option<PlaneView> },
}

impl View for DecoderReport {
    type V = ReportView;

    open spec fn view(&self) -> ReportView {
        match self {
            DecoderReport::InvalidContainer => ReportView::InvalidContainer,
            DecoderReport::NoPrimaryImage => ReportView::NoPrimaryImage,
            DecoderReport::DecodeFailure => ReportView::DecodeFailure,
            DecoderReport::Decoded { width, height, plane } => ReportView::Decoded {
                width: *width,
                height: *height,
                plane: match plane {
                    Some(plane) => Some(plane@),
                    None => None,
                },
            },
        }
    }
}

/// A decoded picture as plain data.
pub struct ImageView {
    pub width: u32,
    pub height: u32,
    pub pixels: Seq<u8>,
}

/// Whether a plane is a packed RGB buffer of the given dimensions: its rows follow
/// each other without padding, and it holds three bytes for each pixel.
pub open spec fn is_packed(width: u32, height: u32, plane: PlaneView) -> bool {
    &&& plane.stride == 3 * width
    &&& plane.data.len() == rgb_len(width, height)
}

/// The picture that a report holds, or the error that it stands for.
pub open spec fn decode_model(report: ReportView) -> Result<ImageView, DecodeError> {
    match report {
        ReportView::InvalidContainer => Err(DecodeError::InvalidContainer),
        ReportView::NoPrimaryImage => Err(DecodeError::NoPrimaryImage),
        ReportView::DecodeFailure => Err(DecodeError::DecodeFailure),
        ReportView::Decoded { width, height, plane } => match plane {
            Some(plane) => if is_packed(width, height, plane) {
                Ok(ImageView { width, height, pixels: plane.data })
            } else {
                Err(DecodeError::DecodeFailure)
            },
            None => Err(DecodeError::DecodeFailure),
        },
    }
}

/// The JPEG that a report leads to, or the error that it stands for.
pub open spec fn transcode_model(report: ReportView) -> Result<Seq<u8>, TranscodeError> {
    match decode_model(report) {
        Ok(image) => match jpeg_encoding(image.pixels, image.width, image.height) {
            Some(jpeg) => Ok(jpeg),
            None => Err(TranscodeError::Io),
        },
        Err(e) => Err(TranscodeError::Decode(e)),
    }
}

/// Whether `result` is what transcoding `report` returns.
pub open spec fn is_transcoded(report: ReportView, result: Result<Vec<u8>, TranscodeError>) -> bool {
    match result {
        Ok(jpeg) => transcode_model(report) == Ok::<Seq<u8>, TranscodeError>(jpeg@),
        Err(e) => transcode_model(report) == Err::<Seq<u8>, TranscodeError>(e),
    }
}

/// The number of bytes of an interleaved 8-bit RGB picture without padding.
pub fn rgb_buffer_len(width: u32, height: u32) -> (n: u128)
    ensures
        n == rgb_len(width, height),
{
    assert(width * height <= 0xffff_ffff * 0xffff_ffff) by (nonlinear_arith)
        requires
            width <= 0xffff_ffff,
            height <= 0xffff_ffff,
    ;
    let pixels: u64 = (width as u64) * (height as u64);
    (pixels as u128) * 3
}

/// A decoded picture: its dimensions and its pixels as interleaved 8-bit RGB, row by
/// row without padding. The buffer always holds three bytes for each pixel.
#[derive(Debug)]
pub struct DecodedImage {
    width: u32,
    height: u32,
    pixels: Vec<u8>,
}

impl View for DecodedImage {
    type V = ImageView;

    closed spec fn view(&self) -> ImageView {
        ImageView { width: self.width, height: self.height, pixels: self.pixels@ }
    }
}

impl DecodedImage {
    #[verifier::type_invariant]
    spec fn holds_every_pixel(self) -> bool {
        self.pixels@.len() == rgb_len(self.width, self.height)
    }

    /// Makes a picture of a buffer that holds three bytes for each pixel, and refuses
    /// any other buffer with `DecodeFailure`.
    pub fn new(width: u32, height: u32, pixels: Vec<u8>) -> (r: Result<DecodedImage, DecodeError>)
        ensures
            match r {
                Ok(image) => {
                    &&& pixels@.len() == rgb_len(width, height)
                    &&& image@ == (ImageView { width, height, pixels: pixels@ })
                },
                Err(e) => e == DecodeError::DecodeFailure && pixels@.len() != rgb_len(width, height),
            },
    {
        if pixels.len() as u128 == rgb_buffer_len(width, height) {
            Ok(DecodedImage { width, height, pixels })
        } else {
            Err(DecodeError::DecodeFailure)
        }
    }

    /// The width in pixels.
    pub fn width(&self) -> (w: u32)
        ensures
            w == self@.width,
    {
        self.width
    }

    /// The height in pixels.
    pub fn height(&self) -> (h: u32)
        ensures
            h == self@.height,
    {
        self.height
    }

    /// The pixels: three bytes for each, row by row.
    pub fn pixels(&self) -> (p: &Vec<u8>)
        ensures
            p@ == self@.pixels,
            p@.len() == rgb_len(self@.width, self@.height),
    {
        proof {
            use_type_invariant(self);
        }
        &self.pixels
    }
}

/// Checks what the decoder reported. The result is a picture exactly where the decoder
/// handed out an interleaved plane that is a packed RGB buffer of the declared
/// dimensions; the buffer of that picture then holds `width * height * 3` bytes. A
/// refused container, a missing primary image and a decoder error give the error of
/// their name; a missing or padded plane, or one of another size, gives
/// `DecodeFailure`.
pub fn decoded_image(report: DecoderReport) -> (r: Result<DecodedImage, DecodeError>)
    ensures
        match r {
            Ok(image) => decode_model(report@) == Ok::<ImageView, DecodeError>(image@),
            Err(e) => decode_model(report@) == Err::<ImageView, DecodeError>(e),
        },
        r matches Ok(image) ==> image@.pixels.len() == rgb_len(image@.width, image@.height),
{
    match report {
        DecoderReport::InvalidContainer => Err(DecodeError::InvalidContainer),
        DecoderReport::NoPrimaryImage => Err(DecodeError::NoPrimaryImage),
        DecoderReport::DecodeFailure => Err(DecodeError::DecodeFailure),
        DecoderReport::Decoded { width, height, plane } => match plane {
            Some(plane) => {
                if plane.stride as u128 == 3 * (width as u128) {
                    DecodedImage::new(width, height, plane.data)
                } else {
                    Err(DecodeError::DecodeFailure)
                }
            },
            None => Err(DecodeError::DecodeFailure),
        },
    }
}

/// What the transcoder returns for what the encoder returned: the JPEG, or `Io` where
/// the encoder failed.
pub fn encoded(outcome: Result<Vec<u8>, image::ImageError>) -> (r: Result<Vec<u8>, TranscodeError>)
    ensures
        r is Err <==> outcome is Err,
        match outcome {
            Ok(jpeg) => r == Ok::<Vec<u8>, TranscodeError>(jpeg),
            Err(_) => r == Err::<Vec<u8>, TranscodeError>(TranscodeError::Io),
        },
{
    match outcome {
        Ok(jpeg) => Ok(jpeg),
        Err(_) => Err(TranscodeError::Io),
    }
}

/// Encodes a picture as a baseline JPEG and returns the bytes of the file. Fails with
/// `Io` exactly where the encoder does, which it does for every picture with a side of
/// no pixel or of more than 65535.
pub fn encode(image: &DecodedImage) -> (r: Result<Vec<u8>, TranscodeError>)
    ensures
        match r {
            Ok(jpeg) => jpeg_encoding(image@.pixels, image@.width, image@.height) == Some(jpeg@),
            Err(e) => {
                &&& e == TranscodeError::Io
                &&& jpeg_encoding(image@.pixels, image@.width, image@.height) is None
            },
        },
        !fits_jpeg(image@.width, image@.height) ==> r is Err,
{
    proof {
        use_type_invariant(image);
    }
    encoded(encode_jpeg(&image.pixels, image.width, image.height))
}

/// Turns what the decoder reported for one HEIC payload into the bytes of a JPEG file.
/// A report that holds no usable picture gives the decode error that it stands for;
/// a picture that the encoder refuses gives `Io`.
pub fn transcode(report: DecoderReport) -> (r: Result<Vec<u8>, TranscodeError>)
    ensures
        is_transcoded(report@, r),
{
    match decoded_image(report) {
        Ok(image) => encode(&image),
        Err(e) => Err(TranscodeError::Decode(e)),
    }
}

/// Transcoding can be repeated: two runs on reports that hold the same data end
/// alike, with the same bytes of JPEG or with the same error.
pub proof fn lemma_transcode_repeatable(
    first: DecoderReport,
    second: DecoderReport,
    a: Result<Vec<u8>, TranscodeError>,
    b: Result<Vec<u8>, TranscodeError>,
)
    requires
        first@ == second@,
        is_transcoded(first@, a),
        is_transcoded(second@, b),
    ensures
        match a {
            Ok(jpeg) => b matches Ok(again) && again@ == jpeg@,
            Err(e) => b == Err::<Vec<u8>, TranscodeError>(e),
        },
{
}

} // verus!
