//! Images for embedding: JPEG bytes pass through with the DCT filter, PNG
//! input is decoded to raw RGB samples that the writer later
//! Flate-compresses. Decoding goes through the `image` crate behind trusted
//! wrappers; format detection and assembly are verified.
use vstd::prelude::*;
use crate::writer::clone_bytes;
use vstd::string::StrSliceExecFns;

verus! {

/// What probing a JPEG yields: width, height, and whether it is grayscale.
pub uninterp spec fn jpeg_probe_of(data: Seq<u8>) -> Option<(u32, u32, bool)>;

/// What decoding a PNG yields: width, height, and the raw interleaved RGB
/// samples.
pub uninterp spec fn png_decode_of(data: Seq<u8>) -> Option<(u32, u32, Seq<u8>)>;

/// What zlib compression of a byte string yields at the default level.
pub uninterp spec fn deflate_of(data: Seq<u8>) -> Seq<u8>;

/// Relies on `image::load_from_memory_with_format` with the JPEG decoder:
/// the parsed dimensions and color type depend on the bytes alone. The
/// grayscale flag is whether the color type is eight-bit luma.
#[verifier::external_body]
fn jpeg_probe(data: &Vec<u8>) -> (r: Option<(u32, u32, bool)>)
    ensures
        r == jpeg_probe_of(data@),
{
    match image::load_from_memory_with_format(data, image::ImageFormat::Jpeg) {
        Ok(img) => {
            let w = image::GenericImageView::dimensions(&img);
            let gray = matches!(img.color(), image::ColorType::L8);
            Some((w.0, w.1, gray))
        },
        Err(_) => None,
    }
}

/// Relies on `image::load_from_memory_with_format` with the PNG decoder and
/// `DynamicImage::to_rgb8`: the decoded size and samples depend on the
/// bytes alone, and an RGB8 buffer holds exactly three bytes per pixel.
#[verifier::external_body]
fn png_decode(data: &Vec<u8>) -> (r: Option<(u32, u32, Vec<u8>)>)
    ensures
        (match (r, png_decode_of(data@)) {
            (Some(a), Some(b)) => a.0 == b.0 && a.1 == b.1 && a.2@ == b.2 && a.2@.len() == 3
                * a.0 * a.1,
            (None, None) => true,
            _ => false,
        }),
{
    match image::load_from_memory_with_format(data, image::ImageFormat::Png) {
        Ok(img) => {
            let (w, h) = image::GenericImageView::dimensions(&img);
            Some((w, h, img.to_rgb8().into_raw()))
        },
        Err(_) => None,
    }
}

/// Relies on `flate2::write::ZlibEncoder` at the default level: the
/// compressed stream is a function of the input bytes. Writing into a
/// `Vec` sink cannot fail.
#[verifier::external_body]
pub fn deflate(data: &Vec<u8>) -> (r: Vec<u8>)
    ensures
        r@ == deflate_of(data@),
{
    let mut enc = flate2::write::ZlibEncoder::new(Vec::new(), flate2::Compression::default());
    std::io::Write::write_all(&mut enc, data).expect("writing to a Vec cannot fail");
    enc.finish().expect("writing to a Vec cannot fail")
}

/// Why image bytes were rejected.
#[derive(PartialEq, Eq, Structural, Clone, Copy, Debug)]
pub enum ImageError {
    /// The bytes begin with neither a JPEG nor a PNG signature.
    UnknownFormat,
    /// The signature matched but the decoder rejected the data.
    Malformed,
}

/// An image ready for embedding.
pub struct Image {
    pub width: u32,
    pub height: u32,
    pub color_space: String,
    pub bits_per_component: u8,
    pub data: Vec<u8>,
    pub filter: Option<String>,
}

/// The JPEG start-of-image marker bytes.
pub open spec fn is_jpeg(data: Seq<u8>) -> bool {
    data.len() >= 3 && data[0] == 0xff && data[1] == 0xd8 && data[2] == 0xff
}

/// The PNG signature bytes.
pub open spec fn is_png(data: Seq<u8>) -> bool {
    &&& data.len() >= 8
    &&& data[0] == 0x89
    &&& data[1] == 0x50
    &&& data[2] == 0x4e
    &&& data[3] == 0x47
    &&& data[4] == 0x0d
    &&& data[5] == 0x0a
    &&& data[6] == 0x1a
    &&& data[7] == 0x0a
}

impl Image {
    /// Load a JPEG: the original bytes are kept and marked for the DCT
    /// filter, so the stream passes through byte for byte.
    pub fn load_jpeg(data: &Vec<u8>) -> (r: Result<Image, ImageError>)
        ensures
            r is Ok <==> jpeg_probe_of(data@) is Some,
            r matches Ok(img) ==> {
                let info = jpeg_probe_of(data@)->Some_0;
                &&& img.width == info.0
                &&& img.height == info.1
                &&& img.color_space@ == (if info.2 {
                    "DeviceGray"@
                } else {
                    "DeviceRGB"@
                })
                &&& img.bits_per_component == 8
                &&& img.data@ == data@
                &&& (img.filter matches Some(f) && f@ == "DCTDecode"@)
            },
            r matches Err(e) ==> e is Malformed,
    {
        match jpeg_probe(data) {
            Some((w, h, gray)) => {
                let color_space: String = if gray {
                    gray_space()
                } else {
                    rgb_space()
                };
                Ok(
                    Image {
                        width: w,
                        height: h,
                        color_space,
                        bits_per_component: 8,
                        data: clone_bytes(data),
                        filter: Some(dct_name()),
                    },
                )
            },
            None => Err(ImageError::Malformed),
        }
    }

    /// Load a PNG: the samples are decoded to raw RGB and marked for Flate
    /// compression at write time.
    pub fn load_png(data: &Vec<u8>) -> (r: Result<Image, ImageError>)
        ensures
            r is Ok <==> png_decode_of(data@) is Some,
            r matches Ok(img) ==> {
                let info = png_decode_of(data@)->Some_0;
                &&& img.width == info.0
                &&& img.height == info.1
                &&& img.color_space@ == "DeviceRGB"@
                &&& img.bits_per_component == 8
                &&& img.data@ == info.2
                &&& img.data@.len() == 3 * img.width * img.height
                &&& (img.filter matches Some(f) && f@ == "FlateDecode"@)
            },
            r matches Err(e) ==> e is Malformed,
    {
        match png_decode(data) {
            Some((w, h, samples)) => {
                Ok(
                    Image {
                        width: w,
                        height: h,
                        color_space: rgb_space(),
                        bits_per_component: 8,
                        data: samples,
                        filter: Some(flate_name()),
                    },
                )
            },
            None => Err(ImageError::Malformed),
        }
    }

    /// Load an image from bytes, telling JPEG from PNG by their signatures.
    pub fn from_bytes(data: &Vec<u8>) -> (r: Result<Image, ImageError>)
        ensures
            !is_jpeg(data@) && !is_png(data@) ==> (r matches Err(e) && e is UnknownFormat),
            is_jpeg(data@) ==> (r is Ok <==> jpeg_probe_of(data@) is Some),
            is_png(data@) && !is_jpeg(data@) ==> (r is Ok <==> png_decode_of(data@) is Some),
    {
        if data.len() >= 3 && data[0] == 0xff && data[1] == 0xd8 && data[2] == 0xff {
            Image::load_jpeg(data)
        } else if data.len() >= 8 && data[0] == 0x89 && data[1] == 0x50 && data[2] == 0x4e
            && data[3] == 0x47 && data[4] == 0x0d && data[5] == 0x0a && data[6] == 0x1a && data[7]
            == 0x0a {
            Image::load_png(data)
        } else {
            Err(ImageError::UnknownFormat)
        }
    }
}

fn rgb_space() -> (r: String)
    ensures
        r@ == "DeviceRGB"@,
{
    "DeviceRGB".to_owned()
}

fn gray_space() -> (r: String)
    ensures
        r@ == "DeviceGray"@,
{
    "DeviceGray".to_owned()
}

fn dct_name() -> (r: String)
    ensures
        r@ == "DCTDecode"@,
{
    "DCTDecode".to_owned()
}

fn flate_name() -> (r: String)
    ensures
        r@ == "FlateDecode"@,
{
    "FlateDecode".to_owned()
}

} // verus!
