//! Map images: decoded pixels, and their portable PNG data-URL form.
use crate::error::Error;
use crate::model::blp::{blp_is_within_limits, blp_within_limits};
use base64::Engine;
use vstd::prelude::*;
use vstd::string::StringExecFns;

verus! {

/// What `image_blp` decodes from `data`: `parser::load_blp_from_buf`, then
/// `convert::blp_to_image` at mipmap level 0, as width, height and 8-bit RGBA
/// pixels row by row; `None` when either step fails.
pub uninterp spec fn blp_rgba(data: Seq<u8>) -> Option<(u32, u32, Seq<u8>)>;

/// What the `image` crate decodes from `data` as a TGA file: a
/// `codecs::tga::TgaDecoder` read whole by `DynamicImage::from_decoder`, as
/// width, height and 8-bit RGBA pixels; `None` when either step fails.
pub uninterp spec fn tga_rgba(data: Seq<u8>) -> Option<(u32, u32, Seq<u8>)>;

/// The PNG file the `image` crate writes for a `width` x `height` RGBA image
/// with pixels `rgba`, or `None` when it writes none.
pub uninterp spec fn png_of_rgba(width: u32, height: u32, rgba: Seq<u8>) -> Option<Seq<u8>>;

/// The base64 digit for the six-bit value `v`, in the standard alphabet.
pub open spec fn base64_digit(v: int) -> char {
    "ABCDEFGHIJKLMNOPQRSTUVWXYZabcdefghijklmnopqrstuvwxyz0123456789+/"@[v]
}

/// `bytes` in standard padded base64: each group of three bytes becomes four
/// digits of six bits each, high bits first, and a last group of one or two
/// bytes is filled with zero bits and padded with `=` to four characters.
pub open spec fn base64_standard(bytes: Seq<u8>) -> Seq<char>
    decreases bytes.len(),
{
    let a = if bytes.len() > 0 { bytes[0] as int } else { 0 };
    let b = if bytes.len() > 1 { bytes[1] as int } else { 0 };
    let c = if bytes.len() > 2 { bytes[2] as int } else { 0 };
    if bytes.len() == 0 {
        Seq::empty()
    } else if bytes.len() == 1 {
        seq![base64_digit(a / 4), base64_digit((a % 4) * 16), '=', '=']
    } else if bytes.len() == 2 {
        seq![base64_digit(a / 4), base64_digit((a % 4) * 16 + b / 16), base64_digit((b % 16) * 4), '=']
    } else {
        seq![
            base64_digit(a / 4),
            base64_digit((a % 4) * 16 + b / 16),
            base64_digit((b % 16) * 4 + c / 64),
            base64_digit(c % 64),
        ] + base64_standard(bytes.skip(3))
    }
}

/// Calls `image_blp::parser::load_blp_from_buf` and
/// `image_blp::convert::blp_to_image(_, 0)`, then `DynamicImage::to_rgba8`.
/// The result is named, not stated. What is stated is what the `image`
/// source shows of `to_rgba8`: the pixel buffer is allocated with exactly four
/// bytes per pixel. The buffer must be within `blp_within_limits`: outside
/// them the parser's 32-bit sums wrap and its slicing panics, the DXT block
/// decoder (texpresso) reads past the blocks it was given or is handed a
/// zero width, or the content is JPEG, which would reach the `jpeg-decoder`
/// crate. Inside them the parser checks every offset and length against the
/// buffer before it slices, the paletted and uncompressed converters check
/// their sizes before they index, and the DXT decoder reads only blocks it
/// holds. The parser's `trace!` arguments (one multiplies a pixel count by 4)
/// are evaluated only where a logger enables that level, which this library
/// never does.
#[verifier::external_body]
fn decode_blp(data: &[u8]) -> (r: Option<(u32, u32, Vec<u8>)>)
    requires
        blp_within_limits(data@),
    ensures
        match r {
            Some((w, h, p)) => blp_rgba(data@) == Some((w, h, p@)) && p@.len() == 4 * w * h,
            None => blp_rgba(data@) is None,
        },
{
    let blp = image_blp::parser::load_blp_from_buf(data).ok()?;
    let rgba = image_blp::convert::blp_to_image(&blp, 0).ok()?.to_rgba8();
    Some((rgba.width(), rgba.height(), rgba.into_raw()))
}

/// Calls `image::codecs::tga::TgaDecoder::new` on the bytes and
/// `image::DynamicImage::from_decoder`, then `to_rgba8`. The result is named,
/// not stated, beyond the four bytes per pixel that `to_rgba8` allocates. The
/// decoder allocates what the file's header declares, which is not bounded
/// here.
#[verifier::external_body]
fn decode_tga(data: &[u8]) -> (r: Option<(u32, u32, Vec<u8>)>)
    ensures
        match r {
            Some((w, h, p)) => tga_rgba(data@) == Some((w, h, p@)) && p@.len() == 4 * w * h,
            None => tga_rgba(data@) is None,
        },
{
    let decoder = image::codecs::tga::TgaDecoder::new(std::io::Cursor::new(data)).ok()?;
    let rgba = image::DynamicImage::from_decoder(decoder).ok()?.to_rgba8();
    Some((rgba.width(), rgba.height(), rgba.into_raw()))
}

/// Calls `image::RgbaImage::from_raw` and `write_to` with
/// `ImageOutputFormat::Png` into a buffer. The PNG bytes are named, not
/// stated; whether encoding succeeds is not stated either.
#[verifier::external_body]
pub(crate) fn encode_png(width: u32, height: u32, rgba: &[u8]) -> (r: Option<Vec<u8>>)
    ensures
        match r {
            Some(v) => png_of_rgba(width, height, rgba@) == Some(v@),
            None => png_of_rgba(width, height, rgba@) is None,
        },
{
    let image = image::RgbaImage::from_raw(width, height, rgba.to_vec())?;
    let mut png = std::io::Cursor::new(Vec::new());
    image.write_to(&mut png, image::ImageOutputFormat::Png).ok()?;
    Some(png.into_inner())
}

/// Calls `base64::engine::general_purpose::STANDARD.encode`: the standard
/// alphabet with padding, as `base64_standard` spells it out.
#[verifier::external_body]
pub(crate) fn encode_base64(bytes: &[u8]) -> (s: String)
    ensures
        s@ == base64_standard(bytes@),
{
    base64::engine::general_purpose::STANDARD.encode(bytes)
}

/// A decoded map image: its size and its pixels as 8-bit RGBA, row by row.
#[derive(Debug, Clone)]
pub struct War3Image {
    pub width: u32,
    pub height: u32,
    /// Four bytes per pixel: red, green, blue, alpha.
    pub rgba: Vec<u8>,
    /// The name of the member the image was read from.
    pub filename: String,
}

/// A decoded image as the library sees it.
pub struct War3ImageView {
    pub width: u32,
    pub height: u32,
    pub rgba: Seq<u8>,
    pub filename: Seq<char>,
}

impl View for War3Image {
    type V = War3ImageView;

    open spec fn view(&self) -> War3ImageView {
        War3ImageView { width: self.width, height: self.height, rgba: self.rgba@, filename: self.filename@ }
    }
}

/// Portable image representation: a PNG as a data URL.
#[derive(Debug, Clone)]
pub struct War3ImageData {
    /// `data:image/png;base64,...`
    pub data_url: String,
    pub width: u32,
    pub height: u32,
    pub filename: String,
}

/// An encoded image as the library sees it.
pub struct War3ImageDataView {
    pub data_url: Seq<char>,
    pub width: u32,
    pub height: u32,
    pub filename: Seq<char>,
}

impl View for War3ImageData {
    type V = War3ImageDataView;

    open spec fn view(&self) -> War3ImageDataView {
        War3ImageDataView {
            data_url: self.data_url@,
            width: self.width,
            height: self.height,
            filename: self.filename@,
        }
    }
}

/// What encoding the image `i` as a PNG data URL gives, when the PNG encoder
/// writes one.
pub open spec fn image_data_of(i: War3ImageView) -> Option<War3ImageDataView> {
    match png_of_rgba(i.width, i.height, i.rgba) {
        Some(png) => Some(
            War3ImageDataView { data_url: png_data_url(png), width: i.width, height: i.height, filename: i.filename },
        ),
        None => None,
    }
}

/// The image a decoder's result makes under the name `filename`.
pub open spec fn image_of(decoded: (u32, u32, Seq<u8>), filename: Seq<char>) -> War3ImageView {
    War3ImageView { width: decoded.0, height: decoded.1, rgba: decoded.2, filename }
}

/// What decoding `data` as BLP gives: nothing where its header is outside
/// the decoder's limits.
pub open spec fn blp_decoded(data: Seq<u8>) -> Option<(u32, u32, Seq<u8>)> {
    if blp_within_limits(data) {
        blp_rgba(data)
    } else {
        None
    }
}

/// What decoding `data` gives: BLP first, then TGA.
pub open spec fn decoded_image(data: Seq<u8>) -> Option<(u32, u32, Seq<u8>)> {
    match blp_decoded(data) {
        Some(d) => Some(d),
        None => tga_rgba(data),
    }
}

/// Whether `r` is what decoding `data` with `decoded` (one decoder's named
/// result) gives under the name `filename`: the image, or an
/// unsupported-image error naming the file.
pub open spec fn decodes_with(
    decoded: Option<(u32, u32, Seq<u8>)>,
    filename: Seq<char>,
    r: Result<War3Image, Error>,
) -> bool {
    match decoded {
        Some(d) => r matches Ok(img) && img@ == image_of(d, filename) && img.wf(),
        None => r matches Err(Error::UnsupportedImage(s)) && s@ == filename,
    }
}

/// The URL of a PNG file as data.
pub open spec fn png_data_url(png: Seq<u8>) -> Seq<char> {
    "data:image/png;base64,"@ + base64_standard(png)
}

impl War3Image {
    /// Four bytes for every pixel.
    pub open spec fn wf(&self) -> bool {
        self.rgba@.len() == 4 * self.width * self.height
    }

    fn from_decoded(decoded: Option<(u32, u32, Vec<u8>)>, filename: &str) -> (r: Result<Self, Error>)
        requires
            decoded matches Some((w, h, p)) ==> p@.len() == 4 * w * h,
        ensures
            decodes_with(
                match decoded {
                    Some((w, h, p)) => Some((w, h, p@)),
                    None => None,
                },
                filename@,
                r,
            ),
    {
        match decoded {
            Some((width, height, rgba)) => Ok(War3Image { width, height, rgba, filename: String::from_str(filename) }),
            None => Err(Error::UnsupportedImage(String::from_str(filename))),
        }
    }

    /// Decode a BLP buffer. A buffer outside the decoder's limits (see
    /// `blp_within_limits`), JPEG content among them, is refused as an
    /// unsupported image.
    pub fn load_blp(buffer: &[u8], filename: &str) -> (r: Result<Self, Error>)
        ensures
            decodes_with(blp_decoded(buffer@), filename@, r),
    {
        if blp_is_within_limits(buffer) {
            Self::from_decoded(decode_blp(buffer), filename)
        } else {
            Self::from_decoded(None, filename)
        }
    }

    /// Decode a TGA buffer.
    pub fn load_tga(buffer: &[u8], filename: &str) -> (r: Result<Self, Error>)
        ensures
            decodes_with(tga_rgba(buffer@), filename@, r),
    {
        Self::from_decoded(decode_tga(buffer), filename)
    }

    /// Decode a buffer, trying BLP first, then TGA.
    pub fn from_buffer(data: &[u8], filename: &str) -> (r: Result<Self, Error>)
        ensures
            decodes_with(decoded_image(data@), filename@, r),
    {
        match Self::load_blp(data, filename) {
            Ok(image) => Ok(image),
            Err(_) => Self::load_tga(data, filename),
        }
    }

    /// Encode as a portable PNG data-URL snapshot.
    pub fn to_data(&self) -> (r: Result<War3ImageData, Error>)
        ensures
            match png_of_rgba(self.width, self.height, self.rgba@) {
                Some(png) => r matches Ok(d) && d.data_url@ == png_data_url(png) && d.width == self.width
                    && d.height == self.height && d.filename@ == self.filename@,
                None => r matches Err(Error::ImageEncoding(s)) && s@ == self.filename@,
            },
    {
        match encode_png(self.width, self.height, self.rgba.as_slice()) {
            Some(png) => {
                let mut data_url = String::from_str("data:image/png;base64,");
                data_url.append(encode_base64(png.as_slice()).as_str());
                Ok(War3ImageData { data_url, width: self.width, height: self.height, filename: self.filename.clone() })
            },
            None => Err(Error::ImageEncoding(self.filename.clone())),
        }
    }
}

/// An image as a PNG data URL, with the name it was read under.
#[derive(Debug, Clone)]
pub struct War3ImageBase64 {
    /// `data:image/png;base64,...`
    pub data: String,
    pub filename: String,
}

impl vstd::std_specs::convert::TryFromSpecImpl<War3Image> for War3ImageBase64 {
    /// The conversion's result is stated by `try_from`'s own contract, not by
    /// a spec function.
    open spec fn obeys_try_from_spec() -> bool {
        false
    }

    open spec fn try_from_spec(v: War3Image) -> Result<Self, Error> {
        vstd::pervasive::arbitrary()
    }
}

impl TryFrom<War3Image> for War3ImageBase64 {
    type Error = Error;

    /// Encode the image as a PNG data URL.
    fn try_from(image: War3Image) -> (r: Result<Self, Error>)
        ensures
            match png_of_rgba(image.width, image.height, image.rgba@) {
                Some(png) => r matches Ok(b) && b.data@ == png_data_url(png) && b.filename@ == image.filename@,
                None => r matches Err(Error::ImageEncoding(s)) && s@ == image.filename@,
            },
    {
        match encode_png(image.width, image.height, image.rgba.as_slice()) {
            Some(png) => {
                let mut data = String::from_str("data:image/png;base64,");
                data.append(encode_base64(png.as_slice()).as_str());
                Ok(War3ImageBase64 { data, filename: image.filename })
            },
            None => Err(Error::ImageEncoding(image.filename)),
        }
    }
}

} // verus!
