//! The logo images: decoding the embedded PNG files into pixel data for the window and
//! the tray.
use vstd::prelude::*;

verus! {

/// The first frame that the `png` crate decodes from a PNG file (with the decoder's default
/// settings): its pixel bytes as the decoder writes them, row by row, with the frame's
/// width and height; `None` when the decoder refuses the file.
pub uninterp spec fn png_frame(png: Seq<u8>) -> Option<(Seq<u8>, u32, u32)>;

/// Decodes the first frame of a PNG file. Trusted: the body calls `png::Decoder::new`,
/// `Decoder::read_info`, `Reader::output_buffer_size` and `Reader::next_frame` and keeps the
/// first `OutputInfo::buffer_size` bytes of the buffer, as the crate's documentation shows;
/// the contract claims only that the result is a function of the file's bytes, and `None`
/// exactly when reading the header or the frame fails. Left unsaid: that an image whose
/// declared size fits the decoder's checks can always be allocated.
#[verifier::external_body]
fn decode_png(png: &[u8]) -> (r: Option<(Vec<u8>, u32, u32)>)
    ensures
        r matches Some(x) ==> png_frame(png@) == Some((x.0@, x.1, x.2)),
        r is None ==> png_frame(png@) is None,
{
    let mut reader = match png::Decoder::new(png).read_info() {
        Ok(reader) => reader,
        Err(_) => return None,
    };
    let mut buf = vec![0; reader.output_buffer_size()];
    match reader.next_frame(&mut buf) {
        Ok(info) => Some((buf[..info.buffer_size()].to_vec(), info.width, info.height)),
        Err(_) => None,
    }
}

/// A decoded image: its pixel bytes, row by row, and its size in pixels.
pub struct LogoImage {
    pub pixels: Vec<u8>,
    pub width: u32,
    pub height: u32,
}

/// Decodes an embedded logo (a PNG file) for the window and the tray.
pub fn decode_logo(png: &[u8]) -> (img: Option<LogoImage>)
    ensures
        match png_frame(png@) {
            Some((pixels, width, height)) => img matches Some(i) && i.pixels@ == pixels && i.width
                == width && i.height == height,
            None => img is None,
        },
{
    match decode_png(png) {
        Some((pixels, width, height)) => Some(LogoImage { pixels, width, height }),
        None => None,
    }
}

} // verus!
