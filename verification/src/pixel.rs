use vstd::prelude::*;

use image::{ImageBuffer, Rgba};

use crate::image_io::ExportFormat;

verus! {

/// One pixel as egui stores it: red, green and blue already multiplied by
/// alpha, then alpha.
#[derive(Clone, Copy, Debug, PartialEq, Eq, Structural)]
pub struct Rgba8 {
    pub r: u8,
    pub g: u8,
    pub b: u8,
    pub a: u8,
}

/// An image: width and height, and the pixels row by row.
#[derive(Clone, Debug)]
pub struct PixelImage {
    pub size: [usize; 2],
    pub pixels: Vec<Rgba8>,
}

impl PixelImage {
    /// The pixel count agrees with the dimensions.
    pub open spec fn wf(&self) -> bool {
        self.size[0] * self.size[1] == self.pixels@.len()
    }
}

/// `val * frac / 255`, rounded, in the fixed-point form egui computes it.
pub open spec fn mul_frac_round(val: u8, frac: u8) -> u8 {
    let p = val * frac + 128;
    ((p + p / 256) / 256) as u8
}

/// The stored form of an unmultiplied colour: fully transparent colours become
/// transparent black, opaque ones are kept, the others have their colour
/// channels scaled by alpha.
pub open spec fn premultiplied(r: u8, g: u8, b: u8, a: u8) -> Rgba8 {
    if a == 0 {
        Rgba8 { r: 0, g: 0, b: 0, a: 0 }
    } else if a == 255 {
        Rgba8 { r, g, b, a: 255 }
    } else {
        Rgba8 { r: mul_frac_round(r, a), g: mul_frac_round(g, a), b: mul_frac_round(b, a), a }
    }
}

/// Calls `Color32::from_rgba_unmultiplied` and reads back the stored bytes.
/// Trusted: the result is `premultiplied`, as egui's source computes it
/// (transparent black for alpha 0, the colour unchanged for alpha 255, else
/// each channel through `mul_frac_round`).
#[verifier::external_body]
pub(crate) fn premultiply(r: u8, g: u8, b: u8, a: u8) -> (px: Rgba8)
    ensures
        px == premultiplied(r, g, b, a),
{
    let [r, g, b, a] = eframe::egui::Color32::from_rgba_unmultiplied(r, g, b, a).to_array();
    Rgba8 { r, g, b, a }
}

/// The pixels that unmultiplied RGBA bytes describe, four bytes per pixel.
pub open spec fn pixels_from_rgba(rgba: Seq<u8>) -> Seq<Rgba8> {
    Seq::new(
        rgba.len() / 4,
        |i: int| premultiplied(rgba[4 * i], rgba[4 * i + 1], rgba[4 * i + 2], rgba[4 * i + 3]),
    )
}

/// Calls `ColorImage::from_rgba_unmultiplied` and copies out its size and
/// pixels. Trusted: egui asserts `size[0] * size[1] * 4 == rgba.len()` and
/// turns every four bytes into one pixel with `Color32::from_rgba_unmultiplied`.
#[verifier::external_body]
fn color_image_from_rgba_unmultiplied(size: [usize; 2], rgba: &[u8]) -> (img: PixelImage)
    requires
        size[0] * size[1] * 4 == rgba@.len(),
    ensures
        img.size == size,
        img.pixels@ == pixels_from_rgba(rgba@),
{
    let image = eframe::egui::ColorImage::from_rgba_unmultiplied(size, rgba);
    let pixels = image.pixels.iter().map(|c| {
        let [r, g, b, a] = c.to_array();
        Rgba8 { r, g, b, a }
    }).collect();
    PixelImage { size: image.size, pixels }
}

/// Builds an image from decoded, unmultiplied RGBA bytes (four per pixel,
/// row by row).
pub fn image_from_rgba_unmultiplied(size: [usize; 2], rgba: &[u8]) -> (img: PixelImage)
    requires
        size[0] * size[1] * 4 == rgba@.len(),
    ensures
        img.wf(),
        img.size == size,
        img.pixels@.len() == size[0] * size[1],
        forall|i: int|
            0 <= i < img.pixels@.len() ==> #[trigger] img.pixels@[i] == premultiplied(
                rgba@[4 * i],
                rgba@[4 * i + 1],
                rgba@[4 * i + 2],
                rgba@[4 * i + 3],
            ),
{
    color_image_from_rgba_unmultiplied(size, rgba)
}

/// `bytes` lists the stored channels of `pixels` in order r, g, b, a.
pub open spec fn is_rgba_bytes_of(bytes: Seq<u8>, pixels: Seq<Rgba8>) -> bool {
    &&& bytes.len() == 4 * pixels.len()
    &&& forall|i: int|
        0 <= i < pixels.len() ==> {
            &&& #[trigger] bytes[4 * i] == pixels[i].r
            &&& bytes[4 * i + 1] == pixels[i].g
            &&& bytes[4 * i + 2] == pixels[i].b
            &&& bytes[4 * i + 3] == pixels[i].a
        }
}

/// An RGBA image buffer of the `image` crate, ready to be encoded. The
/// buffer is reached through the names below.
#[verifier::external_body]
pub struct RgbaBuffer(ImageBuffer<Rgba<u8>, Vec<u8>>);

/// The bytes that an RGBA buffer holds.
pub uninterp spec fn rgba_buffer_bytes(buf: RgbaBuffer) -> Seq<u8>;

/// The width and height of an RGBA buffer.
pub uninterp spec fn rgba_buffer_dims(buf: RgbaBuffer) -> (u32, u32);

/// Calls `ImageBuffer::from_vec` for RGBA pixels. Trusted: the `image` crate
/// returns a buffer exactly when `4 * width * height` fits in `usize` and is at
/// most `buf.len()`, and that buffer keeps `buf` and the dimensions unchanged.
#[verifier::external_body]
fn rgba_buffer_from_vec(width: u32, height: u32, buf: Vec<u8>) -> (res: Option<RgbaBuffer>)
    ensures
        res is Some <==> 4 * width * height <= buf@.len(),
        res matches Some(b) ==> rgba_buffer_bytes(b) == buf@ && rgba_buffer_dims(b) == (
            width,
            height,
        ),
{
    ImageBuffer::from_vec(width, height, buf).map(RgbaBuffer)
}

/// The stored bytes of all pixels, four per pixel in order r, g, b, a.
pub fn rgba_bytes(pixels: &Vec<Rgba8>) -> (bytes: Vec<u8>)
    requires
        4 * pixels@.len() <= usize::MAX,
    ensures
        is_rgba_bytes_of(bytes@, pixels@),
{
    let n = pixels.len();
    let mut bytes: Vec<u8> = Vec::with_capacity(n * 4);
    let mut i: usize = 0;
    while i < n
        invariant
            n == pixels@.len(),
            4 * n <= usize::MAX,
            i <= n,
            bytes@.len() == 4 * i,
            forall|j: int|
                0 <= j < i ==> {
                    &&& #[trigger] bytes@[4 * j] == pixels@[j].r
                    &&& bytes@[4 * j + 1] == pixels@[j].g
                    &&& bytes@[4 * j + 2] == pixels@[j].b
                    &&& bytes@[4 * j + 3] == pixels@[j].a
                },
        decreases n - i,
    {
        let px = pixels[i];
        bytes.push(px.r);
        bytes.push(px.g);
        bytes.push(px.b);
        bytes.push(px.a);
        i = i + 1;
    }
    bytes
}

/// Copies an image into an RGBA buffer of the `image` crate, ready to be
/// encoded. Width and height are taken as `u32` (truncated), and every pixel
/// is copied, also those beyond width times height.
pub fn color_image_to_rgba(image: &PixelImage) -> (buf: RgbaBuffer)
    requires
        (image.size[0] as u32) * (image.size[1] as u32) <= image.pixels@.len(),
        4 * image.pixels@.len() <= usize::MAX,
    ensures
        is_rgba_bytes_of(rgba_buffer_bytes(buf), image.pixels@),
        rgba_buffer_dims(buf) == (image.size[0] as u32, image.size[1] as u32),
{
    let w: u32 = #[verifier::truncate] (image.size[0] as u32);
    let h: u32 = #[verifier::truncate] (image.size[1] as u32);
    let bytes = rgba_bytes(&image.pixels);
    let res = rgba_buffer_from_vec(w, h, bytes);
    proof {
        assert(4 * w * h == 4 * (w * h)) by (nonlinear_arith);
    }
    res.unwrap()
}

/// The stored channels of `pixels` in order r, g, b, a, four bytes per pixel.
pub open spec fn rgba_bytes_of(pixels: Seq<Rgba8>) -> Seq<u8> {
    Seq::new(
        4 * pixels.len(),
        |k: int|
            {
                let px = pixels[k / 4];
                if k % 4 == 0 {
                    px.r
                } else if k % 4 == 1 {
                    px.g
                } else if k % 4 == 2 {
                    px.b
                } else {
                    px.a
                }
            },
    )
}

/// The bytes that list the channels of `pixels` are exactly `rgba_bytes_of`.
pub proof fn lemma_rgba_bytes_unique(bytes: Seq<u8>, pixels: Seq<Rgba8>)
    requires
        is_rgba_bytes_of(bytes, pixels),
    ensures
        bytes == rgba_bytes_of(pixels),
{
    let spec_bytes = rgba_bytes_of(pixels);
    assert forall|k: int| 0 <= k < bytes.len() implies bytes[k] == spec_bytes[k] by {
        let i = k / 4;
        let j = k % 4;
        assert(k == 4 * i + j && 0 <= j < 4 && 0 <= i < pixels.len()) by (nonlinear_arith)
            requires
                i == k / 4,
                j == k % 4,
                0 <= k < 4 * pixels.len(),
        ;
        assert(bytes[4 * i] == pixels[i].r);
    }
    assert(bytes =~= spec_bytes);
}

/// What the `image` crate decodes from the bytes of an image file: width,
/// height and the pixels as unmultiplied RGBA bytes, or the error message.
pub uninterp spec fn decoded_rgba8(bytes: Seq<u8>) -> Result<(u32, u32, Seq<u8>), Seq<char>>;

/// Calls `image::load_from_memory` (format guessed from the content, as
/// `ImageReader::with_guessed_format` does) and converts the image to RGBA
/// bytes with `to_rgba8().into_raw()`. Trusted: the outcome is the name
/// `decoded_rgba8` of the bytes, and an RGBA buffer of the `image` crate holds
/// four bytes per pixel.
#[verifier::external_body]
fn decode_rgba8(bytes: &[u8]) -> (res: Result<(u32, u32, Vec<u8>), String>)
    ensures
        match res {
            Ok((w, h, rgba)) => decoded_rgba8(bytes@) == Ok::<(u32, u32, Seq<u8>), Seq<char>>(
                (w, h, rgba@),
            ) && rgba@.len() == 4 * w * h,
            Err(e) => decoded_rgba8(bytes@) == Err::<(u32, u32, Seq<u8>), Seq<char>>(e@),
        },
{
    match image::load_from_memory(bytes) {
        Ok(image) => Ok((image.width(), image.height(), image.to_rgba8().into_raw())),
        Err(e) => Err(e.to_string()),
    }
}

/// Decodes the bytes of an image file (any supported format, guessed from the
/// content) into an image, or gives the decoder's error message.
pub fn load_image_from_bytes(bytes: &[u8]) -> (res: Result<PixelImage, String>)
    ensures
        match decoded_rgba8(bytes@) {
            Ok((w, h, rgba)) => res matches Ok(img) && img.wf() && img.size == [
                w as usize,
                h as usize,
            ] && img.pixels@ == pixels_from_rgba(rgba),
            Err(m) => res matches Err(e) && e@ == m,
        },
{
    match decode_rgba8(bytes) {
        Ok((w, h, rgba)) => {
            let size = [w as usize, h as usize];
            proof {
                assert(size[0] * size[1] * 4 == 4 * w * h) by (nonlinear_arith)
                    requires
                        size[0] == w,
                        size[1] == h,
                ;
            }
            Ok(image_from_rgba_unmultiplied(size, rgba.as_slice()))
        },
        Err(e) => Err(e),
    }
}

/// What the `image` crate writes for an RGBA image of the given width, height
/// and bytes in the given format, or the error message.
pub uninterp spec fn encoded_rgba8(
    w: u32,
    h: u32,
    rgba: Seq<u8>,
    format: ExportFormat,
) -> Result<Seq<u8>, Seq<char>>;

/// Calls `DynamicImage::write_to` on the buffer, into memory, in the `image`
/// crate's format for `format` (the encoder that `save_with_format` uses too).
/// Trusted: the outcome is the name `encoded_rgba8` of the buffer's
/// dimensions, bytes and the format. The PNG encoder asserts that the buffer
/// holds exactly four bytes per pixel, hence the `requires`.
#[verifier::external_body]
fn encode_rgba_buffer(buf: RgbaBuffer, format: ExportFormat) -> (res: Result<Vec<u8>, String>)
    requires
        rgba_buffer_bytes(buf).len() == 4 * rgba_buffer_dims(buf).0 * rgba_buffer_dims(buf).1,
    ensures
        match res {
            Ok(out) => encoded_rgba8(
                rgba_buffer_dims(buf).0,
                rgba_buffer_dims(buf).1,
                rgba_buffer_bytes(buf),
                format,
            ) == Ok::<Seq<u8>, Seq<char>>(out@),
            Err(e) => encoded_rgba8(
                rgba_buffer_dims(buf).0,
                rgba_buffer_dims(buf).1,
                rgba_buffer_bytes(buf),
                format,
            ) == Err::<Seq<u8>, Seq<char>>(e@),
        },
{
    let image_format = match format {
        ExportFormat::Png => image::ImageFormat::Png,
        ExportFormat::Jpeg => image::ImageFormat::Jpeg,
        ExportFormat::Tiff => image::ImageFormat::Tiff,
    };
    let mut out = std::io::Cursor::new(Vec::new());
    match image::DynamicImage::ImageRgba8(buf.0).write_to(&mut out, image_format) {
        Ok(()) => Ok(out.into_inner()),
        Err(e) => Err(e.to_string()),
    }
}

/// Encodes an image in the given format, ready to be written to a file, or
/// gives the encoder's error message.
pub fn encode_image(image: &PixelImage, format: ExportFormat) -> (res: Result<Vec<u8>, String>)
    requires
        (image.size[0] as u32) * (image.size[1] as u32) == image.pixels@.len(),
        4 * image.pixels@.len() <= usize::MAX,
    ensures
        match encoded_rgba8(
            image.size[0] as u32,
            image.size[1] as u32,
            rgba_bytes_of(image.pixels@),
            format,
        ) {
            Ok(out) => res matches Ok(v) && v@ == out,
            Err(m) => res matches Err(e) && e@ == m,
        },
{
    let buf = color_image_to_rgba(image);
    proof {
        lemma_rgba_bytes_unique(rgba_buffer_bytes(buf), image.pixels@);
        let (w, h) = rgba_buffer_dims(buf);
        assert(4 * w * h == 4 * (w * h)) by (nonlinear_arith);
    }
    encode_rgba_buffer(buf, format)
}

/// The pixels that bytes list in order r, g, b, a, four bytes per pixel.
pub fn pixels_from_rgba_bytes(bytes: &[u8]) -> (pixels: Vec<Rgba8>)
    requires
        bytes@.len() % 4 == 0,
    ensures
        is_rgba_bytes_of(bytes@, pixels@),
{
    let len = bytes.len();
    let n = len / 4;
    let mut pixels: Vec<Rgba8> = Vec::with_capacity(n);
    let mut i: usize = 0;
    while i < n
        invariant
            n == bytes@.len() / 4,
            bytes@.len() == 4 * n,
            len == bytes@.len(),
            i <= n,
            pixels@.len() == i,
            forall|j: int|
                0 <= j < i ==> {
                    &&& #[trigger] bytes@[4 * j] == pixels@[j].r
                    &&& bytes@[4 * j + 1] == pixels@[j].g
                    &&& bytes@[4 * j + 2] == pixels@[j].b
                    &&& bytes@[4 * j + 3] == pixels@[j].a
                },
        decreases n - i,
    {
        let k = 4 * i;
        let ghost before = pixels@;
        pixels.push(Rgba8 { r: bytes[k], g: bytes[k + 1], b: bytes[k + 2], a: bytes[k + 3] });
        assert forall|j: int| 0 <= j <= i implies {
            &&& #[trigger] bytes@[4 * j] == pixels@[j].r
            &&& bytes@[4 * j + 1] == pixels@[j].g
            &&& bytes@[4 * j + 2] == pixels@[j].b
            &&& bytes@[4 * j + 3] == pixels@[j].a
        } by {
            if j < i {
                assert(pixels@[j] == before[j]);
            }
        }
        i = i + 1;
    }
    pixels
}

/// The image that the GPU pipeline reads back: the mapped output bytes as
/// pixels of the original's size, or, when the output could not be mapped,
/// the original unchanged.
pub fn gpu_readback(original: &PixelImage, mapped: Option<&[u8]>) -> (out: PixelImage)
    requires
        mapped matches Some(bytes) ==> bytes@.len() % 4 == 0,
    ensures
        out.size == original.size,
        match mapped {
            Some(bytes) => is_rgba_bytes_of(bytes@, out.pixels@),
            None => out.pixels@ == original.pixels@,
        },
{
    match mapped {
        Some(bytes) => PixelImage { size: original.size, pixels: pixels_from_rgba_bytes(bytes) },
        None => {
            let pixels = original.pixels.clone();
            assert(pixels@ =~= original.pixels@);
            PixelImage { size: original.size, pixels }
        },
    }
}

/// Opaque pixels and transparent black are stored as given.
pub proof fn lemma_premultiplied_fixed_points(px: Rgba8)
    requires
        px.a == 255 || px == (Rgba8 { r: 0, g: 0, b: 0, a: 0 }),
    ensures
        premultiplied(px.r, px.g, px.b, px.a) == px,
{
}

/// Loading opaque RGBA bytes and writing the pixels out again gives back the
/// same bytes.
pub proof fn lemma_opaque_bytes_round_trip(rgba: Seq<u8>)
    requires
        rgba.len() % 4 == 0,
        forall|i: int| 0 <= i < rgba.len() / 4 ==> #[trigger] rgba[4 * i + 3] == 255,
    ensures
        is_rgba_bytes_of(rgba, pixels_from_rgba(rgba)),
{
    let pixels = pixels_from_rgba(rgba);
    assert(rgba.len() == 4 * pixels.len());
    assert forall|i: int| 0 <= i < pixels.len() implies {
        &&& #[trigger] rgba[4 * i] == pixels[i].r
        &&& rgba[4 * i + 1] == pixels[i].g
        &&& rgba[4 * i + 2] == pixels[i].b
        &&& rgba[4 * i + 3] == pixels[i].a
    } by {
        assert(rgba[4 * i + 3] == 255);
    }
}

/// Writing pixels out and loading the bytes again gives back every opaque
/// pixel and every transparent black one.
pub proof fn lemma_export_load_round_trip(pixels: Seq<Rgba8>, bytes: Seq<u8>)
    requires
        is_rgba_bytes_of(bytes, pixels),
        forall|i: int|
            0 <= i < pixels.len() ==> #[trigger] pixels[i].a == 255 || pixels[i] == (Rgba8 {
                r: 0,
                g: 0,
                b: 0,
                a: 0,
            }),
    ensures
        pixels_from_rgba(bytes) == pixels,
{
    let back = pixels_from_rgba(bytes);
    assert(back.len() == pixels.len());
    assert forall|i: int| 0 <= i < pixels.len() implies #[trigger] back[i] == pixels[i] by {
        assert(bytes[4 * i] == pixels[i].r);
        lemma_premultiplied_fixed_points(pixels[i]);
    }
    assert(back =~= pixels);
}

} // verus!
