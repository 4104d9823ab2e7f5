//! Raster images as PDF image XObjects: sample layout, compression and the
//! image dictionaries written for each TeX backend.

use std::io::Write;
use vstd::prelude::*;

use super::resources::{resource_name, ResourcesView};
use super::util::{push_tex_obj_ref, spec_tex_obj_ref};
use super::PdfConverter;
use crate::text::{decimal, hex_bytes, push_decimal, push_hex_bytes};

verus! {

/// A soft mask (alpha channel) that accompanies an image.
pub struct SoftMaskResource {
    pub name: String,
    pub width: u32,
    pub height: u32,
    pub bits_per_component: u8,
    pub filter: String,
    pub data: Vec<u8>,
}

/// An image XObject with its compressed samples and optional soft mask.
pub struct ImageResource {
    pub width: u32,
    pub height: u32,
    pub color_space: String,
    pub bits_per_component: u8,
    pub filter: String,
    pub data: Vec<u8>,
    pub smask: Option<SoftMaskResource>,
}

/// What `flate2`'s `ZlibEncoder` at the default compression level, writing
/// into a vector, makes of `data`: the zlib stream, or `None` when the
/// encoder reports an error.
pub uninterp spec fn zlib_stream(data: Seq<u8>) -> Option<Seq<u8>>;

/// Compresses `data` with `flate2::write::ZlibEncoder` (default level) into a
/// vector; `None` when the encoder reports an I/O error.
#[verifier::external_body]
fn deflate(data: &[u8]) -> (r: Option<Vec<u8>>)
    ensures
        match r {
            Some(v) => zlib_stream(data@) == Some(v@),
            None => zlib_stream(data@) is None,
        },
{
    let mut encoder = flate2::write::ZlibEncoder::new(Vec::new(), flate2::Compression::default());
    encoder.write_all(data).ok()?;
    encoder.finish().ok()
}

/// What `image::load_from_memory` followed by `to_rgba8` makes of `bytes`:
/// the width, the height and the 8-bit RGBA samples of the decoded image;
/// `None` when the bytes do not decode.
pub uninterp spec fn decoded_rgba(bytes: Seq<u8>) -> Option<(u32, u32, Seq<u8>)>;

/// Decodes an encoded raster image (PNG, JPEG, GIF or WebP) with
/// `image::load_from_memory` and converts it to 8-bit RGBA with `to_rgba8`;
/// returns the width, the height and the samples.
#[verifier::external_body]
fn decode_rgba(bytes: &[u8]) -> (r: Option<(u32, u32, Vec<u8>)>)
    ensures
        match r {
            Some((w, h, v)) => decoded_rgba(bytes@) == Some((w, h, v@)),
            None => decoded_rgba(bytes@) is None,
        },
{
    let decoded = image::load_from_memory(bytes).ok()?;
    let rgba = decoded.to_rgba8();
    Some((rgba.width(), rgba.height(), rgba.into_raw()))
}

/// The number of complete RGBA pixels in a sample buffer.
pub open spec fn pixel_count(rgba: Seq<u8>) -> nat {
    rgba.len() / 4
}

/// The red, green and blue samples of each complete pixel, in order.
pub open spec fn rgb_samples(rgba: Seq<u8>) -> Seq<u8> {
    Seq::new(3 * pixel_count(rgba), |i: int| rgba[(i / 3) * 4 + i % 3])
}

/// The alpha sample of each complete pixel, in order.
pub open spec fn alpha_samples(rgba: Seq<u8>) -> Seq<u8> {
    Seq::new(pixel_count(rgba), |i: int| rgba[i * 4 + 3])
}

/// Some complete pixel is not fully opaque.
pub open spec fn has_transparency(rgba: Seq<u8>) -> bool {
    exists|i: int| 0 <= i < pixel_count(rgba) && #[trigger] rgba[i * 4 + 3] != 255
}

/// `img` is the image XObject for the RGBA samples `rgba` of a `width` by
/// `height` image: compressed RGB samples, and a compressed alpha soft mask
/// named after `smask_id` when some pixel is not fully opaque.
pub open spec fn is_image_from_rgba(img: ImageResource, width: u32, height: u32, rgba: Seq<u8>, smask_id: nat) -> bool {
    &&& img.width == width
    &&& img.height == height
    &&& img.color_space@ == "DeviceRGB"@
    &&& img.bits_per_component == 8
    &&& img.filter@ == "FlateDecode"@
    &&& zlib_stream(rgb_samples(rgba)) == Some(img.data@)
    &&& if has_transparency(rgba) {
        img.smask matches Some(m) && {
            &&& m.name@ == resource_name("SMask"@, smask_id)
            &&& m.width == width
            &&& m.height == height
            &&& m.bits_per_component == 8
            &&& m.filter@ == "FlateDecode"@
            &&& zlib_stream(alpha_samples(rgba)) == Some(m.data@)
        }
    } else {
        img.smask is None
    }
}

/// The image dictionary for pdfTeX and LuaTeX; the samples are written as
/// ASCII hex over the image's own filter.
pub open spec fn tex_image_dict(r: ImageResource) -> Seq<char> {
    "<</Type/XObject/Subtype/Image/Width "@ + decimal(r.width as nat) + "/Height "@ + decimal(
        r.height as nat,
    ) + "/ColorSpace/"@ + r.color_space@ + "/BitsPerComponent "@ + decimal(
        r.bits_per_component as nat,
    ) + "/Filter[/ASCIIHexDecode /"@ + r.filter@ + "]"@ + match r.smask {
        Some(m) => "/SMask "@ + spec_tex_obj_ref(m.name@),
        None => Seq::empty(),
    } + ">>"@
}

/// The soft-mask image dictionary for pdfTeX and LuaTeX.
pub open spec fn tex_smask_dict(m: SoftMaskResource) -> Seq<char> {
    "<</Type/XObject/Subtype/Image/Width "@ + decimal(m.width as nat) + "/Height "@ + decimal(
        m.height as nat,
    ) + "/ColorSpace/DeviceGray/BitsPerComponent "@ + decimal(m.bits_per_component as nat)
        + "/Filter[/ASCIIHexDecode /"@ + m.filter@ + "]>>"@
}

/// The image dictionary for the DVI backend.
pub open spec fn dvi_image_dict(r: ImageResource) -> Seq<char> {
    "<</Type/XObject/Subtype/Image/Width "@ + decimal(r.width as nat) + "/Height "@ + decimal(
        r.height as nat,
    ) + "/ColorSpace/"@ + r.color_space@ + "/BitsPerComponent "@ + decimal(
        r.bits_per_component as nat,
    ) + "/Filter/"@ + r.filter@ + match r.smask {
        Some(m) => "/SMask @"@ + m.name@,
        None => Seq::empty(),
    } + ">>"@
}

/// The soft-mask image dictionary for the DVI backend.
pub open spec fn dvi_smask_dict(m: SoftMaskResource) -> Seq<char> {
    "<</Type/XObject/Subtype/Image/Width "@ + decimal(m.width as nat) + "/Height "@ + decimal(
        m.height as nat,
    ) + "/ColorSpace/DeviceGray/BitsPerComponent "@ + decimal(m.bits_per_component as nat)
        + "/Filter/"@ + m.filter@ + ">>"@
}

/// A stream written as ASCII hex with its end-of-data marker.
pub open spec fn ascii_hex(data: Seq<u8>) -> Seq<char> {
    hex_bytes(data) + ">"@
}

/// The outcome of turning the RGBA samples `rgba` of a `width` by `height`
/// image into an image XObject, from the registry `old` to `new`. When the
/// RGB samples do not compress, nothing happens and there is no image; else,
/// when some pixel is not fully opaque, the next object number goes to the
/// soft mask, and there is no image when the alpha samples do not compress;
/// else `r` is the image.
pub open spec fn image_outcome(
    old: ResourcesView,
    new: ResourcesView,
    r: Option<ImageResource>,
    width: u32,
    height: u32,
    rgba: Seq<u8>,
) -> bool {
    if zlib_stream(rgb_samples(rgba)) is None {
        r is None && new == old
    } else {
        &&& new == (ResourcesView {
            next_id: if has_transparency(rgba) { old.next_id + 1 } else { old.next_id },
            ..old
        })
        &&& if has_transparency(rgba) && zlib_stream(alpha_samples(rgba)) is None {
            r is None
        } else {
            r matches Some(img) && is_image_from_rgba(img, width, height, rgba, old.next_id)
        }
    }
}

/// Appends the width, height and bit-depth part shared by all image dictionaries.
fn push_image_header(out: &mut String, width: u32, height: u32)
    ensures
        final(out)@ == old(out)@ + "<</Type/XObject/Subtype/Image/Width "@ + decimal(width as nat)
            + "/Height "@ + decimal(height as nat),
{
    out.append("<</Type/XObject/Subtype/Image/Width ");
    push_decimal(out, width as u64);
    out.append("/Height ");
    push_decimal(out, height as u64);
}

impl PdfConverter {
    /// Splits 8-bit RGBA samples into compressed RGB samples and, when some
    /// pixel is not fully opaque, a compressed alpha soft mask named
    /// `SMask<n>` with the next object number. `None` when compression fails.
    pub fn image_resource_from_rgba(&mut self, width: u32, height: u32, rgba: &[u8]) -> (r: Option<ImageResource>)
        requires
            old(self).resources@.wf(),
            has_transparency(rgba@) ==> old(self).resources@.next_id < usize::MAX,
        ensures
            final(self).resources@.wf(),
            image_outcome(old(self).resources@, final(self).resources@, r, width, height, rgba@),
            final(self).pdf_ops == old(self).pdf_ops,
            final(self).engine == old(self).engine,
            final(self).tex_format == old(self).tex_format,
            final(self).embed_images == old(self).embed_images,
    {
        let len = rgba.len();
        let n = len / 4;
        let mut rgb: Vec<u8> = Vec::new();
        let mut alpha: Vec<u8> = Vec::new();
        let mut has_alpha = false;
        let mut i: usize = 0;
        while i < n
            invariant
                n == pixel_count(rgba@),
                len == rgba@.len(),
                4 * n <= len,
                i <= n,
                rgb@ == rgb_samples(rgba@).take(3 * i),
                alpha@ == alpha_samples(rgba@).take(i as int),
                has_alpha <==> exists|k: int| 0 <= k < i && #[trigger] rgba@[k * 4 + 3] != 255,
            decreases n - i,
        {
            let r = rgba[4 * i];
            let g = rgba[4 * i + 1];
            let b = rgba[4 * i + 2];
            let a = rgba[4 * i + 3];
            rgb.push(r);
            rgb.push(g);
            rgb.push(b);
            alpha.push(a);
            if a != 255 {
                has_alpha = true;
            }
            proof {
                let s = rgb_samples(rgba@);
                assert(s[3 * i] == r && s[3 * i + 1] == g && s[3 * i + 2] == b) by {
                    assert((3 * i) / 3 == i && (3 * i) % 3 == 0) by (nonlinear_arith);
                    assert((3 * i + 1) / 3 == i && (3 * i + 1) % 3 == 1) by (nonlinear_arith);
                    assert((3 * i + 2) / 3 == i && (3 * i + 2) % 3 == 2) by (nonlinear_arith);
                }
                assert(rgb@ =~= s.take(3 * (i + 1)));
                assert(alpha@ =~= alpha_samples(rgba@).take(i + 1));
            }
            i = i + 1;
        }
        proof {
            assert(rgb@ =~= rgb_samples(rgba@));
            assert(alpha@ =~= alpha_samples(rgba@));
        }
        let data = match deflate(rgb.as_slice()) {
            Some(d) => d,
            None => return None,
        };
        let smask = if has_alpha {
            let id = self.resources.get_next_id();
            let mut smask_name = String::new();
            smask_name.append("SMask");
            push_decimal(&mut smask_name, id as u64);
            let smask_data = match deflate(alpha.as_slice()) {
                Some(d) => d,
                None => return None,
            };
            Some(SoftMaskResource {
                name: smask_name,
                width,
                height,
                bits_per_component: 8,
                filter: "FlateDecode".to_owned(),
                data: smask_data,
            })
        } else {
            None
        };
        Some(ImageResource {
            width,
            height,
            color_space: "DeviceRGB".to_owned(),
            bits_per_component: 8,
            filter: "FlateDecode".to_owned(),
            data,
            smask,
        })
    }

    /// Decodes an encoded raster image and turns its RGBA samples into an
    /// image XObject (see `image_resource_from_rgba`). `None` when the image
    /// cannot be decoded or compressed.
    pub fn decode_image_bytes(&mut self, bytes: &[u8]) -> (r: Option<ImageResource>)
        requires
            old(self).resources@.wf(),
            old(self).resources@.next_id < usize::MAX,
        ensures
            final(self).resources@.wf(),
            match decoded_rgba(bytes@) {
                None => r is None && final(self).resources@ == old(self).resources@,
                Some((w, h, rgba)) => image_outcome(old(self).resources@, final(self).resources@, r, w, h, rgba),
            },
            final(self).pdf_ops == old(self).pdf_ops,
    {
        match decode_rgba(bytes) {
            Some((width, height, rgba)) => self.image_resource_from_rgba(width, height, rgba.as_slice()),
            None => None,
        }
    }

    /// The image dictionary written for pdfTeX.
    pub fn tex_image_dict_for_pdftex(&self, _img_name: &str, resource: &ImageResource) -> (r: String)
        ensures
            r@ == tex_image_dict(*resource),
    {
        let mut dict = String::new();
        push_image_header(&mut dict, resource.width, resource.height);
        dict.append("/ColorSpace/");
        dict.append(resource.color_space.as_str());
        dict.append("/BitsPerComponent ");
        push_decimal(&mut dict, resource.bits_per_component as u64);
        dict.append("/Filter[/ASCIIHexDecode /");
        dict.append(resource.filter.as_str());
        dict.append("]");
        match &resource.smask {
            Some(smask) => {
                dict.append("/SMask ");
                push_tex_obj_ref(&mut dict, smask.name.as_str());
            },
            None => {},
        }
        dict.append(">>");
        proof {
            assert(dict@ =~= tex_image_dict(*resource));
        }
        dict
    }

    /// The image dictionary written for LuaTeX (the same as for pdfTeX).
    pub fn tex_image_dict_for_lua(&self, img_name: &str, resource: &ImageResource) -> (r: String)
        ensures
            r@ == tex_image_dict(*resource),
    {
        self.tex_image_dict_for_pdftex(img_name, resource)
    }

    /// The soft-mask dictionary written for pdfTeX.
    pub fn tex_image_dict_for_pdftex_smask(&self, smask: &SoftMaskResource) -> (r: String)
        ensures
            r@ == tex_smask_dict(*smask),
    {
        let mut dict = String::new();
        push_image_header(&mut dict, smask.width, smask.height);
        dict.append("/ColorSpace/DeviceGray/BitsPerComponent ");
        push_decimal(&mut dict, smask.bits_per_component as u64);
        dict.append("/Filter[/ASCIIHexDecode /");
        dict.append(smask.filter.as_str());
        dict.append("]>>");
        proof {
            assert(dict@ =~= tex_smask_dict(*smask));
        }
        dict
    }

    /// The soft-mask dictionary written for LuaTeX (the same as for pdfTeX).
    pub fn tex_image_dict_for_lua_smask(&self, smask: &SoftMaskResource) -> (r: String)
        ensures
            r@ == tex_smask_dict(*smask),
    {
        self.tex_image_dict_for_pdftex_smask(smask)
    }

    /// The image dictionary written for the DVI backend.
    pub fn dvi_image_dict(&self, _img_name: &str, resource: &ImageResource) -> (r: String)
        ensures
            r@ == dvi_image_dict(*resource),
    {
        let mut dict = String::new();
        push_image_header(&mut dict, resource.width, resource.height);
        dict.append("/ColorSpace/");
        dict.append(resource.color_space.as_str());
        dict.append("/BitsPerComponent ");
        push_decimal(&mut dict, resource.bits_per_component as u64);
        dict.append("/Filter/");
        dict.append(resource.filter.as_str());
        match &resource.smask {
            Some(smask) => {
                dict.append("/SMask @");
                dict.append(smask.name.as_str());
            },
            None => {},
        }
        dict.append(">>");
        proof {
            assert(dict@ =~= dvi_image_dict(*resource));
        }
        dict
    }

    /// The soft-mask dictionary written for the DVI backend.
    pub fn dvi_image_dict_for_smask(&self, smask: &SoftMaskResource) -> (r: String)
        ensures
            r@ == dvi_smask_dict(*smask),
    {
        let mut dict = String::new();
        push_image_header(&mut dict, smask.width, smask.height);
        dict.append("/ColorSpace/DeviceGray/BitsPerComponent ");
        push_decimal(&mut dict, smask.bits_per_component as u64);
        dict.append("/Filter/");
        dict.append(smask.filter.as_str());
        dict.append(">>");
        proof {
            assert(dict@ =~= dvi_smask_dict(*smask));
        }
        dict
    }

    /// A stream as ASCII hex: two uppercase digits per byte and the `>` marker.
    pub fn ascii_hex_stream(data: &[u8]) -> (r: String)
        ensures
            r@ == ascii_hex(data@),
    {
        let mut out = Self::hex_stream(data);
        out.append(">");
        out
    }

    /// A stream as two uppercase hex digits per byte.
    pub fn hex_stream(data: &[u8]) -> (r: String)
        ensures
            r@ == hex_bytes(data@),
    {
        let mut out = String::new();
        push_hex_bytes(&mut out, data);
        proof {
            assert(out@ =~= hex_bytes(data@));
        }
        out
    }
}

} // verus!
