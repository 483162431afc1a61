//! The window icon: the first icon file that decodes, or a solid square
//! of the accent color.
use vstd::prelude::*;

verus! {

/// Raw RGBA pixels of a square icon.
pub struct IconPixels {
    pub rgba: Vec<u8>,
    pub width: u32,
    pub height: u32,
}

/// Side of the fallback icon, in pixels.
pub const FALLBACK_SIZE: u32 = 32;

/// The accent color, as RGBA.
pub open spec fn accent_rgba(k: int) -> u8 {
    if k == 0 {
        0xFC
    } else if k == 1 {
        0x03
    } else if k == 2 {
        0x5E
    } else {
        0xFF
    }
}

/// A solid square of the accent color.
pub fn fallback_icon() -> (icon: IconPixels)
    ensures
        icon.width == FALLBACK_SIZE,
        icon.height == FALLBACK_SIZE,
        icon.rgba@.len() == FALLBACK_SIZE * FALLBACK_SIZE * 4,
        forall|i: int| 0 <= i < icon.rgba@.len() ==> #[trigger] icon.rgba@[i] == accent_rgba(i % 4),
{
    let size: u32 = FALLBACK_SIZE;
    let mut pixels: Vec<u8> = Vec::new();
    let n = size * size;
    for p in 0..n
        invariant
            n == FALLBACK_SIZE * FALLBACK_SIZE,
            pixels@.len() == p * 4,
            forall|i: int| 0 <= i < pixels@.len() ==> #[trigger] pixels@[i] == accent_rgba(i % 4),
    {
        pixels.push(0xFC);
        pixels.push(0x03);
        pixels.push(0x5E);
        pixels.push(0xFF);
        assert forall|i: int| 0 <= i < pixels@.len() implies #[trigger] pixels@[i] == accent_rgba(
            i % 4,
        ) by {
            if i >= p * 4 {
                assert(i - p * 4 == i % 4);
            }
        }
    }
    IconPixels { rgba: pixels, width: size, height: size }
}

/// Width, height and pixels of an icon.
pub open spec fn icon_view(p: IconPixels) -> (u32, u32, Seq<u8>) {
    (p.width, p.height, p.rgba@)
}

pub open spec fn opt_icon_view(r: Option<IconPixels>) -> Option<(u32, u32, Seq<u8>)> {
    match r {
        Some(p) => Some(icon_view(p)),
        None => None,
    }
}

/// What image's ICO decoder makes of some bytes: width, height and RGBA
/// pixels, or nothing when they are not an icon it can read.
pub uninterp spec fn decoded_icon(bytes: Seq<u8>) -> Option<(u32, u32, Seq<u8>)>;

/// Decodes ICO bytes with image's `load_from_memory_with_format` and
/// converts the picture to 8-bit RGBA (`to_rgba8`). Trusted: the result is
/// what the decoder makes of exactly these bytes, and its pixel buffer holds
/// four bytes per pixel.
#[verifier::external_body]
fn decode_icon(bytes: &Vec<u8>) -> (r: Option<IconPixels>)
    ensures
        opt_icon_view(r) == decoded_icon(bytes@),
        r matches Some(p) ==> p.rgba@.len() == p.width * p.height * 4,
{
    match image::load_from_memory_with_format(bytes, image::ImageFormat::Ico) {
        Ok(img) => {
            let rgba = img.to_rgba8();
            let (width, height) = rgba.dimensions();
            Some(IconPixels { rgba: rgba.into_raw(), width, height })
        },
        Err(_) => None,
    }
}

/// The first of the files that decodes as an icon.
pub open spec fn first_decoded(files: Seq<Seq<u8>>) -> Option<(u32, u32, Seq<u8>)>
    decreases files.len(),
{
    if files.len() == 0 {
        None
    } else {
        match decoded_icon(files[0]) {
            Some(x) => Some(x),
            None => first_decoded(files.drop_first()),
        }
    }
}

/// The fallback icon as width, height and pixels.
pub open spec fn fallback_view() -> (u32, u32, Seq<u8>) {
    (
        FALLBACK_SIZE,
        FALLBACK_SIZE,
        Seq::new((FALLBACK_SIZE * FALLBACK_SIZE * 4) as nat, |i: int| accent_rgba(i % 4)),
    )
}

pub open spec fn file_views(files: Seq<Vec<u8>>) -> Seq<Seq<u8>> {
    files.map_values(|f: Vec<u8>| f@)
}

/// The window icon from the contents of the candidate icon files, nearest
/// first: the first that decodes, or the fallback when none does.
pub fn choose_icon(files: &Vec<Vec<u8>>) -> (icon: IconPixels)
    ensures
        icon_view(icon) == match first_decoded(file_views(files@)) {
            Some(x) => x,
            None => fallback_view(),
        },
        icon.rgba@.len() == icon.width * icon.height * 4,
{
    let ghost views = file_views(files@);
    assert(views.skip(0) =~= views);
    for i in 0..files.len()
        invariant
            views == file_views(files@),
            first_decoded(views) == first_decoded(views.skip(i as int)),
    {
        assert(views.skip(i as int)[0] == files@[i as int]@);
        match decode_icon(&files[i]) {
            Some(p) => {
                return p;
            },
            None => {
                assert(views.skip(i as int).drop_first() =~= views.skip(i + 1));
            },
        }
    }
    assert(views.skip(files.len() as int) =~= Seq::<Seq<u8>>::empty());
    let icon = fallback_icon();
    assert(icon.rgba@ =~= fallback_view().2);
    icon
}

} // verus!
