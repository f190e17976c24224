//! Tray and window icons: which one shows, and how a PNG becomes RGBA pixels.

use vstd::prelude::*;

use crate::detector::TrayState;
use crate::engine::State;

verus! {

/// The brand's tray icons.
#[derive(Debug, Clone, Copy, PartialEq, Eq, Structural)]
pub enum TrayIcon {
    Quiet,
    Warning,
    Loud,
    /// Nothing is being monitored.
    Off,
}

impl TrayIcon {
    /// The icon for a live tray state (monitoring enabled).
    pub open spec fn showing(state: TrayState) -> TrayIcon {
        match state {
            TrayState::Quiet => TrayIcon::Quiet,
            TrayState::Warning => TrayIcon::Warning,
            TrayState::Loud => TrayIcon::Loud,
        }
    }

    pub fn for_state(state: TrayState) -> (r: TrayIcon)
        ensures
            r == TrayIcon::showing(state),
    {
        match state {
            TrayState::Quiet => TrayIcon::Quiet,
            TrayState::Warning => TrayIcon::Warning,
            TrayState::Loud => TrayIcon::Loud,
        }
    }

    /// The icon's file among the brand assets.
    pub fn file(self) -> (r: &'static str)
        ensures
            r == (match self {
                TrayIcon::Quiet => "tray-quiet-32.png",
                TrayIcon::Warning => "tray-warning-32.png",
                TrayIcon::Loud => "tray-loud-32.png",
                TrayIcon::Off => "tray-off-32.png",
            }),
    {
        match self {
            TrayIcon::Quiet => "tray-quiet-32.png",
            TrayIcon::Warning => "tray-warning-32.png",
            TrayIcon::Loud => "tray-loud-32.png",
            TrayIcon::Off => "tray-off-32.png",
        }
    }
}

/// A decoded PNG: its pixel bytes, size, and the code of its color type.
pub struct Image {
    pub pixels: Vec<u8>,
    pub width: u32,
    pub height: u32,
    /// As in the file format: 2 for RGB, 6 for RGBA.
    pub color: u8,
}

/// Red, green and blue samples.
pub const COLOR_RGB: u8 = 2;

/// Red, green, blue and alpha samples.
pub const COLOR_RGBA: u8 = 6;

/// The first frame of a PNG: pixel bytes, width, height, and the code of the
/// color type; `None` for bytes that are not a decodable PNG.
pub uninterp spec fn png_image(bytes: Seq<u8>) -> Option<(Seq<u8>, u32, u32, u8)>;

/// Decodes a PNG with `png::Decoder` and its `Reader`, without any
/// transformation of the pixels, and gives the first frame as `png_image`
/// names it. Nothing is claimed of that name but that it depends on the bytes
/// alone; a frame too large for this machine's address space is not given.
#[verifier::external_body]
fn read_png(bytes: &[u8]) -> (r: Option<Image>)
    ensures
        match r {
            Some(image) => png_image(bytes@) == Some(
                (image.pixels@, image.width, image.height, image.color),
            ),
            None => png_image(bytes@) is None || (png_image(bytes@)->0).0.len() > isize::MAX,
        },
{
    let decoder = png::Decoder::new(std::io::Cursor::new(bytes));
    let mut reader = decoder.read_info().ok()?;
    let mut pixels = vec![0u8; reader.output_buffer_size()?];
    let info = reader.next_frame(&mut pixels).ok()?;
    pixels.truncate(info.buffer_size());
    Some(Image { pixels, width: info.width, height: info.height, color: info.color_type as u8 })
}

/// Why an asset gives no icon: the asset itself is broken.
#[derive(Debug, Clone, Copy, PartialEq, Eq, Structural)]
pub enum IconError {
    Malformed,
    /// A color type other than RGB and RGBA, by its code.
    UnsupportedColor(u8),
}

/// RGB pixels with a full alpha each.
pub open spec fn with_alpha(rgb: Seq<u8>) -> Seq<u8> {
    Seq::new(
        4 * (rgb.len() / 3),
        |i: int|
            if i % 4 == 3 {
                255u8
            } else {
                rgb[3 * (i / 4) + i % 4]
            },
    )
}

/// The RGBA pixels of an image, if its color type has a rule.
pub open spec fn rgba_of(pixels: Seq<u8>, color: u8) -> Result<Seq<u8>, IconError> {
    if color == COLOR_RGBA {
        Ok(pixels)
    } else if color == COLOR_RGB {
        Ok(with_alpha(pixels))
    } else {
        Err(IconError::UnsupportedColor(color))
    }
}

/// Brand assets are expected to ship with alpha; RGB is expanded just in
/// case a future export drops it. Bytes short of a whole pixel are left out.
fn expand(rgb: &Vec<u8>) -> (r: Vec<u8>)
    ensures
        r@ == with_alpha(rgb@),
{
    let mut rgba: Vec<u8> = Vec::new();
    let len: usize = rgb.len();
    let n: usize = len / 3;
    let mut i: usize = 0;
    while i < n
        invariant
            len == rgb@.len(),
            n == len / 3,
            i <= n,
            rgba@.len() == 4 * i,
            forall|j: int| 0 <= j < 4 * i ==> rgba@[j] == with_alpha(rgb@)[j],
        decreases n - i,
    {
        let ghost before = rgba@;
        rgba.push(rgb[3 * i]);
        rgba.push(rgb[3 * i + 1]);
        rgba.push(rgb[3 * i + 2]);
        rgba.push(255);
        proof {
            assert forall|j: int| 0 <= j < 4 * (i + 1) implies rgba@[j] == with_alpha(
                rgb@,
            )[j] by {
                if j < 4 * i {
                    assert(rgba@[j] == before[j]);
                } else {
                    assert(j / 4 == i);
                }
            }
        }
        i = i + 1;
    }
    assert(rgba@ =~= with_alpha(rgb@));
    rgba
}

/// An image's pixels as RGBA, and its size.
pub fn to_rgba(image: Image) -> (r: Result<(Vec<u8>, u32, u32), IconError>)
    ensures
        match rgba_of(image.pixels@, image.color) {
            Ok(pixels) => r matches Ok((rgba, w, h)) && rgba@ == pixels && w == image.width && h
                == image.height,
            Err(e) => r matches Err(got) && got == e,
        },
{
    if image.color == COLOR_RGBA {
        Ok((image.pixels, image.width, image.height))
    } else if image.color == COLOR_RGB {
        Ok((expand(&image.pixels), image.width, image.height))
    } else {
        Err(IconError::UnsupportedColor(image.color))
    }
}

/// Decode PNG bytes into an RGBA8 buffer plus dimensions.
pub fn decode_rgba(bytes: &[u8]) -> (r: Result<(Vec<u8>, u32, u32), IconError>)
    ensures
        match r {
            Ok((rgba, w, h)) => {
                &&& png_image(bytes@) is Some
                &&& rgba_of((png_image(bytes@)->0).0, (png_image(bytes@)->0).3) == Ok::<
                    Seq<u8>,
                    IconError,
                >(rgba@)
                &&& w == (png_image(bytes@)->0).1
                &&& h == (png_image(bytes@)->0).2
            },
            Err(IconError::UnsupportedColor(code)) => {
                &&& png_image(bytes@) is Some
                &&& (png_image(bytes@)->0).3 == code
                &&& code != COLOR_RGB
                &&& code != COLOR_RGBA
            },
            Err(IconError::Malformed) => {
                ||| png_image(bytes@) is None
                ||| (png_image(bytes@)->0).0.len() > isize::MAX
            },
        },
{
    match read_png(bytes) {
        Some(image) => to_rgba(image),
        None => Err(IconError::Malformed),
    }
}

/// Side of a generated icon, in pixels.
pub const ICON_SIDE: u32 = 32;

/// A pixel lies in the circle that fills a generated icon.
pub open spec fn in_circle(x: int, y: int) -> bool {
    (x - 16) * (x - 16) + (y - 16) * (y - 16) <= 15 * 15
}

/// The bytes of a generated icon, row by row.
pub open spec fn circle_byte(rgb: [u8; 3], i: int) -> u8 {
    let pixel = i / 4;
    if i % 4 < 3 {
        rgb@[i % 4]
    } else if in_circle(pixel % 32, pixel / 32) {
        255
    } else {
        0
    }
}

/// 32x32 filled circle in the given color, as RGBA bytes.
pub fn make_icon(rgb: [u8; 3]) -> (rgba: Vec<u8>)
    ensures
        rgba@ == Seq::new(4096, |i: int| circle_byte(rgb, i)),
{
    let mut rgba: Vec<u8> = Vec::new();
    let mut y: i32 = 0;
    while y < 32
        invariant
            0 <= y <= 32,
            rgba@.len() == 128 * y,
            forall|i: int| 0 <= i < 128 * y ==> rgba@[i] == circle_byte(rgb, i),
        decreases 32 - y,
    {
        let mut x: i32 = 0;
        while x < 32
            invariant
                0 <= x <= 32,
                0 <= y < 32,
                rgba@.len() == 128 * y + 4 * x,
                forall|i: int| 0 <= i < 128 * y + 4 * x ==> rgba@[i] == circle_byte(rgb, i),
            decreases 32 - x,
        {
            let dx: i32 = x - 16;
            let dy: i32 = y - 16;
            assert(-256 <= dx * dx <= 256 && -256 <= dy * dy <= 256) by (nonlinear_arith)
                requires
                    -16 <= dx <= 16,
                    -16 <= dy <= 16,
            ;
            let alpha: u8 = if dx * dx + dy * dy <= 225 {
                255
            } else {
                0
            };
            let ghost before = rgba@;
            rgba.push(rgb[0]);
            rgba.push(rgb[1]);
            rgba.push(rgb[2]);
            rgba.push(alpha);
            proof {
                let base = 128 * y + 4 * x;
                assert forall|i: int| 0 <= i < base + 4 implies rgba@[i] == circle_byte(
                    rgb,
                    i,
                ) by {
                    if i < base {
                        assert(rgba@[i] == before[i]);
                    } else {
                        assert(i / 4 == 32 * y + x);
                        assert((32 * y + x) % 32 == x);
                        assert((32 * y + x) / 32 == y);
                    }
                }
            }
            x = x + 1;
        }
        y = y + 1;
    }
    assert(rgba@ =~= Seq::new(4096, |i: int| circle_byte(rgb, i)));
    rgba
}

/// The color of a generated icon for a state: green, yellow or red.
pub fn color_for(state: State) -> (r: [u8; 3])
    ensures
        r@ == (match state {
            State::Quiet | State::Calm { .. } => seq![46u8, 204, 113],
            State::GettingLoud { .. } => seq![241u8, 196, 15],
            State::TooLoud { .. } => seq![231u8, 76, 60],
        }),
{
    let rgb: [u8; 3] = match state {
        State::Quiet => [46, 204, 113],
        State::Calm { .. } => [46, 204, 113],
        State::GettingLoud { .. } => [241, 196, 15],
        State::TooLoud { .. } => [231, 76, 60],
    };
    assert(rgb@ =~= seq![rgb[0], rgb[1], rgb[2]]);
    rgb
}

/// Pixels keep their colors: RGBA is passed on as it is, RGB gets a full alpha
/// with every pixel, and any other color type is refused by its code.
pub proof fn law_pixels_keep_their_colors(pixels: Seq<u8>, color: u8, i: int)
    ensures
        color == 6 ==> rgba_of(pixels, color) == Ok::<Seq<u8>, IconError>(pixels),
        color == 2 ==> {
            let rgba = rgba_of(pixels, color)->Ok_0;
            &&& rgba_of(pixels, color) is Ok
            &&& rgba.len() == 4 * (pixels.len() / 3)
            &&& 0 <= i < pixels.len() as int / 3 ==> {
                &&& rgba[4 * i] == pixels[3 * i]
                &&& rgba[4 * i + 1] == pixels[3 * i + 1]
                &&& rgba[4 * i + 2] == pixels[3 * i + 2]
                &&& rgba[4 * i + 3] == 255
            }
        },
        color != 2 && color != 6 ==> rgba_of(pixels, color) == Err::<Seq<u8>, IconError>(
            IconError::UnsupportedColor(color),
        ),
{
    assert((4 * i) / 4 == i && (4 * i) % 4 == 0);
    assert((4 * i + 1) / 4 == i && (4 * i + 1) % 4 == 1);
    assert((4 * i + 2) / 4 == i && (4 * i + 2) % 4 == 2);
    assert((4 * i + 3) / 4 == i && (4 * i + 3) % 4 == 3);
}

/// A generated icon is a disc of its color: every pixel has the color, and shows
/// exactly if it is at most 15 away from the middle.
pub proof fn law_a_generated_icon_is_a_disc(rgb: [u8; 3], x: int, y: int)
    requires
        0 <= x < 32,
        0 <= y < 32,
    ensures
        ({
            let at = 4 * (32 * y + x);
            &&& circle_byte(rgb, at) == rgb@[0]
            &&& circle_byte(rgb, at + 1) == rgb@[1]
            &&& circle_byte(rgb, at + 2) == rgb@[2]
            &&& circle_byte(rgb, at + 3) == (if (x - 16) * (x - 16) + (y - 16) * (y - 16) <= 225 {
                255u8
            } else {
                0u8
            })
        }),
{
    let pixel = 32 * y + x;
    assert(pixel % 32 == x && pixel / 32 == y);
    assert((4 * pixel) / 4 == pixel && (4 * pixel) % 4 == 0);
    assert((4 * pixel + 1) / 4 == pixel && (4 * pixel + 1) % 4 == 1);
    assert((4 * pixel + 2) / 4 == pixel && (4 * pixel + 2) % 4 == 2);
    assert((4 * pixel + 3) / 4 == pixel && (4 * pixel + 3) % 4 == 3);
}

/// Each state has its own icon, and none of them is the one for off.
pub proof fn law_each_state_has_its_icon(a: TrayState, b: TrayState)
    ensures
        TrayIcon::showing(a) != TrayIcon::Off,
        TrayIcon::showing(a) == TrayIcon::showing(b) <==> a == b,
        TrayIcon::showing(TrayState::Loud) == TrayIcon::Loud,
        TrayIcon::showing(TrayState::Warning) == TrayIcon::Warning,
{
}

} // verus!
