use ragequiet::binary32::F32;
use ragequiet::detector::TrayState;
use ragequiet::engine::State;
use ragequiet::ui::icons::{
    color_for, decode_rgba, make_icon, to_rgba, IconError, Image, TrayIcon,
};

fn encode(width: u32, height: u32, color: png::ColorType, data: &[u8]) -> Vec<u8> {
    let mut bytes: Vec<u8> = Vec::new();
    let mut encoder = png::Encoder::new(&mut bytes, width, height);
    encoder.set_color(color);
    encoder.set_depth(png::BitDepth::Eight);
    let mut writer = encoder.write_header().unwrap();
    writer.write_image_data(data).unwrap();
    writer.finish().unwrap();
    bytes
}

#[test]
fn a_32x32_rgba_png_decodes_to_its_pixels() {
    let pixels: Vec<u8> = (0..32 * 32 * 4).map(|i| (i * 7 % 251) as u8).collect();
    let png = encode(32, 32, png::ColorType::Rgba, &pixels);
    assert_ne!(png, pixels);
    let (rgba, w, h) = decode_rgba(&png).unwrap();
    assert_eq!((w, h), (32, 32));
    assert_eq!(rgba.len(), 32 * 32 * 4, "RGBA8 buffer length");
    assert_eq!(rgba, pixels);
}

#[test]
fn an_rgb_png_gets_a_full_alpha() {
    let png = encode(2, 1, png::ColorType::Rgb, &[1, 2, 3, 4, 5, 6]);
    assert_eq!(decode_rgba(&png).unwrap(), (vec![1, 2, 3, 255, 4, 5, 6, 255], 2, 1));
}

#[test]
fn other_color_types_and_junk_are_errors() {
    let png = encode(2, 1, png::ColorType::Grayscale, &[1, 2]);
    assert_eq!(decode_rgba(&png), Err(IconError::UnsupportedColor(0)));
    assert_eq!(decode_rgba(b"not a png at all"), Err(IconError::Malformed));
    assert_eq!(decode_rgba(&png[..png.len() / 2]), Err(IconError::Malformed));
}

#[test]
fn pixels_short_of_a_whole_one_are_left_out() {
    let image = Image { pixels: vec![9, 8, 7, 6], width: 1, height: 1, color: 2 };
    assert_eq!(to_rgba(image).unwrap(), (vec![9, 8, 7, 255], 1, 1));
}

#[test]
fn each_tray_state_has_its_icon() {
    assert_eq!(TrayIcon::for_state(TrayState::Quiet), TrayIcon::Quiet);
    assert_eq!(TrayIcon::for_state(TrayState::Warning), TrayIcon::Warning);
    assert_eq!(TrayIcon::for_state(TrayState::Loud), TrayIcon::Loud);
    assert_eq!(TrayIcon::Off.file(), "tray-off-32.png");
    assert_eq!(TrayIcon::Quiet.file(), "tray-quiet-32.png");
}

#[test]
fn generated_icons_are_filled_circles() {
    let db = F32::from_bits(0);
    let rgba = make_icon(color_for(State::TooLoud { db }));
    assert_eq!(rgba.len(), 32 * 32 * 4);
    for y in 0..32i32 {
        for x in 0..32i32 {
            let p = &rgba[((y * 32 + x) * 4) as usize..][..4];
            let (dx, dy) = (x - 16, y - 16);
            let alpha = if dx * dx + dy * dy <= 225 { 255 } else { 0 };
            assert_eq!(p, [231, 76, 60, alpha]);
        }
    }
    assert_eq!(color_for(State::Quiet), [46, 204, 113]);
    assert_eq!(color_for(State::Calm { db }), [46, 204, 113]);
    assert_eq!(color_for(State::GettingLoud { db }), [241, 196, 15]);
}
