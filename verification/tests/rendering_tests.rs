use rfheadless::rendering::Screenshot;
use rfheadless::rendering::layout::BoxModel;
use rfheadless::rendering::layout::LayoutBox;
use rfheadless::rendering::layout::Rect;
use rfheadless::rendering::paint::PaintCommand;
use rfheadless::rendering::raster::rasterize_dummy;
use rfheadless::rendering::raster::rasterize_with_seed;

#[test]
fn paint_command_debug() {
    let cmd = PaintCommand::SolidRect { x: 0, y: 0, width: 10, height: 10, rgba: (255, 0, 0, 255) };
    match cmd {
        PaintCommand::SolidRect { width, .. } => assert_eq!(width, 10),
        _ => panic!("unexpected"),
    }
}

#[test]
fn rasterize_returns_screenshot() {
    let s = rasterize_dummy(128, 64);
    assert_eq!(s.width, 128);
    assert_eq!(s.height, 64);
}

#[test]
fn smoke_rasterize_dummy() {
    let s = rasterize_dummy(256, 128);
    assert_eq!(s.width, 256);
    assert_eq!(s.height, 128);
}

#[test]
fn rasterize_with_seed_is_sha256_of_input() {
    let s = rasterize_with_seed(2, 3, b"seed");
    assert_eq!(s.width, 2);
    assert_eq!(s.height, 3);
    assert_eq!(s.png_data.len(), 32);
    // The digest input is seed ++ be32(width) ++ be32(height).
    let mut input: Vec<u8> = b"seed".to_vec();
    input.extend_from_slice(&2u32.to_be_bytes());
    input.extend_from_slice(&3u32.to_be_bytes());
    let mut h = <sha2::Sha256 as sha2::Digest>::new();
    sha2::Digest::update(&mut h, &input);
    let expected = sha2::Digest::finalize(h).to_vec();
    assert_eq!(s.png_data, expected);
    // And it is not just the seed handed back.
    assert_ne!(s.png_data, b"seed".to_vec());
}

#[test]
fn screenshot_empty_has_no_bytes() {
    let s = Screenshot::empty(5, 7);
    assert_eq!(s.width, 5);
    assert_eq!(s.height, 7);
    assert!(s.png_data.is_empty());
}

#[test]
fn content_width_subtracts_box_model() {
    let lb = LayoutBox {
        rect: Rect { x: 0, y: 0, width: 100, height: 50 },
        box_model: BoxModel { margin: 8, border: 2, padding: 10 },
    };
    assert_eq!(lb.content_width(), 80);
    let narrow = LayoutBox {
        rect: Rect { x: 0, y: 0, width: 10, height: 50 },
        box_model: BoxModel { margin: 8, border: 2, padding: 10 },
    };
    assert_eq!(narrow.content_width(), 0);
}
