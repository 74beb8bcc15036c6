use pixel_cart::art::{Art, ArtError, Pixel, PixelColor};
use pixel_cart::ordering::{generate_fast, CurrentOrdering, OrderingType, PixelOrdering};
use pixel_cart::vector::{UVec2, Vec2};

const RED: [u8; 4] = [255, 0, 0, 255];
const BLUE: [u8; 4] = [0, 0, 255, 9];
const NONE: [u8; 4] = [7, 7, 7, 0];

#[test]
fn colours_keep_their_channels() {
    let c = PixelColor::from([1, 2, 3, 4]);
    assert_eq!(c, PixelColor { red: 1, green: 2, blue: 3, alpha: 4 });
    assert_eq!(c.channels(), [1, 2, 3, 4]);
}

#[test]
fn transparent_halves_the_alpha() {
    assert_eq!(PixelColor::from(RED).transparent(), PixelColor::from([255, 0, 0, 127]));
    assert_eq!(PixelColor::from(BLUE).transparent(), PixelColor::from([0, 0, 255, 4]));
    assert_eq!(PixelColor::from([1, 2, 3, 1]).transparent(), PixelColor::from([1, 2, 3, 0]));
    assert_eq!(PixelColor::from(NONE).transparent(), PixelColor::from(NONE));
}

#[test]
fn pixels_know_their_place() {
    let p = Pixel::new(2, 3, PixelColor::from(RED));
    assert_eq!(p.pos, UVec2::new(2, 3));
    assert_eq!(p.color, PixelColor::from(RED));
    assert_eq!(p.world_pos(), Vec2::new(2_000_000, -3_000_000));
}

#[test]
fn small_images_are_refused() {
    assert_eq!(Art::from_rgba(1, 2, vec![RED, RED]).err(), Some(ArtError::TooSmall));
    assert_eq!(Art::from_rgba(2, 1, vec![RED, RED]).err(), Some(ArtError::TooSmall));
    assert_eq!(Art::from_rgba(0, 0, vec![]).err(), Some(ArtError::TooSmall));
    // Too small comes before empty.
    assert_eq!(Art::from_rgba(1, 1, vec![NONE]).err(), Some(ArtError::TooSmall));
}

#[test]
fn images_without_a_pixel_are_refused() {
    assert_eq!(Art::from_rgba(2, 2, vec![NONE, NONE, NONE, NONE]).err(), Some(ArtError::NoPixel));
    assert!(Art::from_rgba(2, 2, vec![NONE, NONE, NONE, [0, 0, 0, 1]]).is_ok());
}

#[test]
fn errors_say_what_is_wrong() {
    assert_eq!(ArtError::TooSmall.message(), "Image must be at least 2x2");
    assert_eq!(ArtError::NoPixel.message(), "Image must have at least one pixel");
}

#[test]
fn art_holds_the_pixels_with_alpha() {
    let art = Art::from_rgba(3, 2, vec![RED, NONE, BLUE, NONE, NONE, RED]).unwrap();
    assert_eq!(art.width(), 3);
    assert_eq!(art.height(), 2);
    assert_eq!(art.size(), UVec2::new(3, 2));
    assert_eq!(*art.get(UVec2::new(0, 0)), Some(PixelColor::from(RED)));
    assert_eq!(*art.get(UVec2::new(1, 0)), None);
    assert_eq!(art.pixel(UVec2::new(2, 0)), Some(Pixel::new(2, 0, PixelColor::from(BLUE))));
    assert_eq!(art.pixel(UVec2::new(0, 1)), None);
    assert_eq!(art.pixel(UVec2::new(2, 1)), Some(Pixel::new(2, 1, PixelColor::from(RED))));
    let rows = art.rows();
    assert_eq!(rows.len(), 2);
    assert_eq!(rows[0], &[Some(PixelColor::from(RED)), None, Some(PixelColor::from(BLUE))]);
    assert_eq!(rows[1], &[None, None, Some(PixelColor::from(RED))]);
}

#[test]
fn default_order_goes_row_by_row() {
    let art = Art::from_rgba(3, 2, vec![RED, NONE, BLUE, NONE, BLUE, RED]).unwrap();
    let ordering = generate_fast(&art);
    assert_eq!(ordering.len(), 4);
    let mut current = CurrentOrdering::init(ordering);
    assert_eq!(current.peek(), Some(Pixel::new(0, 0, PixelColor::from(RED))));
    assert_eq!(current.peek(), Some(Pixel::new(0, 0, PixelColor::from(RED))));
    assert_eq!(current.next(), Some(Pixel::new(0, 0, PixelColor::from(RED))));
    assert_eq!(current.next(), Some(Pixel::new(2, 0, PixelColor::from(BLUE))));
    assert_eq!(current.peek(), Some(Pixel::new(1, 1, PixelColor::from(BLUE))));
    assert_eq!(current.next(), Some(Pixel::new(1, 1, PixelColor::from(BLUE))));
    assert_eq!(current.next(), Some(Pixel::new(2, 1, PixelColor::from(RED))));
    assert_eq!(current.peek(), None);
    assert_eq!(current.next(), None);
    assert_eq!(current.next(), None);
    assert_eq!(current.peek(), None);
}

#[test]
fn orderings_can_be_given_as_they_are() {
    let a = Pixel::new(5, 5, PixelColor::from(RED));
    let b = Pixel::new(0, 0, PixelColor::from(BLUE));
    let mut current = CurrentOrdering::init(PixelOrdering::from_pixels(vec![a, b]));
    assert_eq!(current.next(), Some(a));
    assert_eq!(current.next(), Some(b));
    assert_eq!(current.next(), None);
    let mut empty = CurrentOrdering::init(PixelOrdering::from_pixels(vec![]));
    assert_eq!(empty.peek(), None);
    assert_eq!(empty.next(), None);
}

#[test]
fn the_default_kind_of_order_is_default() {
    assert_eq!(OrderingType::default(), OrderingType::Default);
    assert_ne!(OrderingType::SideToSide, OrderingType::Spiral);
}
