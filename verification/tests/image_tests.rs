use ecs_runtime::image::load_png;
use ecs_runtime::{is_png, load};

#[test]
fn png_loads_as_one_white_pixel() {
    let data = load("assets/textures/teapot.png".to_string()).unwrap();
    assert_eq!(data.raw_bytes, vec![255, 255, 255, 255]);
    assert_eq!(data.image_dimensions, (1, 1));
    let data = load_png("anything".to_string()).unwrap();
    assert_eq!(data.raw_bytes, vec![255, 255, 255, 255]);
    assert_eq!(data.image_dimensions, (1, 1));
}

#[test]
fn file_type_is_what_follows_the_last_dot() {
    assert!(is_png("a.png"));
    assert!(is_png("dir.d/b.c.png"));
    assert!(is_png(".png"));
    assert!(is_png("png"));
    assert!(!is_png(""));
    assert!(!is_png("pn"));
    assert!(!is_png("apng"));
    assert!(!is_png("a.jpg"));
    assert!(!is_png("a.png.jpg"));
    assert!(!is_png("a.png."));
    assert!(!is_png("a.PNG"));
    assert!(!is_png("dir.d/png"));
    assert!(!is_png("a.xpng"));
    assert!(is_png("\u{e9}t\u{e9}.png"));
}
