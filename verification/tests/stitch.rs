use easy_stitch::buffer::{Pixel, PixelBuffer};
use easy_stitch::stitcher::{stitch, stitch_horizontal, stitch_vertical, Axis, StitchError};

const ZERO: Pixel = Pixel { r: 0, g: 0, b: 0, a: 0 };

/// A buffer whose pixel at (x, y) is (tag, x, y, 255).
fn fill(width: u32, height: u32, tag: u8) -> PixelBuffer {
    let mut buf = PixelBuffer::new(width, height);
    for y in 0u32..height {
        for x in 0u32..width {
            buf.set(
                x,
                y,
                Pixel {
                    r: tag,
                    g: x as u8,
                    b: y as u8,
                    a: 255,
                },
            );
        }
    }
    buf
}

#[test]
fn new_canvas_is_transparent() {
    let buf = PixelBuffer::new(4, 3);
    assert_eq!(buf.width, 4);
    assert_eq!(buf.height, 3);
    for y in 0u32..3 {
        for x in 0u32..4 {
            assert_eq!(buf.get(x, y), ZERO);
        }
    }
}

#[test]
fn set_changes_one_pixel_only() {
    let mut buf = PixelBuffer::new(3, 2);
    let p = Pixel {
        r: 9,
        g: 8,
        b: 7,
        a: 6,
    };
    buf.set(2, 1, p);
    for y in 0u32..2 {
        for x in 0u32..3 {
            if x == 2 && y == 1 {
                assert_eq!(buf.get(x, y), p);
            } else {
                assert_eq!(buf.get(x, y), ZERO);
            }
        }
    }
}

#[test]
fn horizontal_dims_sum_widths_max_heights() {
    let imgs = vec![fill(1, 5, 1), fill(2, 1, 2), fill(3, 4, 3)];
    let out = stitch_horizontal(&imgs).unwrap();
    assert_eq!(out.width, 6);
    assert_eq!(out.height, 5);
}

#[test]
fn vertical_dims_max_widths_sum_heights() {
    let imgs = vec![fill(1, 5, 1), fill(2, 1, 2), fill(3, 4, 3)];
    let out = stitch_vertical(&imgs).unwrap();
    assert_eq!(out.width, 3);
    assert_eq!(out.height, 10);
}

#[test]
fn horizontal_two_images_layout_and_blank_region() {
    // A 2x3 image beside a 3x2 image: the canvas is 5x3, the second
    // image's columns are x in [2,5), and its missing bottom row stays
    // fully transparent.
    let a = fill(2, 3, 10);
    let b = fill(3, 2, 20);
    let out = stitch_horizontal(&vec![a, b]).unwrap();
    assert_eq!(out.width, 5);
    assert_eq!(out.height, 3);
    for y in 0u32..3 {
        for x in 0u32..2 {
            assert_eq!(
                out.get(x, y),
                Pixel {
                    r: 10,
                    g: x as u8,
                    b: y as u8,
                    a: 255
                }
            );
        }
    }
    for y in 0u32..2 {
        for x in 2u32..5 {
            assert_eq!(
                out.get(x, y),
                Pixel {
                    r: 20,
                    g: (x - 2) as u8,
                    b: y as u8,
                    a: 255
                }
            );
        }
    }
    for x in 2u32..5 {
        assert_eq!(out.get(x, 2), ZERO);
    }
}

#[test]
fn vertical_two_images_layout_and_blank_region() {
    // A 2x3 image above a 3x2 image: the canvas is 3x5, and the first
    // image's missing right column stays fully transparent.
    let a = fill(2, 3, 10);
    let b = fill(3, 2, 20);
    let out = stitch_vertical(&vec![a, b]).unwrap();
    assert_eq!(out.width, 3);
    assert_eq!(out.height, 5);
    for y in 0u32..3 {
        for x in 0u32..2 {
            assert_eq!(
                out.get(x, y),
                Pixel {
                    r: 10,
                    g: x as u8,
                    b: y as u8,
                    a: 255
                }
            );
        }
        assert_eq!(out.get(2, y), ZERO);
    }
    for y in 3u32..5 {
        for x in 0u32..3 {
            assert_eq!(
                out.get(x, y),
                Pixel {
                    r: 20,
                    g: x as u8,
                    b: (y - 3) as u8,
                    a: 255
                }
            );
        }
    }
}

#[test]
fn vertical_three_identical_images_occupy_successive_bands() {
    // Three 10x10 images stacked: the canvas is 10x30 and image k owns
    // rows [10k, 10k + 10).
    let imgs = vec![fill(10, 10, 0), fill(10, 10, 1), fill(10, 10, 2)];
    let out = stitch_vertical(&imgs).unwrap();
    assert_eq!(out.width, 10);
    assert_eq!(out.height, 30);
    for k in 0u32..3 {
        for y in 0u32..10 {
            for x in 0u32..10 {
                assert_eq!(
                    out.get(x, 10 * k + y),
                    Pixel {
                        r: k as u8,
                        g: x as u8,
                        b: y as u8,
                        a: 255
                    }
                );
            }
        }
    }
}

#[test]
fn pixel_placement_at_offsets() {
    // Horizontally, image i's pixel (x, y) lands at (offset_i + x, y);
    // vertically at (x, offset_i + y).
    let imgs = vec![fill(3, 3, 1), fill(4, 3, 2), fill(2, 3, 3)];
    let h = stitch_horizontal(&imgs).unwrap();
    assert_eq!(
        h.get(3 + 1, 2),
        Pixel {
            r: 2,
            g: 1,
            b: 2,
            a: 255
        }
    );
    assert_eq!(
        h.get(3 + 4 + 0, 1),
        Pixel {
            r: 3,
            g: 0,
            b: 1,
            a: 255
        }
    );
    let imgs2 = vec![fill(3, 2, 1), fill(3, 5, 2), fill(3, 1, 3)];
    let v = stitch_vertical(&imgs2).unwrap();
    assert_eq!(
        v.get(1, 2 + 3),
        Pixel {
            r: 2,
            g: 1,
            b: 3,
            a: 255
        }
    );
    assert_eq!(
        v.get(2, 2 + 5 + 0),
        Pixel {
            r: 3,
            g: 2,
            b: 0,
            a: 255
        }
    );
}

#[test]
fn single_image_stitch_is_identity() {
    let img = fill(4, 2, 7);
    let h = stitch_horizontal(&vec![fill(4, 2, 7)]).unwrap();
    assert_eq!(h.width, img.width);
    assert_eq!(h.height, img.height);
    let v = stitch_vertical(&vec![fill(4, 2, 7)]).unwrap();
    assert_eq!(v.width, img.width);
    assert_eq!(v.height, img.height);
    for y in 0u32..2 {
        for x in 0u32..4 {
            assert_eq!(h.get(x, y), img.get(x, y));
            assert_eq!(v.get(x, y), img.get(x, y));
        }
    }
}

#[test]
fn empty_sequence_is_invalid_input() {
    let imgs: Vec<PixelBuffer> = Vec::new();
    assert!(matches!(
        stitch_horizontal(&imgs),
        Err(StitchError::InvalidInput)
    ));
    assert!(matches!(
        stitch_vertical(&imgs),
        Err(StitchError::InvalidInput)
    ));
    assert!(matches!(
        stitch(&imgs, Axis::Horizontal),
        Err(StitchError::InvalidInput)
    ));
    assert!(matches!(
        stitch(&imgs, Axis::Vertical),
        Err(StitchError::InvalidInput)
    ));
}

#[test]
fn oversized_horizontal_mosaic_is_capacity_exceeded() {
    // Two zero-height buffers whose widths sum past u32::MAX: well formed
    // (no pixels), but the combined width is not addressable.
    let wide = || PixelBuffer {
        width: 3_000_000_000,
        height: 0,
        data: Vec::new(),
    };
    let imgs = vec![wide(), wide()];
    assert!(matches!(
        stitch_horizontal(&imgs),
        Err(StitchError::CapacityExceeded)
    ));
}

#[test]
fn oversized_vertical_mosaic_is_capacity_exceeded() {
    let tall = || PixelBuffer {
        width: 0,
        height: 3_000_000_000,
        data: Vec::new(),
    };
    let imgs = vec![tall(), tall()];
    assert!(matches!(
        stitch_vertical(&imgs),
        Err(StitchError::CapacityExceeded)
    ));
}

#[test]
fn stitch_follows_the_axis() {
    let imgs = vec![fill(2, 3, 1), fill(3, 2, 2)];
    let h = stitch(&imgs, Axis::Horizontal).unwrap();
    assert_eq!(h.width, 5);
    assert_eq!(h.height, 3);
    let v = stitch(&imgs, Axis::Vertical).unwrap();
    assert_eq!(v.width, 3);
    assert_eq!(v.height, 5);
    let direct = stitch_horizontal(&imgs).unwrap();
    for y in 0u32..3 {
        for x in 0u32..5 {
            assert_eq!(h.get(x, y), direct.get(x, y));
        }
    }
}
