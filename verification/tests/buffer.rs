use ndlm::buffer::{Buffer, BufferError, Viewport, BYTES_PER_PIXEL};
use ndlm::color::Color;

fn blank(width: u32, height: u32) -> Buffer {
    Buffer::new(vec![0u8; (width * height * 4) as usize], (width, height)).unwrap()
}

fn painted(buf: &Buffer) -> Vec<(u32, u32)> {
    let view = buf.viewport();
    let mut hits = Vec::new();
    for y in 0..buf.height() {
        for x in 0..buf.width() {
            let at = 4 * (y * buf.width() + x) as usize;
            if buf.as_bytes()[at..at + 4] != [0, 0, 0, 0] {
                assert!(buf.get(&view, (x, y)).is_ok());
                hits.push((x, y));
            }
        }
    }
    hits
}

#[test]
fn a_pixel_takes_four_bytes() {
    assert_eq!(BYTES_PER_PIXEL, 4);
}

#[test]
fn new_refuses_a_short_store() {
    assert!(matches!(
        Buffer::new(vec![0u8; 15], (2, 2)),
        Err(BufferError::OutOfBounds)
    ));
    assert!(Buffer::new(vec![0u8; 16], (2, 2)).is_ok());
    assert!(Buffer::new(vec![0u8; 20], (2, 2)).is_ok());
    assert!(Buffer::new(Vec::new(), (0, 7)).is_ok());
    assert!(matches!(
        Buffer::new(vec![0u8; 64], (u32::MAX, u32::MAX)),
        Err(BufferError::OutOfBounds)
    ));
}

#[test]
fn new_keeps_size_and_bytes() {
    let bytes: Vec<u8> = (0..24).collect();
    let buf = Buffer::new(bytes.clone(), (3, 2)).unwrap();
    assert_eq!(buf.width(), 3);
    assert_eq!(buf.height(), 2);
    assert_eq!(buf.as_bytes(), &bytes);
    assert_eq!(buf.clone().into_bytes(), bytes);
    let view = buf.viewport();
    assert_eq!(view.origin(), (0, 0));
    assert_eq!(view.dimensions(), (3, 2));
}

#[test]
fn put_writes_blue_green_red_and_a_full_byte() {
    let mut buf = blank(3, 2);
    let view = buf.viewport();
    assert_eq!(buf.put(&view, (1, 1), &Color(10, 20, 30)), Ok(()));
    let bytes = buf.as_bytes();
    let at = 4 * (1 * 3 + 1);
    assert_eq!(&bytes[at..at + 4], &[30, 20, 10, 0xff]);
    for (i, b) in bytes.iter().enumerate() {
        if i < at || i >= at + 4 {
            assert_eq!(*b, 0);
        }
    }
    assert_eq!(buf.get(&view, (1, 1)), Ok(Color(10, 20, 30)));
    assert_eq!(buf.get(&view, (0, 0)), Ok(Color(0, 0, 0)));
}

#[test]
fn put_outside_the_view_fails_without_writing() {
    let mut buf = blank(3, 2);
    let view = buf.viewport();
    for pos in [(3, 0), (0, 2), (3, 2), (u32::MAX, 0), (0, u32::MAX)] {
        assert_eq!(
            buf.put(&view, pos, &Color(1, 2, 3)),
            Err(BufferError::OutOfBounds)
        );
        assert_eq!(buf.get(&view, pos), Err(BufferError::OutOfBounds));
    }
    assert!(buf.as_bytes().iter().all(|b| *b == 0));
}

#[test]
fn put_leaves_bytes_past_the_pixels_alone() {
    let mut buf = Buffer::new(vec![7u8; 4 * 4 + 3], (2, 2)).unwrap();
    let view = buf.viewport();
    for y in 0..2 {
        for x in 0..2 {
            buf.put(&view, (x, y), &Color(1, 2, 3)).unwrap();
        }
    }
    assert_eq!(&buf.as_bytes()[16..], &[7, 7, 7]);
    assert_eq!(&buf.as_bytes()[..4], &[3, 2, 1, 0xff]);
}

#[test]
fn subdimensions_moves_the_origin_to_the_corner_of_the_rectangle() {
    let buf = blank(10, 8);
    let view = buf.viewport();
    let sub = view.subdimensions((2, 3, 4, 5)).unwrap();
    assert_eq!(sub.origin(), (2, 3));
    assert_eq!(sub.dimensions(), (4, 5));
    let inner = sub.subdimensions((1, 1, 3, 4)).unwrap();
    assert_eq!(inner.origin(), (3, 4));
    assert_eq!(inner.dimensions(), (3, 4));
    let whole = view.subdimensions((0, 0, 10, 8)).unwrap();
    assert_eq!(whole, view);
    let none = view.subdimensions((10, 8, 0, 0)).unwrap();
    assert_eq!(none.origin(), (10, 8));
    assert_eq!(none.dimensions(), (0, 0));
}

#[test]
fn subdimensions_refuses_a_rectangle_that_is_not_contained() {
    let buf = blank(10, 8);
    let view = buf.viewport();
    for rect in [
        (0, 0, 11, 8),
        (0, 0, 10, 9),
        (1, 0, 10, 8),
        (0, 1, 10, 8),
        (11, 0, 0, 0),
        (u32::MAX, 0, 2, 1),
        (0, u32::MAX, 1, 2),
    ] {
        assert_eq!(view.subdimensions(rect), Err(BufferError::OutOfBounds));
    }
    let sub = view.subdimensions((2, 2, 3, 3)).unwrap();
    assert_eq!(sub.subdimensions((0, 0, 4, 3)), Err(BufferError::OutOfBounds));
}

#[test]
fn put_through_a_narrowed_view_writes_the_same_pixel_as_put_on_the_whole() {
    let (w, h) = (7u32, 5u32);
    for rect in [(0, 0, 7, 5), (1, 2, 3, 2), (6, 4, 1, 1), (2, 0, 5, 5)] {
        let probe = blank(w, h);
        let sub = probe.viewport().subdimensions(rect).unwrap();
        for py in 0..h + 1 {
            for px in 0..w + 1 {
                let mut through = blank(w, h);
                let mut direct = blank(w, h);
                let full = direct.viewport();
                let r = through.put(&sub, (px, py), &Color(9, 8, 7));
                if px < rect.2 && py < rect.3 {
                    assert_eq!(r, Ok(()));
                    direct
                        .put(&full, (rect.0 + px, rect.1 + py), &Color(9, 8, 7))
                        .unwrap();
                    assert_eq!(through.as_bytes(), direct.as_bytes());
                    assert_eq!(painted(&through), vec![(rect.0 + px, rect.1 + py)]);
                } else {
                    assert_eq!(r, Err(BufferError::OutOfBounds));
                    assert!(through.as_bytes().iter().all(|b| *b == 0));
                }
            }
        }
    }
}

#[test]
fn offset_keeps_the_extent_that_remains() {
    let buf = blank(10, 8);
    let view = buf.viewport();
    let moved = view.offset((3, 2)).unwrap();
    assert_eq!(moved.origin(), (3, 2));
    assert_eq!(moved.dimensions(), (7, 6));
    let edge = view.offset((10, 8)).unwrap();
    assert_eq!(edge.dimensions(), (0, 0));
    assert_eq!(view.offset((0, 0)), Ok(view));
    assert_eq!(view.offset((11, 0)), Err(BufferError::OutOfBounds));
    assert_eq!(view.offset((0, 9)), Err(BufferError::OutOfBounds));
}

#[test]
fn offset_then_subdimensions_is_subdimensions_of_the_combined_origin() {
    let buf = blank(12, 9);
    let view = buf.viewport().subdimensions((1, 1, 10, 7)).unwrap();
    for by in [(0u32, 0u32), (2, 3), (10, 7), (11, 0), (0, 8)] {
        for rect in [(0u32, 0u32, 0u32, 0u32), (1, 1, 2, 2), (0, 0, 8, 4), (3, 2, 5, 2), (0, 0, 10, 7)] {
            let composed: Result<Viewport, BufferError> =
                view.offset(by).and_then(|moved| moved.subdimensions(rect));
            let single = view.subdimensions((by.0 + rect.0, by.1 + rect.1, rect.2, rect.3));
            assert_eq!(composed, single);
        }
    }
}

#[test]
fn memset_fills_the_view_and_nothing_else() {
    let mut buf = blank(6, 5);
    let sub = buf.viewport().subdimensions((1, 2, 3, 2)).unwrap();
    buf.memset(&sub, &Color(1, 2, 3));
    let full = buf.viewport();
    for y in 0..5 {
        for x in 0..6 {
            let inside = (1..4).contains(&x) && (2..4).contains(&y);
            let at = 4 * (y * 6 + x) as usize;
            if inside {
                assert_eq!(buf.get(&full, (x, y)), Ok(Color(1, 2, 3)));
                assert_eq!(&buf.as_bytes()[at..at + 4], &[3, 2, 1, 0xff]);
            } else {
                assert_eq!(&buf.as_bytes()[at..at + 4], &[0, 0, 0, 0]);
            }
        }
    }
    buf.memset(&full, &Color(0, 0, 0));
    assert_eq!(painted(&buf).len(), 30);
    assert!(buf.as_bytes().chunks(4).all(|c| c == [0, 0, 0, 0xff]));
}

#[test]
fn a_view_of_a_larger_store_is_clipped_to_a_smaller_one() {
    let large = blank(8, 8);
    let view = large.viewport().subdimensions((2, 2, 6, 6)).unwrap();
    let mut small = blank(4, 4);
    assert_eq!(small.put(&view, (1, 1), &Color(5, 5, 5)), Ok(()));
    assert_eq!(
        small.put(&view, (2, 0), &Color(5, 5, 5)),
        Err(BufferError::OutOfBounds)
    );
    small.memset(&view, &Color(1, 1, 1));
    assert_eq!(painted(&small), vec![(2, 2), (3, 2), (2, 3), (3, 3)]);
}
