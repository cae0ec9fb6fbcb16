use ndlm::color::Color;
use ndlm::graphics::Graphics;

fn surface(width: usize, height: usize) -> Graphics {
    Graphics::new(vec![0u8; width * height * 4], width, height, width * 4)
}

/// The positions whose four bytes were written.
fn lit(g: &Graphics, stride: usize) -> Vec<(usize, usize)> {
    let mut hits = Vec::new();
    for y in 0..g.height {
        for x in 0..g.width {
            let at = y * stride + 4 * x;
            if at + 3 < g.as_bytes().len() && g.as_bytes()[at + 3] == 0xff {
                hits.push((x, y));
            }
        }
    }
    hits
}

#[test]
fn a_new_surface_draws_in_white_and_clears_to_black() {
    let mut g = Graphics::new(vec![9u8; 16], 2, 2, 8);
    assert_eq!(g.width, 2);
    assert_eq!(g.height, 2);
    assert_eq!(g.as_bytes(), &vec![9u8; 16]);
    g.put_pixel(1, 0);
    assert_eq!(&g.as_bytes()[4..8], &[255, 255, 255, 255]);
    g.clear();
    assert!(g.as_bytes().chunks(4).all(|c| c == [0, 0, 0, 0xff]));
    assert_eq!(g.clone().into_bytes(), g.as_bytes().clone());
}

#[test]
fn clear_leaves_an_incomplete_group_alone() {
    for extra in 0..4usize {
        let mut g = Graphics::new(vec![9u8; 8 + extra], 2, 1, 8);
        g.clear();
        assert_eq!(&g.as_bytes()[..8], &[0, 0, 0, 0xff, 0, 0, 0, 0xff]);
        assert_eq!(&g.as_bytes()[8..], &vec![9u8; extra][..]);
    }
    let mut none = Graphics::new(Vec::new(), 0, 0, 0);
    none.clear();
    assert!(none.as_bytes().is_empty());
}

#[test]
fn put_pixel_writes_the_current_colour_in_blue_green_red_order() {
    let mut g = surface(3, 2);
    g.set_color(Color(10, 20, 30));
    g.put_pixel(2, 1);
    let at = 1 * 12 + 2 * 4;
    assert_eq!(&g.as_bytes()[at..at + 4], &[30, 20, 10, 0xff]);
    assert_eq!(lit(&g, 12), vec![(2, 1)]);
    g.set_color(Color(1, 2, 3));
    g.put_pixel(0, 0);
    assert_eq!(&g.as_bytes()[..4], &[3, 2, 1, 0xff]);
    assert_eq!(&g.as_bytes()[at..at + 4], &[30, 20, 10, 0xff]);
}

#[test]
fn put_pixel_passes_over_what_lies_outside() {
    let mut g = surface(3, 2);
    for (x, y) in [
        (-1, 0),
        (0, -1),
        (3, 0),
        (0, 2),
        (isize::MIN, isize::MIN),
        (isize::MAX, isize::MAX),
        (isize::MAX, 0),
        (0, isize::MAX),
    ] {
        g.put_pixel(x, y);
    }
    assert!(g.as_bytes().iter().all(|b| *b == 0));
}

#[test]
fn put_pixel_passes_over_pixels_that_the_store_does_not_hold() {
    // Two rows of 16 bytes are claimed, 20 bytes are there.
    let mut g = Graphics::new(vec![0u8; 20], 4, 2, 16);
    for y in 0..2 {
        for x in 0..4 {
            g.put_pixel(x, y);
        }
    }
    assert_eq!(lit(&g, 16), vec![(0, 0), (1, 0), (2, 0), (3, 0), (0, 1)]);
    let mut huge = Graphics::new(vec![0u8; 8], usize::MAX, usize::MAX, usize::MAX);
    huge.put_pixel(isize::MAX, isize::MAX);
    huge.put_pixel(0, 1);
    huge.put_pixel(2, 0);
    assert!(huge.as_bytes().iter().all(|b| *b == 0));
    huge.put_pixel(1, 0);
    assert_eq!(huge.as_bytes(), &vec![0, 0, 0, 0, 255, 255, 255, 255]);
}

#[test]
fn rows_follow_the_stride() {
    let mut g = Graphics::new(vec![0u8; 3 * 10], 2, 3, 10);
    g.put_pixel(1, 2);
    let at = 2 * 10 + 4;
    assert_eq!(&g.as_bytes()[at..at + 4], &[255, 255, 255, 255]);
    assert_eq!(g.as_bytes().iter().filter(|b| **b != 0).count(), 4);
}

#[test]
fn a_level_line_writes_each_column_once() {
    let mut g = surface(8, 3);
    g.draw_line(0, 0, 5, 0);
    assert_eq!(
        lit(&g, 32),
        vec![(0, 0), (1, 0), (2, 0), (3, 0), (4, 0), (5, 0)]
    );
    let mut back = surface(8, 3);
    back.draw_line(5, 0, 0, 0);
    assert_eq!(back.as_bytes(), g.as_bytes());
    let mut lower = surface(8, 3);
    lower.draw_line(2, 2, 7, 2);
    assert_eq!(
        lit(&lower, 32),
        vec![(2, 2), (3, 2), (4, 2), (5, 2), (6, 2), (7, 2)]
    );
}

#[test]
fn a_line_of_one_point_writes_that_point() {
    let mut g = surface(4, 4);
    g.draw_line(2, 1, 2, 1);
    assert_eq!(lit(&g, 16), vec![(2, 1)]);
}

#[test]
fn lines_run_in_every_direction() {
    let mut upright = surface(4, 6);
    upright.draw_line(1, 4, 1, 0);
    assert_eq!(lit(&upright, 16), vec![(1, 0), (1, 1), (1, 2), (1, 3), (1, 4)]);

    let mut diagonal = surface(5, 5);
    diagonal.draw_line(0, 0, 4, 4);
    assert_eq!(lit(&diagonal, 20), vec![(0, 0), (1, 1), (2, 2), (3, 3), (4, 4)]);

    let mut rising = surface(5, 5);
    rising.draw_line(0, 4, 4, 0);
    assert_eq!(lit(&rising, 20), vec![(4, 0), (3, 1), (2, 2), (1, 3), (0, 4)]);

    let mut shallow = surface(7, 3);
    shallow.draw_line(0, 0, 6, 2);
    assert_eq!(
        lit(&shallow, 28),
        vec![(0, 0), (1, 0), (2, 1), (3, 1), (4, 1), (5, 2), (6, 2)]
    );

    let mut steep = surface(3, 7);
    steep.draw_line(2, 6, 0, 0);
    assert_eq!(
        lit(&steep, 12),
        vec![(0, 0), (0, 1), (1, 2), (1, 3), (1, 4), (2, 5), (2, 6)]
    );
}

#[test]
fn a_line_includes_both_ends_and_is_clipped() {
    let mut g = surface(4, 4);
    g.draw_line(-3, 1, 6, 1);
    assert_eq!(lit(&g, 16), vec![(0, 1), (1, 1), (2, 1), (3, 1)]);
    let mut ends = surface(10, 10);
    ends.draw_line(1, 8, 9, 3);
    let hits = lit(&ends, 40);
    assert!(hits.contains(&(1, 8)));
    assert!(hits.contains(&(9, 3)));
    assert_eq!(hits.len(), 9);
    let mut away = surface(4, 4);
    away.draw_line(-5, -5, -1, -9);
    assert!(lit(&away, 16).is_empty());
}

#[test]
fn a_point_is_a_filled_disc() {
    let mut dot = surface(7, 7);
    dot.draw_point(3, 3, 0);
    assert_eq!(lit(&dot, 28), vec![(3, 3)]);

    let mut plus = surface(7, 7);
    plus.draw_point(3, 3, 1);
    assert_eq!(lit(&plus, 28), vec![(3, 2), (2, 3), (3, 3), (4, 3), (3, 4)]);

    let mut disc = surface(7, 7);
    disc.draw_point(3, 3, 2);
    let mut expected = Vec::new();
    for y in 0..7i32 {
        for x in 0..7i32 {
            if (x - 3) * (x - 3) + (y - 3) * (y - 3) <= 4 {
                expected.push((x as usize, y as usize));
            }
        }
    }
    assert_eq!(expected.len(), 13);
    assert_eq!(lit(&disc, 28), expected);
}

#[test]
fn a_point_of_negative_radius_draws_nothing_and_a_disc_is_clipped() {
    let mut g = surface(4, 4);
    g.draw_point(1, 1, -1);
    g.draw_point(1, 1, isize::MIN);
    assert!(lit(&g, 16).is_empty());
    g.draw_point(0, 0, 1);
    assert_eq!(lit(&g, 16), vec![(0, 0), (1, 0), (0, 1)]);
    let mut corner = surface(4, 4);
    corner.draw_point(isize::MAX, isize::MAX, 2);
    corner.draw_point(isize::MIN, isize::MIN, 2);
    assert!(lit(&corner, 16).is_empty());
}

#[test]
fn a_circle_is_drawn_from_its_offsets() {
    let mut g = surface(7, 7);
    // An offset counts to the right and upwards.
    g.draw_circle(3, 3, &vec![(2, 0), (0, 2), (-2, 0), (0, -2), (9, 9), (2, 0)]);
    assert_eq!(lit(&g, 28), vec![(3, 1), (1, 3), (5, 3), (3, 5)]);
    let mut none = surface(3, 3);
    none.draw_circle(1, 1, &Vec::new());
    none.draw_circle(isize::MAX, isize::MIN, &vec![(isize::MAX, isize::MAX), (isize::MIN, isize::MIN)]);
    assert!(lit(&none, 12).is_empty());
}

#[test]
fn every_line_takes_one_point_for_each_step_and_stays_near_the_straight_line() {
    let ends = [0isize, 1, 4, 9, 11];
    for &x0 in &ends {
        for &y0 in &ends {
            for &x1 in &ends {
                for &y1 in &ends {
                    let mut g = surface(12, 12);
                    g.draw_line(x0, y0, x1, y1);
                    let hits = lit(&g, 48);
                    let dx = (x1 - x0).abs();
                    let dy = (y1 - y0).abs();
                    let reach = dx.max(dy);
                    assert_eq!(hits.len() as isize, reach + 1);
                    assert!(hits.contains(&(x0 as usize, y0 as usize)));
                    assert!(hits.contains(&(x1 as usize, y1 as usize)));
                    for (x, y) in hits {
                        let (x, y) = (x as isize, y as isize);
                        assert!(x0.min(x1) <= x && x <= x0.max(x1));
                        assert!(y0.min(y1) <= y && y <= y0.max(y1));
                        let drift = (x - x0) * (y1 - y0) - (y - y0) * (x1 - x0);
                        assert!(2 * drift.abs() <= reach);
                    }
                }
            }
        }
    }
}
