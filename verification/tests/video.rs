use vinx::context::{DrawCommand, Shape};
use vinx::error::RuntimeError;
use vinx::variable::values::{Effect, Rgb};
use vinx::video::{inverse_color, random_source, Canvas, Drawable, Paint};

const RED: Rgb = Rgb { r: 255, g: 0, b: 0 };
const GREY: Rgb = Rgb { r: 10, g: 20, b: 30 };

/// A picture in which every point has a colour of its own.
fn sample(width: usize, height: usize) -> Canvas {
    let mut pixels = vec![];
    for y in 0..height {
        for x in 0..width {
            pixels.push(Rgb::new(x as u8, y as u8, 7));
        }
    }
    Canvas::from_pixels(width, height, pixels).unwrap()
}

/// The points of a picture that have the colour.
fn points_in(canvas: &Canvas, colour: Rgb) -> Vec<(usize, usize)> {
    let mut found = vec![];
    for y in 0..canvas.get_height() {
        for x in 0..canvas.get_width() {
            if canvas.get_pixel(x, y) == colour {
                found.push((x, y));
            }
        }
    }
    found
}

/// The points of a picture that differ from those of the sample.
fn changed(canvas: &Canvas) -> Vec<(usize, usize)> {
    let before = sample(canvas.get_width(), canvas.get_height());
    let mut found = vec![];
    for y in 0..canvas.get_height() {
        for x in 0..canvas.get_width() {
            if canvas.get_pixel(x, y) != before.get_pixel(x, y) {
                found.push((x, y));
            }
        }
    }
    found
}

#[test]
fn the_inverse_of_a_colour_is_what_it_lacks() {
    assert_eq!(inverse_color(Rgb::new(0, 255, 10)), Rgb::new(255, 0, 245));
    assert_eq!(inverse_color(inverse_color(Rgb::new(1, 2, 3))), Rgb::new(1, 2, 3));
}

#[test]
fn random_sources_lie_where_they_are_asked_for() {
    let mut seen = vec![];
    for _ in 0..200 {
        let x = random_source(100, 1100, 2000).unwrap();
        assert!(100 <= x && x <= 1100);
        if !seen.contains(&x) {
            seen.push(x);
        }
    }
    // two hundred draws from a thousand numbers are not all the same
    assert!(seen.len() > 1);
    assert_eq!(random_source(7, 7, 10), Some(7));
    for _ in 0..200 {
        let x = random_source(90, 10, 100).unwrap();
        assert!(x < 100);
        assert!(x >= 10 || x < 91);
    }
    assert_eq!(random_source(usize::MAX, 0, 2), None);
}

#[test]
fn a_picture_has_a_colour_for_every_point() {
    let canvas = Canvas::new(3, 2, GREY).unwrap();
    assert_eq!(canvas.get_width(), 3);
    assert_eq!(canvas.get_height(), 2);
    assert_eq!(canvas.get_pixels(), &vec![GREY; 6]);
    assert!(Canvas::new(usize::MAX, 2, GREY).is_none());
    assert_eq!(Canvas::new(0, 5, GREY).unwrap().get_pixels().len(), 0);
    assert!(Canvas::from_pixels(2, 2, vec![GREY; 3]).is_none());
    assert!(Canvas::from_pixels(usize::MAX, 2, vec![GREY; 3]).is_none());
    let given = sample(3, 2);
    assert_eq!(given.get_pixel(0, 0), Rgb::new(0, 0, 7));
    assert_eq!(given.get_pixel(2, 0), Rgb::new(2, 0, 7));
    assert_eq!(given.get_pixel(0, 1), Rgb::new(0, 1, 7));
    assert_eq!(given.get_pixel(2, 1), Rgb::new(2, 1, 7));
}

#[test]
fn a_point_that_is_put_has_its_new_colour() {
    let mut canvas = sample(4, 3);
    canvas.put_pixel(1, 2, RED);
    assert_eq!(canvas.get_pixel(1, 2), RED);
    assert_eq!(changed(&canvas), vec![(1, 2)]);
    canvas.paint_pixel(3, 0, Paint::Fill(GREY));
    assert_eq!(canvas.get_pixel(3, 0), GREY);
    canvas.paint_pixel(0, 1, Paint::Inverse);
    assert_eq!(canvas.get_pixel(0, 1), Rgb::new(255, 254, 248));
    assert_eq!(changed(&canvas), vec![(3, 0), (0, 1), (1, 2)]);
}

#[test]
fn a_rectangle_is_filled_without_its_last_row_and_column() {
    let mut canvas = sample(6, 5);
    canvas.draw_rect((1, 2), (4, 4), RED);
    assert_eq!(points_in(&canvas, RED), vec![(1, 2), (2, 2), (3, 2), (1, 3), (2, 3), (3, 3)]);
    assert_eq!(changed(&canvas), points_in(&canvas, RED));
}

#[test]
fn corners_are_taken_round_the_picture() {
    let mut canvas = sample(6, 5);
    canvas.draw_rect((7, 12), (10, 14), RED);
    assert_eq!(points_in(&canvas, RED), vec![(1, 2), (2, 2), (3, 2), (1, 3), (2, 3), (3, 3)]);
    let mut round = sample(4, 4);
    round.draw_rect((3, 1), (1, 2), RED);
    assert_eq!(points_in(&round, RED), vec![(0, 1), (3, 1)]);
    let mut both = sample(4, 4);
    both.draw_rect((3, 3), (1, 1), RED);
    assert_eq!(points_in(&both, RED), vec![(0, 0), (3, 0), (0, 3), (3, 3)]);
    let mut none = sample(4, 4);
    none.draw_rect((2, 2), (2, 3), RED);
    assert_eq!(changed(&none), vec![]);
    let mut whole = sample(4, 4);
    whole.draw_rect((0, 0), (4, 4), RED);
    assert_eq!(changed(&whole), vec![]);
}

#[test]
fn an_outline_has_two_rows_and_two_columns() {
    let mut canvas = sample(6, 6);
    canvas.draw_rect_outline((1, 1), (4, 4), RED);
    assert_eq!(
        points_in(&canvas, RED),
        vec![
            (1, 1),
            (2, 1),
            (3, 1),
            (4, 1),
            (1, 2),
            (4, 2),
            (1, 3),
            (4, 3),
            (1, 4),
            (2, 4),
            (3, 4),
        ]
    );
    assert_eq!(changed(&canvas), points_in(&canvas, RED));
    let mut round = sample(4, 4);
    round.draw_rect_outline((3, 0), (1, 2), RED);
    assert_eq!(
        points_in(&round, RED),
        vec![(0, 0), (1, 0), (3, 0), (1, 1), (3, 1), (0, 2), (3, 2)]
    );
}

#[test]
fn the_inverse_effect_inverts_the_rectangle() {
    let mut canvas = sample(5, 5);
    assert_eq!(canvas.draw_effect_rect((1, 1), (3, 3), Effect::Inverse), Ok(()));
    assert_eq!(changed(&canvas), vec![(1, 1), (2, 1), (1, 2), (2, 2)]);
    assert_eq!(canvas.get_pixel(1, 1), Rgb::new(254, 254, 248));
    assert_eq!(canvas.get_pixel(2, 1), Rgb::new(253, 254, 248));
    assert_eq!(canvas.draw_effect_rect((1, 1), (3, 3), Effect::Inverse), Ok(()));
    assert_eq!(changed(&canvas), vec![]);
    canvas.inverse(4, 1, 0, 1);
    assert_eq!(changed(&canvas), vec![(0, 0), (4, 0)]);
}

#[test]
fn the_random_effect_shows_what_the_picture_showed() {
    for _ in 0..20 {
        let before = sample(8, 8);
        let mut canvas = sample(8, 8);
        assert_eq!(canvas.draw_effect_rect((2, 6), (5, 1), Effect::Random), Ok(()));
        for y in 0..8 {
            for x in 0..8 {
                let inside = (2..5).contains(&x) && (y < 1 || y >= 6);
                let colour = canvas.get_pixel(x, y);
                if inside {
                    assert!(!points_in(&before, colour).is_empty());
                    // the colour is that of a point of the columns 2 to 5
                    assert!((2..=5).contains(&colour.r));
                } else {
                    assert_eq!(colour, before.get_pixel(x, y));
                }
            }
        }
    }
    let mut moved = false;
    for _ in 0..20 {
        let mut canvas = sample(8, 8);
        canvas.randomize(0, 7, 0, 7);
        moved = moved || !changed(&canvas).is_empty();
    }
    assert!(moved);
}

#[test]
fn there_is_no_blur_effect() {
    let mut canvas = sample(5, 5);
    assert_eq!(
        canvas.draw_effect_rect((1, 1), (3, 3), Effect::Blur),
        Err(RuntimeError::Unsupported)
    );
    assert_eq!(changed(&canvas), vec![]);
}

#[test]
fn drawing_calls_are_performed_on_a_picture() {
    let call = |shape: Shape| DrawCommand { frame: 0, top_left: (0, 0), bottom_right: (2, 2), shape };
    let mut canvas = sample(3, 3);
    assert_eq!(canvas.apply(&call(Shape::Rect(RED))), Ok(()));
    assert_eq!(points_in(&canvas, RED), vec![(0, 0), (1, 0), (0, 1), (1, 1)]);
    assert_eq!(canvas.apply(&call(Shape::RectOutline(GREY))), Ok(()));
    assert_eq!(
        points_in(&canvas, GREY),
        vec![(0, 0), (1, 0), (2, 0), (0, 1), (2, 1), (0, 2), (1, 2)]
    );
    assert_eq!(points_in(&canvas, RED), vec![(1, 1)]);
    assert_eq!(canvas.apply(&call(Shape::EffectRect(Effect::Inverse))), Ok(()));
    assert_eq!(canvas.get_pixel(1, 1), Rgb::new(0, 255, 255));
    assert_eq!(canvas.get_pixel(0, 0), Rgb::new(245, 235, 225));
    assert_eq!(canvas.get_pixel(2, 2), Rgb::new(2, 2, 7));
    assert_eq!(canvas.apply(&call(Shape::EffectRect(Effect::Random))), Ok(()));
    assert_eq!(
        canvas.apply(&call(Shape::EffectRect(Effect::Blur))),
        Err(RuntimeError::Unsupported)
    );
}

#[test]
fn rows_and_columns_are_painted_in_stretches() {
    let mut canvas = sample(5, 4);
    canvas.paint_stretch(1, 1, 3, Paint::Fill(RED));
    assert_eq!(points_in(&canvas, RED), vec![(1, 1), (2, 1)]);
    canvas.paint_row(2, 4, 1, Paint::Fill(RED));
    assert_eq!(points_in(&canvas, RED), vec![(1, 1), (2, 1), (0, 2), (4, 2)]);
    let mut canvas = sample(5, 4);
    canvas.paint_rows(1, 3, 2, 4, Paint::Fill(RED));
    assert_eq!(points_in(&canvas, RED), vec![(2, 1), (3, 1), (2, 2), (3, 2)]);
    let mut canvas = sample(5, 4);
    canvas.paint_rect(3, 1, 3, 1, Paint::Fill(RED));
    assert_eq!(points_in(&canvas, RED), vec![(0, 0), (3, 0), (4, 0), (0, 3), (3, 3), (4, 3)]);
    let mut canvas = sample(5, 4);
    canvas.fill_down(2, 1, 3, RED);
    assert_eq!(points_in(&canvas, RED), vec![(2, 1), (2, 2)]);
    canvas.fill_column(0, 3, 1, RED);
    assert_eq!(points_in(&canvas, RED), vec![(0, 0), (2, 1), (2, 2), (0, 3)]);
}

#[test]
fn drawing_calls_are_performed_in_their_order() {
    let call = |corner: usize, shape: Shape| DrawCommand {
        frame: 0,
        top_left: (0, 0),
        bottom_right: (corner, corner),
        shape,
    };
    let mut canvas = sample(4, 4);
    let calls = vec![call(3, Shape::Rect(RED)), call(2, Shape::Rect(GREY))];
    assert_eq!(canvas.apply_all(&calls), Ok(()));
    assert_eq!(points_in(&canvas, GREY), vec![(0, 0), (1, 0), (0, 1), (1, 1)]);
    assert_eq!(points_in(&canvas, RED), vec![(2, 0), (2, 1), (0, 2), (1, 2), (2, 2)]);
    let mut other = sample(4, 4);
    let swapped = vec![call(2, Shape::Rect(GREY)), call(3, Shape::Rect(RED))];
    assert_eq!(other.apply_all(&swapped), Ok(()));
    assert_eq!(points_in(&other, GREY), vec![]);
    assert_eq!(points_in(&other, RED).len(), 9);
    let mut stopped = sample(4, 4);
    let blurred = vec![
        call(1, Shape::Rect(RED)),
        call(3, Shape::EffectRect(Effect::Blur)),
        call(3, Shape::Rect(GREY)),
    ];
    assert_eq!(stopped.apply_all(&blurred), Err(RuntimeError::Unsupported));
    assert_eq!(changed(&stopped), vec![(0, 0)]);
    assert_eq!(stopped.get_pixel(0, 0), RED);
    let mut untouched = sample(4, 4);
    assert_eq!(untouched.apply_all(&vec![]), Ok(()));
    assert_eq!(changed(&untouched), vec![]);
}

#[test]
fn random_colours_come_from_the_rectangle_and_its_last_row_and_column() {
    for _ in 0..20 {
        let before = sample(8, 8);
        let mut canvas = sample(8, 8);
        canvas.randomize(1, 3, 2, 4);
        for y in 0..8 {
            for x in 0..8 {
                let colour = canvas.get_pixel(x, y);
                if (1..3).contains(&x) && (2..4).contains(&y) {
                    assert!((1..=3).contains(&colour.r) && (2..=4).contains(&colour.g));
                    assert_eq!(colour.b, 7);
                } else {
                    assert_eq!(colour, before.get_pixel(x, y));
                }
            }
        }
    }
    // one column and one row to choose from leave one colour
    let mut canvas = sample(8, 8);
    canvas.paint_pixel(0, 0, Paint::Random(5, 5, 6, 6));
    assert_eq!(canvas.get_pixel(0, 0), Rgb::new(5, 6, 7));
    assert_eq!(changed(&canvas), vec![(0, 0)]);
}
