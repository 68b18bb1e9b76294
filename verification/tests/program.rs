use vinx::context::Context;
use vinx::schedule::{get_action_activeness, run_frame};
use vinx::text::number_text;
use vinx::translator::parsing::parse_program;
use vinx::translator::reading::node_to_int;
use vinx::translator::Translator;
use vinx::variable::values::{Rgb, VariableValue};
use vinx::video::Canvas;

const RED: Rgb = Rgb { r: 255, g: 0, b: 0 };
const WHITE: Rgb = Rgb { r: 255, g: 255, b: 255 };

/// The points of a picture that have the colour.
fn points_in(canvas: &Canvas, colour: Rgb) -> Vec<(usize, usize)> {
    let mut found = vec![];
    for y in 0..canvas.get_height() {
        for x in 0..canvas.get_width() {
            if canvas.get_pixel(x, y) == colour {
                found.push((x, y));
            }
        }
    }
    found
}

/// The pictures that a program makes of the white frames of a video.
fn run(text: &str, width: usize, height: usize, length: usize) -> (Vec<Canvas>, Translator) {
    let program = parse_program(text).unwrap();
    let mut translator = Translator::new();
    translator.load(&program.declarations, &program.definitions).unwrap();
    let mut flags = get_action_activeness(&translator.actions).unwrap();
    let mut context = Context::new(width, height, length);
    let mut frames = vec![];
    for _ in 0..length {
        run_frame(
            &mut translator.actions,
            &mut context,
            &mut translator.globals,
            &mut translator.components,
            &mut flags,
            &translator.operations,
            1,
        )
        .unwrap();
        let mut canvas = Canvas::new(width, height, WHITE).unwrap();
        canvas.apply_all(&context.take_draws()).unwrap();
        frames.push(canvas);
    }
    (frames, translator)
}

#[test]
fn printed_numbers_are_read_back() {
    for n in [0usize, 7, 10, 99, 100, 4096, 1234567890, usize::MAX] {
        assert_eq!(node_to_int(&number_text(n)), Some(n));
    }
}

#[test]
fn a_program_draws_on_the_frames_of_a_video() {
    let text = "$p = (1, 1);\n\
        every frame { draw red rectangle from $p to (3, 3); restricted move $p right by 1; }\n";
    let (frames, translator) = run(text, 5, 4, 3);
    assert_eq!(points_in(&frames[0], RED), vec![(1, 1), (2, 1), (1, 2), (2, 2)]);
    assert_eq!(points_in(&frames[1], RED), vec![(2, 1), (2, 2)]);
    assert_eq!(points_in(&frames[2], RED), vec![]);
    assert!(matches!(translator.globals.get_variable("$p"), Some(VariableValue::Pos(4, 1))));
}

#[test]
fn a_declared_operation_is_run_with_its_parameters() {
    let text = "$p = (0, 0);\n\
        mark $at = { draw red rectangle from $at to (2, 2); restricted move $at down by 1; }\n\
        every 2 frames mark $p;\n";
    let (frames, translator) = run(text, 3, 3, 4);
    assert_eq!(points_in(&frames[0], RED), vec![]);
    assert_eq!(points_in(&frames[1], RED), vec![(0, 0), (1, 0), (0, 1), (1, 1)]);
    assert_eq!(points_in(&frames[2], RED), vec![]);
    assert_eq!(points_in(&frames[3], RED), vec![(0, 1), (1, 1)]);
    assert!(matches!(translator.globals.get_variable("$p"), Some(VariableValue::Pos(0, 2))));
}

#[test]
fn an_action_wakes_another() {
    let text = "$n = 0;\n\
        \"count\" ! every frame add 1 to $n;\n\
        at 2 frames activate \"count\";\n";
    let (_, translator) = run(text, 2, 2, 5);
    assert!(matches!(translator.globals.get_variable("$n"), Some(VariableValue::Int(3))));
}
