use paintcore::canvas::{AnimationLayer, Canvas, FrameRect, FrameStart, ImageStart};
use paintcore::layer::{AnimationControl, NextDispose};

fn names(canvas: &Canvas) -> Vec<String> {
    canvas.layer_order()
}

#[test]
fn canvas_sizes_out_of_range_give_an_empty_canvas() {
    let canvas = Canvas::new(4, 3);
    assert_eq!((canvas.width(), canvas.height(), canvas.buffer().len()), (4, 3, 48));
    let canvas = Canvas::new(u32::MAX, 2);
    assert_eq!((canvas.width(), canvas.height(), canvas.buffer().len()), (0, 0, 0));
    let canvas = Canvas::new(0, 5);
    assert_eq!((canvas.width(), canvas.height()), (0, 0));
    assert_eq!(canvas.color(), 0x00ffffff);
    assert_eq!(canvas.background_color(), 0);
    assert_eq!(canvas.current(), "_");
}

#[test]
fn layer_names_are_unique() {
    let mut canvas = Canvas::new(4, 4);
    assert!(canvas.add_layer("a".to_string(), 2, 2, 0, 0).is_ok());
    let err = canvas.add_layer("a".to_string(), 3, 3, 1, 1).unwrap_err();
    assert_eq!(err.message, "Exist Layer name");
    assert_eq!(canvas.layers_len(), 1);
    assert_eq!(canvas.layer("a".to_string()).unwrap().width(), 2);
}

#[test]
fn layers_are_ordered_by_level() {
    let mut canvas = Canvas::new(4, 4);
    canvas.add_layer("a".to_string(), 1, 1, 0, 0).unwrap();
    canvas.add_layer("b".to_string(), 1, 1, 0, 0).unwrap();
    canvas.add_layer("c".to_string(), 1, 1, 0, 0).unwrap();
    assert_eq!(names(&canvas), vec!["a", "b", "c"]);
    canvas.set_z_index("a".to_string(), 5).unwrap();
    assert_eq!(names(&canvas), vec!["b", "c", "a"]);
    canvas.set_z_index("c".to_string(), -1).unwrap();
    assert_eq!(names(&canvas), vec!["c", "b", "a"]);
    let err = canvas.set_z_index("zz".to_string(), 1).unwrap_err();
    assert_eq!(err.message, "No exist Layer");
}

#[test]
fn deleted_layers_are_gone() {
    let mut canvas = Canvas::new(4, 4);
    canvas.add_layer("a".to_string(), 1, 1, 0, 0).unwrap();
    canvas.add_layer("b".to_string(), 1, 1, 0, 0).unwrap();
    canvas.delete_layer("a".to_string());
    assert!(canvas.layer("a".to_string()).is_none());
    assert_eq!(names(&canvas), vec!["b"]);
    canvas.delete_layer("missing".to_string());
    assert_eq!(canvas.layers_len(), 1);
}

#[test]
fn layer_position_alpha_and_visibility() {
    let mut canvas = Canvas::new(4, 4);
    canvas.add_layer("a".to_string(), 2, 2, 3, 4).unwrap();
    // the position given to add_layer belongs to the animated layer, not to its first frame
    assert_eq!(canvas.pos("a".to_string()), Some((0, 0)));
    canvas.set_pos("a".to_string(), 3, 4);
    canvas.move_pos("a".to_string(), -1, 2);
    assert_eq!(canvas.pos("a".to_string()), Some((2, 6)));
    canvas.set_pos("a".to_string(), 0, 0);
    assert_eq!(canvas.pos("a".to_string()), Some((0, 0)));
    assert_eq!(canvas.pos("b".to_string()), None);

    assert_eq!(canvas.get_layer_alpha("a".to_string()).unwrap(), Some(0xff));
    canvas.set_layer_alpha("a".to_string(), 0x40).unwrap();
    assert_eq!(canvas.get_layer_alpha("a".to_string()).unwrap(), Some(0x40));
    assert!(canvas.set_layer_alpha("b".to_string(), 1).is_err());

    assert!(canvas.enable("a".to_string()).unwrap());
    canvas.set_disable("a".to_string()).unwrap();
    assert!(!canvas.enable("a".to_string()).unwrap());
    canvas.set_enable("a".to_string()).unwrap();
    assert!(canvas.enable("a".to_string()).unwrap());
    assert_eq!(canvas.enable("b".to_string()).unwrap_err().message, "No exist Layer name");
}

#[test]
fn frames_cycle_back_to_the_first() {
    let mut canvas = Canvas::new(4, 4);
    canvas.add_layer("anim".to_string(), 2, 2, 0, 0).unwrap();
    canvas.add_frame("anim".to_string(), 2, 2, 0, 0).unwrap();
    canvas.add_frame("anim".to_string(), 2, 2, 1, 1).unwrap();
    assert_eq!(canvas.frames_len("anim".to_string()), Some(3));
    assert_eq!(canvas.set_next("anim".to_string()).unwrap(), 0);
    assert_eq!(canvas.set_next("anim".to_string()).unwrap(), 1);
    assert_eq!(canvas.set_next("anim".to_string()).unwrap(), 2);
    assert_eq!(canvas.set_next("anim".to_string()).unwrap(), 0);
    assert!(canvas.frame_at("anim".to_string(), 0).unwrap().enable());
    assert!(!canvas.frame_at("anim".to_string(), 1).unwrap().enable());
    assert!(canvas.add_frame("none".to_string(), 1, 1, 0, 0).is_err());
    assert!(canvas.set_next("none".to_string()).is_err());
}

#[test]
fn disposal_to_previous_hides_the_frame_left() {
    let mut anim = AnimationLayer::new("x".to_string(), 1, 1);
    anim.add_frame("x".to_string(), 1, 1, 0, 0);
    let mut control = AnimationControl::new(30);
    control.dispose_option = Some(NextDispose::Previous);
    anim.layer_mut().set_control(Some(control));
    assert_eq!(anim.wait(), 30);
    anim.layer_mut().set_enable();
    assert_eq!(anim.next(), 0);
    assert!(anim.layer().enable());
    assert_eq!(anim.set_frame_no(1), 0);
}

#[test]
fn decoded_frames_go_into_the_current_layer() {
    let mut canvas = Canvas::new(4, 4);
    canvas.add_layer("anim".to_string(), 2, 2, 0, 0).unwrap();
    canvas.set_current("anim".to_string());
    assert!(canvas.init(2, 2, None));
    assert!(canvas.draw(0, 0, 1, 1, &[1, 2, 3, 4]));
    assert_eq!(&canvas.layer("anim".to_string()).unwrap().buffer()[0..4], &[1, 2, 3, 4]);
    let next = FrameStart {
        await_time: 100,
        image_rect: Some(FrameRect { start_x: 1, start_y: 0, width: 1, height: 2 }),
        dispose_option: None,
        blend: None,
    };
    assert_eq!(canvas.next(Some(next)).unwrap(), true);
    assert_eq!(canvas.wait("anim".to_string()).unwrap(), 100);
    assert!(canvas.draw(0, 0, 1, 1, &[9, 9, 9, 9]));
    let frame = canvas.frame("anim".to_string()).unwrap();
    assert_eq!((frame.width(), frame.height(), frame.pos()), (1, 2, (1, 0)));
    assert_eq!(&frame.buffer()[0..4], &[9, 9, 9, 9]);
    assert_eq!(canvas.next(None).unwrap(), false);
    canvas.terminate();
}

#[test]
fn image_start_sets_background_and_sizes_an_empty_canvas() {
    let mut canvas = Canvas::new(0, 0);
    let start = ImageStart { loop_count: 2, background: Some((1, 2, 3)), animation: true };
    assert!(canvas.init(3, 4, Some(start)));
    assert_eq!((canvas.width(), canvas.height()), (3, 4));
    assert_eq!(canvas.background_color(), 0x010203);
    assert!(canvas.is_animation());
    assert!(!canvas.init(0, 4, None));
    assert!(canvas.draw(2, 3, 1, 1, &[5, 6, 7, 8]));
    assert_eq!(&canvas.buffer()[44..48], &[5, 6, 7, 8]);
    assert!(!canvas.draw(0, 0, 2, 2, &[1, 2, 3]));
}

#[test]
fn clearing_paints_the_background() {
    let mut canvas = Canvas::new(2, 1);
    canvas.set_buckground_color(0x00102030);
    canvas.add_layer("a".to_string(), 1, 1, 0, 0).unwrap();
    canvas.layer_mut("a".to_string()).unwrap().buffer_mut()[0] = 7;
    canvas.clear();
    assert_eq!(canvas.buffer(), &[0x10, 0x20, 0x30, 0xff, 0x10, 0x20, 0x30, 0xff]);
    assert_eq!(canvas.layer("a".to_string()).unwrap().buffer(), &[0, 0, 0, 0]);
    canvas.clear_layer("a".to_string()).unwrap();
    assert!(canvas.clear_layer("b".to_string()).is_err());
}
