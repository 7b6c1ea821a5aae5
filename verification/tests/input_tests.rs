use ecs_runtime::{CallbackPacer, InputHandler, FRAMES_PER_CALLBACK_RUN, KEY_COUNT};

#[test]
fn new_handler_has_every_key_up() {
    let h: InputHandler<u8> = InputHandler::new();
    assert_eq!(h.keys, [0u8; 21]);
    assert!(h.callbacks.is_empty());
    assert_eq!(KEY_COUNT, 21 * 8);
    for key in 0..KEY_COUNT {
        assert!(!h.is_down(key));
    }
}

#[test]
fn press_sets_one_bit() {
    let mut h: InputHandler<u8> = InputHandler::new();
    h.handle_key_press(10, true);
    assert_eq!(h.keys[1], 0b0000_0100);
    assert!(h.is_down(10));
    for key in 0..KEY_COUNT {
        assert_eq!(h.is_down(key), key == 10);
    }
    h.handle_key_press(15, true);
    assert_eq!(h.keys[1], 0b1000_0100);
    h.handle_key_press(10, true);
    assert_eq!(h.keys[1], 0b1000_0100);
}

#[test]
fn release_clears_one_bit() {
    let mut h: InputHandler<u8> = InputHandler::new();
    h.handle_key_press(0, true);
    h.handle_key_press(7, true);
    h.handle_key_press(167, true);
    h.handle_key_press(7, false);
    assert_eq!(h.keys[0], 0b0000_0001);
    assert_eq!(h.keys[20], 0b1000_0000);
    assert!(h.is_down(0));
    assert!(!h.is_down(7));
    assert!(h.is_down(167));
    h.handle_key_press(7, false);
    assert!(!h.is_down(7));
    assert!(h.is_down(0));
}

#[test]
fn press_lists_the_callbacks_of_the_key() {
    let mut h: InputHandler<&'static str> = InputHandler::new();
    h.register_callback(32, "jump");
    h.register_callback(17, "duck");
    h.register_callback(32, "shout");
    assert_eq!(h.callbacks, vec![(32, "jump"), (17, "duck"), (32, "shout")]);
    assert_eq!(h.handle_key_press(32, true), vec![0, 2]);
    assert_eq!(h.handle_key_press(17, true), vec![1]);
    assert_eq!(h.handle_key_press(5, true), Vec::<usize>::new());
    assert_eq!(h.handle_key_press(32, false), Vec::<usize>::new());
    assert_eq!(h.callbacks.len(), 3);
}

#[test]
fn callbacks_run_every_third_frame() {
    assert_eq!(FRAMES_PER_CALLBACK_RUN, 3);
    let mut pacer = CallbackPacer::new();
    let runs: Vec<bool> = (0..7).map(|_| pacer.frame()).collect();
    assert_eq!(runs, vec![false, false, true, false, false, true, false]);
    assert_eq!(pacer.frames_since_callback_run, 1);
}

#[test]
fn pacer_recovers_from_any_count() {
    let mut pacer = CallbackPacer { frames_since_callback_run: u32::MAX };
    assert!(pacer.frame());
    assert_eq!(pacer.frames_since_callback_run, 0);
    let mut pacer = CallbackPacer { frames_since_callback_run: 2 };
    assert!(pacer.frame());
    let mut pacer = CallbackPacer { frames_since_callback_run: 1 };
    assert!(!pacer.frame());
    assert_eq!(pacer.frames_since_callback_run, 2);
}
