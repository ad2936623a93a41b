use scop::{
    load_bmp, Command, Control, FillMode, ImageError, KeyIn, RenderState, ShaderVariant,
    TransformState, Viewer,
};

#[test]
fn key_in_starts_released() {
    let k = KeyIn::new();
    assert!(!k.up && !k.down && !k.left && !k.right && !k.r_left && !k.r_right && !k.modifier);
}

#[test]
fn key_events_fold_and_fire_on_press_edges() {
    let mut k = KeyIn::new();
    assert_eq!(k.apply(Control::Up, true), None);
    assert!(k.up);
    assert_eq!(k.apply(Control::FillMode, true), Some(Command::CycleFill));
    assert_eq!(k.apply(Control::FillMode, true), None);
    assert_eq!(k.apply(Control::FillMode, false), None);
    assert_eq!(k.apply(Control::Restore, true), Some(Command::Restore));
    assert_eq!(k.apply(Control::Up, false), None);
    assert!(!k.up && k.is_held(Control::Restore));
}

#[test]
fn rotation_wraps_into_a_turn() {
    let mut t = TransformState::new();
    let mut k = KeyIn::new();
    k.apply(Control::Up, true);
    t.advance(&k);
    assert_eq!(t.object.pitch, 3575);
    k.apply(Control::Up, false);
    k.apply(Control::Down, true);
    for _ in 0..145 {
        t.advance(&k);
    }
    assert_eq!(t.object.pitch, 0);
}

#[test]
fn modifier_moves_the_camera_instead_of_the_object() {
    let mut t = TransformState::new();
    let mut k = KeyIn::new();
    k.apply(Control::Modifier, true);
    k.apply(Control::Right, true);
    k.apply(Control::Forward, true);
    t.advance(&k);
    assert_eq!(t.camera.yaw, 25);
    assert_eq!(t.camera.z, -1);
    assert_eq!(t.object.yaw, 0);
    k.apply(Control::Modifier, false);
    t.advance(&k);
    assert_eq!(t.object.yaw, 25);
    assert_eq!(t.object.z, -1);
    k.apply(Control::Rise, true);
    t.advance(&k);
    assert_eq!(t.object.y, 1);
    assert_eq!(t.camera.y, 0);
}

#[test]
fn frame_reports_the_camera_step() {
    let mut v = Viewer::new();
    v.handle_event(Control::Modifier, true);
    v.handle_event(Control::Forward, true);
    v.handle_event(Control::Sink, true);
    assert_eq!(v.update_model(), (0, -1, -1));
    v.handle_event(Control::Modifier, false);
    assert_eq!(v.update_model(), (0, 0, 0));
    assert_eq!(v.transform.object.z, -1);
}

#[test]
fn restore_returns_to_the_initial_state() {
    let mut t = TransformState::new();
    let mut k = KeyIn::new();
    for c in [Control::Up, Control::Left, Control::RollRight, Control::StrafeLeft, Control::Backward] {
        k.apply(c, true);
    }
    for _ in 0..17 {
        t.advance(&k);
    }
    k.apply(Control::Modifier, true);
    for _ in 0..5 {
        t.advance(&k);
    }
    assert_ne!(t, TransformState::new());
    t.restore();
    assert_eq!(t, TransformState::new());
}

#[test]
fn three_fill_toggles_return_to_start() {
    let mut r = RenderState::new();
    assert_eq!(r.fill, FillMode::Fill);
    r.cycle_fill();
    assert_eq!(r.fill, FillMode::Line);
    r.cycle_fill();
    assert_eq!(r.fill, FillMode::Point);
    r.cycle_fill();
    assert_eq!(r.fill, FillMode::Fill);
}

#[test]
fn shader_toggle_alternates() {
    let mut r = RenderState::new();
    assert_eq!(r.shader, ShaderVariant::Textured);
    r.use_next();
    assert_eq!(r.shader, ShaderVariant::ColorOnly);
    r.use_next();
    assert_eq!(r.shader, ShaderVariant::Textured);
}

#[test]
fn blend_reaches_one_after_fifty_frames() {
    let mut r = RenderState::new();
    r.start_blend();
    for i in 0..49 {
        r.tick();
        assert_eq!(r.mix, i + 1);
        assert!(r.blending);
    }
    r.tick();
    assert_eq!(r.mix, 50);
    assert!(!r.blending);
    let v = r.mix_value();
    assert_eq!(v.num as f64 / v.den as f64, 1.0);
    r.tick();
    assert_eq!(r.mix, 50);
    r.start_blend();
    for _ in 0..50 {
        r.tick();
    }
    assert_eq!(r.mix, 0);
    assert!(!r.blending && r.rising);
}

#[test]
fn viewer_runs_commands_and_frames() {
    let mut v = Viewer::new();
    assert_eq!(v.handle_event(Control::FillMode, true), Some(Command::CycleFill));
    assert_eq!(v.render.fill, FillMode::Line);
    assert_eq!(v.handle_event(Control::FillMode, true), None);
    assert_eq!(v.render.fill, FillMode::Line);
    v.handle_event(Control::Left, true);
    v.handle_event(Control::Blend, true);
    v.update_model();
    assert_eq!(v.transform.object.yaw, 3575);
    assert_eq!(v.render.mix, 1);
    v.handle_event(Control::Restore, true);
    assert_eq!(v.transform, TransformState::new());
    assert_eq!(v.render.mix, 1);
}

fn bmp(width: u32, height: u32, depth: u16, pixels: &[u8]) -> Vec<u8> {
    let mut d = vec![0u8; 54];
    d[0] = b'B';
    d[1] = b'M';
    d[10..14].copy_from_slice(&54u32.to_le_bytes());
    d[18..22].copy_from_slice(&width.to_le_bytes());
    d[22..26].copy_from_slice(&height.to_le_bytes());
    d[28..30].copy_from_slice(&depth.to_le_bytes());
    d.extend_from_slice(pixels);
    d
}

#[test]
fn bmp_rows_are_flipped_and_converted_to_rgb() {
    // 1 pixel wide, 2 high: each row is 3 bytes padded to 4; bottom row first.
    let d = bmp(1, 2, 24, &[1, 2, 3, 0, 4, 5, 6, 0]);
    let (w, h, px) = load_bmp(&d).unwrap();
    assert_eq!((w, h), (1, 2));
    assert_eq!(px, vec![6, 5, 4, 3, 2, 1]);
}

#[test]
fn bmp_errors() {
    assert_eq!(load_bmp(b"XX").err(), Some(ImageError::NotBmp));
    assert_eq!(load_bmp(b"B").err(), Some(ImageError::NotBmp));
    assert_eq!(load_bmp(b"BM1234").err(), Some(ImageError::Truncated));
    assert_eq!(load_bmp(&bmp(1, 1, 32, &[0, 0, 0, 0])).err(), Some(ImageError::UnsupportedDepth));
    assert_eq!(load_bmp(&bmp(2, 2, 24, &[0; 10])).err(), Some(ImageError::Truncated));
}
