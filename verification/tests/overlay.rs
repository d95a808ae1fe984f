use debug_overlay::binary64::Binary64;
use debug_overlay::overlay::{
    debug_entity_count_system, debug_fps_system, DebugPlugin, Overlay, Snapshot,
};
use debug_overlay::widget::{setup_debug_entity_count, setup_debug_fps, Placement};

fn reading(x: f64) -> Option<Binary64> {
    Some(Binary64::from_bits(x.to_bits()))
}

#[test]
fn fps_reading_is_shown_with_two_decimal_places() {
    let mut widget = setup_debug_fps();
    debug_fps_system(reading(59.987), &mut widget);
    assert_eq!(widget.value(), "59.99");
    assert_eq!(widget.text(), "FPS 59.99");
}

#[test]
fn entity_count_is_shown_as_a_plain_integer() {
    let mut widget = setup_debug_entity_count();
    debug_entity_count_system(Some(42), &mut widget);
    assert_eq!(widget.value(), "42");
    assert_eq!(widget.text(), "ENTITIES 42");
}

#[test]
fn missing_reading_in_the_first_frame_leaves_the_value_empty() {
    let mut fps = setup_debug_fps();
    debug_fps_system(None, &mut fps);
    assert_eq!(fps.value(), "");
    assert_eq!(fps.text(), "FPS ");
    let mut entities = setup_debug_entity_count();
    debug_entity_count_system(None, &mut entities);
    assert_eq!(entities.value(), "");
    assert_eq!(entities.text(), "ENTITIES ");
}

#[test]
fn missing_reading_keeps_what_was_shown_before() {
    let mut fps = setup_debug_fps();
    debug_fps_system(reading(60.0), &mut fps);
    debug_fps_system(None, &mut fps);
    assert_eq!(fps.text(), "FPS 60.00");
    let mut entities = setup_debug_entity_count();
    debug_entity_count_system(Some(3), &mut entities);
    debug_entity_count_system(None, &mut entities);
    assert_eq!(entities.text(), "ENTITIES 3");
}

#[test]
fn a_new_reading_replaces_the_old_one() {
    let mut fps = setup_debug_fps();
    debug_fps_system(reading(30.004), &mut fps);
    assert_eq!(fps.text(), "FPS 30.00");
    debug_fps_system(reading(144.5), &mut fps);
    assert_eq!(fps.text(), "FPS 144.50");
    let mut entities = setup_debug_entity_count();
    debug_entity_count_system(Some(1000), &mut entities);
    debug_entity_count_system(Some(7), &mut entities);
    assert_eq!(entities.text(), "ENTITIES 7");
}

#[test]
fn systems_leave_place_and_style_alone() {
    let mut fps = setup_debug_fps();
    let style = fps.style();
    debug_fps_system(reading(75.25), &mut fps);
    assert_eq!(fps.placement(), Placement { left: 10, bottom: 10 });
    assert_eq!(fps.style(), style);
    let mut entities = setup_debug_entity_count();
    debug_entity_count_system(Some(5), &mut entities);
    assert_eq!(entities.placement(), Placement { left: 10, bottom: 40 });
    assert_eq!(entities.style(), style);
}

#[test]
fn entity_count_never_has_a_decimal_point() {
    let mut widget = setup_debug_entity_count();
    for n in [0u64, 1, 9, 10, 99, 100, 4096, 4294967295, u64::MAX] {
        debug_entity_count_system(Some(n), &mut widget);
        assert_eq!(widget.value(), format!("{}", n));
        assert!(!widget.value().contains('.'));
    }
}

#[test]
fn fps_always_has_two_digits_after_the_point() {
    let mut widget = setup_debug_fps();
    for x in [0.0, 0.004, 0.005, 1.0, 29.97, 59.94, 60.0, 119.999, 143.995, 1e6, 1e16] {
        debug_fps_system(reading(x), &mut widget);
        let value = widget.value();
        let point = value.find('.').unwrap();
        assert_eq!(value.len() - point, 3);
        assert!(value[point + 1..].chars().all(|c| c.is_ascii_digit()));
        assert!(value[..point].chars().all(|c| c.is_ascii_digit()));
        assert_eq!(value, format!("{:.2}", x));
    }
}

#[test]
fn overlay_starts_with_both_labels_and_empty_values() {
    let overlay = Overlay::new();
    assert_eq!(overlay.fps().text(), "FPS ");
    assert_eq!(overlay.fps().value(), "");
    assert_eq!(overlay.entity_count().text(), "ENTITIES ");
    assert_eq!(overlay.entity_count().value(), "");
}

#[test]
fn plugin_builds_the_overlay_as_at_startup() {
    let overlay = DebugPlugin.build();
    assert_eq!(overlay.fps().label(), "FPS ");
    assert_eq!(overlay.fps().value(), "");
    assert_eq!(overlay.fps().placement(), Placement { left: 10, bottom: 10 });
    assert_eq!(overlay.entity_count().label(), "ENTITIES ");
    assert_eq!(overlay.entity_count().value(), "");
    assert_eq!(overlay.entity_count().placement(), Placement { left: 10, bottom: 40 });
}

#[test]
fn values_stay_empty_until_the_first_reading() {
    let mut overlay = DebugPlugin.build();
    for _ in 0..5 {
        overlay.update(&Snapshot { fps: None, entity_count: None });
        assert_eq!(overlay.fps().value(), "");
        assert_eq!(overlay.entity_count().value(), "");
    }
    overlay.update(&Snapshot { fps: None, entity_count: Some(2) });
    assert_eq!(overlay.fps().text(), "FPS ");
    assert_eq!(overlay.entity_count().text(), "ENTITIES 2");
    overlay.update(&Snapshot { fps: reading(59.987), entity_count: Some(42) });
    assert_eq!(overlay.fps().text(), "FPS 59.99");
    assert_eq!(overlay.entity_count().text(), "ENTITIES 42");
}

#[test]
fn update_writes_each_reading_into_its_own_widget() {
    let mut overlay = Overlay::new();
    overlay.update(&Snapshot { fps: reading(120.0), entity_count: None });
    assert_eq!(overlay.fps().text(), "FPS 120.00");
    assert_eq!(overlay.entity_count().text(), "ENTITIES ");
    overlay.update(&Snapshot { fps: None, entity_count: Some(17) });
    assert_eq!(overlay.fps().text(), "FPS 120.00");
    assert_eq!(overlay.entity_count().text(), "ENTITIES 17");
}

#[test]
fn overlay_shows_the_latest_readings_after_many_frames() {
    let mut overlay = Overlay::new();
    let frames = [
        Snapshot { fps: None, entity_count: Some(2) },
        Snapshot { fps: reading(61.5), entity_count: Some(3) },
        Snapshot { fps: reading(58.123), entity_count: None },
        Snapshot { fps: None, entity_count: Some(250) },
        Snapshot { fps: None, entity_count: None },
    ];
    for frame in frames.iter() {
        overlay.update(frame);
    }
    assert_eq!(overlay.fps().text(), "FPS 58.12");
    assert_eq!(overlay.entity_count().text(), "ENTITIES 250");
}

#[test]
fn labels_never_change() {
    let mut overlay = Overlay::new();
    let mut state: u64 = 0x1234_5678_9abc_def1;
    for frame in 0..500u64 {
        state ^= state << 13;
        state ^= state >> 7;
        state ^= state << 17;
        let fps = if state % 3 == 0 { None } else { Some(Binary64::from_bits(state)) };
        let entity_count = if state % 5 == 0 { None } else { Some(state.wrapping_add(frame) % 100_000) };
        overlay.update(&Snapshot { fps, entity_count });
        assert_eq!(overlay.fps().label(), "FPS ");
        assert_eq!(overlay.entity_count().label(), "ENTITIES ");
        assert!(overlay.fps().text().starts_with("FPS "));
        assert!(overlay.entity_count().text().starts_with("ENTITIES "));
    }
}
