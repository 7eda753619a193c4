use batch_acceptance_app::canvas::{
    drag_target, on_click, on_delete, on_press, on_release, DragMode, HitTarget,
};

#[test]
fn press_on_body_selects_and_moves() {
    let p = on_press(None, HitTarget::Body(3));
    assert_eq!(p.selected, Some(3));
    assert_eq!(p.load_fields, Some(3));
    assert_eq!(p.mode, DragMode::Translate);
    assert_eq!(p.anchor, Some(3));
}

#[test]
fn press_on_handles() {
    let p = on_press(Some(1), HitTarget::Corner { shape: 1, corner: 2 });
    assert_eq!(p.selected, Some(1));
    assert_eq!(p.load_fields, None);
    assert_eq!(p.mode, DragMode::Resize { corner: 2 });
    let r = on_press(Some(1), HitTarget::Rotate { shape: 1 });
    assert_eq!(r.selected, Some(1));
    assert_eq!(r.mode, DragMode::Rotate);
    assert_eq!(r.anchor, Some(1));
}

#[test]
fn press_on_empty_canvas_starts_a_box() {
    let p = on_press(Some(4), HitTarget::Empty);
    assert_eq!(p.selected, None);
    assert_eq!(p.mode, DragMode::Draw);
    assert_eq!(p.anchor, None);
}

#[test]
fn release_appends_only_large_drawn_boxes() {
    let r = on_release(None, Some(DragMode::Draw), true, 5);
    assert!(r.add_box);
    assert_eq!(r.selected, Some(5));
    let small = on_release(None, Some(DragMode::Draw), false, 5);
    assert!(!small.add_box);
    assert_eq!(small.selected, None);
    let moved = on_release(Some(2), Some(DragMode::Translate), true, 5);
    assert!(!moved.add_box);
    assert_eq!(moved.selected, Some(2));
    let none = on_release(Some(2), None, true, 5);
    assert!(!none.add_box);
}

#[test]
fn click_selects_or_clears() {
    let c = on_click(None, HitTarget::Body(0));
    assert_eq!((c.selected, c.load_fields), (Some(0), Some(0)));
    let e = on_click(Some(0), HitTarget::Empty);
    assert_eq!((e.selected, e.load_fields), (None, None));
    let h = on_click(Some(0), HitTarget::Corner { shape: 0, corner: 1 });
    assert_eq!((h.selected, h.load_fields), (Some(0), None));
}

#[test]
fn delete_and_drag_target_need_an_existing_shape() {
    assert_eq!(on_delete(Some(1), 3), Some(1));
    assert_eq!(on_delete(Some(3), 3), None);
    assert_eq!(on_delete(None, 3), None);
    assert_eq!(drag_target(Some(2), 3), Some(2));
    assert_eq!(drag_target(Some(7), 3), None);
}
