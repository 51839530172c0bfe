use reactive_ui::scope::Updater;

#[test]
fn the_first_mark_gets_token_one() {
    let mut updater = Updater::new();
    assert_eq!(updater.mark_update(4), 1);
    assert_eq!(updater.mark_update(4), 2);
    assert_eq!(updater.mark_update(9), 3);
    assert_eq!(updater.dirty_renderer, vec![4, 4, 9]);
}

#[test]
fn a_batch_holds_every_renderer_once_in_the_order_of_the_first_mark() {
    let mut updater = Updater::new();
    for renderer in [3, 1, 3, 2, 1, 3] {
        let _ = updater.mark_update(renderer);
    }
    assert_eq!(updater.get_updatable(), vec![3, 1, 2]);
    assert!(updater.dirty_renderer.is_empty());
    assert_eq!(updater.get_updatable(), Vec::<usize>::new());
    assert_eq!(updater.mark_update(7), 1);
}

#[test]
fn three_marks_of_one_renderer_make_one_entry() {
    let mut updater = Updater::new();
    let _ = updater.mark_update(5);
    let _ = updater.mark_update(5);
    let _ = updater.mark_update(5);
    assert_eq!(updater.get_updatable(), vec![5]);
}
