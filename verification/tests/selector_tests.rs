use felloe::{Error, Selector, SelectorAction, SelectorKey, Store};

fn store_with_versions() -> Store {
    let mut s = Store::new(
        String::from("linux-amd64"),
        String::from("helm"),
        String::from("tiller"),
    );
    s.record_install("v3.2.1", true, false);
    s.record_install("v2.16.0", true, true);
    s.record_install("v3.0.0", true, false);
    s
}

#[test]
fn selector_starts_on_the_active_entry_of_the_sorted_list() {
    let mut s = store_with_versions();
    assert_eq!(s.activate("v3.0.0"), Ok(false));
    let sel = Selector::new(&s).unwrap();
    assert_eq!(
        sel.versions,
        vec![
            String::from("v2.16.0"),
            String::from("v3.0.0"),
            String::from("v3.2.1"),
        ]
    );
    assert_eq!(sel.index, 1);
    assert_eq!(sel.selected().as_str(), "v3.0.0");
}

#[test]
fn selector_needs_an_active_version() {
    let s = store_with_versions();
    assert!(matches!(Selector::new(&s), Err(Error::NoActiveVersion)));
}

#[test]
fn selector_rejects_an_active_version_without_a_directory() {
    let mut s = store_with_versions();
    assert_eq!(s.activate("v3.0.0"), Ok(false));
    let removed = s.remove(&vec![String::from("v3.0.0")], true);
    assert_eq!(removed, Ok(vec![]));
    // The links are gone with the forced removal; fake a dangling link to
    // a version that has no cache directory.
    s.primary_link = Some(vec![
        String::from("v3.0.0"),
        String::from("linux-amd64"),
        String::from("helm"),
    ]);
    assert!(matches!(Selector::new(&s), Err(Error::NotFound)));
}

#[test]
fn moving_up_at_the_first_entry_is_a_no_op() {
    let mut s = store_with_versions();
    assert_eq!(s.activate("v2.16.0"), Ok(false));
    let mut sel = Selector::new(&s).unwrap();
    assert_eq!(sel.index, 0);
    assert_eq!(sel.step(SelectorKey::Up), SelectorAction::Redraw);
    assert_eq!(sel.index, 0);
}

#[test]
fn moving_down_at_the_last_entry_is_a_no_op() {
    let mut s = store_with_versions();
    assert_eq!(s.activate("v3.2.1"), Ok(false));
    let mut sel = Selector::new(&s).unwrap();
    assert_eq!(sel.index, 2);
    assert_eq!(sel.step(SelectorKey::Down), SelectorAction::Redraw);
    assert_eq!(sel.index, 2);
}

#[test]
fn movement_clamps_inside_the_list() {
    let mut s = store_with_versions();
    assert_eq!(s.activate("v3.0.0"), Ok(false));
    let mut sel = Selector::new(&s).unwrap();
    assert_eq!(sel.step(SelectorKey::Up), SelectorAction::Redraw);
    assert_eq!(sel.index, 0);
    assert_eq!(sel.step(SelectorKey::Down), SelectorAction::Redraw);
    assert_eq!(sel.step(SelectorKey::Down), SelectorAction::Redraw);
    assert_eq!(sel.index, 2);
    assert_eq!(sel.selected().as_str(), "v3.2.1");
}

#[test]
fn quit_delete_and_activate_leave_the_loop() {
    let mut s = store_with_versions();
    assert_eq!(s.activate("v3.0.0"), Ok(false));
    let mut sel = Selector::new(&s).unwrap();
    assert_eq!(sel.step(SelectorKey::Quit), SelectorAction::Exit);
    assert_eq!(sel.step(SelectorKey::Remove), SelectorAction::RemoveExit);
    assert_eq!(sel.step(SelectorKey::Activate), SelectorAction::ActivateExit);
    assert_eq!(sel.index, 1);
}

#[test]
fn any_other_key_is_ignored() {
    let mut s = store_with_versions();
    assert_eq!(s.activate("v3.0.0"), Ok(false));
    let mut sel = Selector::new(&s).unwrap();
    assert_eq!(sel.step(SelectorKey::Other), SelectorAction::Ignore);
    assert_eq!(sel.index, 1);
}
