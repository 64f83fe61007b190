use boids::ui::{AttractorSelection, PanelInput};

fn input(added: Option<u64>, remove_clicked: bool, picked: Option<u64>) -> PanelInput {
    PanelInput { added, remove_clicked, picked }
}

#[test]
fn nothing_selected_at_start() {
    assert_eq!(AttractorSelection::default().selected_attractor, None);
}

#[test]
fn added_attractor_is_selected_after_the_frame() {
    let mut sel = AttractorSelection { selected_attractor: Some(3) };
    let out = sel.attractor_panel(input(Some(9), false, None));
    assert_eq!(out.edited, Some(3));
    assert_eq!(out.despawn, None);
    assert_eq!(sel.selected_attractor, Some(9));
}

#[test]
fn added_attractor_is_not_edited_in_its_frame() {
    let mut sel = AttractorSelection::default();
    let out = sel.attractor_panel(input(Some(9), false, None));
    assert_eq!(out.edited, None);
    assert_eq!(sel.selected_attractor, Some(9));
}

#[test]
fn removing_despawns_the_selected_attractor() {
    let mut sel = AttractorSelection { selected_attractor: Some(4) };
    let out = sel.attractor_panel(input(None, true, None));
    assert_eq!(out.despawn, Some(4));
    assert_eq!(out.edited, None);
    assert_eq!(sel.selected_attractor, None);
}

#[test]
fn removing_without_selection_does_nothing() {
    let mut sel = AttractorSelection::default();
    let out = sel.attractor_panel(input(None, true, None));
    assert_eq!(out.despawn, None);
    assert_eq!(sel.selected_attractor, None);
}

#[test]
fn picking_selects_and_edits() {
    let mut sel = AttractorSelection { selected_attractor: Some(1) };
    let out = sel.attractor_panel(input(None, false, Some(2)));
    assert_eq!(out.edited, Some(2));
    assert_eq!(sel.selected_attractor, Some(2));
}

#[test]
fn idle_frame_keeps_the_selection() {
    let mut sel = AttractorSelection { selected_attractor: Some(1) };
    let out = sel.attractor_panel(input(None, false, None));
    assert_eq!(out.edited, Some(1));
    assert_eq!(out.despawn, None);
    assert_eq!(sel.selected_attractor, Some(1));
}

#[test]
fn selected_attractor_is_highlighted() {
    let sel = AttractorSelection { selected_attractor: Some(5) };
    assert!(sel.is_selected(5));
    assert!(!sel.is_selected(6));
    assert!(!AttractorSelection::default().is_selected(5));
}
