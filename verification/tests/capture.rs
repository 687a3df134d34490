use openmeters::capture::{CaptureView, PublicState};
use std::sync::Arc;

#[test]
fn view_publication_changes_only_with_visible_content() {
    let mut state = PublicState::new();
    let initial = state.view();
    state.publish(CaptureView::default());
    assert!(Arc::ptr_eq(&initial, &state.view()));
    state.publish(CaptureView {
        default_sink: "sink".into(),
        ..Default::default()
    });
    let changed = state.view();
    assert!(!Arc::ptr_eq(&initial, &changed));
    state.publish((*changed).clone());
    assert!(Arc::ptr_eq(&changed, &state.view()));
}
