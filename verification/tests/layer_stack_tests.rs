use sketchmotion::layer_stack::{apply_layer_action, LayerAction};
use sketchmotion::{Color, Document};

fn names(doc: &Document) -> Vec<String> {
    doc.layers.iter().map(|l| l.name.clone()).collect()
}

#[test]
fn layer_panel_adds_above_and_follows_moves() {
    let mut doc = Document::new(2, 2, Color::white());
    let mut active = 0;
    active = apply_layer_action(&mut doc, active, LayerAction::Add);
    assert_eq!(active, 1);
    assert_eq!(names(&doc), vec!["Camada 1", "Camada 2"]);
    active = apply_layer_action(&mut doc, active, LayerAction::Select(0));
    active = apply_layer_action(&mut doc, active, LayerAction::Add);
    assert_eq!(active, 1);
    assert_eq!(names(&doc), vec!["Camada 1", "Camada 3", "Camada 2"]);
    active = apply_layer_action(&mut doc, active, LayerAction::MoveUp(1));
    assert_eq!(active, 2);
    assert_eq!(names(&doc), vec!["Camada 1", "Camada 2", "Camada 3"]);
    active = apply_layer_action(&mut doc, active, LayerAction::MoveDown(2));
    assert_eq!(active, 1);
    assert_eq!(names(&doc), vec!["Camada 1", "Camada 3", "Camada 2"]);
    // Out of the stack: nothing moves.
    active = apply_layer_action(&mut doc, active, LayerAction::MoveUp(2));
    active = apply_layer_action(&mut doc, active, LayerAction::MoveDown(0));
    assert_eq!(active, 1);
    assert_eq!(names(&doc), vec!["Camada 1", "Camada 3", "Camada 2"]);
}

#[test]
fn layer_panel_toggles_and_removes() {
    let mut doc = Document::new(2, 2, Color::white());
    let mut active = 0;
    active = apply_layer_action(&mut doc, active, LayerAction::ToggleVisible(0));
    assert!(!doc.layers[0].visible);
    active = apply_layer_action(&mut doc, active, LayerAction::ToggleLocked(0));
    assert!(doc.layers[0].locked);
    // The only layer stays.
    active = apply_layer_action(&mut doc, active, LayerAction::Remove);
    assert_eq!(doc.layers.len(), 1);
    active = apply_layer_action(&mut doc, active, LayerAction::Add);
    assert_eq!(active, 1);
    active = apply_layer_action(&mut doc, active, LayerAction::Remove);
    assert_eq!(doc.layers.len(), 1);
    assert_eq!(active, 0);
    assert_eq!(names(&doc), vec!["Camada 1"]);
    // An active index past the end is brought back.
    apply_layer_action(&mut doc, 0, LayerAction::Add);
    let a = apply_layer_action(&mut doc, 5, LayerAction::Remove);
    assert_eq!(a, 1);
    assert_eq!(doc.layers.len(), 2);
}
