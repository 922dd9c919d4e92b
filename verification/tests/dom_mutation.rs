use volki_web::dom::Document;
use volki_web::dom::mutation::{MutationObserverOptions, MutationRecord};

#[test]
fn test_observer_creation() {
    let mut doc = Document::new();
    let div = doc.create_element("div");
    let opts = MutationObserverOptions::new().child_list();
    let idx = doc.observe(div, opts, 1);
    assert_eq!(idx, 0);
}

#[test]
fn test_observer_take_records() {
    let mut doc = Document::new();
    let div = doc.create_element("div");
    let opts = MutationObserverOptions::new().child_list();
    let idx = doc.observe(div, opts, 1);

    // Manually record a mutation
    doc.record_mutation(MutationRecord::ChildList { target: div });

    let records = doc.take_observer_records(idx);
    assert_eq!(records.len(), 1);

    // Should be empty now
    let records2 = doc.take_observer_records(idx);
    assert_eq!(records2.len(), 0);
}

#[test]
fn test_disconnect_observer() {
    let mut doc = Document::new();
    let div = doc.create_element("div");
    let opts = MutationObserverOptions::new().child_list();
    let idx = doc.observe(div, opts, 1);
    doc.disconnect_observer(idx);
    assert_eq!(doc.mutation_observers.len(), 0);
}
