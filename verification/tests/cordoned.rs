use keel::controlplane::cordoned::Cordoned;

#[test]
fn a_fresh_node_is_not_cordoned() {
    assert!(!Cordoned::new().is_cordoned("node-1"));
}

#[test]
fn cordon_marks_a_node_cordoned() {
    let mut c = Cordoned::new();
    c.cordon("node-1".to_string());
    assert!(c.is_cordoned("node-1"));
    assert!(!c.is_cordoned("node-2"));
}

#[test]
fn cordoning_twice_is_idempotent() {
    let mut c = Cordoned::new();
    c.cordon("node-1".to_string());
    c.cordon("node-1".to_string());
    assert!(c.is_cordoned("node-1"));
}

#[test]
fn uncordon_clears_it() {
    let mut c = Cordoned::new();
    c.cordon("node-1".to_string());
    c.uncordon("node-1");
    assert!(!c.is_cordoned("node-1"));
}

#[test]
fn uncordoning_an_uncordoned_node_is_a_harmless_no_op() {
    let mut c = Cordoned::new();
    c.uncordon("node-1");
    assert!(!c.is_cordoned("node-1"));
}
