use keel::controlplane::placements::Placements;

#[test]
fn get_on_an_empty_table_returns_none() {
    let placements = Placements::new();
    assert_eq!(placements.get("web-1"), None);
}

#[test]
fn set_then_get_returns_the_recorded_node() {
    let mut placements = Placements::new();
    placements.set("web-1".to_string(), "node-1".to_string());
    assert_eq!(placements.get("web-1"), Some("node-1"));
}

#[test]
fn set_again_on_the_same_jail_overwrites_rather_than_duplicating() {
    let mut placements = Placements::new();
    placements.set("web-1".to_string(), "node-1".to_string());
    placements.set("web-1".to_string(), "node-2".to_string());
    assert_eq!(placements.get("web-1"), Some("node-2"));
}

#[test]
fn remove_clears_the_placement() {
    let mut placements = Placements::new();
    placements.set("web-1".to_string(), "node-1".to_string());
    placements.remove("web-1");
    assert_eq!(placements.get("web-1"), None);
}

#[test]
fn generation_is_zero_for_a_jail_that_has_never_been_placed() {
    let placements = Placements::new();
    assert_eq!(placements.generation("web-1"), 0);
}

#[test]
fn generation_increments_on_every_set_including_the_first() {
    let mut placements = Placements::new();
    placements.set("web-1".to_string(), "node-1".to_string());
    assert_eq!(placements.generation("web-1"), 1);
    placements.set("web-1".to_string(), "node-2".to_string());
    assert_eq!(placements.generation("web-1"), 2);
}

#[test]
fn remove_does_not_reset_the_generation_counter() {
    // A stale sender fenced via a real DELETE and a later re-placement
    // of the same replica name must never see its generation counter
    // restart from zero -- doing so would let an old, partitioned
    // primary's outdated generation look valid again after the name is
    // reused, defeating the whole point of the counter.
    let mut placements = Placements::new();
    placements.set("web-1".to_string(), "node-1".to_string());
    placements.set("web-1".to_string(), "node-2".to_string());
    placements.remove("web-1");
    placements.set("web-1".to_string(), "node-3".to_string());
    assert_eq!(placements.generation("web-1"), 3, "generation must keep counting up across a remove, never restart from zero");
}

#[test]
fn iter_yields_every_entry() {
    let mut placements = Placements::new();
    placements.set("web-1".to_string(), "node-1".to_string());
    placements.set("web-2".to_string(), "node-2".to_string());
    let mut entries: Vec<(&str, &str)> = placements.iter();
    entries.sort();
    assert_eq!(entries, vec![("web-1", "node-1"), ("web-2", "node-2")]);
}
