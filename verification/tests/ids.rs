use riposte_client::id_mapper::IdMapper;

#[test]
fn lookup_gives_what_was_recorded() {
    let mut ids = IdMapper::new();
    assert_eq!(ids.get(7), None);
    ids.insert(7, 100);
    ids.insert(8, 200);
    assert_eq!(ids.get(7), Some(100));
    assert_eq!(ids.get(8), Some(200));
    assert_eq!(ids.get(9), None);
}

#[test]
fn recording_again_replaces() {
    let mut ids = IdMapper::new();
    ids.insert(7, 100);
    ids.insert(7, 300);
    assert_eq!(ids.get(7), Some(300));
}

#[test]
fn removing_forgets_one_id() {
    let mut ids = IdMapper::new();
    ids.insert(1, 10);
    ids.insert(2, 20);
    ids.remove(1);
    assert_eq!(ids.get(1), None);
    assert_eq!(ids.get(2), Some(20));
    ids.remove(5);
    assert_eq!(ids.get(2), Some(20));
}

#[test]
fn removing_then_looking_up_finds_nothing() {
    let mut ids = IdMapper::new();
    ids.insert(4, 40);
    ids.insert(5, 50);
    ids.remove(4);
    assert_eq!(ids.get(4), None);
    assert_eq!(ids.get(5), Some(50));
}
