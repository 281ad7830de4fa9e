use snake_demo::connected::ConnectedUsers;
use snake_demo::identity::user_le_exec;
use snake_demo::registry::{remove_player, PlayerRegistry};

fn name(s: &str) -> String {
    s.to_string()
}

#[test]
fn a_new_registry_is_empty() {
    let r = PlayerRegistry::new();
    assert_eq!(r.len(), 0);
    assert!(!r.contains_key(&name("a")));
    assert_eq!(r.get(&name("a")), None);
    assert_eq!(r.owner(0), None);
}

#[test]
fn insert_stores_one_entry_per_user_and_per_snake() {
    let mut r = PlayerRegistry::new();
    assert!(r.insert(name("a"), 0));
    assert!(r.insert(name("b"), 1));
    assert!(!r.insert(name("a"), 2));
    assert!(!r.insert(name("c"), 1));
    assert_eq!(r.len(), 2);
    assert_eq!(r.get(&name("a")), Some(0));
    assert_eq!(r.get(&name("b")), Some(1));
    assert_eq!(r.get(&name("c")), None);
    assert_eq!(r.owner(0), Some(name("a")));
    assert_eq!(r.owner(1), Some(name("b")));
    assert_eq!(r.owner(2), None);
}

#[test]
fn remove_drops_the_entry_of_the_user() {
    let mut r = PlayerRegistry::new();
    r.insert(name("a"), 0);
    r.insert(name("b"), 1);
    r.remove(&name("a"));
    assert_eq!(r.len(), 1);
    assert!(!r.contains_key(&name("a")));
    assert_eq!(r.owner(0), None);
    assert_eq!(r.get(&name("b")), Some(1));
    r.remove(&name("zz"));
    assert_eq!(r.len(), 1);
}

#[test]
fn remove_player_drops_the_entry_of_the_snake() {
    let mut r = PlayerRegistry::new();
    r.insert(name("a"), 0);
    r.insert(name("b"), 1);
    remove_player(1, &mut r);
    assert_eq!(r.len(), 1);
    assert!(r.contains_key(&name("a")));
    assert!(!r.contains_key(&name("b")));
    remove_player(7, &mut r);
    assert_eq!(r.len(), 1);
}

#[test]
fn clear_drops_every_entry() {
    let mut r = PlayerRegistry::new();
    r.insert(name("a"), 0);
    r.insert(name("b"), 1);
    r.clear();
    assert_eq!(r.len(), 0);
    assert!(r.insert(name("a"), 0));
}

#[test]
fn connected_users_form_a_set() {
    let mut c = ConnectedUsers::new();
    assert!(c.is_empty());
    c.insert(name("bob"));
    c.insert(name("alice"));
    c.insert(name("bob"));
    assert_eq!(c.len(), 2);
    assert!(c.contains(&name("alice")));
    assert!(c.contains(&name("bob")));
    assert!(!c.contains(&name("carol")));
    c.remove(&name("bob"));
    assert_eq!(c.len(), 1);
    assert!(!c.contains(&name("bob")));
    c.remove(&name("bob"));
    assert_eq!(c.len(), 1);
    assert!(c.contains(&name("alice")));
    assert!(!c.is_empty());
}

#[test]
fn least_is_the_user_that_sorts_first() {
    let mut c = ConnectedUsers::new();
    assert_eq!(c.least(), None);
    c.insert(name("mallory"));
    assert_eq!(c.least(), Some(name("mallory")));
    c.insert(name("bob"));
    c.insert(name("zed"));
    c.insert(name("bo"));
    assert_eq!(c.least(), Some(name("bo")));
    c.remove(&name("bo"));
    assert_eq!(c.least(), Some(name("bob")));
}

#[test]
fn the_order_of_identities_is_that_of_strings() {
    let names = ["", "a", "A", "ab", "abc", "b", "Zebra", "zebra", "é", "e", "日本", "user-10", "user-9"];
    for x in names {
        for y in names {
            assert_eq!(user_le_exec(&name(x), &name(y)), x <= y, "{:?} {:?}", x, y);
        }
    }
}
