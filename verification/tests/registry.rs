//! The subscription registry and the name tables.

use ws_server::names::NameTable;
use ws_server::registry::{SubscriptionRegistry, SubscriptionState};
use ws_server::subscribers::Subscribers;
use ws_server::subscription_id::RawServerSubscriptionId;

fn id(n: u8) -> RawServerSubscriptionId {
    RawServerSubscriptionId::from_bytes([n; 32])
}

fn sorted(mut ids: Vec<RawServerSubscriptionId>) -> Vec<RawServerSubscriptionId> {
    ids.sort_by_key(|id| id.0);
    ids
}

#[test]
fn registry_counts_per_connection() {
    let mut registry = SubscriptionRegistry::new();
    assert!(!registry.has_connection(1));
    registry.insert(id(1), 1, "m".to_owned());
    registry.insert(id(2), 1, "m".to_owned());
    registry.insert(id(3), 2, "n".to_owned());
    assert!(registry.has_connection(1));
    assert!(registry.has_connection(2));
    assert!(!registry.has_connection(3));
    assert_eq!(
        registry.get(&id(3)),
        Some(&SubscriptionState { raw_id: 2, method: "n".to_owned(), pending: true })
    );
    assert!(registry.contains(&id(1)));
    assert!(!registry.contains(&id(4)));
    // Not the last on connection 1.
    let (state, last) = registry.remove(&id(1));
    assert_eq!(state, SubscriptionState { raw_id: 1, method: "m".to_owned(), pending: true });
    assert!(!last);
    assert!(registry.has_connection(1));
    // The last on connection 1.
    let (_, last) = registry.remove(&id(2));
    assert!(last);
    assert!(!registry.has_connection(1));
    assert!(registry.has_connection(2));
    assert_eq!(registry.get(&id(2)), None);
}

#[test]
fn mark_ready_lists_what_was_pending() {
    let mut registry = SubscriptionRegistry::new();
    registry.insert(id(1), 1, "m".to_owned());
    registry.insert(id(2), 2, "m".to_owned());
    assert_eq!(registry.mark_ready(1), vec![id(1)]);
    assert!(!registry.get(&id(1)).unwrap().pending);
    assert!(registry.get(&id(2)).unwrap().pending);
    registry.insert(id(3), 1, "m".to_owned());
    registry.insert(id(4), 1, "m".to_owned());
    assert_eq!(sorted(registry.mark_ready(1)), vec![id(3), id(4)]);
    assert_eq!(registry.mark_ready(1), Vec::new());
    assert_eq!(registry.mark_ready(7), Vec::new());
    assert!(registry.get(&id(2)).unwrap().pending);
}

#[test]
fn drop_connection_removes_its_subscriptions() {
    let mut registry = SubscriptionRegistry::new();
    registry.insert(id(1), 1, "m".to_owned());
    registry.insert(id(2), 2, "m".to_owned());
    registry.insert(id(3), 1, "m".to_owned());
    assert_eq!(sorted(registry.drop_connection(1)), vec![id(1), id(3)]);
    assert!(!registry.has_connection(1));
    assert!(!registry.contains(&id(1)));
    assert!(!registry.contains(&id(3)));
    assert!(registry.contains(&id(2)));
    assert_eq!(registry.drop_connection(1), Vec::new());
    assert_eq!(registry.drop_connection(9), Vec::new());
}

#[test]
fn fresh_id_is_not_taken() {
    let mut registry = SubscriptionRegistry::new();
    for _ in 0..100 {
        let fresh = registry.fresh_id();
        assert!(!registry.contains(&fresh));
        registry.insert(fresh, 1, "m".to_owned());
    }
}

#[test]
fn name_table_holds_one_value_per_name() {
    let mut table: NameTable<u32> = NameTable::new();
    assert_eq!(table.get("a"), None);
    assert!(table.insert("a".to_owned(), 1));
    assert!(table.insert("b".to_owned(), 2));
    assert!(!table.insert("a".to_owned(), 3));
    assert_eq!(table.get("a"), Some(&3));
    assert_eq!(table.get("b"), Some(&2));
    assert!(table.contains("b"));
    assert!(!table.contains("c"));
    assert!(table.remove("a"));
    assert!(!table.remove("a"));
    assert_eq!(table.get("a"), None);
    assert_eq!(table.get("b"), Some(&2));
}

#[test]
fn subscribers_and_owners_are_inverse() {
    let mut subscribers = Subscribers::new();
    subscribers.register(0);
    subscribers.register(1);
    subscribers.register(0);
    assert!(subscribers.is_registered(0));
    assert!(!subscribers.is_registered(2));
    subscribers.attach(id(1), 0);
    subscribers.attach(id(2), 1);
    subscribers.attach(id(3), 0);
    assert_eq!(subscribers.len(), 3);
    assert_eq!(subscribers.entry(1), (id(2), 1));
    assert_eq!(subscribers.clients(0), vec![id(1), id(3)]);
    assert_eq!(subscribers.clients(1), vec![id(2)]);
    assert_eq!(subscribers.clients(2), Vec::new());
    for unique_id in 0..3usize {
        for n in 0..5u8 {
            assert_eq!(
                subscribers.clients(unique_id).contains(&id(n)),
                subscribers.owner(&id(n)) == Some(unique_id)
            );
        }
    }
    // A subscriber leaves only the list that it is in.
    assert!(!subscribers.detach_from(&id(1), 1));
    assert_eq!(subscribers.owner(&id(1)), Some(0));
    assert!(subscribers.detach_from(&id(1), 0));
    assert_eq!(subscribers.owner(&id(1)), None);
    assert_eq!(subscribers.clients(0), vec![id(3)]);
    assert!(subscribers.detach_from(&id(2), 1));
    assert!(!subscribers.detach_from(&id(2), 1));
    subscribers.attach(id(4), 1);
    subscribers.attach(id(5), 0);
    subscribers.drop_closed(&vec![id(3), id(4), id(9)]);
    assert_eq!(subscribers.clients(0), vec![id(5)]);
    assert_eq!(subscribers.clients(1), Vec::new());
    assert_eq!(subscribers.len(), 1);
}
