use system_design::ring::{hash, vnode_key, ConsistentHashRing};

const KEYS: [&str; 6] = ["alice", "bob", "carol", "dave", "eve", "frank"];

#[test]
fn vnode_key_formats_like_format_macro() {
    assert_eq!(vnode_key("server-A", 0), "server-A#0");
    assert_eq!(vnode_key("server-A", 12), "server-A#12");
    assert_eq!(vnode_key("s", 1234567890), format!("{}#{}", "s", 1234567890));
}

#[test]
fn hash_is_deterministic() {
    assert_eq!(hash("alice"), hash("alice"));
    assert_ne!(hash("alice"), hash("bob"));
}

#[test]
fn empty_ring_serves_nothing() {
    let ring = ConsistentHashRing::new(3);
    assert_eq!(ring.get_server("alice"), None);
    assert_eq!(ring.get_position("alice"), None);
    assert!(ring.entries().is_empty());
}

#[test]
fn servers_own_virtual_nodes() {
    let mut ring = ConsistentHashRing::new(3);
    ring.add_server("server-A");
    ring.add_server("server-B");
    ring.add_server("server-C");
    let entries = ring.entries();
    assert_eq!(entries.len(), 9);
    for w in entries.windows(2) {
        assert!(w[0].0 < w[1].0);
    }
    for server in ["server-A", "server-B", "server-C"] {
        for i in 0..3 {
            let pos = hash(&vnode_key(server, i));
            assert!(entries.iter().any(|(p, s)| *p == pos && s == server));
        }
    }
}

#[test]
fn key_goes_to_next_position_clockwise() {
    let mut ring = ConsistentHashRing::new(3);
    ring.add_server("server-A");
    ring.add_server("server-B");
    let entries = ring.entries();
    for key in KEYS {
        let h = hash(key);
        let expected = entries
            .iter()
            .find(|(p, _)| *p >= h)
            .or_else(|| entries.first())
            .unwrap();
        assert_eq!(ring.get_position(key), Some(expected.0));
        assert_eq!(ring.get_server(key), Some(expected.1.as_str()));
    }
}

#[test]
fn adding_a_server_moves_keys_only_to_it() {
    let mut ring = ConsistentHashRing::new(3);
    ring.add_server("server-A");
    ring.add_server("server-B");
    ring.add_server("server-C");
    let before: Vec<String> = KEYS.iter().map(|k| ring.get_server(k).unwrap().to_string()).collect();
    ring.add_server("server-D");
    for (i, key) in KEYS.iter().enumerate() {
        let now = ring.get_server(key).unwrap();
        assert!(now == before[i] || now == "server-D");
    }
}

#[test]
fn removing_a_server_keeps_other_keys() {
    let mut ring = ConsistentHashRing::new(3);
    for s in ["server-A", "server-B", "server-C", "server-D"] {
        ring.add_server(s);
    }
    let before: Vec<String> = KEYS.iter().map(|k| ring.get_server(k).unwrap().to_string()).collect();
    ring.remove_server("server-B");
    assert_eq!(ring.entries().len(), 9);
    for (i, key) in KEYS.iter().enumerate() {
        let now = ring.get_server(key).unwrap();
        assert_ne!(now, "server-B");
        if before[i] != "server-B" {
            assert_eq!(now, before[i]);
        }
    }
}

#[test]
fn removing_every_server_empties_the_ring() {
    let mut ring = ConsistentHashRing::new(2);
    ring.add_server("x");
    assert!(ring.get_server("alice").is_some());
    ring.remove_server("x");
    assert_eq!(ring.get_server("alice"), None);
}

#[test]
fn removing_a_server_undoes_adding_it() {
    let mut ring = ConsistentHashRing::new(3);
    ring.add_server("server-A");
    ring.add_server("server-B");
    let before = ring.entries();
    ring.add_server("server-C");
    ring.remove_server("server-C");
    assert_eq!(ring.entries(), before);
}
