use raddy::upstream::{SiteKey, UpstreamSelector};

/// An upstream address: IPv4 octets and a port.
type Addr = ([u8; 4], u16);

#[test]
fn round_robin_cycles() {
    let mut sel = UpstreamSelector::new();
    let key = SiteKey::CatchAll { port: 8080 };
    let addrs: [Addr; 2] = [([127, 0, 0, 1], 1), ([127, 0, 0, 1], 2)];
    let first = sel.pick(&key, 0, &addrs);
    let second = sel.pick(&key, 0, &addrs);
    assert_ne!(first, second);
    // Third pick wraps back to the first.
    assert_eq!(sel.pick(&key, 0, &addrs), first);
}

#[test]
fn independent_terminals_have_independent_sequences() {
    let mut sel = UpstreamSelector::new();
    let key = SiteKey::CatchAll { port: 8080 };
    let addrs: [Addr; 2] = [([127, 0, 0, 1], 1), ([127, 0, 0, 1], 2)];
    // Terminal 0 advances twice, terminal 1 advances twice.
    let a0 = sel.pick(&key, 0, &addrs);
    let a1 = sel.pick(&key, 0, &addrs);
    let b0 = sel.pick(&key, 1, &addrs);
    let b1 = sel.pick(&key, 1, &addrs);
    assert_ne!(a0, a1);
    assert_ne!(b0, b1);
    // Interleaving terminal 1's picks did not disturb terminal 0's sequence:
    // its third pick wraps back to a0, and terminal 1's third pick to b0.
    assert_eq!(sel.pick(&key, 0, &addrs), a0);
    assert_eq!(sel.pick(&key, 1, &addrs), b0);
}

#[test]
fn fresh_terminal_starts_at_the_first_upstream() {
    let mut sel = UpstreamSelector::new();
    let key = SiteKey::Named { host: "api.example.com".to_string(), port: 443 };
    let ups = [10u32, 20, 30];
    let picks: Vec<u32> = (0..7).map(|_| sel.pick(&key, 0, &ups)).collect();
    assert_eq!(picks, vec![10, 20, 30, 10, 20, 30, 10]);
}

#[test]
fn sites_keep_separate_counters() {
    let mut sel = UpstreamSelector::new();
    let a = SiteKey::Named { host: "a.example".to_string(), port: 80 };
    let b = SiteKey::Named { host: "b.example".to_string(), port: 80 };
    let c = SiteKey::CatchAll { port: 80 };
    let ups = [1u8, 2, 3];
    assert_eq!(sel.pick(&a, 0, &ups), 1);
    assert_eq!(sel.pick(&a, 0, &ups), 2);
    assert_eq!(sel.pick(&b, 0, &ups), 1);
    assert_eq!(sel.pick(&c, 0, &ups), 1);
    assert_eq!(sel.pick(&a, 0, &ups), 3);
    // A different port is a different site.
    let a443 = SiteKey::Named { host: "a.example".to_string(), port: 443 };
    assert_eq!(sel.pick(&a443, 0, &ups), 1);
}

#[test]
fn counter_survives_a_changed_upstream_list() {
    // A reload swaps the list but keeps the counter: the third pick on a
    // list of two takes index 2 % 2 = 0 of whatever list is passed.
    let mut sel = UpstreamSelector::new();
    let key = SiteKey::CatchAll { port: 9000 };
    assert_eq!(sel.pick(&key, 0, &['a', 'b', 'c']), 'a');
    assert_eq!(sel.pick(&key, 0, &['a', 'b', 'c']), 'b');
    assert_eq!(sel.pick(&key, 0, &['x', 'y']), 'x');
    assert_eq!(sel.pick(&key, 0, &['x', 'y']), 'y');
    assert_eq!(sel.pick(&key, 0, &['p']), 'p');
}

#[test]
fn site_keys_compare_by_value() {
    let a = SiteKey::Named { host: "h".to_string(), port: 1 };
    assert!(a.same_site(&a.duplicate()));
    assert!(!a.same_site(&SiteKey::Named { host: "H".to_string(), port: 1 }));
    assert!(!a.same_site(&SiteKey::CatchAll { port: 1 }));
    assert!(SiteKey::CatchAll { port: 7 }.same_site(&SiteKey::CatchAll { port: 7 }));
}

#[test]
fn a_run_of_picks_takes_each_upstream_once() {
    let mut sel = UpstreamSelector::new();
    let key = SiteKey::Named { host: "example.com".to_string(), port: 443 };
    let addrs: [u16; 3] = [1, 2, 3];
    // Two earlier picks leave the counter at 2.
    sel.pick(&key, 0, &addrs);
    sel.pick(&key, 0, &addrs);
    let run: Vec<u16> = (0..3).map(|_| sel.pick(&key, 0, &addrs)).collect();
    assert_eq!(run, vec![3, 1, 2]);
}
