use gap::cli::AddrInfoOptions;
use gap::ticket::{apply_options, needs_address_lookup, publishes_address, TicketAddr, TransportKind};

fn sample() -> Vec<TicketAddr<u32>> {
    vec![
        TicketAddr { kind: TransportKind::Ip, addr: 1 },
        TicketAddr { kind: TransportKind::Relay, addr: 2 },
        TicketAddr { kind: TransportKind::Ip, addr: 3 },
        TicketAddr { kind: TransportKind::Other, addr: 4 },
    ]
}

fn trimmed(opts: AddrInfoOptions) -> Vec<u32> {
    let mut addrs = sample();
    apply_options(&mut addrs, opts);
    addrs.into_iter().map(|a| a.addr).collect()
}

#[test]
fn id_ticket_has_no_address() {
    assert!(trimmed(AddrInfoOptions::Id).is_empty());
}

#[test]
fn full_ticket_keeps_everything() {
    assert_eq!(trimmed(AddrInfoOptions::RelayAndAddresses), vec![1, 2, 3, 4]);
}

#[test]
fn relay_ticket_keeps_relays() {
    assert_eq!(trimmed(AddrInfoOptions::Relay), vec![2]);
}

#[test]
fn addresses_ticket_keeps_direct_addresses() {
    assert_eq!(trimmed(AddrInfoOptions::Addresses), vec![1, 3]);
}

#[test]
fn trimming_twice_is_trimming_once() {
    let mut addrs = sample();
    apply_options(&mut addrs, AddrInfoOptions::Addresses);
    apply_options(&mut addrs, AddrInfoOptions::Addresses);
    assert_eq!(addrs.into_iter().map(|a| a.addr).collect::<Vec<_>>(), vec![1, 3]);
}

#[test]
fn lookup_decisions() {
    assert!(publishes_address(AddrInfoOptions::Id));
    assert!(!publishes_address(AddrInfoOptions::Relay));
    assert!(needs_address_lookup(&vec![]));
    assert!(needs_address_lookup(&vec![TransportKind::Other]));
    assert!(!needs_address_lookup(&vec![TransportKind::Other, TransportKind::Ip]));
    assert!(!needs_address_lookup(&vec![TransportKind::Relay]));
}

#[test]
fn trimming_never_adds_an_address() {
    let all: Vec<u32> = sample().into_iter().map(|a| a.addr).collect();
    for opts in [
        AddrInfoOptions::Id,
        AddrInfoOptions::Relay,
        AddrInfoOptions::Addresses,
        AddrInfoOptions::RelayAndAddresses,
    ] {
        let kept = trimmed(opts);
        assert!(kept.len() <= all.len());
        assert!(kept.iter().all(|a| all.contains(a)));
    }
}
