use gap::cli::{AddrInfoOptions, Format, RelayChoice};

#[test]
fn format_parses_ignoring_ascii_case() {
    assert_eq!(Format::parse("hex").ok(), Some(Format::Hex));
    assert_eq!(Format::parse("HeX").ok(), Some(Format::Hex));
    assert_eq!(Format::parse("CID").ok(), Some(Format::Cid));
    let err = Format::parse("base32").expect_err("unknown format");
    assert_eq!(err.message(), "invalid format");
    assert!(Format::parse("hex ").is_err());
}

#[test]
fn format_spelling_reads_back() {
    for f in [Format::Hex, Format::Cid] {
        assert_eq!(Format::parse(f.text()).ok(), Some(f));
    }
    assert_eq!(Format::default_format().text(), "hex");
}

#[test]
fn ticket_kind_parses_by_variant_name() {
    assert_eq!(AddrInfoOptions::parse("Id").ok(), Some(AddrInfoOptions::Id));
    assert_eq!(AddrInfoOptions::parse("relayandaddresses").ok(), Some(AddrInfoOptions::RelayAndAddresses));
    assert_eq!(AddrInfoOptions::parse("RELAY").ok(), Some(AddrInfoOptions::Relay));
    assert_eq!(AddrInfoOptions::parse("addresses").ok(), Some(AddrInfoOptions::Addresses));
    let err = AddrInfoOptions::parse("relay-and-addresses").expect_err("dashes");
    assert_eq!(err.message(), "Invalid `AddrInfoOptions` string representation");
}

#[test]
fn ticket_kind_spelling_reads_back() {
    for o in [
        AddrInfoOptions::Id,
        AddrInfoOptions::RelayAndAddresses,
        AddrInfoOptions::Relay,
        AddrInfoOptions::Addresses,
    ] {
        assert_eq!(AddrInfoOptions::parse(o.text()).ok(), Some(o));
    }
    assert_eq!(AddrInfoOptions::RelayAndAddresses.text(), "RelayAndAddresses");
    assert_eq!(AddrInfoOptions::default_options(), AddrInfoOptions::Id);
}

#[test]
fn relay_option_is_exact() {
    assert_eq!(RelayChoice::parse("disabled"), RelayChoice::Disabled);
    assert_eq!(RelayChoice::parse("default"), RelayChoice::Default);
    assert_eq!(RelayChoice::parse("Disabled"), RelayChoice::Custom);
    assert_eq!(RelayChoice::parse("https://relay.example"), RelayChoice::Custom);
}

#[test]
fn only_disabled_relays_skip_waiting_online() {
    assert!(!RelayChoice::Disabled.waits_until_online());
    assert!(RelayChoice::Default.waits_until_online());
    assert!(RelayChoice::Custom.waits_until_online());
}
