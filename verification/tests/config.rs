use udp_multiplexer::config::{Configuration, Endpoint};

#[test]
fn assemble_takes_four_values() {
    let made = Configuration::assemble(Some([127, 0, 0, 1]), Some(5000), Some([0, 0, 0, 0]), Some(6000));
    assert_eq!(
        made,
        Some(Configuration {
            inbound: Endpoint { address: [127, 0, 0, 1], port: 5000 },
            outbound: Endpoint { address: [0, 0, 0, 0], port: 6000 },
        })
    );
}

#[test]
fn assemble_accepts_the_ends_of_the_port_range() {
    let made = Configuration::assemble(Some([10, 0, 0, 1]), Some(1), Some([10, 0, 0, 2]), Some(65535));
    let made = made.unwrap();
    assert_eq!(made.inbound.port, 1);
    assert_eq!(made.outbound.port, 65535);
}

#[test]
fn assemble_refuses_when_a_value_is_absent() {
    let address = Some([127, 0, 0, 1]);
    assert_eq!(Configuration::assemble(None, Some(1), address, Some(2)), None);
    assert_eq!(Configuration::assemble(address, None, address, Some(2)), None);
    assert_eq!(Configuration::assemble(address, Some(1), None, Some(2)), None);
    assert_eq!(Configuration::assemble(address, Some(1), address, None), None);
    assert_eq!(Configuration::assemble(None, None, None, None), None);
}

#[test]
fn assemble_refuses_port_zero() {
    let address = Some([127, 0, 0, 1]);
    assert_eq!(Configuration::assemble(address, Some(0), address, Some(2)), None);
    assert_eq!(Configuration::assemble(address, Some(1), address, Some(0)), None);
}

#[test]
fn assemble_allows_both_listeners_on_one_endpoint() {
    let address = Some([192, 168, 1, 1]);
    let made = Configuration::assemble(address, Some(7000), address, Some(7000)).unwrap();
    assert_eq!(made.inbound, made.outbound);
}
