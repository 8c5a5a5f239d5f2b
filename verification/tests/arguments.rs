use udp_multiplexer::arguments::{
    interpret, AddressReading, Draft, Flag, Invocation, Setting, UsageError, Word,
};
use udp_multiplexer::config::{Configuration, Endpoint};

/// Reads a word the way the program does, for IPv4 addresses in dotted form and
/// for the one IPv6 address that these tests use.
fn word(text: &str) -> Word {
    let octets: Vec<Option<u8>> = text.split('.').map(|part| part.parse::<u8>().ok()).collect();
    let address = if octets.len() == 4 && octets.iter().all(|octet| octet.is_some()) {
        AddressReading::V4([
            octets[0].unwrap(),
            octets[1].unwrap(),
            octets[2].unwrap(),
            octets[3].unwrap(),
        ])
    } else if text == "::1" {
        AddressReading::OtherFamily
    } else {
        AddressReading::Malformed
    };
    Word { flag: Flag::recognise(text.as_bytes()), port: text.parse::<u16>().ok(), address }
}

fn line(words: &[&str]) -> Vec<Word> {
    words.iter().map(|text| word(text)).collect()
}

fn ask(words: &[&str]) -> Invocation {
    interpret(&line(words))
}

#[test]
fn recognise_knows_the_five_flags() {
    assert_eq!(Flag::recognise(b"-h"), Some(Flag::Help));
    assert_eq!(Flag::recognise(b"-t"), Some(Flag::Value(Setting::OutboundPort)));
    assert_eq!(Flag::recognise(b"-u"), Some(Flag::Value(Setting::InboundPort)));
    assert_eq!(Flag::recognise(b"-s"), Some(Flag::Value(Setting::OutboundAddress)));
    assert_eq!(Flag::recognise(b"-c"), Some(Flag::Value(Setting::InboundAddress)));
}

#[test]
fn recognise_takes_nothing_else_for_a_flag() {
    for text in ["", "-", "h", "-H", "-T", "--h", "-h ", " -h", "-hh", "-x", "t-", "80", "-help"] {
        assert_eq!(Flag::recognise(text.as_bytes()), None, "{:?}", text);
    }
}

#[test]
fn program_name_alone_asks_for_help() {
    assert_eq!(ask(&["relay"]), Invocation::Help);
    assert_eq!(ask(&[]), Invocation::Help);
}

#[test]
fn help_flag_asks_for_help() {
    assert_eq!(ask(&["relay", "-h"]), Invocation::Help);
}

#[test]
fn help_flag_wins_over_what_was_given_before() {
    assert_eq!(
        ask(&["relay", "-t", "80", "-u", "90", "-s", "1.2.3.4", "-c", "5.6.7.8", "-h"]),
        Invocation::Help
    );
}

#[test]
fn an_error_before_the_help_flag_wins() {
    assert_eq!(ask(&["relay", "-t", "0", "-h"]), Invocation::Refuse(UsageError::PortOutOfRange));
}

#[test]
fn the_program_name_is_not_read() {
    assert_eq!(ask(&["-h", "-t", "80"]), Invocation::Refuse(UsageError::Incomplete));
}

#[test]
fn all_four_settings_run_the_relay() {
    assert_eq!(
        ask(&["relay", "-u", "5000", "-t", "6000", "-c", "127.0.0.1", "-s", "0.0.0.0"]),
        Invocation::Run(Configuration {
            inbound: Endpoint { address: [127, 0, 0, 1], port: 5000 },
            outbound: Endpoint { address: [0, 0, 0, 0], port: 6000 },
        })
    );
}

#[test]
fn the_order_of_the_settings_does_not_matter() {
    assert_eq!(
        ask(&["relay", "-s", "10.0.0.2", "-c", "10.0.0.1", "-t", "65535", "-u", "1"]),
        Invocation::Run(Configuration {
            inbound: Endpoint { address: [10, 0, 0, 1], port: 1 },
            outbound: Endpoint { address: [10, 0, 0, 2], port: 65535 },
        })
    );
}

#[test]
fn a_setting_given_twice_keeps_the_last_value() {
    assert_eq!(
        ask(&["relay", "-u", "1", "-u", "2", "-t", "3", "-c", "1.1.1.1", "-s", "2.2.2.2", "-s", "3.3.3.3"]),
        Invocation::Run(Configuration {
            inbound: Endpoint { address: [1, 1, 1, 1], port: 2 },
            outbound: Endpoint { address: [3, 3, 3, 3], port: 3 },
        })
    );
}

#[test]
fn words_that_are_no_flags_are_passed_over() {
    assert_eq!(
        ask(&["relay", "x", "-u", "1", "--verbose", "-t", "3", "-c", "1.1.1.1", "9", "-s", "2.2.2.2", "-z"]),
        Invocation::Run(Configuration {
            inbound: Endpoint { address: [1, 1, 1, 1], port: 1 },
            outbound: Endpoint { address: [2, 2, 2, 2], port: 3 },
        })
    );
}

#[test]
fn a_missing_setting_is_incomplete() {
    assert_eq!(ask(&["relay", "x"]), Invocation::Refuse(UsageError::Incomplete));
    assert_eq!(
        ask(&["relay", "-u", "1", "-t", "3", "-c", "1.1.1.1"]),
        Invocation::Refuse(UsageError::Incomplete)
    );
    assert_eq!(
        ask(&["relay", "-t", "3", "-c", "1.1.1.1", "-s", "2.2.2.2"]),
        Invocation::Refuse(UsageError::Incomplete)
    );
}

#[test]
fn a_flag_as_last_word_misses_its_value() {
    assert_eq!(
        ask(&["relay", "-t"]),
        Invocation::Refuse(UsageError::MissingValue(Setting::OutboundPort))
    );
    assert_eq!(
        ask(&["relay", "-c", "1.1.1.1", "-u"]),
        Invocation::Refuse(UsageError::MissingValue(Setting::InboundPort))
    );
    assert_eq!(
        ask(&["relay", "-s"]),
        Invocation::Refuse(UsageError::MissingValue(Setting::OutboundAddress))
    );
    assert_eq!(
        ask(&["relay", "x", "-c"]),
        Invocation::Refuse(UsageError::MissingValue(Setting::InboundAddress))
    );
}

#[test]
fn port_zero_is_out_of_range() {
    assert_eq!(ask(&["relay", "-t", "0"]), Invocation::Refuse(UsageError::PortOutOfRange));
    assert_eq!(ask(&["relay", "-u", "0"]), Invocation::Refuse(UsageError::PortOutOfRange));
}

#[test]
fn a_port_that_is_no_integer_is_refused() {
    assert_eq!(ask(&["relay", "-t", "http"]), Invocation::Refuse(UsageError::PortNotInteger));
    assert_eq!(ask(&["relay", "-u", "65536"]), Invocation::Refuse(UsageError::PortNotInteger));
    assert_eq!(ask(&["relay", "-u", "-1"]), Invocation::Refuse(UsageError::PortNotInteger));
    assert_eq!(ask(&["relay", "-t", "-h"]), Invocation::Refuse(UsageError::PortNotInteger));
}

#[test]
fn an_address_of_another_family_is_refused() {
    assert_eq!(ask(&["relay", "-s", "::1"]), Invocation::Refuse(UsageError::AddressNotIpv4));
    assert_eq!(ask(&["relay", "-c", "::1"]), Invocation::Refuse(UsageError::AddressNotIpv4));
}

#[test]
fn a_word_that_is_no_address_is_refused() {
    assert_eq!(ask(&["relay", "-s", "localhost"]), Invocation::Refuse(UsageError::AddressMalformed));
    assert_eq!(ask(&["relay", "-c", "1.2.3"]), Invocation::Refuse(UsageError::AddressMalformed));
    assert_eq!(ask(&["relay", "-c", "-s"]), Invocation::Refuse(UsageError::AddressMalformed));
}

#[test]
fn the_first_error_is_the_one_reported() {
    assert_eq!(
        ask(&["relay", "-s", "nowhere", "-t", "0"]),
        Invocation::Refuse(UsageError::AddressMalformed)
    );
    assert_eq!(
        ask(&["relay", "-t", "0", "-s", "nowhere"]),
        Invocation::Refuse(UsageError::PortOutOfRange)
    );
}

#[test]
fn draft_note_and_conclude() {
    let draft = Draft::new();
    assert_eq!(draft.conclude(), Invocation::Refuse(UsageError::Incomplete));
    let draft = draft.note(Setting::InboundPort, &word("5000")).unwrap();
    let draft = draft.note(Setting::OutboundPort, &word("6000")).unwrap();
    let draft = draft.note(Setting::InboundAddress, &word("127.0.0.1")).unwrap();
    assert_eq!(draft.note(Setting::OutboundAddress, &word("6000")), Err(UsageError::AddressMalformed));
    assert_eq!(draft.note(Setting::OutboundPort, &word("127.0.0.1")), Err(UsageError::PortNotInteger));
    let draft = draft.note(Setting::OutboundAddress, &word("127.0.0.2")).unwrap();
    assert_eq!(
        draft.conclude(),
        Invocation::Run(Configuration {
            inbound: Endpoint { address: [127, 0, 0, 1], port: 5000 },
            outbound: Endpoint { address: [127, 0, 0, 2], port: 6000 },
        })
    );
}
