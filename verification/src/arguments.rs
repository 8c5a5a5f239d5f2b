//! The command line: which words mean what, and what the relay is asked to do.
//!
//! The program reads each word of its command line once, in three ways: as a flag,
//! as a port number and as an address. What follows from the readings is decided
//! here.

use vstd::prelude::*;
use crate::config::{port_in_range, Configuration};

verus! {

/// The four values that the command line has to give.
#[derive(Clone, Copy, Debug, PartialEq, Eq)]
pub enum Setting {
    /// `-t`: the port that subscribers connect to.
    OutboundPort,
    /// `-u`: the port that datagrams arrive at.
    InboundPort,
    /// `-s`: the address that subscribers connect to.
    OutboundAddress,
    /// `-c`: the address that datagrams arrive at.
    InboundAddress,
}

/// The words that the command line treats as flags.
#[derive(Clone, Copy, Debug, PartialEq, Eq)]
pub enum Flag {
    /// `-h`: asks for the usage text.
    Help,
    /// A flag that takes the word behind it as the value of a setting.
    Value(Setting),
}

/// A word read as an address.
#[derive(Clone, Copy, Debug, PartialEq, Eq)]
pub enum AddressReading {
    /// The word is an IPv4 address with these octets.
    V4([u8; 4]),
    /// The word is an address, but not an IPv4 address.
    OtherFamily,
    /// The word is no address.
    Malformed,
}

/// One word of the command line, read in each of the three ways.
#[derive(Clone, Copy, Debug, PartialEq, Eq)]
pub struct Word {
    /// The flag that the word is, if it is one.
    pub flag: Option<Flag>,
    /// The number that the word spells, if it spells an integer from 0 to 65535.
    pub port: Option<u16>,
    /// The word as an address.
    pub address: AddressReading,
}

/// Why a command line is refused.
#[derive(Clone, Copy, Debug, PartialEq, Eq)]
pub enum UsageError {
    /// The flag of this setting is the last word: its value is not there.
    MissingValue(Setting),
    /// The value of a port flag is not an integer from 0 to 65535.
    PortNotInteger,
    /// The value of a port flag is 0.
    PortOutOfRange,
    /// The value of an address flag is no address.
    AddressMalformed,
    /// The value of an address flag is an address, but not an IPv4 address.
    AddressNotIpv4,
    /// No word is wrong, but not all four settings were given.
    Incomplete,
}

/// What a command line asks for.
#[derive(Clone, Copy, Debug, PartialEq, Eq)]
pub enum Invocation {
    /// Print the usage text and do nothing else.
    Help,
    /// Run the relay with this configuration.
    Run(Configuration),
    /// Say what is wrong, print the usage text and do nothing else.
    Refuse(UsageError),
}

/// The flag that a word is: a dash and one of the letters `h`, `t`, `u`, `s`, `c`,
/// and nothing more. Any other word is no flag.
pub open spec fn flag_of(word: Seq<u8>) -> Option<Flag> {
    if word.len() != 2 || word[0] != 0x2d {
        None
    } else if word[1] == 0x68 {
        Some(Flag::Help)
    } else if word[1] == 0x74 {
        Some(Flag::Value(Setting::OutboundPort))
    } else if word[1] == 0x75 {
        Some(Flag::Value(Setting::InboundPort))
    } else if word[1] == 0x73 {
        Some(Flag::Value(Setting::OutboundAddress))
    } else if word[1] == 0x63 {
        Some(Flag::Value(Setting::InboundAddress))
    } else {
        None
    }
}

impl Flag {
    /// Reads a word, given as its bytes, as a flag.
    pub fn recognise(word: &[u8]) -> (flag: Option<Flag>)
        ensures
            flag == flag_of(word@),
    {
        if word.len() != 2 || word[0] != 0x2d {
            None
        } else if word[1] == 0x68 {
            Some(Flag::Help)
        } else if word[1] == 0x74 {
            Some(Flag::Value(Setting::OutboundPort))
        } else if word[1] == 0x75 {
            Some(Flag::Value(Setting::InboundPort))
        } else if word[1] == 0x73 {
            Some(Flag::Value(Setting::OutboundAddress))
        } else if word[1] == 0x63 {
            Some(Flag::Value(Setting::InboundAddress))
        } else {
            None
        }
    }
}

/// The settings that a command line has given so far.
#[derive(Clone, Copy, Debug, PartialEq, Eq)]
pub struct Draft {
    pub inbound_address: Option<[u8; 4]>,
    pub inbound_port: Option<u16>,
    pub outbound_address: Option<[u8; 4]>,
    pub outbound_port: Option<u16>,
}

impl Draft {
    /// Nothing given yet.
    pub open spec fn empty() -> Draft {
        Draft {
            inbound_address: None,
            inbound_port: None,
            outbound_address: None,
            outbound_port: None,
        }
    }

    /// The draft after `value` was given for `setting`, or why `value` will not do.
    /// A port has to be an integer and must not be 0; an address has to be an IPv4
    /// address. A value that is given again takes the place of the earlier one.
    pub open spec fn noted(self, setting: Setting, value: Word) -> Result<Draft, UsageError> {
        match setting {
            Setting::OutboundPort => match value.port {
                None => Err(UsageError::PortNotInteger),
                Some(port) => if port_in_range(port) {
                    Ok(Draft { outbound_port: Some(port), ..self })
                } else {
                    Err(UsageError::PortOutOfRange)
                },
            },
            Setting::InboundPort => match value.port {
                None => Err(UsageError::PortNotInteger),
                Some(port) => if port_in_range(port) {
                    Ok(Draft { inbound_port: Some(port), ..self })
                } else {
                    Err(UsageError::PortOutOfRange)
                },
            },
            Setting::OutboundAddress => match value.address {
                AddressReading::V4(octets) => Ok(Draft { outbound_address: Some(octets), ..self }),
                AddressReading::OtherFamily => Err(UsageError::AddressNotIpv4),
                AddressReading::Malformed => Err(UsageError::AddressMalformed),
            },
            Setting::InboundAddress => match value.address {
                AddressReading::V4(octets) => Ok(Draft { inbound_address: Some(octets), ..self }),
                AddressReading::OtherFamily => Err(UsageError::AddressNotIpv4),
                AddressReading::Malformed => Err(UsageError::AddressMalformed),
            },
        }
    }

    /// What the command line asks for once all its words are read: to run, if all
    /// four settings were given.
    pub open spec fn concluded(self) -> Invocation {
        match Configuration::assembled(
            self.inbound_address,
            self.inbound_port,
            self.outbound_address,
            self.outbound_port,
        ) {
            Some(configuration) => Invocation::Run(configuration),
            None => Invocation::Refuse(UsageError::Incomplete),
        }
    }

    /// A draft with nothing given yet.
    pub fn new() -> (draft: Draft)
        ensures
            draft == Draft::empty(),
    {
        Draft {
            inbound_address: None,
            inbound_port: None,
            outbound_address: None,
            outbound_port: None,
        }
    }

    /// Takes `value` as the value of `setting`.
    pub fn note(self, setting: Setting, value: &Word) -> (result: Result<Draft, UsageError>)
        ensures
            result == self.noted(setting, *value),
    {
        match setting {
            Setting::OutboundPort => match value.port {
                None => Err(UsageError::PortNotInteger),
                Some(port) => if port >= 1 {
                    Ok(Draft { outbound_port: Some(port), ..self })
                } else {
                    Err(UsageError::PortOutOfRange)
                },
            },
            Setting::InboundPort => match value.port {
                None => Err(UsageError::PortNotInteger),
                Some(port) => if port >= 1 {
                    Ok(Draft { inbound_port: Some(port), ..self })
                } else {
                    Err(UsageError::PortOutOfRange)
                },
            },
            Setting::OutboundAddress => match value.address {
                AddressReading::V4(octets) => Ok(Draft { outbound_address: Some(octets), ..self }),
                AddressReading::OtherFamily => Err(UsageError::AddressNotIpv4),
                AddressReading::Malformed => Err(UsageError::AddressMalformed),
            },
            Setting::InboundAddress => match value.address {
                AddressReading::V4(octets) => Ok(Draft { inbound_address: Some(octets), ..self }),
                AddressReading::OtherFamily => Err(UsageError::AddressNotIpv4),
                AddressReading::Malformed => Err(UsageError::AddressMalformed),
            },
        }
    }

    /// Ends the reading.
    pub fn conclude(self) -> (invocation: Invocation)
        ensures
            invocation == self.concluded(),
            invocation matches Invocation::Run(configuration) ==> configuration.valid(),
    {
        match Configuration::assemble(
            self.inbound_address,
            self.inbound_port,
            self.outbound_address,
            self.outbound_port,
        ) {
            Some(configuration) => Invocation::Run(configuration),
            None => Invocation::Refuse(UsageError::Incomplete),
        }
    }
}

/// What the words from `position` on ask for, when the words before them have given
/// `draft`. The words are read from left to right. `-h` ends the reading with a call
/// for help, whatever was given before. A setting's flag takes the next word as
/// its value; with no next word, or with a value that will not do, the reading ends
/// there. A word that is no flag is passed over, and so the reading goes on with the
/// value itself after a setting.
pub open spec fn scanned(words: Seq<Word>, position: int, draft: Draft) -> Invocation
    decreases words.len() - position,
{
    if position < 0 || position >= words.len() {
        draft.concluded()
    } else {
        match words[position].flag {
            None => scanned(words, position + 1, draft),
            Some(Flag::Help) => Invocation::Help,
            Some(Flag::Value(setting)) => if position + 1 < words.len() {
                match draft.noted(setting, words[position + 1]) {
                    Ok(next) => scanned(words, position + 1, next),
                    Err(error) => Invocation::Refuse(error),
                }
            } else {
                Invocation::Refuse(UsageError::MissingValue(setting))
            },
        }
    }
}

/// What a command line asks for. Its first word is the program's name and is not
/// read. A command line of that word alone asks for help.
pub open spec fn interpreted(words: Seq<Word>) -> Invocation {
    if words.len() < 2 {
        Invocation::Help
    } else {
        scanned(words, 1, Draft::empty())
    }
}

/// Decides what a command line asks for.
pub fn interpret(words: &[Word]) -> (invocation: Invocation)
    ensures
        invocation == interpreted(words@),
        invocation matches Invocation::Run(configuration) ==> configuration.valid(),
{
    if words.len() < 2 {
        return Invocation::Help;
    }
    let mut draft = Draft::new();
    let mut position: usize = 1;
    while position < words.len()
        invariant
            1 <= position <= words.len(),
            scanned(words@, position as int, draft) == interpreted(words@),
        decreases words.len() - position,
    {
        match words[position].flag {
            None => {},
            Some(Flag::Help) => {
                return Invocation::Help;
            },
            Some(Flag::Value(setting)) => {
                if position + 1 < words.len() {
                    match draft.note(setting, &words[position + 1]) {
                        Ok(next) => {
                            draft = next;
                        },
                        Err(error) => {
                            return Invocation::Refuse(error);
                        },
                    }
                } else {
                    return Invocation::Refuse(UsageError::MissingValue(setting));
                }
            },
        }
        position += 1;
    }
    draft.conclude()
}

} // verus!
