pub mod common;
pub mod control;
pub mod filter_capture;
pub mod spa;
pub mod timing;

use vstd::prelude::*;

use crate::backend::MidiSource;
use crate::error::AppError;
use crate::strings::{decimal, decimal_text, parse_u32, parsed_u32};

verus! {

/// The PipeWire capture backend; its recording and enumeration run in the
/// application around this library.
#[derive(Debug, Default, Clone, Copy)]
pub struct PipeWireBackend;

/// `c` with an ASCII capital letter lowered.
pub open spec fn ascii_lower(c: char) -> char {
    if 'A' <= c <= 'Z' {
        ((c as u32) + 32) as char
    } else {
        c
    }
}

/// The word that marks a refused connection.
pub open spec fn permission_word() -> Seq<char> {
    "permission"@
}

/// `text` holds `word` at `start`, ignoring ASCII case in `text`.
pub open spec fn holds_at(text: Seq<char>, word: Seq<char>, start: int) -> bool {
    &&& 0 <= start
    &&& start + word.len() <= text.len()
    &&& forall|k: int| 0 <= k < word.len() ==> ascii_lower(#[trigger] text[start + k]) == word[k]
}

/// `text` mentions a permission problem, in any ASCII case.
pub open spec fn mentions_permission(text: Seq<char>) -> bool {
    exists|start: int| holds_at(text, permission_word(), start)
}

/// `c` with an ASCII capital letter lowered.
fn lower_ascii(c: char) -> (lowered: char)
    ensures
        lowered == ascii_lower(c),
{
    if 'A' <= c && c <= 'Z' {
        ((c as u8) + 32) as char
    } else {
        c
    }
}

/// Whether `text` mentions a permission problem, in any ASCII case.
pub fn is_permission_message(text: &str) -> (mentions: bool)
    ensures
        mentions == mentions_permission(text@),
{
    let word = "permission";
    proof {
        reveal_strlit("permission");
    }
    let length = text.unicode_len();
    let word_length = word.unicode_len();
    if length < word_length {
        assert forall|start: int| !holds_at(text@, permission_word(), start) by {}
        return false;
    }
    let mut start: usize = 0;
    while start <= length - word_length
        invariant
            length == text@.len(),
            word_length == word@.len(),
            word@ == permission_word(),
            word_length <= length,
            start <= length - word_length + 1,
            forall|earlier: int| 0 <= earlier < start ==> !holds_at(text@, permission_word(), earlier),
        decreases length - start,
    {
        let mut k: usize = 0;
        let mut matched = true;
        while k < word_length
            invariant
                length == text@.len(),
                word_length == word@.len(),
                word@ == permission_word(),
                start + word_length <= length,
                k <= word_length,
                matched == forall|j: int| 0 <= j < k ==> ascii_lower(#[trigger] text@[start + j]) == word@[j],
            decreases word_length - k,
        {
            if lower_ascii(text.get_char(start + k)) != word.get_char(k) {
                matched = false;
            }
            k = k + 1;
        }
        if matched {
            assert(holds_at(text@, permission_word(), start as int));
            return true;
        }
        start = start + 1;
    }
    assert forall|at: int| !holds_at(text@, permission_word(), at) by {
        if 0 <= at && at < start {
        }
    }
    false
}

/// The error for a PipeWire daemon that reported `message`: permission denied
/// when the message mentions permission, unavailable otherwise.
pub fn pipewire_remote_error(message: String) -> (error: AppError)
    ensures
        mentions_permission(message@) ==> error == (AppError::PipeWirePermissionDenied { detail: message }),
        !mentions_permission(message@) ==> error == (AppError::PipeWireUnavailable { detail: message }),
{
    if is_permission_message(message.as_str()) {
        AppError::PipeWirePermissionDenied { detail: message }
    } else {
        AppError::PipeWireUnavailable { detail: message }
    }
}

/// What a PipeWire registry global announces: its id, whether it is a port,
/// and the properties that enumeration reads.
#[derive(Debug, PartialEq, Eq)]
pub struct PortAnnouncement {
    pub global_id: u32,
    pub is_port: bool,
    pub media_type: Option<String>,
    pub direction: Option<String>,
    pub node_id: Option<String>,
    pub node_name: Option<String>,
    pub port_name: Option<String>,
    pub node_description: Option<String>,
    pub node_nick: Option<String>,
    pub object_serial: Option<String>,
}

/// The property holds exactly `expected`.
pub open spec fn property_is(property: Option<String>, expected: Seq<char>) -> bool {
    property matches Some(text) && text@ == expected
}

/// The announcement is a MIDI output port with a numeric node id.
pub open spec fn announces_midi_source(port: PortAnnouncement) -> bool {
    &&& port.is_port
    &&& property_is(port.media_type, "Midi"@)
    &&& property_is(port.direction, "out"@)
    &&& port.node_id matches Some(id) && parsed_u32(id@) is Some
}

/// The node name of a source: its own, or `node-` and its node id.
pub open spec fn source_node_name(port: PortAnnouncement, node_id: u32) -> Seq<char> {
    match port.node_name {
        Some(name) => name@,
        None => "node-"@ + decimal(node_id as nat),
    }
}

/// `source` is the MIDI source that `port` announces.
pub open spec fn announced_source(port: PortAnnouncement, source: MidiSource) -> bool {
    let node_id = parsed_u32(port.node_id.unwrap()@).unwrap();
    let node_name = source_node_name(port, node_id);
    &&& source.node_id == node_id
    &&& source.port_id == port.global_id
    &&& source.node_name@ == node_name
    &&& source.port_name@ == match port.port_name {
        Some(name) => name@,
        None => "port-"@ + decimal(port.global_id as nat),
    }
    &&& source.display_name@ == match port.node_description {
        Some(description) => description@,
        None => match port.node_nick {
            Some(nick) => nick@,
            None => node_name,
        },
    }
    &&& source.object_serial == port.object_serial
    &&& source.alsa_device is None
}

fn property_matches(property: &Option<String>, expected: &str) -> (matches: bool)
    ensures
        matches == property_is(*property, expected@),
{
    match property {
        Some(text) => *text == String::from_str(expected),
        None => false,
    }
}

/// The MIDI source a registry global announces, if it is a MIDI output port
/// with a numeric node id: the node name defaults to `node-<id>`, the port
/// name to `port-<global id>`, and the display name is the node's
/// description, else its nick, else its name.
pub fn port_source(port: PortAnnouncement) -> (source: Option<MidiSource>)
    ensures
        source is Some <==> announces_midi_source(port),
        source matches Some(source) ==> announced_source(port, source),
{
    if !port.is_port || !property_matches(&port.media_type, "Midi")
        || !property_matches(&port.direction, "out") {
        return None;
    }
    let node_id = match &port.node_id {
        Some(id) => match parse_u32(id.as_str()) {
            Some(value) => value,
            None => {
                return None;
            },
        },
        None => {
            return None;
        },
    };
    let ghost announced = port;
    let PortAnnouncement {
        global_id,
        node_name,
        port_name,
        node_description,
        node_nick,
        object_serial,
        ..
    } = port;
    let node_name = match node_name {
        Some(name) => name,
        None => {
            let mut name = String::from_str("node-");
            let digits = decimal_text(node_id as u64);
            name.append(digits.as_str());
            name
        },
    };
    let port_name = match port_name {
        Some(name) => name,
        None => {
            let mut name = String::from_str("port-");
            let digits = decimal_text(global_id as u64);
            name.append(digits.as_str());
            name
        },
    };
    let display_name = match node_description {
        Some(description) => description,
        None => match node_nick {
            Some(nick) => nick,
            None => node_name.clone(),
        },
    };
    let source = MidiSource {
        display_name,
        node_name,
        port_name,
        object_serial,
        node_id,
        port_id: global_id,
        alsa_device: None,
    };
    assert(announced_source(announced, source));
    Some(source)
}

} // verus!
