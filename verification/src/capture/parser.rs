use vstd::prelude::*;

use super::event::MidiEvent;

verus! {

/// The realtime message that a single status byte denotes, if the capture keeps it.
pub open spec fn realtime_event(byte: u8) -> Option<MidiEvent> {
    if byte == 0xf8 {
        Some(MidiEvent::Clock)
    } else if byte == 0xfa {
        Some(MidiEvent::Start)
    } else if byte == 0xfb {
        Some(MidiEvent::Continue)
    } else if byte == 0xfc {
        Some(MidiEvent::Stop)
    } else if byte == 0xfe {
        Some(MidiEvent::ActiveSensing)
    } else {
        None
    }
}

/// Channel-message data bytes still expected after `byte` arrives in state `pending`.
/// Realtime bytes (0xf8..=0xff) leave the running channel-message state untouched.
pub open spec fn next_pending(pending: u8, byte: u8) -> u8 {
    if byte >= 0xf8 {
        pending
    } else if (0x80 <= byte <= 0xbf) || (0xe0 <= byte <= 0xef) {
        2
    } else if 0xc0 <= byte <= 0xdf {
        1
    } else if byte <= 0x7f {
        if pending == 0 { 0 } else { (pending - 1) as u8 }
    } else {
        0
    }
}

/// Extracts capture-relevant MIDI realtime events from a byte stream.
pub struct MidiParser {
    pending_channel_data_bytes: u8,
}

impl MidiParser {
    /// Number of channel-message data bytes the parser still expects.
    pub closed spec fn pending(self) -> u8 {
        self.pending_channel_data_bytes
    }

    /// Processes one MIDI byte, returning recognized realtime events immediately.
    pub fn push(&mut self, byte: u8) -> (event: Option<MidiEvent>)
        ensures
            event == realtime_event(byte),
            final(self).pending() == next_pending(old(self).pending(), byte),
    {
        if byte >= 0xf8 {
            return match byte {
                0xf8 => Some(MidiEvent::Clock),
                0xfa => Some(MidiEvent::Start),
                0xfb => Some(MidiEvent::Continue),
                0xfc => Some(MidiEvent::Stop),
                0xfe => Some(MidiEvent::ActiveSensing),
                _ => None,
            };
        }
        if (0x80 <= byte && byte <= 0xbf) || (0xe0 <= byte && byte <= 0xef) {
            self.pending_channel_data_bytes = 2;
        } else if 0xc0 <= byte && byte <= 0xdf {
            self.pending_channel_data_bytes = 1;
        } else if byte <= 0x7f {
            self.pending_channel_data_bytes = self.pending_channel_data_bytes.saturating_sub(1);
        } else {
            self.pending_channel_data_bytes = 0;
        }
        None
    }
}

impl Default for MidiParser {
    fn default() -> (parser: Self)
        ensures
            parser.pending() == 0,
    {
        MidiParser { pending_channel_data_bytes: 0 }
    }
}

} // verus!

verus! {

/// The realtime events that the byte stream `bytes` carries, in order.
pub open spec fn realtime_events(bytes: Seq<u8>) -> Seq<MidiEvent>
    decreases bytes.len(),
{
    if bytes.len() == 0 {
        Seq::empty()
    } else {
        let earlier = realtime_events(bytes.drop_last());
        match realtime_event(bytes.last()) {
            Some(event) => earlier.push(event),
            None => earlier,
        }
    }
}

/// The pending channel-data count after feeding `bytes` from state `pending`.
pub open spec fn pending_after(pending: u8, bytes: Seq<u8>) -> u8
    decreases bytes.len(),
{
    if bytes.len() == 0 {
        pending
    } else {
        next_pending(pending_after(pending, bytes.drop_last()), bytes.last())
    }
}

/// A byte stream split across reads yields the same realtime events as the
/// whole stream: those of the first part, then those of the second.
pub proof fn law_split_stream_keeps_events(first: Seq<u8>, second: Seq<u8>)
    ensures
        realtime_events(first + second) == realtime_events(first) + realtime_events(second),
    decreases second.len(),
{
    if second.len() == 0 {
        assert(first + second =~= first);
        assert(realtime_events(first) + realtime_events(second) =~= realtime_events(first));
    } else {
        law_split_stream_keeps_events(first, second.drop_last());
        assert((first + second).drop_last() =~= first + second.drop_last());
        assert((first + second).last() == second.last());
    }
}

/// A byte stream split across reads leaves the parser in the state the
/// whole stream would: the second part continues from where the first left it.
pub proof fn law_split_stream_keeps_state(pending: u8, first: Seq<u8>, second: Seq<u8>)
    ensures
        pending_after(pending, first + second) == pending_after(pending_after(pending, first), second),
    decreases second.len(),
{
    if second.len() == 0 {
        assert(first + second =~= first);
    } else {
        law_split_stream_keeps_state(pending, first, second.drop_last());
        assert((first + second).drop_last() =~= first + second.drop_last());
        assert((first + second).last() == second.last());
    }
}

/// Realtime bytes never disturb an unfinished channel message.
pub proof fn law_realtime_bytes_keep_channel_state(pending: u8, byte: u8)
    requires
        byte >= 0xf8,
    ensures
        next_pending(pending, byte) == pending,
{
}

} // verus!
