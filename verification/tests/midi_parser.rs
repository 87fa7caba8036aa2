use midijitter::capture::{MidiEvent, MidiParser};

#[test]
fn clock_is_emitted_inside_a_channel_message() {
    let mut parser = MidiParser::default();
    assert_eq!(parser.push(0x90), None);
    assert_eq!(parser.push(0x3c), None);
    assert_eq!(parser.push(0xf8), Some(MidiEvent::Clock));
    assert_eq!(parser.push(0x7f), None);
}

#[test]
fn start_is_emitted_inside_a_channel_message() {
    let mut parser = MidiParser::default();
    assert_eq!(parser.push(0x90), None);
    assert_eq!(parser.push(0x3c), None);
    assert_eq!(parser.push(0xfa), Some(MidiEvent::Start));
    assert_eq!(parser.push(0x7f), None);
}

#[test]
fn continue_is_emitted_inside_a_channel_message() {
    let mut parser = MidiParser::default();
    assert_eq!(parser.push(0x90), None);
    assert_eq!(parser.push(0x3c), None);
    assert_eq!(parser.push(0xfb), Some(MidiEvent::Continue));
    assert_eq!(parser.push(0x7f), None);
}

#[test]
fn stop_is_emitted_inside_a_channel_message() {
    let mut parser = MidiParser::default();
    assert_eq!(parser.push(0x90), None);
    assert_eq!(parser.push(0x3c), None);
    assert_eq!(parser.push(0xfc), Some(MidiEvent::Stop));
    assert_eq!(parser.push(0x7f), None);
}

#[test]
fn active_sensing_is_emitted_inside_a_channel_message() {
    let mut parser = MidiParser::default();
    assert_eq!(parser.push(0x90), None);
    assert_eq!(parser.push(0x3c), None);
    assert_eq!(parser.push(0xfe), Some(MidiEvent::ActiveSensing));
    assert_eq!(parser.push(0x7f), None);
}

#[test]
fn undefined_realtime_bytes_are_ignored() {
    let mut parser = MidiParser::default();
    assert_eq!(parser.push(0xf9), None);
    assert_eq!(parser.push(0xfd), None);
    assert_eq!(parser.push(0xff), None);
    assert_eq!(parser.push(0xf8), Some(MidiEvent::Clock));
}

fn events_of(parser: &mut MidiParser, bytes: &[u8]) -> Vec<MidiEvent> {
    bytes.iter().filter_map(|byte| parser.push(*byte)).collect()
}

#[test]
fn a_stream_split_across_reads_yields_the_same_events() {
    let stream = [0x90, 0x3c, 0xf8, 0x7f, 0xfa, 0xb0, 0xf8, 0x07, 0x64, 0xfc];
    let whole = events_of(&mut MidiParser::default(), &stream);
    assert_eq!(whole, vec![MidiEvent::Clock, MidiEvent::Start, MidiEvent::Clock, MidiEvent::Stop]);
    for split in 0..=stream.len() {
        let mut parser = MidiParser::default();
        let mut parts = events_of(&mut parser, &stream[..split]);
        parts.extend(events_of(&mut parser, &stream[split..]));
        assert_eq!(parts, whole, "split at {split}");
    }
}
