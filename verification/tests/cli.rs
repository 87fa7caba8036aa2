use midijitter::backend::{select_source, MidiSource};
use midijitter::AppError;

fn source(
    display_name: &str,
    node_name: &str,
    port_name: &str,
    object_serial: Option<&str>,
    node_id: u32,
    port_id: u32,
) -> MidiSource {
    MidiSource {
        display_name: display_name.to_owned(),
        node_name: node_name.to_owned(),
        port_name: port_name.to_owned(),
        object_serial: object_serial.map(str::to_owned),
        node_id,
        port_id,
        alsa_device: None,
    }
}

#[test]
fn duplicate_display_name_requires_a_stable_source_identity() {
    let sources = vec![
        source("USB MIDI", "usb-midi-a", "out", Some("101"), 10, 20),
        source("USB MIDI", "usb-midi-b", "out", Some("102"), 11, 21),
    ];

    let error = select_source(&sources, "USB MIDI").expect_err("duplicate name must be rejected");

    assert!(matches!(error, AppError::AmbiguousSource { .. }));
    assert_eq!(
        error.message(),
        "source selector \"USB MIDI\" is ambiguous; use one of: usb-midi-a/out#101, usb-midi-b/out#102"
    );
}

#[test]
fn source_selection_errors_have_documented_exit_codes() {
    let source = source("USB MIDI", "usb-midi", "out", Some("101"), 10, 20);

    let no_source = select_source(&[], "USB MIDI").expect_err("empty list must reject selection");
    let not_found = select_source(std::slice::from_ref(&source), "missing")
        .expect_err("unknown source must be rejected");
    let ambiguous = select_source(&[source.clone(), source], "USB MIDI")
        .expect_err("duplicate displayed name must be rejected");
    let permission = AppError::PipeWirePermissionDenied {
        detail: "access denied".to_owned(),
    };

    assert!(matches!(no_source, AppError::NoSource));
    assert_eq!(no_source.exit_code(), 5);
    assert!(matches!(not_found, AppError::SourceNotFound { .. }));
    assert_eq!(not_found.exit_code(), 5);
    assert!(matches!(ambiguous, AppError::AmbiguousSource { .. }));
    assert_eq!(ambiguous.exit_code(), 5);
    assert_eq!(permission.exit_code(), 4);
}

#[test]
fn a_source_is_selected_by_display_name_or_identity() {
    let sources = vec![
        source("Keys", "keys-node", "out", None, 1, 2),
        source("Drums", "drum-node", "out", Some("9"), 3, 4),
    ];
    let by_name = select_source(&sources, "Keys").unwrap();
    assert_eq!(by_name.node_name, "keys-node");
    let by_identity = select_source(&sources, "drum-node/out#9").unwrap();
    assert_eq!(by_identity.display_name, "Drums");
}

#[test]
fn missing_source_message_names_the_selector() {
    let sources = vec![source("Keys", "keys-node", "out", None, 1, 2)];
    let error = select_source(&sources, "Piano").unwrap_err();
    assert_eq!(error.message(), "MIDI source \"Piano\" was not found");
    assert_eq!(
        select_source(&[], "Piano").unwrap_err().message(),
        "no MIDI source is available"
    );
}

#[test]
fn exit_codes_of_device_errors() {
    assert_eq!(AppError::AlsaDisconnected.exit_code(), 3);
    assert_eq!(
        AppError::PipeWireUnavailable { detail: "down".to_owned() }.exit_code(),
        3
    );
    assert_eq!(AppError::NoClockEvents.exit_code(), 1);
    assert_eq!(AppError::GraphRateTransitionUnsupported.exit_code(), 1);
}
