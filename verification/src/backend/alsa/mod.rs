pub mod capture;
pub mod timing;

use vstd::prelude::*;

verus! {

/// The ALSA RawMIDI capture backend; its device I/O runs in the application
/// around this library.
#[derive(Debug, Default, Clone, Copy)]
pub struct AlsaRawBackend;

} // verus!
