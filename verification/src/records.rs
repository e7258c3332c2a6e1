//! Messages exchanged with the browser page.
use vstd::prelude::*;

verus! {

/// A report sent to the page: distance, LED state and slider position.
pub struct SendData {
    distance: String,
    led: String,
    slider: String,
}

/// A slider position received from the page.
pub struct RecData {
    slider: String,
}

} // verus!
