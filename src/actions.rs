use vstd::prelude::*;

verus! {

/// A pause of a whole number of seconds.
pub struct Wait {
    pub duration_s: u16,
}

/// A blink: `speed` off/on cycles, `pause` seconds dark in each, in one colour.
pub struct Blink {
    pub speed: u16,
    pub pause: u16,
    pub color: String,
}

} // verus!
