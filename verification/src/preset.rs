use vstd::prelude::*;

verus! {

/// A named UF2 family preset: the 32-bit identifier that the encoder stamps
/// into every block, and a human-readable description of the target family.
pub struct Uf2Preset {
    pub id: u32,
    pub description: String,
}

} // verus!
