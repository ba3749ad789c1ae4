//! CPU feature selection retained by a decoder session.

use vstd::prelude::*;

verus! {

/// Runtime CPU capabilities detected once when a decoder session is created.
#[derive(Clone, Copy, Debug)]
pub struct CpuCapabilities {
    accelerated: bool,
}

/// Asks `fearless_simd::Level::new` for the strongest instruction set of the running processor,
/// and `Level::as_avx2` whether it has AVX2. The answer depends on the machine, so nothing is
/// claimed of it.
#[verifier::external_body]
fn detect_vector_units() -> (found: bool) {
    fearless_simd::Level::new().as_avx2().is_some()
}

impl CpuCapabilities {
    /// Whether 32-bit integer arithmetic is vectorized.
    pub closed spec fn vectorizes(self) -> bool {
        self.accelerated
    }

    /// Whether these are capabilities that the running processor was found to have.
    pub closed spec fn was_detected(self) -> bool {
        call_ensures(detect_vector_units, (), self.accelerated)
    }

    /// Detect the strongest instruction set supported by the current process.
    pub fn detect() -> (cpu: Self)
        ensures
            cpu.was_detected(),
    {
        CpuCapabilities { accelerated: detect_vector_units() }
    }

    /// Returns whether 32-bit integer arithmetic is vectorized.
    pub fn accelerates_i32(self) -> (accelerated: bool)
        ensures
            accelerated == self.vectorizes(),
    {
        self.accelerated
    }
}

} // verus!
