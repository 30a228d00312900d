//! Shader-introspecting GPU resource manager.
//!
//! The library statically analyzes compute-shader source text to recover its
//! binding layout, block memory layout and workgroup size, sizes the
//! descriptor pool that serves those bindings, models multi-buffered
//! (replica-rotated) GPU-visible memory, and drives the per-frame
//! dispatch/resize lifecycle as a state machine.  All device work (memory
//! allocation, mapping, submission) is performed by the caller; this crate
//! holds the decisions and the arithmetic, verified.  The shader reflector
//! is specified down to the source bytes: tokenization and the
//! declaration walk each have a mathematical twin, and the executable
//! functions return exactly its value.

use vstd::prelude::*;

pub mod descriptor;
pub mod error;
pub mod layout;
pub mod lex;
pub mod multi_buffer;
pub mod parse;
pub mod reflect;
pub mod schedule;
pub mod spv;
pub mod text;

verus! {

/// Index of `frequency` in the output of a discrete Fourier transform with
/// `dft_size` bins over audio sampled at `sample_rate` samples per second,
/// rounding half upward to the nearest bin.
pub fn dft_index_of_frequency(frequency: usize, sample_rate: usize, dft_size: usize) -> (index: usize)
    requires
        sample_rate >= 1,
        sample_rate <= usize::MAX / 2,
        frequency * dft_size <= (usize::MAX - sample_rate) / 2,
    ensures
        index == (2 * (frequency * dft_size) + sample_rate) / (2 * sample_rate),
{
    let product: usize = frequency * dft_size;
    (2 * product + sample_rate) / (2 * sample_rate)
}

} // verus!
