//! Error handling of the loader.
use vstd::prelude::*;

verus! {

/// A loader error. Firmware failures keep the raw firmware status code.
#[derive(Debug, Clone, Copy, PartialEq, Eq, Structural)]
pub enum LbootError {
    /// Cannot open and load the configuration file.
    CannotOpenConfig,
    /// Configuration file syntax error.
    WrongConfig,
    /// Boot entry error.
    WrongEntry,
    /// Cannot generate a correct image path.
    GenerateImagePathError,
    /// Cannot load the kernel image into memory.
    CannotLoadImageIntoMemory,
    /// Pointer conversion error.
    PointerConversionError,
    /// Another firmware error, by its status code.
    UefiError(usize),
}

/// Return type of most loader functions.
pub type Result<T> = core::result::Result<T, LbootError>;

} // verus!
