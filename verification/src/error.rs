//! Common error types for the library.

use vstd::prelude::*;
use crate::hword::HWordError;

verus! {

/// Error type for frame and coordinate operations.
#[derive(Debug, Clone, PartialEq)]
pub enum SharedError {
    /// HWORD parsing errors.
    HWord(HWordError),
    /// Invalid frame data.
    InvalidFrame(String),
    /// Invalid coordinate data.
    InvalidCoordinates(String),
    /// File format errors.
    InvalidFileFormat(String),
    /// Generic errors with context.
    Generic(String),
}

impl SharedError {
    /// Create a new generic error with a message.
    pub fn new(msg: String) -> (r: SharedError)
        ensures
            r == SharedError::Generic(msg),
    {
        SharedError::Generic(msg)
    }

    /// Create a new invalid frame error.
    pub fn invalid_frame(msg: String) -> (r: SharedError)
        ensures
            r == SharedError::InvalidFrame(msg),
    {
        SharedError::InvalidFrame(msg)
    }

    /// Create a new invalid coordinates error.
    pub fn invalid_coordinates(msg: String) -> (r: SharedError)
        ensures
            r == SharedError::InvalidCoordinates(msg),
    {
        SharedError::InvalidCoordinates(msg)
    }

    /// Create a new invalid file format error.
    pub fn invalid_file_format(msg: String) -> (r: SharedError)
        ensures
            r == SharedError::InvalidFileFormat(msg),
    {
        SharedError::InvalidFileFormat(msg)
    }
}

} // verus!
