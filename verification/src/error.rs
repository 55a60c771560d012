use crate::status::Status;
use std::convert::Infallible;
use vstd::prelude::*;

verus! {

/// Why a tile could not be read from the raster.
#[derive(Debug, PartialEq, Eq)]
pub enum ReadError {
    /// The raster has neither three nor four bands.
    BandCountError,
    /// The raster backend failed to open the raster, to give its transform or
    /// to read a band; the backend's message.
    GdalError(String),
    /// The requested box is zero pixels wide or high in the raster's grid.
    DegenerateWindow,
}

/// Why a request that asked for a tile got none.
#[derive(Debug, PartialEq, Eq)]
pub enum ProcessingError {
    /// The worker that had the request did not finish it.
    JoinError,
    /// The request is answered with this status.
    HttpError(Status),
    /// The tile could not be read.
    GdalReadError(ReadError),
    /// The JPEG encoder refused the tile.
    ImageEncodingError,
    /// The WebP encoder refused the tile.
    WebPEncodingError,
}

/// The error of a response body. A body is held in memory, so that none
/// ever occurs: the one variant holds a value that cannot exist.
#[derive(Clone, Copy, Debug, PartialEq, Eq)]
pub enum BodyError {
    Infillable(Infallible),
}

} // verus!
