use vstd::prelude::*;

verus! {

/// The error taxonomy of the engine.
///
/// Discovery and selection errors abort a run; transport, decode and
/// placement errors are isolated per tile and only feed the final
/// partial-failure summary. Failures of outside collaborators (transport,
/// image codec) reach the library as plain message strings.
#[derive(Debug)]
pub enum ZoomError {
    /// A network or local I/O failure while fetching bytes.
    Networking { msg: String },
    /// A protocol implementation failed to produce zoom levels.
    Dezoomer { msg: String },
    /// A zoomable image was found, but it did not contain any zoom level.
    NoLevels,
    /// No tile at all could be downloaded.
    NoTile,
    /// Fetched bytes are not a valid tile image.
    Image { msg: String },
    /// A local file could not be read.
    Io { msg: String },
    /// Fetching or decoding one tile failed; the batch goes on.
    TileDownloadError { uri: String, msg: String },
    /// A tile's bounding box does not fit on the canvas.
    TileCopyError { x: u32, y: u32, twidth: u32, theight: u32, width: u32, height: u32 },
    /// The requested protocol implementation is not registered.
    NoSuchDezoomer { name: String },
    /// Every registered protocol implementation failed; one reason each.
    NoCompatibleDezoomer { reasons: Vec<String> },
}

} // verus!
