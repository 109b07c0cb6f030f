//! What the commands of the tool decide, apart from reading and writing
//! files.

use vstd::prelude::*;

use crate::error::{ErrorKind, PolygonFinderError};
use crate::finder::{gives, loaded, FinderView, PolygonFinder};

verus! {

/// Why a command failed.
#[derive(Clone, Copy, Debug, PartialEq, Eq, Structural)]
pub enum MainError {
    /// The index file does not hold an index.
    IndexDeserializationError,
}

impl MainError {
    /// The error in words.
    pub fn message(&self) -> (text: &'static str)
        ensures
            text@ == "Index Deserialization Error"@,
    {
        match self {
            MainError::IndexDeserializationError => "Index Deserialization Error",
        }
    }
}

/// Builds the index of a GeoJSON text, which must be a feature collection.
pub fn create_geo_index(geo_json: &str) -> (r: Result<PolygonFinder, PolygonFinderError>)
    ensures
        gives(r, loaded(geo_json@)),
{
    PolygonFinder::new(geo_json)
}

/// How the generation of an index ended.
#[derive(Debug)]
pub enum Generation {
    /// The index file exists and was not to be overwritten: nothing was
    /// built.
    Skipped,
    /// The index was built and is to be saved.
    Built(PolygonFinder),
    /// The GeoJSON text gives no index.
    Failed(PolygonFinderError),
}

/// Generates the index of a GeoJSON text for an index file.
///
/// An index file that exists is left alone unless `force` is set, and the
/// text is not even asked for. Otherwise `read_geo_json` hands out the text
/// and its index is built, to be saved in the file, or the text is refused
/// with its error.
pub fn create_geo_index_command<R: FnOnce() -> String>(
    dest_exists: bool,
    read_geo_json: R,
    force: bool,
) -> (r: Generation)
    requires
        read_geo_json.requires(()),
    ensures
        dest_exists && !force ==> r is Skipped,
        !(dest_exists && !force) ==> exists|geo_json: String|
            {
                &&& read_geo_json.ensures((), geo_json)
                &&& match r {
                    Generation::Skipped => false,
                    Generation::Built(finder) => loaded(geo_json@) == Ok::<FinderView, ErrorKind>(
                        finder@,
                    ),
                    Generation::Failed(e) => loaded(geo_json@) == Err::<FinderView, ErrorKind>(e@),
                }
            },
{
    if dest_exists && !force {
        return Generation::Skipped;
    }
    let geo_json = read_geo_json();
    match create_geo_index(geo_json.as_str()) {
        Ok(finder) => Generation::Built(finder),
        Err(error) => Generation::Failed(error),
    }
}

} // verus!
