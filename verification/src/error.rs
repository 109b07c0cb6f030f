//! What can go wrong while an index is built.

use vstd::prelude::*;

verus! {

/// Why a document or one of its features was refused.
#[derive(Debug)]
pub enum PolygonFinderError {
    /// The text is not a GeoJSON document.
    Parse(geojson::Error),
    /// A property holds the given value, which is neither a text nor a number.
    InvalidProperty(serde_json::Value),
    /// The geometry of a feature is neither a polygon, a multi-polygon nor a
    /// point.
    InvalidFeature,
    /// The document is not a feature collection.
    FeatureCollectionNotFound,
    /// A feature has no geometry, or its geometry has no point.
    GeometryNotFound,
    /// A position of a polygon has fewer than two coordinates or one that is
    /// not finite.
    InvalidPolygon,
    /// The same, in a polygon of a multi-polygon.
    InvalidMultiPolygon,
    /// The same, in a point.
    InvalidPoint,
    /// No distance could be computed.
    CannotCalculateDistance,
    /// The document could not be read.
    Io(std::io::Error),
}

/// The kind of a `PolygonFinderError`, without what it carries.
#[derive(Clone, Copy, Debug, PartialEq, Eq, Structural)]
pub enum ErrorKind {
    Parse,
    InvalidProperty,
    InvalidFeature,
    FeatureCollectionNotFound,
    GeometryNotFound,
    InvalidPolygon,
    InvalidMultiPolygon,
    InvalidPoint,
    CannotCalculateDistance,
    Io,
}

impl View for PolygonFinderError {
    type V = ErrorKind;

    open spec fn view(&self) -> ErrorKind {
        match self {
            PolygonFinderError::Parse(_) => ErrorKind::Parse,
            PolygonFinderError::InvalidProperty(_) => ErrorKind::InvalidProperty,
            PolygonFinderError::InvalidFeature => ErrorKind::InvalidFeature,
            PolygonFinderError::FeatureCollectionNotFound => ErrorKind::FeatureCollectionNotFound,
            PolygonFinderError::GeometryNotFound => ErrorKind::GeometryNotFound,
            PolygonFinderError::InvalidPolygon => ErrorKind::InvalidPolygon,
            PolygonFinderError::InvalidMultiPolygon => ErrorKind::InvalidMultiPolygon,
            PolygonFinderError::InvalidPoint => ErrorKind::InvalidPoint,
            PolygonFinderError::CannotCalculateDistance => ErrorKind::CannotCalculateDistance,
            PolygonFinderError::Io(_) => ErrorKind::Io,
        }
    }
}

impl PolygonFinderError {
    /// The kind of the error.
    pub fn kind(&self) -> (k: ErrorKind)
        ensures
            k == self@,
    {
        match self {
            PolygonFinderError::Parse(_) => ErrorKind::Parse,
            PolygonFinderError::InvalidProperty(_) => ErrorKind::InvalidProperty,
            PolygonFinderError::InvalidFeature => ErrorKind::InvalidFeature,
            PolygonFinderError::FeatureCollectionNotFound => ErrorKind::FeatureCollectionNotFound,
            PolygonFinderError::GeometryNotFound => ErrorKind::GeometryNotFound,
            PolygonFinderError::InvalidPolygon => ErrorKind::InvalidPolygon,
            PolygonFinderError::InvalidMultiPolygon => ErrorKind::InvalidMultiPolygon,
            PolygonFinderError::InvalidPoint => ErrorKind::InvalidPoint,
            PolygonFinderError::CannotCalculateDistance => ErrorKind::CannotCalculateDistance,
            PolygonFinderError::Io(_) => ErrorKind::Io,
        }
    }
}

} // verus!
