//! GeoJSON documents, read with the `geojson` and `serde_json` crates.
//!
//! The items of this file are not verified: each states what is taken on
//! trust of the crate that it calls.

use vstd::prelude::*;

use crate::feature::{feature_views, JsonProperty, RawFeature, RawFeatureView, RawGeometry};

verus! {

/// `geojson::Error`, carried as it comes.
#[verifier::external_type_specification]
#[verifier::external_body]
pub struct ExGeoJsonError(geojson::Error);

/// `geojson::Feature`, carried as it comes.
#[verifier::external_type_specification]
#[verifier::external_body]
pub struct ExGeoJsonFeature(geojson::Feature);

/// `geojson::Value`, the geometry of a feature, carried as it comes.
#[verifier::external_type_specification]
#[verifier::external_body]
pub struct ExGeoJsonValue(geojson::Value);

/// `serde_json::Value`, carried as it comes.
#[verifier::external_type_specification]
#[verifier::external_body]
pub struct ExJsonValue(serde_json::Value);

/// `std::io::Error`, carried as it comes.
#[verifier::external_type_specification]
#[verifier::external_body]
pub struct ExIoError(std::io::Error);

/// What a text holds as a GeoJSON document.
pub enum Document {
    /// The text is no GeoJSON document.
    Malformed,
    /// The text is a GeoJSON document other than a feature collection.
    NotACollection,
    /// The text is a feature collection with these features.
    Collection(Seq<RawFeatureView>),
}

/// What `geojson` reads from a text: the result of `read_document`.
pub uninterp spec fn document(text: Seq<char>) -> Document;

/// Parses a text with `geojson::GeoJson::from_str` and hands out the
/// features of a feature collection, each as `read_feature` gives it. Taken
/// on trust: the result depends on the text alone.
#[verifier::external_body]
pub(crate) fn read_document(text: &str) -> (r: Result<Option<Vec<RawFeature>>, geojson::Error>)
    ensures
        document(text@) == match r {
            Ok(Some(features)) => Document::Collection(feature_views(features@)),
            Ok(None) => Document::NotACollection,
            Err(_) => Document::Malformed,
        },
{
    match text.parse::<geojson::GeoJson>()? {
        geojson::GeoJson::FeatureCollection(c) => {
            Ok(Some(c.features.into_iter().map(read_feature).collect()))
        },
        geojson::GeoJson::Feature(_) => Ok(None),
        geojson::GeoJson::Geometry(_) => Ok(None),
    }
}

/// Hands out the geometry and the properties of a `geojson::Feature`, the
/// properties in the order in which `serde_json::Map` walks them.
#[verifier::external_body]
fn read_feature(feature: geojson::Feature) -> RawFeature {
    RawFeature {
        geometry: feature.geometry.map(|g| read_geometry(g.value)),
        properties: feature.properties.map(
            |m| m.into_iter().map(|(k, v)| (k, read_property(v))).collect(),
        ),
    }
}

/// Hands out the positions of a `geojson::Value`, each coordinate by the bits
/// of the double.
#[verifier::external_body]
fn read_geometry(value: geojson::Value) -> RawGeometry {
    match value {
        geojson::Value::Point(p) => RawGeometry::Point(p.iter().map(|c| c.to_bits()).collect()),
        geojson::Value::Polygon(p) => RawGeometry::Polygon(p.iter().map(read_ring).collect()),
        geojson::Value::MultiPolygon(ps) => RawGeometry::MultiPolygon(
            ps.iter().map(|p| p.iter().map(read_ring).collect()).collect(),
        ),
        geojson::Value::MultiPoint(_) => RawGeometry::Other,
        geojson::Value::LineString(_) => RawGeometry::Other,
        geojson::Value::MultiLineString(_) => RawGeometry::Other,
        geojson::Value::GeometryCollection(_) => RawGeometry::Other,
    }
}

/// Hands out the positions of a ring, each coordinate by the bits of the
/// double.
#[verifier::external_body]
fn read_ring(ring: &geojson::LineStringType) -> Vec<Vec<u64>> {
    ring.iter().map(|p| p.iter().map(|c| c.to_bits()).collect()).collect()
}

/// Tells the variants of a `serde_json::Value` apart. A number comes as
/// `serde_json::Number::to_string` writes it.
#[verifier::external_body]
fn read_property(value: serde_json::Value) -> JsonProperty {
    match value {
        serde_json::Value::String(text) => JsonProperty::Text(text),
        serde_json::Value::Number(number) => JsonProperty::Number(number.to_string()),
        other => JsonProperty::Other(other),
    }
}

} // verus!
