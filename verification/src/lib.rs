//! Point-in-polygon lookup over labelled geographic features, and the join of
//! delimited rows against it.
//!
//! An index is built from a GeoJSON feature collection. Each feature keeps its
//! geometry (a polygon, a multi-polygon or a point), the minimum bounding
//! rectangle of that geometry and its properties, as texts. A search takes the
//! features nearest to a point, nearest first, and returns the properties of
//! the first whose rectangle holds the point and whose geometry holds it too.
//! A join gives each row of a table the properties of the feature that holds
//! the point of the row.
//!
//! The library does not compute with doubles. A coordinate is held by the bits
//! of its double, and two coordinates are ordered by their bits, which for
//! finite doubles is their numeric order. What needs arithmetic on doubles is
//! asked of the caller: the features nearest to a point, and where a point
//! lies by a polygon.
//!
//! - `coord`, `geometry`: coordinates, rectangles, geometries and their
//!   bounding rectangles.
//! - `properties`, `feature`, `error`: the features of a document and of the
//!   index.
//! - `finder`: the index and the search.
//! - `join`: the join of rows.
//! - `codec`: the index as bytes.
//! - `commands`: what the commands of the tool decide.
//! - `source`, `record`: what is taken on trust of the `geojson`,
//!   `serde_json` and `csv` crates. Nothing else is, but for one function of
//!   std in `text`.

pub mod codec;
pub mod commands;
pub mod coord;
pub mod error;
pub mod feature;
pub mod finder;
pub mod geometry;
pub mod join;
pub mod list;
pub mod properties;
pub mod record;
pub mod source;
pub mod text;
