use locate_points::commands::{create_geo_index, create_geo_index_command, Generation, MainError};
use locate_points::coord::{finite, le, lt, Point};
use locate_points::error::{ErrorKind, PolygonFinderError};
use locate_points::feature::{IndexablePolygon, JsonProperty, RawFeature, RawGeometry};
use locate_points::finder::PolygonFinder;
use locate_points::geometry::{Area, Placement, Polygon, Rect};
use locate_points::list::reversed;
use locate_points::properties::PropertyMap;
use locate_points::text::same_text;

fn bits(values: &[f64]) -> Vec<u64> {
    values.iter().map(|v| v.to_bits()).collect()
}

fn point(x: f64, y: f64) -> Point {
    Point { x: x.to_bits(), y: y.to_bits() }
}

#[test]
fn the_order_of_the_bits_is_the_order_of_the_doubles() {
    let samples = [
        f64::MIN,
        -1.0e300,
        -103.7427995,
        -1.0,
        -f64::MIN_POSITIVE,
        -5e-324,
        -0.0,
        0.0,
        5e-324,
        f64::MIN_POSITIVE,
        0.1,
        1.0,
        19.2740353,
        1.0e300,
        f64::MAX,
    ];
    for a in samples.iter() {
        for b in samples.iter() {
            assert_eq!(le(a.to_bits(), b.to_bits()), a <= b, "{} <= {}", a, b);
            assert_eq!(lt(a.to_bits(), b.to_bits()), a < b, "{} < {}", a, b);
        }
        assert!(finite(a.to_bits()));
    }
    assert!(!finite(f64::INFINITY.to_bits()));
    assert!(!finite(f64::NEG_INFINITY.to_bits()));
    assert!(!finite(f64::NAN.to_bits()));
    assert!(!finite((-f64::NAN).to_bits()));
    assert!(point(1.0, -2.0).finite());
    assert!(!point(1.0, f64::NAN).finite());
    assert!(!point(f64::INFINITY, 0.0).finite());
}

#[test]
fn a_rectangle_holds_its_borders() {
    let r = Rect { min: point(-1.0, 2.0), max: point(3.0, 4.0) };
    assert!(r.contains_point(&point(-1.0, 2.0)));
    assert!(r.contains_point(&point(3.0, 4.0)));
    assert!(r.contains_point(&point(0.0, 3.0)));
    assert!(!r.contains_point(&point(-1.0000001, 3.0)));
    assert!(!r.contains_point(&point(0.0, 4.0000001)));
    assert!(!r.contains_point(&point(0.0, 1.0)));
    assert!(!r.contains_point(&point(4.0, 3.0)));
    let grown = r.stretch(&point(5.0, 0.0));
    assert_eq!(grown, Rect { min: point(-1.0, 0.0), max: point(5.0, 4.0) });
    assert_eq!(r.stretch(&point(0.0, 3.0)), r);
    // a corner changes only where the point lies strictly beyond it
    let zero = Rect { min: point(0.0, 0.0), max: point(0.0, 0.0) };
    assert_eq!(zero.stretch(&point(-0.0, -0.0)), zero);
}

#[test]
fn the_bounding_rectangle_of_each_kind_of_geometry() {
    assert_eq!(
        Area::Point(point(2.0, 3.0)).mbr(),
        Some(Rect { min: point(2.0, 3.0), max: point(2.0, 3.0) })
    );
    let triangle = Polygon {
        exterior: vec![point(0.0, 0.0), point(4.0, -1.0), point(2.0, 5.0)],
        interiors: vec![vec![point(-9.0, -9.0), point(9.0, 9.0)]],
    };
    // the holes do not count
    assert_eq!(
        Area::Polygon(triangle).mbr(),
        Some(Rect { min: point(0.0, -1.0), max: point(4.0, 5.0) })
    );
    assert_eq!(Area::Polygon(Polygon { exterior: vec![], interiors: vec![] }).mbr(), None);
    assert_eq!(Area::MultiPolygon(vec![]).mbr(), None);
    let parts = vec![
        Polygon { exterior: vec![], interiors: vec![] },
        Polygon { exterior: vec![point(1.0, 1.0), point(2.0, 0.0)], interiors: vec![] },
        Polygon { exterior: vec![point(-3.0, 0.5)], interiors: vec![] },
    ];
    assert_eq!(
        Area::MultiPolygon(parts).mbr(),
        Some(Rect { min: point(-3.0, 0.0), max: point(2.0, 1.0) })
    );
}

#[test]
fn the_exact_test_of_a_point_is_the_sameness_of_its_bits() {
    let never = |_: usize, _: &Point| -> Placement { panic!("a point needs no exact test") };
    let here = Area::Point(point(0.0, 1.5));
    assert!(here.contains_exact(0, &point(0.0, 1.5), &never));
    assert!(!here.contains_exact(0, &point(-0.0, 1.5), &never));
    assert!(!here.contains_exact(0, &point(0.0, 1.25), &never));
    let square = Area::Polygon(Polygon {
        exterior: vec![point(0.0, 0.0), point(1.0, 0.0), point(1.0, 1.0), point(0.0, 0.0)],
        interiors: vec![],
    });
    let asked = |position: usize, p: &Point| {
        if position == 3 && *p == point(0.5, 0.25) {
            Placement::Inside
        } else if position == 3 {
            Placement::OnBoundary
        } else {
            Placement::Outside
        }
    };
    assert!(square.contains_exact(3, &point(0.5, 0.25), &asked));
    assert!(square.contains_exact(3, &point(1.0, 0.25), &asked));
    assert!(!square.contains_exact(4, &point(0.5, 0.25), &asked));
    assert!(Area::MultiPolygon(vec![]).contains_exact(3, &point(0.5, 0.5), &asked));
    assert!(!Area::MultiPolygon(vec![]).contains_exact(2, &point(0.5, 0.5), &asked));
    assert!(square.finite());
    assert!(!Area::Point(point(f64::NAN, 0.0)).finite());
    assert!(!Area::MultiPolygon(vec![Polygon {
        exterior: vec![point(0.0, 0.0)],
        interiors: vec![vec![point(1.0, 1.0), point(1.0, f64::NEG_INFINITY)]],
    }])
    .finite());
}

#[test]
fn a_property_map_keeps_the_last_value_of_a_key() {
    let mut map = PropertyMap::new();
    assert_eq!(map.len(), 0);
    assert!(map.get("a").is_none());
    map.insert("a".to_string(), "1".to_string());
    map.insert("b".to_string(), "2".to_string());
    map.insert("a".to_string(), "3".to_string());
    assert_eq!(map.len(), 2);
    assert_eq!(map.get("a").unwrap(), "3");
    assert_eq!(map.get("b").unwrap(), "2");
    assert!(map.get("").is_none());
    assert!(map.get("ab").is_none());
    let (key, value) = map.entry(0);
    assert_eq!((key.as_str(), value.as_str()), ("a", "3"));
    let (key, value) = map.entry(1);
    assert_eq!((key.as_str(), value.as_str()), ("b", "2"));
}

#[test]
fn a_list_is_reversed() {
    assert_eq!(reversed(vec![1, 2, 3]), vec![3, 2, 1]);
    assert_eq!(reversed(Vec::<String>::new()), Vec::<String>::new());
    assert_eq!(reversed(vec!["a".to_string()]), vec!["a".to_string()]);
}

#[test]
fn texts_are_the_same_when_their_characters_are() {
    assert!(same_text("", ""));
    assert!(same_text("CVEGEO", "CVEGEO"));
    assert!(!same_text("CVEGEO", "CVEGE0"));
    assert!(!same_text("CVEGEO", "CVEGE"));
    assert!(same_text("añb", "añb"));
    assert!(!same_text("añb", "anb"));
}

#[test]
fn a_feature_is_indexed_from_plain_values() {
    let feature = RawFeature {
        geometry: Some(RawGeometry::Polygon(vec![
            vec![bits(&[0.0, 0.0]), bits(&[2.0, 0.0, 50.0]), bits(&[2.0, 3.0]), bits(&[0.0, 0.0])],
            vec![bits(&[0.5, 0.5]), bits(&[1.0, 0.5]), bits(&[1.0, 1.0]), bits(&[0.5, 0.5])],
        ])),
        properties: Some(vec![
            ("name".to_string(), JsonProperty::Text("plot".to_string())),
            ("size".to_string(), JsonProperty::Number("12".to_string())),
        ]),
    };
    let indexed = IndexablePolygon::new(feature).unwrap();
    assert_eq!(*indexed.bbox(), Rect { min: point(0.0, 0.0), max: point(2.0, 3.0) });
    assert_eq!(indexed.properties().get("name").unwrap(), "plot");
    assert_eq!(indexed.properties().get("size").unwrap(), "12");
    match indexed.area() {
        Area::Polygon(p) => {
            assert_eq!(p.exterior, vec![point(0.0, 0.0), point(2.0, 0.0), point(2.0, 3.0), point(0.0, 0.0)]);
            assert_eq!(p.interiors.len(), 1);
        }
        _ => panic!("a polygon was expected"),
    }

    let kind = |geometry: Option<RawGeometry>, properties| {
        IndexablePolygon::new(RawFeature { geometry, properties }).err().map(|e| e.kind())
    };
    assert_eq!(kind(None, None), Some(ErrorKind::GeometryNotFound));
    assert_eq!(kind(Some(RawGeometry::Other), None), Some(ErrorKind::InvalidFeature));
    assert_eq!(
        kind(Some(RawGeometry::Point(bits(&[1.0, f64::NAN]))), None),
        Some(ErrorKind::InvalidPoint)
    );
    assert_eq!(
        kind(Some(RawGeometry::Point(bits(&[f64::INFINITY, 1.0]))), None),
        Some(ErrorKind::InvalidPoint)
    );
    assert_eq!(kind(Some(RawGeometry::Point(vec![])), None), Some(ErrorKind::InvalidPoint));
    assert_eq!(
        kind(Some(RawGeometry::Polygon(vec![vec![bits(&[1.0, 2.0])], vec![bits(&[1.0])]])), None),
        Some(ErrorKind::InvalidPolygon)
    );
    assert_eq!(
        kind(Some(RawGeometry::MultiPolygon(vec![vec![], vec![vec![vec![]]]])), None),
        Some(ErrorKind::InvalidMultiPolygon)
    );
    assert_eq!(
        kind(Some(RawGeometry::MultiPolygon(vec![vec![], vec![vec![]]])), None),
        Some(ErrorKind::GeometryNotFound)
    );
    assert_eq!(
        kind(
            Some(RawGeometry::Point(bits(&[1.0, 2.0]))),
            Some(vec![
                ("a".to_string(), JsonProperty::Number("1".to_string())),
                ("b".to_string(), JsonProperty::Other(serde_json::Value::Bool(true))),
                ("c".to_string(), JsonProperty::Other(serde_json::Value::Null)),
            ])
        ),
        Some(ErrorKind::InvalidProperty)
    );
    match IndexablePolygon::new(RawFeature {
        geometry: Some(RawGeometry::Point(bits(&[1.0, 2.0]))),
        properties: Some(vec![
            ("b".to_string(), JsonProperty::Other(serde_json::Value::Bool(true))),
            ("c".to_string(), JsonProperty::Other(serde_json::Value::Null)),
        ]),
    }) {
        Err(PolygonFinderError::InvalidProperty(value)) => assert_eq!(value, serde_json::Value::Bool(true)),
        _ => panic!("Wrong Error"),
    }
}

#[test]
fn an_index_is_built_from_features_in_their_order() {
    let feature = |x: f64, name: &str| RawFeature {
        geometry: Some(RawGeometry::Point(bits(&[x, 0.0]))),
        properties: Some(vec![("name".to_string(), JsonProperty::Text(name.to_string()))]),
    };
    let finder =
        PolygonFinder::from_features(vec![feature(1.0, "one"), feature(2.0, "two"), feature(3.0, "three")])
            .unwrap();
    assert_eq!(finder.len(), 3);
    assert_eq!(finder.neighbors_tests(), 10);
    for (i, name) in ["one", "two", "three"].iter().enumerate() {
        assert_eq!(finder.feature(i).properties().get("name").unwrap(), name);
        assert_eq!(finder.feature(i).bbox().min, point(1.0 + i as f64, 0.0));
    }
    let empty = PolygonFinder::from_features(Vec::new()).unwrap();
    assert_eq!(empty.len(), 0);
    let refused = PolygonFinder::from_features(vec![
        feature(1.0, "one"),
        RawFeature { geometry: Some(RawGeometry::Other), properties: None },
        RawFeature { geometry: None, properties: None },
    ]);
    assert_eq!(refused.err().map(|e| e.kind()), Some(ErrorKind::InvalidFeature));
}

#[test]
fn an_index_is_loaded_from_its_features() {
    let mut names = PropertyMap::new();
    names.insert("name".to_string(), "here".to_string());
    let here = IndexablePolygon::from_parts(Area::Point(point(1.0, 2.0)), names).unwrap();
    assert_eq!(*here.bbox(), Rect { min: point(1.0, 2.0), max: point(1.0, 2.0) });
    let square = Polygon {
        exterior: vec![point(0.0, 0.0), point(1.0, 0.0), point(1.0, 1.0), point(0.0, 0.0)],
        interiors: vec![],
    };
    let there = IndexablePolygon::from_parts(Area::Polygon(square), PropertyMap::new()).unwrap();
    assert!(IndexablePolygon::from_parts(Area::MultiPolygon(vec![]), PropertyMap::new()).is_none());
    assert!(
        IndexablePolygon::from_parts(Area::Point(point(1.0, f64::NAN)), PropertyMap::new()).is_none()
    );
    let finder = PolygonFinder::bulk_load(vec![here, there]);
    assert_eq!(finder.len(), 2);
    assert_eq!(finder.neighbors_tests(), 10);
    assert_eq!(finder.feature(0).properties().get("name").unwrap(), "here");
    assert_eq!(finder.feature(1).bbox().max, point(1.0, 1.0));
    assert_eq!(finder.with_neighbors_tests(4).neighbors_tests(), 4);
}

#[test]
fn an_index_is_generated_unless_its_file_is_to_be_kept() {
    let text = r#"{"type": "FeatureCollection", "features": [
        {"type": "Feature", "properties": {"a": "x"},
         "geometry": {"type": "Point", "coordinates": [1, 2]}}]}"#;
    let read = || text.to_string();
    let unread = || -> String { panic!("a file that is kept needs no text") };
    assert!(matches!(create_geo_index_command(true, unread, false), Generation::Skipped));
    match create_geo_index_command(true, read, true) {
        Generation::Built(finder) => assert_eq!(finder.len(), 1),
        _ => panic!("an index was expected"),
    }
    match create_geo_index_command(false, read, false) {
        Generation::Built(finder) => assert_eq!(finder.len(), 1),
        _ => panic!("an index was expected"),
    }
    match create_geo_index_command(false, || "{}".to_string(), true) {
        Generation::Failed(PolygonFinderError::Parse(_)) => {}
        _ => panic!("Wrong Error"),
    }
    assert_eq!(create_geo_index(text).unwrap().len(), 1);
    assert_eq!(
        create_geo_index(r#"{"type": "Point", "coordinates": [1, 2]}"#).err().map(|e| e.kind()),
        Some(ErrorKind::FeatureCollectionNotFound)
    );
    assert_eq!(MainError::IndexDeserializationError.message(), "Index Deserialization Error");
}
