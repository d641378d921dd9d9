use std::collections::BTreeMap;

use chrono::Local;
use horaedb_client::model::value::Value;
use horaedb_client::model::write::pb_builder::{
    make_tags_key, NameDict, TableRequestPbBuilder, WriteTableRequestPbsBuilder,
};
use horaedb_client::model::write::point::{Point, PointBuilder, ValueMap};
use horaedb_client::model::write::Request;

#[test]
fn test_build_write_table() {
    let ts1 = Local::now().timestamp_millis();
    let ts2 = ts1 + 50;
    // With same table and tags.
    let test_table = "test_table";
    let test_tag1 = ("test_tag1", 42);
    let test_tag2 = ("test_tag2", "test_tag_val");
    let test_field1 = ("test_field1", 42);
    let test_field2 = ("test_field2", "test_field_val");
    let test_field3 = ("test_field3", 0.42);
    // With same table but different tags.
    let test_tag3 = ("test_tag1", b"binarybinary");
    // With different table.
    let test_table2 = "test_table2";

    // Build write request.
    let mut write_req = Request::default();

    let points = vec![
        PointBuilder::new(test_table.to_string())
            .timestamp(ts1)
            .tag(test_tag1.0.to_owned(), Value::Int32(test_tag1.1))
            .tag(test_tag2.0.to_owned(), Value::String(test_tag2.1.to_owned()))
            .field(test_field1.0.to_owned(), Value::Int32(test_field1.1))
            .build()
            .unwrap(),
        PointBuilder::new(test_table.to_string())
            .timestamp(ts1)
            .tag(test_tag1.0.to_owned(), Value::Int32(test_tag1.1))
            .tag(test_tag2.0.to_owned(), Value::String(test_tag2.1.to_owned()))
            .field(test_field2.0.to_owned(), Value::String(test_field2.1.to_owned()))
            .build()
            .unwrap(),
        PointBuilder::new(test_table.to_string())
            .timestamp(ts2)
            .tag(test_tag1.0.to_owned(), Value::Int32(test_tag1.1))
            .tag(test_tag2.0.to_owned(), Value::String(test_tag2.1.to_owned()))
            .field(test_field3.0.to_owned(), Value::Double(f64::to_bits(test_field3.1)))
            .build()
            .unwrap(),
        PointBuilder::new(test_table.to_string())
            .timestamp(ts1)
            .tag(test_tag1.0.to_owned(), Value::Int32(test_tag1.1))
            .tag(test_tag2.0.to_owned(), Value::String(test_tag2.1.to_owned()))
            .tag(test_tag3.0.to_owned(), Value::Varbinary(test_tag3.1.to_vec()))
            .field(test_field1.0.to_owned(), Value::Int32(test_field1.1))
            .build()
            .unwrap(),
    ];

    let points2 = vec![PointBuilder::new(test_table2.to_string())
        .timestamp(ts1)
        .tag(test_tag1.0.to_owned(), Value::Int32(test_tag1.1))
        .tag(test_tag2.0.to_owned(), Value::String(test_tag2.1.to_owned()))
        .field(test_field1.0.to_owned(), Value::Int32(test_field1.1))
        .build()
        .unwrap()];

    write_req.add_points(points);
    write_req.add_points(points2);

    // Build pb.
    let table_requests = WriteTableRequestPbsBuilder(write_req.clone()).build();
    // Recover points from pb and compare.
    let mut points = Vec::new();
    for table_request in table_requests {
        let tag_names = table_request.tag_names;
        let field_names = table_request.field_names;
        for entry in table_request.entries {
            let mut tags = ValueMap::new();
            for tag in entry.tags {
                let tag_name = tag_names[tag.name_index as usize].clone();
                tags.insert(tag_name, tag.value);
            }

            for ts_field in entry.field_groups {
                let timestamp = ts_field.timestamp;
                let mut fields = ValueMap::new();
                for field in ts_field.fields {
                    let field_name = field_names[field.name_index as usize].clone();
                    fields.insert(field_name, field.value);
                }

                let point =
                    Point { table: table_request.table.clone(), timestamp, tags: tags.clone(), fields };

                points.push(point);
            }
        }
    }

    // Compare what was written and what was recovered.
    let mut expected_points = BTreeMap::new();
    for (_, points) in write_req.into_point_groups() {
        let points = points.into_iter().map(|point| {
            let cmp_key = make_cmp_key(&point);
            (cmp_key, point)
        });
        expected_points.extend(points);
    }
    let expected_points = expected_points.into_values().collect::<Vec<_>>();

    make_ordered(&mut points);

    assert_eq!(points, expected_points);
}

fn make_cmp_key(point: &Point) -> (Vec<u8>, i64) {
    let mut series_key = point.table.as_bytes().to_vec();
    let tagks_key = make_tags_key(&point.tags);
    series_key.extend(tagks_key);

    (series_key, point.timestamp)
}

fn make_ordered(points: &mut [Point]) {
    points.sort_by(|point1, point2| {
        let mut series_key1 = point1.table.as_bytes().to_vec();
        let mut series_key2 = point2.table.as_bytes().to_vec();
        let tagks_key1 = make_tags_key(&point1.tags);
        let tagks_key2 = make_tags_key(&point2.tags);
        series_key1.extend(tagks_key1);
        series_key2.extend(tagks_key2);
        let cmp_key1 = (series_key1, point1.timestamp);
        let cmp_key2 = (series_key2, point2.timestamp);

        cmp_key1.cmp(&cmp_key2)
    });
}

fn entries(map: &ValueMap) -> Vec<(String, Value)> {
    map.entries().clone()
}

#[test]
fn value_map_keeps_names_in_order() {
    let mut map = ValueMap::new();
    assert!(map.is_empty());
    map.insert("b".to_string(), Value::Int8(1));
    map.insert("a".to_string(), Value::Int8(2));
    map.insert("c".to_string(), Value::Int8(3));
    map.insert("ab".to_string(), Value::Int8(4));
    map.insert("é".to_string(), Value::Int8(5));
    map.insert("Z".to_string(), Value::Int8(6));
    map.insert("".to_string(), Value::Int8(7));
    let names: Vec<String> = entries(&map).into_iter().map(|e| e.0).collect();
    assert_eq!(names, vec!["", "Z", "a", "ab", "b", "c", "é"]);
    let as_std: BTreeMap<String, Value> = entries(&map).into_iter().collect();
    assert_eq!(as_std.into_iter().collect::<Vec<_>>(), entries(&map));
    assert_eq!(map.len(), 7);
}

#[test]
fn value_map_has_one_value_for_a_name() {
    let mut map = ValueMap::new();
    map.insert("a".to_string(), Value::Int8(1));
    map.insert("b".to_string(), Value::Int8(2));
    map.insert("a".to_string(), Value::Int8(3));
    assert_eq!(
        entries(&map),
        vec![("a".to_string(), Value::Int8(3)), ("b".to_string(), Value::Int8(2))]
    );
    let mut other = ValueMap::new();
    other.insert("b".to_string(), Value::Int8(2));
    other.insert("a".to_string(), Value::Int8(3));
    assert_eq!(map, other);
    assert_eq!(map.clone(), map);
}

fn point(table: &str, ts: i64, tag: &str, field: i32) -> Point {
    PointBuilder::new(table.to_string())
        .timestamp(ts)
        .tag("host".to_string(), Value::String(tag.to_string()))
        .field("v".to_string(), Value::Int32(field))
        .build()
        .unwrap()
}

#[test]
fn point_needs_timestamp_and_fields() {
    let built = PointBuilder::new("t".to_string())
        .table("u".to_string())
        .timestamp(5)
        .tag("b".to_string(), Value::Int8(1))
        .tag("a".to_string(), Value::Int8(2))
        .field("f".to_string(), Value::Null)
        .build()
        .unwrap();
    assert_eq!(built.table, "u");
    assert_eq!(built.timestamp, 5);
    assert_eq!(
        entries(&built.tags),
        vec![("a".to_string(), Value::Int8(2)), ("b".to_string(), Value::Int8(1))]
    );
    assert_eq!(entries(&built.fields), vec![("f".to_string(), Value::Null)]);

    let no_timestamp =
        PointBuilder::new("t".to_string()).field("f".to_string(), Value::Null).build();
    assert_eq!(no_timestamp.unwrap_err(), "Timestamp must be set");
    let no_fields = PointBuilder::new("t".to_string()).timestamp(1).build();
    assert_eq!(no_fields.unwrap_err(), "Fields should not be empty");
    let nothing = PointBuilder::new("t".to_string()).build();
    assert_eq!(nothing.unwrap_err(), "Fields should not be empty");
    let reserved_tag = PointBuilder::new("t".to_string())
        .timestamp(1)
        .tag("TSID".to_string(), Value::Null)
        .field("f".to_string(), Value::Null)
        .build();
    assert_eq!(reserved_tag.unwrap_err(), "Tag or field name reserved column name in horaedb");
    let reserved_field =
        PointBuilder::new("t".to_string()).field("Timestamp".to_string(), Value::Null).build();
    assert_eq!(reserved_field.unwrap_err(), "Tag or field name reserved column name in horaedb");
}

#[test]
fn request_groups_points_by_table() {
    let mut req = Request::default();
    req.add_point(point("a", 1, "h1", 1));
    req.add_points(vec![point("b", 2, "h1", 2), point("a", 3, "h2", 3)]);
    assert_eq!(req.tables(), vec!["a".to_string(), "b".to_string()]);
    let groups = req.point_groups();
    assert_eq!(groups.len(), 2);
    assert_eq!(groups[0].1, vec![point("a", 1, "h1", 1), point("a", 3, "h2", 3)]);
    assert_eq!(groups[1].1, vec![point("b", 2, "h1", 2)]);
}

#[test]
fn request_hands_out_the_points_of_tables() {
    let mut req = Request::default();
    req.add_points(vec![
        point("A", 1, "h", 1),
        point("B", 2, "h", 2),
        point("C", 3, "h", 3),
        point("A", 4, "h", 4),
    ]);
    let copy = req.clone();
    let taken = req.take(&vec!["C".to_string(), "X".to_string(), "A".to_string(), "C".to_string()]);
    assert_eq!(taken.tables(), vec!["C".to_string(), "A".to_string()]);
    assert_eq!(taken.point_groups()[1].1, vec![point("A", 1, "h", 1), point("A", 4, "h", 4)]);
    assert_eq!(req.tables(), vec!["B".to_string()]);
    assert_eq!(copy.tables(), vec!["A".to_string(), "B".to_string(), "C".to_string()]);
    let nothing = req.take(&Vec::new());
    assert!(nothing.tables().is_empty());
    assert_eq!(req.tables(), vec!["B".to_string()]);
}

#[test]
fn tags_key_joins_names_and_values() {
    let mut tags = ValueMap::new();
    tags.insert("b".to_string(), Value::UInt16(0x0102));
    tags.insert("a".to_string(), Value::String("x".to_string()));
    assert_eq!(make_tags_key(&tags), vec![b'a', b'x', b'b', 2, 1]);
    assert!(make_tags_key(&ValueMap::new()).is_empty());
}

#[test]
fn name_dict_gives_each_name_one_place() {
    let mut dict = NameDict::new();
    assert_eq!(dict.insert("x".to_string()), 0);
    assert_eq!(dict.insert("y".to_string()), 1);
    assert_eq!(dict.insert("x".to_string()), 0);
    assert_eq!(dict.insert("z".to_string()), 2);
    assert_eq!(dict.insert("y".to_string()), 1);
    assert_eq!(dict.convert_ordered(), vec!["x".to_string(), "y".to_string(), "z".to_string()]);
}

#[test]
fn later_point_of_a_time_replaces_the_earlier() {
    let points = vec![
        point("t", 2, "h1", 1),
        point("t", 1, "h2", 2),
        point("t", 1, "h1", 3),
        point("t", 2, "h1", 4),
    ];
    let request = TableRequestPbBuilder::new("t".to_string(), points).build();
    assert_eq!(request.table, "t");
    assert_eq!(request.tag_names, vec!["host".to_string()]);
    assert_eq!(request.field_names, vec!["v".to_string()]);
    assert_eq!(request.entries.len(), 2);
    let first = &request.entries[0];
    assert_eq!(first.tags.len(), 1);
    assert_eq!(first.tags[0].name_index, 0);
    assert_eq!(first.tags[0].value, Value::String("h1".to_string()));
    let times: Vec<(i64, &Value)> =
        first.field_groups.iter().map(|g| (g.timestamp, &g.fields[0].value)).collect();
    assert_eq!(times, vec![(1, &Value::Int32(3)), (2, &Value::Int32(4))]);
    let second = &request.entries[1];
    assert_eq!(second.tags[0].value, Value::String("h2".to_string()));
    assert_eq!(second.field_groups.len(), 1);
}

#[test]
fn names_are_numbered_in_order_of_first_use() {
    let one = PointBuilder::new("t".to_string())
        .timestamp(1)
        .tag("zone".to_string(), Value::Int8(1))
        .field("v2".to_string(), Value::Int8(1))
        .field("v1".to_string(), Value::Int8(2))
        .build()
        .unwrap();
    let two = PointBuilder::new("t".to_string())
        .timestamp(1)
        .tag("host".to_string(), Value::Int8(1))
        .tag("zone".to_string(), Value::Int8(2))
        .field("v0".to_string(), Value::Int8(3))
        .field("v2".to_string(), Value::Int8(4))
        .build()
        .unwrap();
    let request = TableRequestPbBuilder::new("t".to_string(), vec![one, two]).build();
    assert_eq!(request.tag_names, vec!["zone".to_string(), "host".to_string()]);
    assert_eq!(
        request.field_names,
        vec!["v1".to_string(), "v2".to_string(), "v0".to_string()]
    );
    let second_tags: Vec<u32> = request.entries[1].tags.iter().map(|t| t.name_index).collect();
    assert_eq!(second_tags, vec![1, 0]);
    let second_fields: Vec<u32> =
        request.entries[1].field_groups[0].fields.iter().map(|f| f.name_index).collect();
    assert_eq!(second_fields, vec![2, 1]);
}

#[test]
fn request_without_points_builds_nothing() {
    assert!(WriteTableRequestPbsBuilder(Request::default()).build().is_empty());
    let empty = TableRequestPbBuilder::new("t".to_string(), Vec::new()).build();
    assert!(empty.entries.is_empty() && empty.tag_names.is_empty());
}
