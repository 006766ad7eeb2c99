//! The export pipeline end to end: mapping, aggregation, trimming,
//! encoding.

use glowmarkt::aggregate::{aggregate, trim_trailing_zeros};
use glowmarkt::api::{
    readings_from_response, sensor_resource, DeviceProtocol, DeviceSensor, ReadingsResponse,
    Resource,
};
use glowmarkt::api::Device;
use glowmarkt::encode::encode_lines;
use glowmarkt::measurement::{
    field_for_classifier, measurements_for_readings, tags_for_device, tags_for_resource,
    Measurement, Tag,
};
use glowmarkt::numfmt::FieldValue;
use glowmarkt::period::ReadingPeriod;
use glowmarkt::strmap::StringMap;

fn value(negative: bool, units: u64, thousandths: u16) -> FieldValue {
    FieldValue::new(negative, units, thousandths)
}

fn test_device(id: &str, resource_id: &str) -> Device {
    Device {
        id: id.to_string(),
        description: None,
        active: true,
        hardware_id: "hw-1".to_string(),
        device_type_id: "type-1".to_string(),
        owner_id: "owner-1".to_string(),
        hardware_id_names: vec![],
        hardware_ids: StringMap::new(),
        parent_hardware_id: vec![],
        tags: vec![],
        protocol: DeviceProtocol {
            protocol: "smart".to_string(),
            sensors: vec![DeviceSensor {
                protocol_id: "p-1".to_string(),
                resource_id: resource_id.to_string(),
                resource_type_id: "rt-1".to_string(),
            }],
        },
        updated_at: 0,
        created_at: 0,
    }
}

fn test_resource(id: &str, classifier: Option<&str>) -> Resource {
    Resource {
        id: id.to_string(),
        name: "resource".to_string(),
        description: None,
        label: None,
        active: true,
        type_id: "rt-1".to_string(),
        owner_id: "owner-1".to_string(),
        classifier: classifier.map(|c| c.to_string()),
        base_unit: Some("kWh".to_string()),
        data_source_type: "live".to_string(),
        data_source_resource_type_info: None,
        data_source_unit_info: String::new(),
        updated_at: 0,
        created_at: 0,
    }
}

fn measurement(ts: i64, v: FieldValue) -> Measurement {
    let mut m = Measurement::new(
        "glowmarkt".to_string(),
        ts,
        vec![Tag { key: "device".to_string(), value: "d1".to_string() }],
    );
    m.add_field("consumption".to_string(), v);
    m
}

#[test]
fn reading_end_is_start_plus_period_length() {
    let data = vec![(1000i64, value(false, 1, 0))];
    let cases = [
        (ReadingPeriod::HalfHour, 1800i64),
        (ReadingPeriod::Hour, 3600),
        (ReadingPeriod::Day, 86400),
        (ReadingPeriod::Week, 604800),
    ];
    for (period, length) in cases {
        let readings = readings_from_response(ReadingsResponse { data: data.clone() }, period);
        assert_eq!(readings.len(), 1);
        assert_eq!(readings[0].start, 1000);
        assert_eq!(readings[0].end, 1000 + length);
    }
}

#[test]
fn field_key_follows_classifier_table() {
    assert_eq!(
        field_for_classifier(&Some("electricity.consumption".to_string())),
        "consumption"
    );
    assert_eq!(field_for_classifier(&Some("gas.consumption".to_string())), "consumption");
    assert_eq!(field_for_classifier(&Some("electricity.cost".to_string())), "cost");
    assert_eq!(field_for_classifier(&Some("gas.cost".to_string())), "cost");
    assert_eq!(field_for_classifier(&Some("water.volume".to_string())), "value");
    assert_eq!(field_for_classifier(&None), "value");
}

#[test]
fn aggregation_groups_equal_timestamps() {
    let measurements = vec![
        measurement(2000, value(false, 1, 0)),
        measurement(1000, value(false, 2, 0)),
        measurement(2000, value(false, 3, 0)),
    ];
    let agg = aggregate(measurements);
    assert_eq!(agg.buckets.len(), 2);
    // strictly ascending timestamps
    assert_eq!(agg.buckets[0].timestamp, 1000);
    assert_eq!(agg.buckets[1].timestamp, 2000);
    // equal timestamps share one bucket, in arrival order
    assert_eq!(agg.buckets[1].measurements.len(), 2);
    assert_eq!(agg.buckets[1].measurements[0].field_value, value(false, 1, 0));
    assert_eq!(agg.buckets[1].measurements[1].field_value, value(false, 3, 0));
    assert_eq!(agg.buckets[0].measurements.len(), 1);
}

#[test]
fn trimming_removes_exactly_the_trailing_zero_run() {
    // values [5, 0, 0] in ascending time order: both zeros go
    let measurements = vec![
        measurement(1, value(false, 5, 0)),
        measurement(2, value(false, 0, 0)),
        measurement(3, value(false, 0, 0)),
    ];
    let trimmed = trim_trailing_zeros(aggregate(measurements));
    assert_eq!(trimmed.buckets.len(), 1);
    assert_eq!(trimmed.buckets[0].timestamp, 1);
}

#[test]
fn trimming_never_touches_interior_zeros() {
    // values [0, 5, 0]: only the final zero goes
    let measurements = vec![
        measurement(1, value(false, 0, 0)),
        measurement(2, value(false, 5, 0)),
        measurement(3, value(false, 0, 0)),
    ];
    let trimmed = trim_trailing_zeros(aggregate(measurements));
    assert_eq!(trimmed.buckets.len(), 2);
    assert_eq!(trimmed.buckets[0].timestamp, 1);
    assert_eq!(trimmed.buckets[1].timestamp, 2);
}

#[test]
fn trimming_requires_every_value_zero_in_the_bucket() {
    let mut zero = measurement(5, value(false, 0, 0));
    zero.add_field("cost".to_string(), value(false, 0, 0));
    let nonzero = measurement(5, value(true, 0, 250));
    let trimmed = trim_trailing_zeros(aggregate(vec![zero, nonzero]));
    assert_eq!(trimmed.buckets.len(), 1);
}

#[test]
fn trimming_can_empty_the_aggregation() {
    let measurements = vec![measurement(1, value(false, 0, 0))];
    let trimmed = trim_trailing_zeros(aggregate(measurements));
    assert_eq!(trimmed.buckets.len(), 0);
}

#[test]
fn end_to_end_with_trimming_keeps_only_the_nonzero_interval() {
    let device = test_device("d1", "R1");
    let mut resources = StringMap::new();
    resources.insert("R1".to_string(), test_resource("R1", Some("electricity.consumption")));

    let t0 = 1000i64;
    let t1 = 2800i64;
    let response = ReadingsResponse {
        data: vec![(t0, value(false, 3, 500)), (t1, value(false, 0, 0))],
    };

    let device_tags = tags_for_device(&device);
    let mut all = Vec::new();
    for sensor in &device.protocol.sensors {
        if let Some(resource) = sensor_resource(&resources, sensor) {
            let tags = tags_for_resource(&device_tags, resource);
            let readings = readings_from_response(
                ReadingsResponse { data: response.data.clone() },
                ReadingPeriod::HalfHour,
            );
            let mut ms = measurements_for_readings(&tags, resource, &readings);
            all.append(&mut ms);
        }
    }

    let aggregated = aggregate(all.clone());
    let trimmed = trim_trailing_zeros(aggregated);
    let lines = encode_lines(&trimmed);
    assert_eq!(lines.len(), 1);
    assert_eq!(
        lines[0],
        "glowmarkt,classifier=electricity.consumption,device=d1,resource=R1 consumption=3.5 1000"
    );

    // with trimming disabled both intervals survive
    let untrimmed_lines = encode_lines(&aggregate(all));
    assert_eq!(untrimmed_lines.len(), 2);
    assert!(untrimmed_lines[1].contains("consumption=0 2800"));
}

#[test]
fn unresolved_sensors_are_skipped() {
    let resources: StringMap<Resource> = StringMap::new();
    let device = test_device("d1", "R1");
    assert!(sensor_resource(&resources, &device.protocol.sensors[0]).is_none());
}

#[test]
fn resource_tags_extend_a_copy_of_the_device_tags() {
    let device = test_device("d1", "R1");
    let device_tags = tags_for_device(&device);
    let with_classifier = tags_for_resource(
        &device_tags,
        &test_resource("R1", Some("electricity.consumption")),
    );
    let without_classifier = tags_for_resource(&device_tags, &test_resource("R2", None));
    // the device tag list itself is untouched
    assert_eq!(device_tags.len(), 1);
    assert_eq!(with_classifier.len(), 3);
    assert_eq!(without_classifier.len(), 2);
    assert_eq!(with_classifier[1].key, "resource");
    assert_eq!(with_classifier[1].value, "R1");
    assert_eq!(with_classifier[2].key, "classifier");
    assert_eq!(without_classifier[1].value, "R2");
}
