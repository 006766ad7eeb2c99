//! Measurement records and how they derive from the entity graph.
//!
//! A measurement is one point of the exported series: a series name,
//! a timestamp, descriptive tags, and exactly one field whose key is
//! driven by the resource's classifier.

use vstd::prelude::*;

use crate::api::{Device, Reading, Resource};
use crate::numfmt::FieldValue;
use crate::strutil::opt_str_eq;

verus! {

/// One tag: a key/value pair of descriptive metadata.
#[derive(Clone, Debug)]
pub struct Tag {
    pub key: String,
    pub value: String,
}

/// A measurement record with exactly one field.
#[derive(Clone, Debug)]
pub struct Measurement {
    pub series: String,
    pub timestamp: i64,
    pub tags: Vec<Tag>,
    pub field_key: String,
    pub field_value: FieldValue,
}

impl Measurement {
    /// A new measurement with the default field: key `value`, value
    /// zero.
    pub fn new(series: String, timestamp: i64, tags: Vec<Tag>) -> (r: Measurement)
        ensures
            r.series@ == series@,
            r.timestamp == timestamp,
            r.tags@ == tags@,
            r.field_key@ == "value"@,
            r.field_value == (FieldValue { negative: false, units: 0, thousandths: 0 }),
    {
        Measurement {
            series,
            timestamp,
            tags,
            field_key: String::from_str("value"),
            field_value: FieldValue { negative: false, units: 0, thousandths: 0 },
        }
    }

    /// Replaces the measurement's single field.
    pub fn add_field(&mut self, key: String, value: FieldValue)
        ensures
            final(self).series == old(self).series,
            final(self).timestamp == old(self).timestamp,
            final(self).tags == old(self).tags,
            final(self).field_key@ == key@,
            final(self).field_value == value,
    {
        self.field_key = key;
        self.field_value = value;
    }
}

/// The field key a classifier maps to: consumption and cost
/// classifiers of either meter kind map to their fixed field names,
/// any other (or absent) classifier falls back to `value`.
pub open spec fn spec_field_for_classifier(classifier: Option<String>) -> Seq<char> {
    match classifier {
        Some(c) => if c@ == "electricity.consumption"@ {
            "consumption"@
        } else if c@ == "gas.consumption"@ {
            "consumption"@
        } else if c@ == "electricity.cost"@ {
            "cost"@
        } else if c@ == "gas.cost"@ {
            "cost"@
        } else {
            "value"@
        },
        None => "value"@,
    }
}

/// The field key for a resource's classifier.
pub fn field_for_classifier(classifier: &Option<String>) -> (r: String)
    ensures
        r@ == spec_field_for_classifier(*classifier),
{
    if opt_str_eq(classifier, "electricity.consumption") || opt_str_eq(
        classifier,
        "gas.consumption",
    ) {
        String::from_str("consumption")
    } else if opt_str_eq(classifier, "electricity.cost") || opt_str_eq(classifier, "gas.cost") {
        String::from_str("cost")
    } else {
        String::from_str("value")
    }
}

/// Copies a tag list.
pub fn clone_tags(tags: &Vec<Tag>) -> (r: Vec<Tag>)
    ensures
        r@ == tags@,
{
    let mut out: Vec<Tag> = Vec::new();
    let n = tags.len();
    let mut i: usize = 0;
    while i < n
        invariant
            i <= n,
            n == tags@.len(),
            out@ =~= tags@.take(i as int),
        decreases n - i,
    {
        out.push(Tag { key: tags[i].key.clone(), value: tags[i].value.clone() });
        i += 1;
    }
    proof {
        assert(tags@.take(n as int) =~= tags@);
    }
    out
}

/// The device-level tags of a device: its identifier under the key
/// `device`, followed by each hardware identifier under its own
/// name, in entry order.
pub fn tags_for_device(device: &Device) -> (r: Vec<Tag>)
    ensures
        r@.len() == 1 + device.hardware_ids.entries@.len(),
        r@[0].key@ == "device"@,
        r@[0].value@ == device.id@,
        forall|i: int|
            0 <= i < device.hardware_ids.entries@.len() ==> {
                &&& r@[i + 1].key@ == device.hardware_ids.entries@[i].0@
                &&& r@[i + 1].value@ == device.hardware_ids.entries@[i].1@
            },
{
    let mut out: Vec<Tag> = Vec::new();
    out.push(Tag { key: String::from_str("device"), value: device.id.clone() });
    let n = device.hardware_ids.entries.len();
    let mut i: usize = 0;
    while i < n
        invariant
            i <= n,
            n == device.hardware_ids.entries@.len(),
            out@.len() == 1 + i,
            out@[0].key@ == "device"@,
            out@[0].value@ == device.id@,
            forall|j: int|
                0 <= j < i ==> {
                    &&& out@[j + 1].key@ == device.hardware_ids.entries@[j].0@
                    &&& out@[j + 1].value@ == device.hardware_ids.entries@[j].1@
                },
        decreases n - i,
    {
        let entry = &device.hardware_ids.entries[i];
        out.push(Tag { key: entry.0.clone(), value: entry.1.clone() });
        i += 1;
    }
    out
}

/// The resource-level tags: a copy of the device tags extended with
/// the resource identifier under `resource` and, when the resource
/// has a classifier, the classifier under `classifier`.  The device
/// tag list itself is left untouched, so resources under one device
/// never see each other's tags.
pub fn tags_for_resource(tags: &Vec<Tag>, resource: &Resource) -> (r: Vec<Tag>)
    ensures
        r@.len() == tags@.len() + 1 + (if resource.classifier is Some {
            1int
        } else {
            0int
        }),
        r@.take(tags@.len() as int) == tags@,
        r@[tags@.len() as int].key@ == "resource"@,
        r@[tags@.len() as int].value@ == resource.id@,
        resource.classifier matches Some(c) ==> {
            &&& r@.last().key@ == "classifier"@
            &&& r@.last().value@ == c@
        },
{
    let mut out = clone_tags(tags);
    out.push(Tag { key: String::from_str("resource"), value: resource.id.clone() });
    match &resource.classifier {
        Some(c) => {
            out.push(Tag { key: String::from_str("classifier"), value: c.clone() });
        },
        None => {},
    }
    proof {
        assert(out@.take(tags@.len() as int) =~= tags@);
    }
    out
}

/// The measurements of one resource's readings: for each reading a
/// record in the fixed series `glowmarkt`, stamped with the
/// reading's interval start, carrying the given tags, and holding
/// one field named for the resource's classifier with the reading's
/// value.
pub fn measurements_for_readings(tags: &Vec<Tag>, resource: &Resource, readings: &Vec<Reading>) -> (
    r: Vec<Measurement>)
    ensures
        r@.len() == readings@.len(),
        forall|i: int|
            0 <= i < r@.len() ==> {
                &&& r@[i].series@ == "glowmarkt"@
                &&& r@[i].timestamp == readings@[i].start
                &&& r@[i].tags@ == tags@
                &&& r@[i].field_key@ == spec_field_for_classifier(resource.classifier)
                &&& r@[i].field_value == readings@[i].value
            },
{
    let mut out: Vec<Measurement> = Vec::new();
    let n = readings.len();
    let mut i: usize = 0;
    while i < n
        invariant
            i <= n,
            n == readings@.len(),
            out@.len() == i,
            forall|j: int|
                0 <= j < i ==> {
                    &&& out@[j].series@ == "glowmarkt"@
                    &&& out@[j].timestamp == readings@[j].start
                    &&& out@[j].tags@ == tags@
                    &&& out@[j].field_key@ == spec_field_for_classifier(resource.classifier)
                    &&& out@[j].field_value == readings@[j].value
                },
        decreases n - i,
    {
        let mut measurement = Measurement::new(
            String::from_str("glowmarkt"),
            readings[i].start,
            clone_tags(tags),
        );
        measurement.add_field(field_for_classifier(&resource.classifier), readings[i].value);
        out.push(measurement);
        i += 1;
    }
    out
}

} // verus!
