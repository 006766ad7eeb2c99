//! The entity graph and the remote source's answer shapes, as plain
//! values.
//!
//! Timestamps are Unix seconds; dynamically shaped metadata that the
//! pipeline never reads is carried through as raw text.

use vstd::prelude::*;

use crate::error::{Error, ErrorKind};
use crate::numfmt::FieldValue;
use crate::period::{spec_period_length, ReadingPeriod};
use crate::strmap::StringMap;

verus! {

/// The credentials sent when exchanging a username and password for
/// a token.
#[derive(Clone, Debug)]
pub struct AuthRequest {
    pub username: String,
    pub password: String,
}

/// The message of a failed remote call.
#[derive(Clone, Debug)]
pub struct ErrorResponse {
    pub message: String,
}

/// The answer to an authentication that the remote source rejected.
#[derive(Clone, Debug)]
pub struct InvalidAuthResponse {
    pub error: ErrorResponse,
}

/// The answer to an authentication the remote source accepted:
/// whether the token is valid, the token itself, and its expiry as
/// Unix seconds.
#[derive(Clone, Debug)]
pub struct ValidAuthResponse {
    pub valid: bool,
    pub token: String,
    pub expiry: i64,
}

/// The two shapes an authentication answer can take.
#[derive(Clone, Debug)]
pub enum AuthResponse {
    Invalid(InvalidAuthResponse),
    Valid(ValidAuthResponse),
}

impl AuthResponse {
    /// Turns an authentication answer into the validated response or
    /// an authentication error: accepted answers whose `valid` flag
    /// is set pass through, everything else fails with
    /// `NotAuthenticated` and the reported (or a fixed) message.
    pub fn validate(self) -> (r: Result<ValidAuthResponse, Error>)
        ensures
            match self {
                AuthResponse::Valid(response) => if response.valid {
                    r == Ok::<ValidAuthResponse, Error>(response)
                } else {
                    r matches Err(e) && e.kind == ErrorKind::NotAuthenticated && e.message@
                        == "Authentication error"@
                },
                AuthResponse::Invalid(response) => r matches Err(e) && e.kind
                    == ErrorKind::NotAuthenticated && e.message@ == response.error.message@,
            },
    {
        match self {
            AuthResponse::Valid(response) => {
                if response.valid {
                    Ok(response)
                } else {
                    Err(
                        Error {
                            kind: ErrorKind::NotAuthenticated,
                            message: String::from_str("Authentication error"),
                        },
                    )
                }
            },
            AuthResponse::Invalid(response) => Err(
                Error { kind: ErrorKind::NotAuthenticated, message: response.error.message },
            ),
        }
    }
}

/// The answer to a token check the remote source rejected.
#[derive(Clone, Debug)]
pub struct InvalidValidateResponse {
    pub error: ErrorResponse,
}

/// The answer to a token check the remote source accepted.
#[derive(Clone, Debug)]
pub struct ValidValidateResponse {
    pub valid: bool,
    pub expiry: i64,
}

/// The two shapes a token-check answer can take.
#[derive(Clone, Debug)]
pub enum ValidateResponse {
    Invalid(InvalidValidateResponse),
    Valid(ValidValidateResponse),
}

impl ValidateResponse {
    /// Turns a token-check answer into the validated response or an
    /// authentication error, exactly as `AuthResponse::validate`
    /// does.
    pub fn validate(self) -> (r: Result<ValidValidateResponse, Error>)
        ensures
            match self {
                ValidateResponse::Valid(response) => if response.valid {
                    r == Ok::<ValidValidateResponse, Error>(response)
                } else {
                    r matches Err(e) && e.kind == ErrorKind::NotAuthenticated && e.message@
                        == "Authentication error"@
                },
                ValidateResponse::Invalid(response) => r matches Err(e) && e.kind
                    == ErrorKind::NotAuthenticated && e.message@ == response.error.message@,
            },
    {
        match self {
            ValidateResponse::Valid(response) => {
                if response.valid {
                    Ok(response)
                } else {
                    Err(
                        Error {
                            kind: ErrorKind::NotAuthenticated,
                            message: String::from_str("Authentication error"),
                        },
                    )
                }
            },
            ValidateResponse::Invalid(response) => Err(
                Error { kind: ErrorKind::NotAuthenticated, message: response.error.message },
            ),
        }
    }
}

/// A resource reference held by a virtual entity.
#[derive(Clone, Debug)]
pub struct ResourceInfo {
    pub resource_id: String,
    pub resource_type_id: String,
}

/// A virtual entity: a named grouping of resources.
#[derive(Clone, Debug)]
pub struct VirtualEntity {
    pub id: String,
    pub name: String,
    pub active: bool,
    pub type_id: String,
    pub owner_id: String,
    pub resources: Vec<ResourceInfo>,
}

/// A sensor as a device type describes it.
#[derive(Clone, Debug)]
pub struct Sensor {
    pub protocol_id: String,
    pub resource_type_id: String,
}

/// The protocol of a device type, with its sensors.
#[derive(Clone, Debug)]
pub struct Protocol {
    pub protocol: String,
    pub sensors: Vec<Sensor>,
}

/// A sensor of a concrete device, referencing one resource.
#[derive(Clone, Debug)]
pub struct DeviceSensor {
    pub protocol_id: String,
    pub resource_id: String,
    pub resource_type_id: String,
}

/// The protocol of a concrete device, with its sensors in order.
#[derive(Clone, Debug)]
pub struct DeviceProtocol {
    pub protocol: String,
    pub sensors: Vec<DeviceSensor>,
}

/// A metering device: identifiers, hardware identifiers, tags, and
/// its ordered sensors.  Timestamps are Unix seconds.
#[derive(Clone, Debug)]
pub struct Device {
    pub id: String,
    pub description: Option<String>,
    pub active: bool,
    pub hardware_id: String,
    pub device_type_id: String,
    pub owner_id: String,
    pub hardware_id_names: Vec<String>,
    pub hardware_ids: StringMap<String>,
    pub parent_hardware_id: Vec<String>,
    pub tags: Vec<String>,
    pub protocol: DeviceProtocol,
    pub updated_at: i64,
    pub created_at: i64,
}

/// The shape a resource type's data-source description can take:
/// upstream sends either a bare type string or a structured object,
/// decoded at the boundary into this one record.
#[derive(Clone, Debug)]
pub struct DataSourceResourceTypeInfo {
    pub data_type: Option<String>,
    pub unit: Option<String>,
    pub range: Option<String>,
    pub is_cost: Option<bool>,
    pub method: Option<String>,
}

impl From<String> for DataSourceResourceTypeInfo {
    /// A bare type string stands for a record holding only the type.
    fn from(val: String) -> (r: DataSourceResourceTypeInfo) {
        DataSourceResourceTypeInfo {
            data_type: Some(val),
            unit: None,
            range: None,
            is_cost: None,
            method: None,
        }
    }
}

impl vstd::std_specs::convert::FromSpecImpl<String> for DataSourceResourceTypeInfo {
    open spec fn obeys_from_spec() -> bool {
        true
    }

    open spec fn from_spec(val: String) -> DataSourceResourceTypeInfo {
        DataSourceResourceTypeInfo {
            data_type: Some(val),
            unit: None,
            range: None,
            is_cost: None,
            method: None,
        }
    }
}

/// One field a resource type's storage records.
#[derive(Clone, Debug)]
pub struct Field {
    pub field_name: String,
    pub datatype: String,
    pub negative: bool,
}

/// A metered resource: what one sensor reports.  The classifier
/// names the physical quantity measured; metadata the pipeline never
/// reads is carried as raw text.
#[derive(Clone, Debug)]
pub struct Resource {
    pub id: String,
    pub name: String,
    pub description: Option<String>,
    pub label: Option<String>,
    pub active: bool,
    pub type_id: String,
    pub owner_id: String,
    pub classifier: Option<String>,
    pub base_unit: Option<String>,
    pub data_source_type: String,
    pub data_source_resource_type_info: Option<DataSourceResourceTypeInfo>,
    pub data_source_unit_info: String,
    pub updated_at: i64,
    pub created_at: i64,
}

/// One interval reading: the interval's bounds as Unix seconds and
/// the value reported for it.
#[derive(Clone, Copy, Debug)]
pub struct Reading {
    pub start: i64,
    pub end: i64,
    pub value: FieldValue,
}

/// The raw answer to a readings request: one (interval start, value)
/// pair per interval.
#[derive(Clone, Debug)]
pub struct ReadingsResponse {
    pub data: Vec<(i64, FieldValue)>,
}

/// Joins the two resolved collections: both must have loaded, and
/// a failure of either is the failure of the whole resolution, with
/// no partial result.
pub fn resolve_entities(
    devices: Result<StringMap<Device>, Error>,
    resources: Result<StringMap<Resource>, Error>,
) -> (r: Result<(StringMap<Device>, StringMap<Resource>), Error>)
    ensures
        match (devices, resources) {
            (Ok(d), Ok(s)) => r == Ok::<(StringMap<Device>, StringMap<Resource>), Error>((d, s)),
            (Err(e), _) => r == Err::<(StringMap<Device>, StringMap<Resource>), Error>(e),
            (_, Err(e)) => r == Err::<(StringMap<Device>, StringMap<Resource>), Error>(e),
        },
{
    match devices {
        Ok(d) => match resources {
            Ok(s) => Ok((d, s)),
            Err(e) => Err(e),
        },
        Err(e) => Err(e),
    }
}

/// The resource a device sensor reports to, if it is among the
/// resolved resources.
pub fn sensor_resource<'a>(resources: &'a StringMap<Resource>, sensor: &DeviceSensor) -> (r:
    Option<&'a Resource>)
    ensures
        match r {
            Some(resource) => resources.spec_get(sensor.resource_id@) == Some(*resource),
            None => resources.spec_get(sensor.resource_id@).is_none(),
        },
{
    resources.get(sensor.resource_id.as_str())
}

/// Turns the raw reading pairs of an answer into readings of the
/// requested period: each reading starts at the reported timestamp
/// and ends one period length after it.
pub fn readings_from_response(response: ReadingsResponse, period: ReadingPeriod) -> (r: Vec<
    Reading,
>)
    requires
        forall|i: int|
            0 <= i < response.data@.len() ==> response.data@[i].0 + spec_period_length(period)
                <= i64::MAX,
    ensures
        r@.len() == response.data@.len(),
        forall|i: int|
            0 <= i < r@.len() ==> {
                &&& r@[i].start == response.data@[i].0
                &&& r@[i].end == response.data@[i].0 + spec_period_length(period)
                &&& r@[i].value == response.data@[i].1
            },
{
    let length = period.length_secs();
    let mut out: Vec<Reading> = Vec::new();
    let n = response.data.len();
    let mut i: usize = 0;
    while i < n
        invariant
            i <= n,
            n == response.data@.len(),
            length == spec_period_length(period),
            forall|j: int|
                0 <= j < n ==> response.data@[j].0 + spec_period_length(period) <= i64::MAX,
            out@.len() == i,
            forall|j: int|
                0 <= j < i ==> {
                    &&& out@[j].start == response.data@[j].0
                    &&& out@[j].end == response.data@[j].0 + spec_period_length(period)
                    &&& out@[j].value == response.data@[j].1
                },
        decreases n - i,
    {
        let (start, value) = response.data[i];
        out.push(Reading { start, end: start + length, value });
        i += 1;
    }
    out
}

} // verus!
