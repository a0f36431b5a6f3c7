//! The schema: devices, their measurements, and the builders that assemble
//! them.
//!
//! A schema maps each device path to its measurement group, and a
//! measurement group maps each measurement id to its column description.
//! Both mappings keep insertion order, so the emitted file is byte-for-byte
//! reproducible. Ids are carried as their UTF-8 bytes.

use vstd::prelude::*;
use vstd::string::StringSliceAdditionalSpecFns;

use crate::compression::CompressionType;
use crate::encoding::TSEncoding;
use crate::types::TSDataType;

verus! {

/// A fully qualified series path, `device.measurement`.
pub struct Path {
    /// The path's UTF-8 bytes.
    pub path: Vec<u8>,
}

/// One column's description: data type, value encoding, compression.
#[derive(Copy, Clone, Eq, PartialEq, Structural, Debug)]
pub struct MeasurementSchema {
    /// The column's data type.
    pub data_type: TSDataType,
    /// The declared value encoding.
    pub encoding: TSEncoding,
    /// The declared compression kind.
    pub compression: CompressionType,
}

impl MeasurementSchema {
    /// Describes one column.
    pub fn new(
        data_type: TSDataType,
        encoding: TSEncoding,
        compression: CompressionType,
    ) -> (r: MeasurementSchema)
        ensures
            r == (MeasurementSchema { data_type, encoding, compression }),
    {
        MeasurementSchema { data_type, encoding, compression }
    }
}

/// The measurements of one device, in insertion order.
#[derive(Clone)]
pub struct MeasurementGroup {
    /// Pairs of measurement id (UTF-8 bytes) and column description.
    pub measurement_schemas: Vec<(Vec<u8>, MeasurementSchema)>,
}

/// The whole schema: devices in insertion order.
#[derive(Clone)]
pub struct Schema {
    /// Pairs of device path (UTF-8 bytes) and measurement group.
    pub measurement_groups: Vec<(Vec<u8>, MeasurementGroup)>,
}

/// Builds one device's measurement group.
pub struct DeviceBuilder {
    /// The group under construction.
    pub group: MeasurementGroup,
}

impl DeviceBuilder {
    /// An empty group.
    pub fn new() -> (r: DeviceBuilder)
        ensures
            r.group.measurement_schemas@.len() == 0,
    {
        DeviceBuilder { group: MeasurementGroup { measurement_schemas: Vec::new() } }
    }

    /// Adds the measurement `measurement` with the given column description.
    pub fn add(
        self,
        measurement: &str,
        data_type: TSDataType,
        encoding: TSEncoding,
        compression: CompressionType,
    ) -> (r: DeviceBuilder)
        ensures
            r.group.measurement_schemas@.len() == self.group.measurement_schemas@.len()
                + 1,
            forall|i: int|
                0 <= i < self.group.measurement_schemas@.len()
                    ==> #[trigger] r.group.measurement_schemas@[i]
                    == self.group.measurement_schemas@[i],
            r.group.measurement_schemas@.last().0@ == measurement.spec_bytes(),
            r.group.measurement_schemas@.last().1 == (MeasurementSchema {
                data_type,
                encoding,
                compression,
            }),
    {
        let mut b = self;
        let id = vstd::slice::slice_to_vec(measurement.as_bytes());
        b.group.measurement_schemas.push(
            (id, MeasurementSchema { data_type, encoding, compression }),
        );
        b
    }

    /// The finished measurement group.
    pub fn build(self) -> (r: MeasurementGroup)
        ensures
            r == self.group,
    {
        self.group
    }
}

/// Builds a schema device by device.
pub struct TsFileSchemaBuilder {
    /// The schema under construction.
    pub schema: Schema,
}

impl TsFileSchemaBuilder {
    /// An empty schema.
    pub fn new() -> (r: TsFileSchemaBuilder)
        ensures
            r.schema.measurement_groups@.len() == 0,
    {
        TsFileSchemaBuilder { schema: Schema { measurement_groups: Vec::new() } }
    }

    /// Adds the device `device` with its measurement group.
    pub fn add(self, device: &str, group: MeasurementGroup) -> (r: TsFileSchemaBuilder)
        ensures
            r.schema.measurement_groups@.len() == self.schema.measurement_groups@.len()
                + 1,
            forall|i: int|
                0 <= i < self.schema.measurement_groups@.len()
                    ==> #[trigger] r.schema.measurement_groups@[i]
                    == self.schema.measurement_groups@[i],
            r.schema.measurement_groups@.last().0@ == device.spec_bytes(),
            r.schema.measurement_groups@.last().1 == group,
    {
        let mut b = self;
        let id = vstd::slice::slice_to_vec(device.as_bytes());
        b.schema.measurement_groups.push((id, group));
        b
    }

    /// The finished schema.
    pub fn build(self) -> (r: Schema)
        ensures
            r == self.schema,
    {
        self.schema
    }
}

} // verus!
