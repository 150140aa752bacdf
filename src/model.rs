//! Records of the telemetry store and their mathematical models.

use vstd::prelude::*;

verus! {

/// Identity of a sensor: its position in the store's sensor table.
pub type SensorId = usize;

/// Milliseconds since the Unix epoch.
pub type Timestamp = i64;

/// Composite key of a reading: it orders first by sensor, then by time, so
/// that the readings of one sensor form one contiguous, time-ordered run.
#[derive(Debug, Clone, Copy, PartialEq, Eq, Structural)]
pub struct ReadingKey {
    pub sensor: SensorId,
    pub time: Timestamp,
}

/// Strict order of reading keys: by sensor, then by time.
pub open spec fn key_lt(a: ReadingKey, b: ReadingKey) -> bool {
    a.sensor < b.sensor || (a.sensor == b.sensor && a.time < b.time)
}

/// Decides [`key_lt`].
pub fn key_less(a: &ReadingKey, b: &ReadingKey) -> (r: bool)
    ensures
        r == key_lt(*a, *b),
{
    a.sensor < b.sensor || (a.sensor == b.sensor && a.time < b.time)
}

/// A station: a site that groups sensors. Its id is its name.
#[derive(Debug, Clone)]
pub struct Station {
    pub id: String,
    pub name: String,
}

impl Station {
    /// A station named `name`; its id is derived from the name alone.
    pub fn new(name: String) -> (r: Station)
        ensures
            r.id@ == name@,
            r.name@ == name@,
    {
        Station { id: name.clone(), name }
    }

    /// The id of this station.
    pub fn get_id(&self) -> (r: &String)
        ensures
            r@ == self.id@,
    {
        &self.id
    }
}

/// One timestamped value sample of a sensor.
#[derive(Debug, Clone)]
pub struct SensorValue {
    pub sensor: SensorId,
    pub value: String,
    pub server_timestamp: Timestamp,
}

/// Model of a reading: its key and its value.
pub struct ReadingRec {
    pub key: ReadingKey,
    pub value: Seq<char>,
}

impl View for SensorValue {
    type V = ReadingRec;

    open spec fn view(&self) -> ReadingRec {
        ReadingRec {
            key: ReadingKey { sensor: self.sensor, time: self.server_timestamp },
            value: self.value@,
        }
    }
}

/// The models of a sequence of readings.
pub open spec fn readings_view(v: Seq<SensorValue>) -> Seq<ReadingRec> {
    v.map_values(|r: SensorValue| r@)
}

impl SensorValue {
    /// A reading of `sensor` with `value`, written at `server_timestamp`.
    pub fn new(value: String, sensor: SensorId, server_timestamp: Timestamp) -> (r: SensorValue)
        ensures
            r@ == (ReadingRec {
                key: ReadingKey { sensor, time: server_timestamp },
                value: value@,
            }),
    {
        SensorValue { sensor, value, server_timestamp }
    }

    /// The key under which this reading is stored.
    pub fn key(&self) -> (r: ReadingKey)
        ensures
            r == self@.key,
    {
        ReadingKey { sensor: self.sensor, time: self.server_timestamp }
    }

    /// A copy of this reading.
    pub fn duplicate(&self) -> (r: SensorValue)
        ensures
            r@ == self@,
    {
        SensorValue {
            sensor: self.sensor,
            value: self.value.clone(),
            server_timestamp: self.server_timestamp,
        }
    }
}

/// A sensor: a named measurement stream of one station. Query results carry
/// readings in `values`.
#[derive(Debug, Clone)]
pub struct Sensor {
    pub id: SensorId,
    pub station: String,
    pub display_name: String,
    pub values: Option<Vec<SensorValue>>,
}

/// Model of a sensor record: its station and its display name.
pub struct SensorRec {
    pub station: Seq<char>,
    pub name: Seq<char>,
}

impl Sensor {
    /// The id of this sensor.
    pub fn get_id(&self) -> (r: SensorId)
        ensures
            r == self.id,
    {
        self.id
    }

    /// The record part of this sensor.
    pub open spec fn rec(&self) -> SensorRec {
        SensorRec { station: self.station@, name: self.display_name@ }
    }
}

} // verus!
