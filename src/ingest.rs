//! Identity resolution with lazy sensor creation, and the ingestion
//! pipeline: parse, resolve, then append a reading keyed by
//! `(sensor id, server time)`.

use vstd::prelude::*;
use crate::model::{ReadingKey, ReadingRec, SensorId, SensorValue, Timestamp};
use crate::store::{Store, StoreView};
use crate::topic::{parse, parse_spec, ParseError};
use crate::window::now_millis;

verus! {

/// Why a (station, sensor) pair could not be resolved.
#[derive(Debug, Clone, Copy, PartialEq, Eq, Structural)]
pub enum ResolveError {
    /// No station has that name.
    UnknownStation,
}

/// Why an inbound message was dropped.
#[derive(Debug, Clone, Copy, PartialEq, Eq, Structural)]
pub enum IngestError {
    /// The topic could not be decoded.
    Parse(ParseError),
    /// The topic names a station that does not exist.
    UnknownStation,
}

/// Resolution of sensor `name` at `station`: an existing sensor's id with
/// the store unchanged; else, where the station exists, the id of a sensor
/// created for the pair; else `UnknownStation`, the store unchanged.
pub open spec fn resolve_spec(v: StoreView, station: Seq<char>, name: Seq<char>) -> (Result<SensorId, ResolveError>, StoreView) {
    match v.sensor_of(station, name) {
        Some(id) => (Ok(id), v),
        None => if v.stations.contains(station) {
            (Ok(v.sensors.len() as SensorId), v.with_sensor(station, name))
        } else {
            (Err(ResolveError::UnknownStation), v)
        },
    }
}

/// Ingestion of `payload` on `topic` at server time `now`: parse, resolve,
/// then write the reading at `(sensor id, now)`. A failed step leaves the
/// store as that step left it.
pub open spec fn ingest_spec(v: StoreView, topic: Seq<char>, payload: Seq<char>, now: Timestamp) -> (Result<SensorId, IngestError>, StoreView) {
    match parse_spec(topic) {
        Err(e) => (Err(IngestError::Parse(e)), v),
        Ok((station, name)) => {
            let (r, v1) = resolve_spec(v, station, name);
            match r {
                Err(_) => (Err(IngestError::UnknownStation), v1),
                Ok(id) => (
                    Ok(id),
                    v1.with_reading(ReadingRec { key: ReadingKey { sensor: id, time: now }, value: payload }),
                ),
            }
        },
    }
}

/// Maps sensor `name` at `station` to its id, creating the sensor on first
/// sight when the station exists. The lookup and the creation are one step
/// on the store, so a pair never gets two sensors.
pub fn resolve(store: &mut Store, station: &String, name: &String) -> (r: Result<SensorId, ResolveError>)
    requires
        old(store).inv(),
    ensures
        final(store).inv(),
        (r, final(store)@) == resolve_spec(old(store)@, station@, name@),
{
    match store.find_sensor(station, name) {
        Some(id) => Ok(id),
        None => {
            if store.station(station).is_none() {
                return Err(ResolveError::UnknownStation);
            }
            let id = store.create_sensor_if_absent(station.clone(), name.clone());
            Ok(id)
        },
    }
}

/// Ingests `payload` published on `topic`, stamping the reading with the
/// server time `now`.
pub fn ingest_at(store: &mut Store, topic: &str, payload: String, now: Timestamp) -> (r: Result<SensorId, IngestError>)
    requires
        old(store).inv(),
    ensures
        final(store).inv(),
        (r, final(store)@) == ingest_spec(old(store)@, topic@, payload@, now),
{
    let (station, name) = match parse(topic) {
        Ok(p) => p,
        Err(e) => return Err(IngestError::Parse(e)),
    };
    let id = match resolve(store, &station, &name) {
        Ok(id) => id,
        Err(_) => return Err(IngestError::UnknownStation),
    };
    store.put_reading(SensorValue::new(payload, id, now));
    Ok(id)
}

/// Ingests `payload` published on `topic`, stamping the reading with the
/// server clock at the moment of the write.
pub fn ingest(store: &mut Store, topic: &str, payload: String) -> (r: Result<SensorId, IngestError>)
    requires
        old(store).inv(),
    ensures
        final(store).inv(),
        exists|now: Timestamp| (r, final(store)@) == ingest_spec(old(store)@, topic@, payload@, now),
{
    let now = now_millis();
    ingest_at(store, topic, payload, now)
}

impl SensorValue {
    /// Writes `value` as a reading of `sensor`, stamped with the server clock.
    pub fn create(store: &mut Store, value: String, sensor: SensorId) -> (r: SensorValue)
        requires
            old(store).inv(),
        ensures
            final(store).inv(),
            r.sensor == sensor,
            r.value@ == value@,
            final(store)@ == old(store)@.with_reading(r@),
    {
        let reading = SensorValue::new(value, sensor, now_millis());
        store.put_reading(reading.duplicate());
        reading
    }
}

} // verus!
