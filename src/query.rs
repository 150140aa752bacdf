//! Read side: stations, sensors with their latest reading, and readings of
//! a sensor over a time window, each served by a scan of the ordered store.

use vstd::prelude::*;
use crate::model::{readings_view, ReadingKey, ReadingRec, Sensor, SensorId, SensorValue, Station, Timestamp};
use crate::keys::{in_range, range_pred, sensor_bounds, sensor_pred};
use crate::store::{station_sensor_ids, Store, StoreView};
use crate::window::{build_window, ordered, window_of, QueryError, TimePeriod, WindowSpec};

verus! {

/// The readings of `sensor` that fall in the window `[p.from, p.to)`.
pub open spec fn window_pred(sensor: SensorId, p: TimePeriod) -> spec_fn(ReadingRec) -> bool {
    |r: ReadingRec|
        r.key.sensor == sensor && match p.from {
            Some(f) => f <= r.key.time,
            None => true,
        } && match p.to {
            Some(t) => r.key.time < t,
            None => true,
        }
}

/// The readings of `sensor` in the window, in time order.
pub open spec fn window_readings(v: StoreView, sensor: SensorId, p: TimePeriod) -> Seq<ReadingRec> {
    v.readings.filter(window_pred(sensor, p))
}

/// The most recent reading of `sensor` as a sequence of at most one.
pub open spec fn latest_readings(v: StoreView, sensor: SensorId) -> Seq<ReadingRec> {
    let all = v.readings.filter(sensor_pred(sensor));
    if all.len() == 0 {
        Seq::empty()
    } else {
        seq![all.last()]
    }
}

/// `s` is stored sensor `id` carrying exactly the readings `vals`.
pub open spec fn sensor_with(v: StoreView, s: Sensor, id: SensorId, vals: Seq<ReadingRec>) -> bool {
    &&& s.id == id
    &&& id < v.sensors.len()
    &&& s.rec() == v.sensors[id as int]
    &&& match s.values {
        Some(vs) => readings_view(vs@) == vals,
        None => false,
    }
}

/// The readings of `sensor` in the window `period`; a window that starts
/// after it ends is refused.
pub fn readings_in_period(store: &Store, sensor: SensorId, period: &TimePeriod) -> (r: Result<Vec<SensorValue>, QueryError>)
    requires
        store.inv(),
    ensures
        match r {
            Ok(items) => ordered(period.from, period.to)
                && readings_view(items@) == window_readings(store@, sensor, *period),
            Err(e) => !ordered(period.from, period.to) && e == QueryError::InvalidWindow,
        },
{
    if !period.is_ordered() {
        return Err(QueryError::InvalidWindow);
    }
    let lower = ReadingKey {
        sensor,
        time: match period.from {
            Some(f) => f,
            None => i64::MIN,
        },
    };
    let bounds = sensor_bounds(sensor);
    let upper = match period.to {
        Some(t) => Some(ReadingKey { sensor, time: t }),
        None => bounds.1,
    };
    let page = store.scan_range(Some(lower), upper, store.reading_count());
    proof {
        assert forall|x: ReadingRec| #[trigger] in_range(x.key, Some(lower), upper) == window_pred(sensor, *period)(x) by {
            if period.to is None {
                assert(in_range(x.key, Some(bounds.0), bounds.1) == (x.key.sensor == sensor));
            }
        }
        let rs = store@.readings;
        assert(range_pred(Some(lower), upper) =~= window_pred(sensor, *period));
        rs.lemma_filter_len(window_pred(sensor, *period));
    }
    Ok(page.items)
}

/// The readings of `sensor` in the window that `spec` names when the clock
/// reads `now`.
pub fn readings_in_window(store: &Store, sensor: SensorId, spec: WindowSpec, now: Timestamp) -> (r: Result<Vec<SensorValue>, QueryError>)
    requires
        store.inv(),
    ensures
        match window_of(spec, now) {
            Ok(p) => r matches Ok(items) && readings_view(items@) == window_readings(store@, sensor, p),
            Err(e) => r == Err::<Vec<SensorValue>, QueryError>(e),
        },
{
    let p = match build_window(spec, now) {
        Ok(p) => p,
        Err(e) => return Err(e),
    };
    readings_in_period(store, sensor, &p)
}

/// The most recent reading of `sensor`, as a vector of at most one.
pub fn latest(store: &Store, sensor: SensorId) -> (r: Vec<SensorValue>)
    requires
        store.inv(),
    ensures
        readings_view(r@) == latest_readings(store@, sensor),
{
    let all = store.scan_prefix(sensor);
    let n = all.len();
    let mut out: Vec<SensorValue> = Vec::new();
    if n > 0 {
        out.push(all[n - 1].duplicate());
        assert(readings_view(out@) =~= seq![readings_view(all@).last()]);
    } else {
        assert(readings_view(out@) =~= Seq::<ReadingRec>::empty());
    }
    out
}

impl Station {
    /// All stations.
    pub fn get_all(store: &Store) -> (r: Vec<Station>)
        requires
            store.inv(),
        ensures
            r@.len() == store@.stations.len(),
            forall|i: int|
                0 <= i < r@.len() ==> #[trigger] r@[i].name@ == store@.stations[i] && r@[i].id@
                    == store@.stations[i],
    {
        store.stations()
    }

    /// The station with id `id`, if it exists.
    pub fn get(store: &Store, id: &String) -> (r: Option<Station>)
        requires
            store.inv(),
        ensures
            r is Some == store@.stations.contains(id@),
            r matches Some(s) ==> s.id@ == id@ && s.name@ == id@,
    {
        store.station(id)
    }
}

impl Sensor {
    /// The sensor with id `id` with its most recent reading attached.
    pub fn get(store: &Store, id: SensorId) -> (r: Option<Sensor>)
        requires
            store.inv(),
        ensures
            r is Some == (id < store@.sensors.len()),
            r matches Some(s) ==> sensor_with(store@, s, id, latest_readings(store@, id)),
    {
        match store.sensor(id) {
            Some(mut s) => {
                s.values = Some(latest(store, id));
                Some(s)
            },
            None => None,
        }
    }

    /// The sensors of station `id`, ascending by id, each with its most
    /// recent reading attached.
    pub fn get_by_station(store: &Store, id: &String) -> (r: Vec<Sensor>)
        requires
            store.inv(),
        ensures
            r@.map_values(|s: Sensor| s.id) == station_sensor_ids(store@, id@),
            forall|i: int|
                0 <= i < r@.len() ==> sensor_with(store@, #[trigger] r@[i], r@[i].id, latest_readings(store@, r@[i].id)),
    {
        let ids = store.sensor_ids_of_station(id);
        let ghost want = station_sensor_ids(store@, id@);
        proof {
            crate::store::lemma_station_sensor_ids(store@, id@);
        }
        let mut out: Vec<Sensor> = Vec::new();
        let mut i: usize = 0;
        while i < ids.len()
            invariant
                store.inv(),
                ids@ == want,
                forall|j: int| 0 <= j < want.len() ==> want[j] < store@.sensors.len(),
                i <= ids@.len(),
                out@.len() == i,
                out@.map_values(|s: Sensor| s.id) == want.take(i as int),
                forall|j: int|
                    0 <= j < out@.len() ==> sensor_with(store@, #[trigger] out@[j], out@[j].id, latest_readings(store@, out@[j].id)),
            decreases ids@.len() - i,
        {
            let sid = ids[i];
            let ghost before = out@;
            if let Some(s) = Sensor::get(store, sid) {
                out.push(s);
            }
            assert(out@ == before.push(out@[i as int]));
            assert(want.take(i + 1) =~= want.take(i as int).push(sid));
            assert(out@.map_values(|s: Sensor| s.id) =~= before.map_values(|s: Sensor| s.id).push(sid));
            i = i + 1;
        }
        assert(want.take(ids@.len() as int) =~= want);
        out
    }

    /// The sensor with id `id` with all its readings attached, in time order.
    pub fn get_with_values(store: &Store, id: SensorId) -> (r: Option<Sensor>)
        requires
            store.inv(),
        ensures
            r is Some == (id < store@.sensors.len()),
            r matches Some(s) ==> sensor_with(store@, s, id, store@.readings.filter(sensor_pred(id))),
    {
        match store.sensor(id) {
            Some(mut s) => {
                s.values = Some(store.scan_prefix(id));
                Some(s)
            },
            None => None,
        }
    }

    /// The sensor with id `id` with its readings in `period` attached; a
    /// window that starts after it ends is refused.
    pub fn get_values_within_timeperiod(store: &Store, id: SensorId, period: &TimePeriod) -> (r: Result<Option<Sensor>, QueryError>)
        requires
            store.inv(),
        ensures
            match r {
                Ok(found) => ordered(period.from, period.to)
                    && found is Some == (id < store@.sensors.len())
                    && (found matches Some(s) ==> sensor_with(store@, s, id, window_readings(store@, id, *period))),
                Err(e) => !ordered(period.from, period.to) && e == QueryError::InvalidWindow,
            },
    {
        let items = match readings_in_period(store, id, period) {
            Ok(items) => items,
            Err(e) => return Err(e),
        };
        match store.sensor(id) {
            Some(mut s) => {
                s.values = Some(items);
                Ok(Some(s))
            },
            None => Ok(None),
        }
    }
}

} // verus!
