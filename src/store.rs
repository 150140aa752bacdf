//! The ordered store: stations, sensors with create-if-absent, and readings
//! kept sorted by their composite key so that range scans seek and walk.

use vstd::prelude::*;
use crate::keys::{
    below, from_lower, in_range, lemma_filter_first, lemma_filter_none, lemma_range_split, lemma_upsert_at,
    range_pred, range_spec, sensor_bounds, sensor_pred, sorted, upsert,
};
use crate::model::{
    key_less, key_lt, readings_view, ReadingKey, ReadingRec, Sensor, SensorId, SensorRec,
    SensorValue, Station,
};

verus! {

/// Model of the store's contents. A sensor's id is its index in `sensors`.
pub struct StoreView {
    pub stations: Seq<Seq<char>>,
    pub sensors: Seq<SensorRec>,
    pub readings: Seq<ReadingRec>,
}


impl StoreView {
    /// Station names are unique, at most one sensor exists per
    /// (station, display name) pair, and readings are sorted by key.
    pub open spec fn wf(self) -> bool {
        &&& forall|i: int, j: int|
            0 <= i < j < self.stations.len() ==> self.stations[i] != self.stations[j]
        &&& forall|i: int, j: int|
            0 <= i < j < self.sensors.len() ==> self.sensors[i] != self.sensors[j]
        &&& sorted(self.readings)
    }

    /// Sensor `id` belongs to `station` and is named `name`.
    pub open spec fn has_sensor(self, id: int, station: Seq<char>, name: Seq<char>) -> bool {
        0 <= id < self.sensors.len() && self.sensors[id] == (SensorRec { station, name })
    }

    /// The id of the sensor named `name` at `station`, if there is one.
    pub open spec fn sensor_of(self, station: Seq<char>, name: Seq<char>) -> Option<SensorId> {
        if exists|id: int| self.has_sensor(id, station, name) {
            Some((choose|id: int| self.has_sensor(id, station, name)) as SensorId)
        } else {
            None
        }
    }

    /// The store after a create-if-absent of sensor `name` at `station`.
    pub open spec fn with_sensor(self, station: Seq<char>, name: Seq<char>) -> StoreView {
        if self.sensor_of(station, name) is Some {
            self
        } else {
            StoreView { sensors: self.sensors.push(SensorRec { station, name }), ..self }
        }
    }

    /// The id that a create-if-absent of sensor `name` at `station` yields.
    pub open spec fn sensor_id_after_create(self, station: Seq<char>, name: Seq<char>) -> SensorId {
        match self.sensor_of(station, name) {
            Some(id) => id,
            None => self.sensors.len() as SensorId,
        }
    }

    /// The store after `rec` is written at its key.
    pub open spec fn with_reading(self, rec: ReadingRec) -> StoreView {
        StoreView { readings: upsert(self.readings, rec), ..self }
    }
}

/// The ids `0, 1, .., n - 1`.
pub open spec fn ids_below(n: int) -> Seq<SensorId> {
    Seq::new(n as nat, |i: int| i as SensorId)
}

/// Whether sensor `id` belongs to `station`.
pub open spec fn at_station(v: StoreView, station: Seq<char>) -> spec_fn(SensorId) -> bool {
    |id: SensorId| v.sensors[id as int].station == station
}

/// The ids of the sensors of `station`, ascending.
pub open spec fn station_sensor_ids(v: StoreView, station: Seq<char>) -> Seq<SensorId> {
    ids_below(v.sensors.len() as int).filter(at_station(v, station))
}

/// Every id listed for a station names a stored sensor of that station.
pub proof fn lemma_station_sensor_ids(v: StoreView, station: Seq<char>)
    ensures
        forall|j: int|
            0 <= j < station_sensor_ids(v, station).len() ==> #[trigger] station_sensor_ids(
                v,
                station,
            )[j] < v.sensors.len() && v.sensors[station_sensor_ids(v, station)[j] as int].station
                == station,
{
    let ids = ids_below(v.sensors.len() as int);
    let p = at_station(v, station);
    assert forall|j: int| 0 <= j < ids.filter(p).len() implies #[trigger] ids.filter(p)[j] < v.sensors.len()
        && p(ids.filter(p)[j]) by {
        ids.lemma_filter_pred(p, j);
        ids.lemma_filter_contains_rev(p, ids.filter(p)[j]);
    }
}

/// Within a well-formed store a sensor found at `id` is the one `sensor_of` names.
pub proof fn lemma_sensor_of(v: StoreView, id: int, station: Seq<char>, name: Seq<char>)
    requires
        v.wf(),
        v.has_sensor(id, station, name),
    ensures
        v.sensor_of(station, name) == Some(id as SensorId),
{
    let c = choose|c: int| v.has_sensor(c, station, name);
    assert(v.has_sensor(c, station, name));
    if c < id {
        assert(v.sensors[c] != v.sensors[id]);
    } else if id < c {
        assert(v.sensors[id] != v.sensors[c]);
    }
}

/// One page of a range scan: the readings returned, and the key at which to
/// resume when the range holds more.
pub struct ScanPage {
    pub items: Vec<SensorValue>,
    pub resume: Option<ReadingKey>,
}


/// The telemetry store. Readings are kept in ascending key order.
pub struct Store {
    stations: Vec<Station>,
    sensors: Vec<Sensor>,
    readings: Vec<SensorValue>,
}

impl View for Store {
    type V = StoreView;

    closed spec fn view(&self) -> StoreView {
        StoreView {
            stations: self.stations@.map_values(|s: Station| s.name@),
            sensors: self.sensors@.map_values(|s: Sensor| s.rec()),
            readings: readings_view(self.readings@),
        }
    }
}

impl Store {
    /// The store's invariant: its model is well formed, each station's id is
    /// its name, and each stored sensor sits at the index of its id.
    pub closed spec fn inv(&self) -> bool {
        &&& self@.wf()
        &&& forall|i: int|
            0 <= i < self.stations@.len() ==> #[trigger] self.stations@[i].id@
                == self.stations@[i].name@
        &&& forall|i: int|
            0 <= i < self.sensors@.len() ==> #[trigger] self.sensors@[i].id == i
                && self.sensors@[i].values is None
    }

    /// The invariant gives a well-formed model.
    pub proof fn lemma_inv_wf(&self)
        requires
            self.inv(),
        ensures
            self@.wf(),
    {
    }

    /// An empty store.
    pub fn new() -> (r: Store)
        ensures
            r.inv(),
            r@.stations.len() == 0,
            r@.sensors.len() == 0,
            r@.readings.len() == 0,
    {
        let r = Store { stations: Vec::new(), sensors: Vec::new(), readings: Vec::new() };
        assert(r@.stations =~= Seq::empty());
        assert(r@.sensors =~= Seq::empty());
        assert(r@.readings =~= Seq::empty());
        r
    }

    /// Index of the station named `name`.
    fn station_index(&self, name: &String) -> (r: Option<usize>)
        requires
            self.inv(),
        ensures
            match r {
                Some(i) => i < self@.stations.len() && self@.stations[i as int] == name@,
                None => !self@.stations.contains(name@),
            },
    {
        let mut i: usize = 0;
        while i < self.stations.len()
            invariant
                i <= self.stations@.len(),
                self@.stations.len() == self.stations@.len(),
                forall|j: int| 0 <= j < i ==> self@.stations[j] != name@,
            decreases self.stations@.len() - i,
        {
            if self.stations[i].name == *name {
                return Some(i);
            }
            i = i + 1;
        }
        None
    }

    /// Adds a station named `name` unless one exists; returns whether it was added.
    pub fn add_station(&mut self, name: String) -> (added: bool)
        requires
            old(self).inv(),
        ensures
            final(self).inv(),
            added == !old(self)@.stations.contains(name@),
            final(self)@ == if added {
                StoreView { stations: old(self)@.stations.push(name@), ..old(self)@ }
            } else {
                old(self)@
            },
    {
        match self.station_index(&name) {
            Some(_) => false,
            None => {
                let st = Station::new(name);
                self.stations.push(st);
                let ghost o = old(self)@;
                assert(self@.stations =~= o.stations.push(name@));
                assert(self@.sensors =~= o.sensors);
                assert(self@.readings =~= o.readings);
                assert forall|i: int, j: int|
                    0 <= i < j < self@.stations.len() implies self@.stations[i]
                    != self@.stations[j] by {
                    if j == o.stations.len() {
                        assert(o.stations.contains(o.stations[i]));
                    }
                }
                true
            },
        }
    }

    /// The id of the sensor named `name` at `station`, if one exists.
    pub fn find_sensor(&self, station: &String, name: &String) -> (r: Option<SensorId>)
        requires
            self.inv(),
        ensures
            r == self@.sensor_of(station@, name@),
    {
        let mut i: usize = 0;
        while i < self.sensors.len()
            invariant
                i <= self.sensors@.len(),
                self.inv(),
                forall|j: int| 0 <= j < i ==> !self@.has_sensor(j, station@, name@),
            decreases self.sensors@.len() - i,
        {
            let s = &self.sensors[i];
            if s.station == *station && s.display_name == *name {
                proof {
                    lemma_sensor_of(self@, i as int, station@, name@);
                }
                return Some(i);
            }
            i = i + 1;
        }
        None
    }

    /// Creates sensor `name` at `station` unless it exists, as one step, and
    /// returns its id: the existing one, or the next free id.
    pub fn create_sensor_if_absent(&mut self, station: String, name: String) -> (id: SensorId)
        requires
            old(self).inv(),
        ensures
            final(self).inv(),
            id == old(self)@.sensor_id_after_create(station@, name@),
            final(self)@ == old(self)@.with_sensor(station@, name@),
    {
        match self.find_sensor(&station, &name) {
            Some(id) => id,
            None => {
                let id = self.sensors.len();
                let ghost o = old(self)@;
                let ghost rec = SensorRec { station: station@, name: name@ };
                self.sensors.push(
                    Sensor { id, station, display_name: name, values: None },
                );
                assert(self@.sensors =~= o.sensors.push(rec));
                assert(self@.stations =~= o.stations);
                assert(self@.readings =~= o.readings);
                assert forall|i: int, j: int|
                    0 <= i < j < self@.sensors.len() implies self@.sensors[i]
                    != self@.sensors[j] by {
                    if j == o.sensors.len() {
                        assert(!o.has_sensor(i, rec.station, rec.name));
                    }
                }
                id
            },
        }
    }

    /// The sensor with id `id`, without readings.
    pub fn sensor(&self, id: SensorId) -> (r: Option<Sensor>)
        requires
            self.inv(),
        ensures
            r is Some == (id < self@.sensors.len()),
            r matches Some(s) ==> s.id == id && s.rec() == self@.sensors[id as int]
                && s.values is None,
    {
        if id < self.sensors.len() {
            let s = &self.sensors[id];
            Some(
                Sensor {
                    id: s.id,
                    station: s.station.clone(),
                    display_name: s.display_name.clone(),
                    values: None,
                },
            )
        } else {
            None
        }
    }

    /// The ids of the sensors of `station`, ascending.
    pub fn sensor_ids_of_station(&self, station: &String) -> (r: Vec<SensorId>)
        requires
            self.inv(),
        ensures
            r@ == station_sensor_ids(self@, station@),
    {
        let mut out: Vec<SensorId> = Vec::new();
        let mut i: usize = 0;
        while i < self.sensors.len()
            invariant
                i <= self.sensors@.len(),
                self.inv(),
                out@ == ids_below(i as int).filter(at_station(self@, station@)),
            decreases self.sensors@.len() - i,
        {
            proof {
                assert(ids_below(i + 1) =~= ids_below(i as int).push(i));
                ids_below(i as int).lemma_filter_push(i, at_station(self@, station@));
            }
            if self.sensors[i].station == *station {
                out.push(i);
            }
            i = i + 1;
        }
        out
    }

    /// The number of stored readings.
    pub fn reading_count(&self) -> (r: usize)
        requires
            self.inv(),
        ensures
            r == self@.readings.len(),
    {
        self.readings.len()
    }

    /// Position of the first reading whose key is not below `k`.
    fn lower_bound(&self, k: ReadingKey) -> (idx: usize)
        requires
            self.inv(),
        ensures
            idx <= self@.readings.len(),
            forall|j: int| 0 <= j < idx ==> key_lt(self@.readings[j].key, k),
            forall|j: int| idx <= j < self@.readings.len() ==> !key_lt(self@.readings[j].key, k),
    {
        let ghost rs = self@.readings;
        let mut lo: usize = 0;
        let mut hi: usize = self.readings.len();
        while lo < hi
            invariant
                self.inv(),
                rs == self@.readings,
                rs.len() == self.readings@.len(),
                lo <= hi <= rs.len(),
                forall|j: int| 0 <= j < lo ==> key_lt(rs[j].key, k),
                forall|j: int| hi <= j < rs.len() ==> !key_lt(rs[j].key, k),
            decreases hi - lo,
        {
            let mid = lo + (hi - lo) / 2;
            let mk = self.readings[mid].key();
            assert(mk == rs[mid as int].key);
            if key_less(&mk, &k) {
                assert forall|j: int| 0 <= j <= mid implies key_lt(rs[j].key, k) by {
                    if j < mid {
                        assert(key_lt(rs[j].key, rs[mid as int].key));
                    }
                }
                lo = mid + 1;
            } else {
                assert forall|j: int| mid <= j < rs.len() implies !key_lt(rs[j].key, k) by {
                    if j > mid {
                        assert(key_lt(rs[mid as int].key, rs[j].key));
                    }
                }
                hi = mid;
            }
        }
        lo
    }

    /// Writes `reading` at its key, replacing a reading with the same key.
    pub fn put_reading(&mut self, reading: SensorValue)
        requires
            old(self).inv(),
        ensures
            final(self).inv(),
            final(self)@ == old(self)@.with_reading(reading@),
    {
        let k = reading.key();
        let idx = self.lower_bound(k);
        let ghost o = old(self)@;
        proof {
            lemma_upsert_at(o.readings, reading@, idx as int);
        }
        if idx < self.readings.len() && self.readings[idx].key() == k {
            let _ = self.readings.remove(idx);
            self.readings.insert(idx, reading);
            assert(self@.readings =~= o.readings.update(idx as int, reading@));
        } else {
            self.readings.insert(idx, reading);
            assert(self@.readings =~= o.readings.insert(idx as int, reading@));
        }
        assert(self@.stations =~= o.stations);
        assert(self@.sensors =~= o.sensors);
    }

    /// Scans the readings whose keys lie from `lower` (inclusive) to `upper`
    /// (exclusive), in key order, returning at most `limit` of them. When the
    /// range holds more, `resume` is the key of the first one left out.
    pub fn scan_range(&self, lower: Option<ReadingKey>, upper: Option<ReadingKey>, limit: usize) -> (r: ScanPage)
        requires
            self.inv(),
        ensures
            ({
                let all = range_spec(self@.readings, lower, upper);
                if all.len() <= limit {
                    readings_view(r.items@) == all && r.resume is None
                } else {
                    readings_view(r.items@) == all.take(limit as int)
                        && r.resume == Some(all[limit as int].key)
                }
            }),
    {
        let ghost rs = self@.readings;
        let n = self.readings.len();
        let start = match lower {
            Some(l) => self.lower_bound(l),
            None => 0,
        };
        let mut items: Vec<SensorValue> = Vec::new();
        let mut i: usize = start;
        while i < n && items.len() < limit && below(&self.readings[i].key(), &upper)
            invariant
                self.inv(),
                rs == self@.readings,
                n == rs.len(),
                n == self.readings@.len(),
                start <= i <= n,
                items@.len() == i - start,
                items@.len() <= limit,
                readings_view(items@) == rs.subrange(start as int, i as int),
                forall|j: int| 0 <= j < start ==> !in_range(rs[j].key, lower, upper),
                forall|j: int| start <= j < n ==> from_lower(#[trigger] rs[j].key, lower),
                forall|j: int| start <= j < i ==> in_range(rs[j].key, lower, upper),
            decreases n - i,
        {
            let x = self.readings[i].duplicate();
            assert(x@ == rs[i as int]);
            items.push(x);
            assert(readings_view(items@) =~= rs.subrange(start as int, i + 1));
            i = i + 1;
        }
        let ghost p = range_pred(lower, upper);
        let ghost tail = rs.subrange(i as int, n as int);
        proof {
            lemma_range_split(rs, lower, upper, start as int, i as int);
        }
        if i < n && below(&self.readings[i].key(), &upper) {
            assert(in_range(rs[i as int].key, lower, upper));
            proof {
                lemma_filter_first(tail, p);
            }
            assert((rs.subrange(start as int, i as int) + (seq![tail[0]] + tail.drop_first().filter(p))).take(limit as int)
                =~= rs.subrange(start as int, i as int));
            ScanPage { items, resume: Some(self.readings[i].key()) }
        } else {
            assert forall|j: int| 0 <= j < tail.len() implies !p(tail[j]) by {
                assert(tail[j] == rs[i + j]);
                if j > 0 {
                    assert(key_lt(rs[i as int].key, rs[i + j].key));
                }
            }
            proof {
                lemma_filter_none(tail, p);
            }
            assert(rs.subrange(start as int, i as int) + Seq::<ReadingRec>::empty() =~= rs.subrange(start as int, i as int));
            ScanPage { items, resume: None }
        }
    }

    /// All readings of `sensor`, in time order.
    pub fn scan_prefix(&self, sensor: SensorId) -> (r: Vec<SensorValue>)
        requires
            self.inv(),
        ensures
            readings_view(r@) == self@.readings.filter(sensor_pred(sensor)),
    {
        let (lower, upper) = sensor_bounds(sensor);
        let page = self.scan_range(Some(lower), upper, self.readings.len());
        proof {
            let rs = self@.readings;
            assert(range_pred(Some(lower), upper) =~= sensor_pred(sensor));
            rs.lemma_filter_len(range_pred(Some(lower), upper));
        }
        page.items
    }

    /// The station whose id is `id`.
    pub fn station(&self, id: &String) -> (r: Option<Station>)
        requires
            self.inv(),
        ensures
            r is Some == self@.stations.contains(id@),
            r matches Some(s) ==> s.id@ == id@ && s.name@ == id@,
    {
        match self.station_index(id) {
            Some(i) => {
                let s = &self.stations[i];
                Some(Station { id: s.id.clone(), name: s.name.clone() })
            },
            None => None,
        }
    }

    /// All stations, in the order in which they were added.
    pub fn stations(&self) -> (r: Vec<Station>)
        requires
            self.inv(),
        ensures
            r@.len() == self@.stations.len(),
            forall|i: int|
                0 <= i < r@.len() ==> #[trigger] r@[i].name@ == self@.stations[i] && r@[i].id@
                    == self@.stations[i],
    {
        let mut out: Vec<Station> = Vec::new();
        let mut i: usize = 0;
        while i < self.stations.len()
            invariant
                i <= self.stations@.len(),
                self.inv(),
                out@.len() == i,
                forall|j: int|
                    0 <= j < i ==> #[trigger] out@[j].name@ == self@.stations[j] && out@[j].id@
                        == self@.stations[j],
            decreases self.stations@.len() - i,
        {
            let s = &self.stations[i];
            assert(self.stations@[i as int].id@ == self.stations@[i as int].name@);
            let st = Station { id: s.id.clone(), name: s.name.clone() };
            assert(st.name@ == self@.stations[i as int] && st.id@ == self@.stations[i as int]);
            let ghost before = out@;
            out.push(st);
            assert forall|j: int| 0 <= j < i + 1 implies #[trigger] out@[j].name@ == self@.stations[j]
                && out@[j].id@ == self@.stations[j] by {
                if j < i {
                    assert(out@[j] == before[j]);
                }
            }
            i = i + 1;
        }
        out
    }
}

} // verus!
