//! Properties that relate several operations of the library.

use vstd::prelude::*;
use crate::ingest::{ingest_spec, resolve_spec};
use crate::model::{key_lt, ReadingKey, ReadingRec, SensorId, Timestamp};
use crate::query::{window_pred, window_readings};
use crate::keys::{
    from_lower, in_range, lemma_filter_none, lemma_range_contiguous, lemma_upsert_sorted, range_pred,
    range_spec, sorted, under_upper, upsert,
};
use crate::store::{lemma_sensor_of, StoreView};
use crate::topic::{first_slash, flatten_path, lemma_first_slash, parse_spec, TOPIC_PREFIX};
use crate::window::{ordered, resolve_time_spec, window_of, QueryError, TimePeriod, TimeSpec, WindowSpec};

verus! {

/// A topic made of the prefix, a station segment without `'/'`, a `'/'` and
/// a non-empty sensor path decodes to that station and to the path with its
/// separators turned into `'_'`.
pub proof fn lemma_parse_segments(station: Seq<char>, path: Seq<char>)
    requires
        forall|i: int| 0 <= i < station.len() ==> station[i] != '/',
        path.len() > 0,
    ensures
        parse_spec(TOPIC_PREFIX@ + station + seq!['/'] + path) == Ok::<(Seq<char>, Seq<char>), crate::topic::ParseError>(
            (station, flatten_path(path)),
        ),
{
    let p = TOPIC_PREFIX@;
    let t = p + station + seq!['/'] + path;
    let rem = station + seq!['/'] + path;
    assert(t.subrange(0, p.len() as int) =~= p);
    assert(t.subrange(p.len() as int, t.len() as int) =~= rem);
    lemma_first_slash(rem, station.len() as int);
    assert(first_slash(rem) == station.len());
    assert(rem.subrange(0, station.len() as int) =~= station);
    assert(rem.subrange(station.len() as int + 1, rem.len() as int) =~= path);
}

/// Resolution keeps the store well formed.
pub proof fn lemma_resolve_wf(v: StoreView, station: Seq<char>, name: Seq<char>)
    requires
        v.wf(),
    ensures
        resolve_spec(v, station, name).1.wf(),
{
    let (r, v1) = resolve_spec(v, station, name);
    if v.sensor_of(station, name) is None && v.stations.contains(station) {
        assert forall|i: int, j: int|
            0 <= i < j < v1.sensors.len() implies v1.sensors[i] != v1.sensors[j] by {
            if j == v.sensors.len() {
                assert(!v.has_sensor(i, station, name));
            }
        }
    }
}

/// Resolving the same (station, sensor) pair twice gives the same id, and
/// the second resolution changes nothing: a pair never gets two sensors.
pub proof fn lemma_resolve_idempotent(v: StoreView, station: Seq<char>, name: Seq<char>)
    requires
        v.wf(),
    ensures
        ({
            let (r1, v1) = resolve_spec(v, station, name);
            resolve_spec(v1, station, name) == (r1, v1)
        }),
{
    let (r1, v1) = resolve_spec(v, station, name);
    lemma_resolve_wf(v, station, name);
    if v.sensor_of(station, name) is None && v.stations.contains(station) {
        let id = v.sensors.len() as int;
        assert(v1.has_sensor(id, station, name));
        lemma_sensor_of(v1, id, station, name);
    }
}

/// A filter of a one-element sequence.
proof fn lemma_filter_one(x: ReadingRec, p: spec_fn(ReadingRec) -> bool)
    ensures
        seq![x].filter(p) == if p(x) {
            seq![x]
        } else {
            Seq::<ReadingRec>::empty()
        },
{
    let e = Seq::<ReadingRec>::empty();
    assert(e.filter(p) =~= e) by {
        reveal(Seq::filter);
    }
    assert(e.push(x) =~= seq![x]);
    e.lemma_filter_push(x, p);
}

/// Filtering commutes with writing a reading, where whether a reading is
/// kept depends on its key alone.
proof fn lemma_filter_upsert(rs: Seq<ReadingRec>, rec: ReadingRec, p: spec_fn(ReadingRec) -> bool)
    requires
        sorted(rs),
        forall|a: ReadingRec, b: ReadingRec| a.key == b.key ==> p(a) == p(b),
    ensures
        upsert(rs, rec).filter(p) == if p(rec) {
            upsert(rs.filter(p), rec)
        } else {
            rs.filter(p)
        },
    decreases rs.len(),
{
    lemma_filter_one(rec, p);
    if rs.len() == 0 {
        assert(rs.filter(p) =~= rs) by {
            reveal(Seq::filter);
        }
        assert(seq![rec] + rs =~= seq![rec]);
    } else {
        let x = rs[0];
        let t = rs.drop_first();
        let f = rs.filter(p);
        assert(rs =~= seq![x] + t);
        Seq::filter_distributes_over_add(seq![x], t, p);
        lemma_filter_one(x, p);
        if key_lt(rec.key, x.key) {
            Seq::filter_distributes_over_add(seq![rec], rs, p);
            if p(rec) {
                if f.len() > 0 {
                    rs.lemma_filter_pred(p, 0);
                    assert(f.contains(f[0]));
                    rs.lemma_filter_contains_rev(p, f[0]);
                    let k = choose|k: int| 0 <= k < rs.len() && rs[k] == f[0];
                    assert(k == 0 || key_lt(rs[0].key, rs[k].key));
                    assert(key_lt(rec.key, f[0].key));
                } else {
                    assert(f =~= Seq::<ReadingRec>::empty());
                    assert(seq![rec] + f =~= seq![rec]);
                }
                assert(seq![rec].filter(p) + f =~= seq![rec] + f);
            } else {
                assert(seq![rec].filter(p) + f =~= f);
            }
        } else if rec.key == x.key {
            Seq::filter_distributes_over_add(seq![rec], t, p);
            if p(rec) {
                assert(seq![x].filter(p) + t.filter(p) =~= seq![x] + t.filter(p));
                assert((seq![x] + t.filter(p))[0] == x);
                assert((seq![x] + t.filter(p)).drop_first() =~= t.filter(p));
                assert(seq![rec].filter(p) + t.filter(p) =~= seq![rec] + t.filter(p));
            } else {
                assert(seq![x].filter(p) + t.filter(p) =~= t.filter(p));
                assert(seq![rec].filter(p) + t.filter(p) =~= t.filter(p));
            }
        } else {
            assert(sorted(t));
            lemma_filter_upsert(t, rec, p);
            Seq::filter_distributes_over_add(seq![x], upsert(t, rec), p);
            if p(x) {
                assert(seq![x].filter(p) + t.filter(p) =~= seq![x] + t.filter(p));
                assert((seq![x] + t.filter(p))[0] == x);
                assert((seq![x] + t.filter(p)).drop_first() =~= t.filter(p));
            } else {
                assert(seq![x].filter(p) + t.filter(p) =~= t.filter(p));
                assert(seq![x].filter(p) + upsert(t, rec).filter(p) =~= upsert(t, rec).filter(p));
            }
        }
    }
}

/// No reading of `rs` belongs to `sensor`.
pub open spec fn no_readings_of(rs: Seq<ReadingRec>, sensor: SensorId) -> bool {
    forall|i: int| 0 <= i < rs.len() ==> rs[i].key.sensor != sensor
}

/// A window filter keeps nothing of readings of other sensors.
proof fn lemma_window_none(rs: Seq<ReadingRec>, sensor: SensorId, p: TimePeriod)
    requires
        no_readings_of(rs, sensor),
    ensures
        rs.filter(window_pred(sensor, p)) == Seq::<ReadingRec>::empty(),
{
    lemma_filter_none(rs, window_pred(sensor, p));
}

/// Once resolution has produced `id` for a topic's pair, ingesting a payload
/// on that topic at server time `t0`, where the sensor had no readings, and
/// then asking at a later clock reading `t1` for its readings since the
/// epoch gives exactly the one reading written.
pub proof fn lemma_ingest_then_query(
    v: StoreView,
    topic: Seq<char>,
    station: Seq<char>,
    name: Seq<char>,
    id: SensorId,
    payload: Seq<char>,
    t0: Timestamp,
    t1: Timestamp,
)
    requires
        v.wf(),
        parse_spec(topic) == Ok::<(Seq<char>, Seq<char>), crate::topic::ParseError>((station, name)),
        resolve_spec(v, station, name).0 == Ok::<SensorId, crate::ingest::ResolveError>(id),
        no_readings_of(v.readings, id),
        0 <= t0 < t1,
    ensures
        ingest_spec(v, topic, payload, t0).0 == Ok::<SensorId, crate::ingest::IngestError>(id),
        window_of(WindowSpec::Since(TimeSpec::At(0)), t1) == Ok::<TimePeriod, QueryError>(
            TimePeriod { from: Some(0), to: Some(t1) },
        ),
        window_readings(
            ingest_spec(v, topic, payload, t0).1,
            id,
            TimePeriod { from: Some(0), to: Some(t1) },
        ) == seq![ReadingRec { key: ReadingKey { sensor: id, time: t0 }, value: payload }],
{
    let v1 = resolve_spec(v, station, name).1;
    lemma_resolve_wf(v, station, name);
    assert(v1.readings == v.readings);
    let period = TimePeriod { from: Some(0), to: Some(t1) };
    let rec = ReadingRec { key: ReadingKey { sensor: id, time: t0 }, value: payload };
    lemma_window_none(v.readings, id, period);
    lemma_filter_upsert(v.readings, rec, window_pred(id, period));
}

/// Readings written for a sensor without readings at `t1 < t2 < t3`: the
/// window `[t1, t3)` holds the first two, in time order, and the window
/// that ends at `t1` holds none.
pub proof fn lemma_window_bounds(
    v: StoreView,
    sensor: SensorId,
    t1: Timestamp,
    t2: Timestamp,
    t3: Timestamp,
    a: Seq<char>,
    b: Seq<char>,
    c: Seq<char>,
    now: Timestamp,
)
    requires
        v.wf(),
        no_readings_of(v.readings, sensor),
        t1 < t2 < t3,
    ensures
        ({
            let r1 = ReadingRec { key: ReadingKey { sensor, time: t1 }, value: a };
            let r2 = ReadingRec { key: ReadingKey { sensor, time: t2 }, value: b };
            let r3 = ReadingRec { key: ReadingKey { sensor, time: t3 }, value: c };
            let v3 = v.with_reading(r1).with_reading(r2).with_reading(r3);
            &&& window_of(WindowSpec::Between(TimeSpec::At(t1), TimeSpec::At(t3)), now)
                == Ok::<TimePeriod, QueryError>(TimePeriod { from: Some(t1), to: Some(t3) })
            &&& window_readings(v3, sensor, TimePeriod { from: Some(t1), to: Some(t3) }) == seq![r1, r2]
            &&& window_of(WindowSpec::Between(TimeSpec::Unbounded, TimeSpec::At(t1)), now)
                == Ok::<TimePeriod, QueryError>(TimePeriod { from: None, to: Some(t1) })
            &&& window_readings(v3, sensor, TimePeriod { from: None, to: Some(t1) })
                == Seq::<ReadingRec>::empty()
        }),
{
    let r1 = ReadingRec { key: ReadingKey { sensor, time: t1 }, value: a };
    let r2 = ReadingRec { key: ReadingKey { sensor, time: t2 }, value: b };
    let r3 = ReadingRec { key: ReadingKey { sensor, time: t3 }, value: c };
    let rs0 = v.readings;
    let rs1 = upsert(rs0, r1);
    let rs2 = upsert(rs1, r2);
    lemma_upsert_sorted(rs0, r1);
    lemma_upsert_sorted(rs1, r2);
    let w = TimePeriod { from: Some(t1), to: Some(t3) };
    let e = Seq::<ReadingRec>::empty();
    lemma_window_none(rs0, sensor, w);
    lemma_filter_upsert(rs0, r1, window_pred(sensor, w));
    lemma_filter_upsert(rs1, r2, window_pred(sensor, w));
    lemma_filter_upsert(rs2, r3, window_pred(sensor, w));
    assert(upsert(e, r1) == seq![r1]);
    assert(upsert(seq![r1], r2) =~= seq![r1, r2]) by {
        assert(seq![r1].drop_first() =~= e);
        assert(upsert(e, r2) == seq![r2]);
        assert(seq![r1] + seq![r2] =~= seq![r1, r2]);
    }
    let u = TimePeriod { from: None, to: Some(t1) };
    lemma_window_none(rs0, sensor, u);
    lemma_filter_upsert(rs0, r1, window_pred(sensor, u));
    lemma_filter_upsert(rs1, r2, window_pred(sensor, u));
    lemma_filter_upsert(rs2, r3, window_pred(sensor, u));
}

/// A window is served only when it does not start after it ends: one whose
/// sides resolve to `from > to` is refused with `InvalidWindow`.
pub proof fn lemma_invalid_window(spec: WindowSpec, now: Timestamp)
    ensures
        window_of(spec, now) matches Ok(p) ==> ordered(p.from, p.to),
        ({
            let (fs, ts) = match spec {
                WindowSpec::Between(f, t) => (f, t),
                WindowSpec::Since(f) => (f, TimeSpec::At(now)),
            };
            (resolve_time_spec(fs, now) matches Ok(Some(f)) && resolve_time_spec(ts, now) matches Ok(Some(t)) && f > t)
                ==> window_of(spec, now) == Err::<TimePeriod, QueryError>(QueryError::InvalidWindow)
        }),
{
}

/// A range scan restarts where a page ended: scanning from the key that the
/// page hands back, after the first `limit` readings of the range, yields the
/// rest of the range.
pub proof fn lemma_scan_resume(rs: Seq<ReadingRec>, lower: Option<ReadingKey>, upper: Option<ReadingKey>, limit: nat)
    requires
        sorted(rs),
        range_spec(rs, lower, upper).len() > limit,
    ensures
        range_spec(rs, Some(range_spec(rs, lower, upper)[limit as int].key), upper) == range_spec(
            rs,
            lower,
            upper,
        ).skip(limit as int),
{
    let (a, b) = lemma_range_contiguous(rs, lower, upper);
    let k = rs[a + limit].key;
    assert(range_spec(rs, lower, upper)[limit as int] == rs[a + limit]);
    let (a2, b2) = lemma_range_contiguous(rs, Some(k), upper);
    if a2 < a + limit {
        assert(key_lt(rs[a2].key, rs[a + limit].key));
    } else if a2 > a + limit {
        assert(!from_lower(rs[a + limit].key, Some(k)));
    }
    if b2 < b {
        assert(!under_upper(rs[b2].key, upper));
        assert(in_range(rs[b2].key, lower, upper)) by {
            assert(rs.subrange(a, b)[b2 - a] == rs[b2]);
            rs.lemma_filter_pred(range_pred(lower, upper), b2 - a);
        }
    } else if b2 > b {
        assert(!under_upper(rs[b].key, upper));
        assert(in_range(rs[b].key, Some(k), upper)) by {
            assert(rs.subrange(a2, b2)[b - a2] == rs[b]);
            rs.lemma_filter_pred(range_pred(Some(k), upper), b - a2);
        }
    }
    assert(rs.subrange(a2, b2) =~= rs.subrange(a, b).skip(limit as int));
}

} // verus!
