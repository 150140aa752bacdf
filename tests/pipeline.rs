use telemetry::{
    build_window, get_endpoint, ingest, ingest_at, latest, mock, parse, readings_in_period,
    readings_in_window, resolve, Claims, IngestError, ParseError, QueryError, ReadingKey,
    ResolveError, RestApi, Sensor, SensorValue, Station, Store, TimePeriod, TimeSpec,
    WindowSpec, TOKEN_LIFETIME_SECS,
};

fn topic(rest: &str) -> String {
    format!("/i40/fertigungsanlage/{}", rest)
}

fn store_with(stations: &[&str]) -> Store {
    let mut store = Store::new();
    for s in stations {
        assert!(store.add_station(s.to_string()));
    }
    store
}

fn values(items: &[SensorValue]) -> Vec<(usize, i64, String)> {
    items.iter().map(|r| (r.sensor, r.server_timestamp, r.value.clone())).collect()
}

#[test]
fn parse_single_segment_sensor() {
    let r = parse(&topic("palettenlager/dosenfuellstand"));
    assert_eq!(r, Ok(("palettenlager".to_string(), "dosenfuellstand".to_string())));
}

#[test]
fn parse_flattens_sensor_path() {
    let r = parse(&topic("palettenlager/kugelfuellstand/rot"));
    assert_eq!(r, Ok(("palettenlager".to_string(), "kugelfuellstand_rot".to_string())));
    let r = parse(&topic("presswerk/arm/motorgeschwindigkeit/x"));
    assert_eq!(r, Ok(("presswerk".to_string(), "arm_motorgeschwindigkeit_x".to_string())));
}

#[test]
fn parse_is_deterministic() {
    let t = topic("stationA/temp/room1");
    assert_eq!(parse(&t), parse(&t));
    assert_eq!(parse(&t), Ok(("stationA".to_string(), "temp_room1".to_string())));
}

#[test]
fn parse_rejects_unknown_prefix() {
    assert_eq!(parse("/other/palettenlager/x"), Err(ParseError::UnknownPrefix));
    assert_eq!(parse(""), Err(ParseError::UnknownPrefix));
    assert_eq!(parse("/i40/fertigungsanlage"), Err(ParseError::UnknownPrefix));
}

#[test]
fn parse_rejects_missing_sensor() {
    assert_eq!(parse(&topic("")), Err(ParseError::Malformed));
    assert_eq!(parse(&topic("palettenlager")), Err(ParseError::Malformed));
    assert_eq!(parse(&topic("palettenlager/")), Err(ParseError::Malformed));
}

#[test]
fn parse_keeps_empty_station_segment() {
    assert_eq!(parse(&topic("/x")), Ok(("".to_string(), "x".to_string())));
}

#[test]
fn parse_handles_non_ascii() {
    let r = parse(&topic("größe/füll/stand"));
    assert_eq!(r, Ok(("größe".to_string(), "füll_stand".to_string())));
    assert_eq!(parse("ü/i40"), Err(ParseError::UnknownPrefix));
}

#[test]
fn mock_topics_all_parse() {
    let topics = mock();
    assert_eq!(topics.len(), 12);
    for t in topics.iter() {
        assert!(parse(t).is_ok());
    }
    assert_eq!(
        parse(topics[1]),
        Ok(("palettenlager".to_string(), "kugelfuellstand_rot".to_string()))
    );
}

#[test]
fn stations_are_unique_by_name() {
    let mut store = store_with(&["palettenlager", "presswerk"]);
    assert!(!store.add_station("presswerk".to_string()));
    let all = Station::get_all(&store);
    let names: Vec<String> = all.iter().map(|s| s.name.clone()).collect();
    assert_eq!(names, vec!["palettenlager".to_string(), "presswerk".to_string()]);
    let s = Station::get(&store, &"presswerk".to_string()).unwrap();
    assert_eq!(s.id, "presswerk");
    assert_eq!(s.get_id(), "presswerk");
    assert!(Station::get(&store, &"nowhere".to_string()).is_none());
}

#[test]
fn resolve_unknown_station() {
    let mut store = store_with(&["palettenlager"]);
    let r = resolve(&mut store, &"nowhere".to_string(), &"x".to_string());
    assert_eq!(r, Err(ResolveError::UnknownStation));
    assert!(Sensor::get(&store, 0).is_none());
}

#[test]
fn resolve_creates_on_first_sight() {
    let mut store = store_with(&["stationA"]);
    let id = resolve(&mut store, &"stationA".to_string(), &"temp_room1".to_string()).unwrap();
    assert_eq!(id, 0);
    let s = Sensor::get(&store, id).unwrap();
    assert_eq!(s.station, "stationA");
    assert_eq!(s.display_name, "temp_room1");
    assert_eq!(s.get_id(), 0);
}

#[test]
fn resolve_twice_gives_same_id() {
    let mut store = store_with(&["stationA"]);
    let a = resolve(&mut store, &"stationA".to_string(), &"temp".to_string()).unwrap();
    let b = resolve(&mut store, &"stationA".to_string(), &"temp".to_string()).unwrap();
    assert_eq!(a, b);
    assert!(Sensor::get(&store, 1).is_none());
}

#[test]
fn same_sensor_name_at_two_stations_gets_two_ids() {
    let mut store = store_with(&["a", "b"]);
    let x = resolve(&mut store, &"a".to_string(), &"temp".to_string()).unwrap();
    let y = resolve(&mut store, &"b".to_string(), &"temp".to_string()).unwrap();
    assert_ne!(x, y);
    assert_eq!(store.find_sensor(&"b".to_string(), &"temp".to_string()), Some(y));
}

#[test]
fn create_if_absent_is_idempotent() {
    let mut store = store_with(&["a"]);
    let x = store.create_sensor_if_absent("a".to_string(), "t".to_string());
    let y = store.create_sensor_if_absent("a".to_string(), "t".to_string());
    assert_eq!(x, y);
    assert_eq!(store.sensor_ids_of_station(&"a".to_string()), vec![x]);
}

#[test]
fn ingest_drops_bad_topic() {
    let mut store = store_with(&["a"]);
    let r = ingest_at(&mut store, "/x/a/t", "1".to_string(), 5);
    assert_eq!(r, Err(IngestError::Parse(ParseError::UnknownPrefix)));
    let r = ingest_at(&mut store, &topic("a"), "1".to_string(), 5);
    assert_eq!(r, Err(IngestError::Parse(ParseError::Malformed)));
    assert_eq!(store.reading_count(), 0);
}

#[test]
fn ingest_drops_unknown_station() {
    let mut store = store_with(&["a"]);
    let r = ingest_at(&mut store, &topic("b/t"), "1".to_string(), 5);
    assert_eq!(r, Err(IngestError::UnknownStation));
    assert_eq!(store.reading_count(), 0);
    assert!(Sensor::get(&store, 0).is_none());
}

#[test]
fn ingest_then_query_since_epoch() {
    let mut store = store_with(&["stationA"]);
    let id = resolve(&mut store, &"stationA".to_string(), &"temp".to_string()).unwrap();
    let r = ingest_at(&mut store, &topic("stationA/temp"), "7".to_string(), 1_000);
    assert_eq!(r, Ok(id));
    let got = readings_in_window(&store, id, WindowSpec::Since(TimeSpec::At(0)), 1_001).unwrap();
    assert_eq!(values(&got), vec![(id, 1_000, "7".to_string())]);
}

#[test]
fn ingest_with_clock_then_query() {
    let mut store = store_with(&["stationA"]);
    let id = ingest(&mut store, &topic("stationA/temp/room1"), "21.5".to_string()).unwrap();
    let period = TimePeriod::between(TimeSpec::Ago(60_000), TimeSpec::Unbounded).unwrap();
    let got = readings_in_period(&store, id, &period).unwrap();
    assert_eq!(got.len(), 1);
    assert_eq!(got[0].value, "21.5");
    assert!(period.from.unwrap() <= got[0].server_timestamp);
}

#[test]
fn end_to_end_station_a() {
    let mut store = store_with(&["stationA"]);
    let now = 1_700_000_000_000;
    let id = ingest_at(&mut store, &topic("stationA/temp/room1"), "21.5".to_string(), now).unwrap();
    let s = Sensor::get(&store, id).unwrap();
    assert_eq!(s.display_name, "temp_room1");
    assert_eq!(s.station, "stationA");
    let got = readings_in_window(
        &store,
        id,
        WindowSpec::Between(TimeSpec::Ago(60_000), TimeSpec::Ago(0)),
        now + 1,
    )
    .unwrap();
    assert_eq!(values(&got), vec![(id, now, "21.5".to_string())]);
}

#[test]
fn window_excludes_upper_bound() {
    let mut store = store_with(&["a"]);
    let id = resolve(&mut store, &"a".to_string(), &"t".to_string()).unwrap();
    store.put_reading(SensorValue::new("1".to_string(), id, 10));
    store.put_reading(SensorValue::new("2".to_string(), id, 20));
    store.put_reading(SensorValue::new("3".to_string(), id, 30));
    let spec = WindowSpec::Between(TimeSpec::At(10), TimeSpec::At(30));
    let got = readings_in_window(&store, id, spec, 0).unwrap();
    assert_eq!(values(&got), vec![(id, 10, "1".to_string()), (id, 20, "2".to_string())]);
    let spec = WindowSpec::Between(TimeSpec::Unbounded, TimeSpec::At(10));
    let got = readings_in_window(&store, id, spec, 0).unwrap();
    assert!(got.is_empty());
}

#[test]
fn inverted_window_is_refused() {
    let mut store = store_with(&["a"]);
    let id = resolve(&mut store, &"a".to_string(), &"t".to_string()).unwrap();
    store.put_reading(SensorValue::new("1".to_string(), id, 10));
    let spec = WindowSpec::Between(TimeSpec::At(30), TimeSpec::At(10));
    assert_eq!(readings_in_window(&store, id, spec, 0).map(|v| v.len()), Err(QueryError::InvalidWindow));
    let period = TimePeriod { from: Some(30), to: Some(10) };
    assert_eq!(readings_in_period(&store, id, &period).map(|v| v.len()), Err(QueryError::InvalidWindow));
    assert!(matches!(
        Sensor::get_values_within_timeperiod(&store, id, &period),
        Err(QueryError::InvalidWindow)
    ));
    assert_eq!(build_window(WindowSpec::Since(TimeSpec::At(100)), 50), Err(QueryError::InvalidWindow));
}

#[test]
fn window_resolution() {
    assert_eq!(
        build_window(WindowSpec::Between(TimeSpec::Ago(60_000), TimeSpec::At(500_000)), 100_000),
        Ok(TimePeriod { from: Some(40_000), to: Some(500_000) })
    );
    assert_eq!(
        build_window(WindowSpec::Since(TimeSpec::Unbounded), 7),
        Ok(TimePeriod { from: None, to: Some(7) })
    );
    assert_eq!(
        build_window(WindowSpec::Between(TimeSpec::Ago(1), TimeSpec::Unbounded), i64::MIN),
        Err(QueryError::OutOfRange)
    );
    assert_eq!(
        build_window(WindowSpec::Between(TimeSpec::Ago(-10), TimeSpec::Unbounded), 5),
        Ok(TimePeriod { from: Some(15), to: None })
    );
}

#[test]
fn window_from_clock_ends_now() {
    let p = TimePeriod::from(TimeSpec::At(0)).unwrap();
    assert_eq!(p.from, Some(0));
    assert!(p.to.unwrap() > 1_600_000_000_000);
}

#[test]
fn readings_sort_by_sensor_then_time() {
    let mut store = Store::new();
    store.put_reading(SensorValue::new("b".to_string(), 1, 5));
    store.put_reading(SensorValue::new("a".to_string(), 0, 9));
    store.put_reading(SensorValue::new("c".to_string(), 1, -3));
    store.put_reading(SensorValue::new("d".to_string(), 0, 2));
    let page = store.scan_range(None, None, 10);
    assert_eq!(
        values(&page.items),
        vec![
            (0, 2, "d".to_string()),
            (0, 9, "a".to_string()),
            (1, -3, "c".to_string()),
            (1, 5, "b".to_string())
        ]
    );
    assert_eq!(page.resume, None);
    assert_eq!(values(&store.scan_prefix(1)), vec![(1, -3, "c".to_string()), (1, 5, "b".to_string())]);
}

#[test]
fn put_replaces_same_key() {
    let mut store = Store::new();
    store.put_reading(SensorValue::new("old".to_string(), 3, 100));
    store.put_reading(SensorValue::new("new".to_string(), 3, 100));
    assert_eq!(store.reading_count(), 1);
    assert_eq!(values(&store.scan_prefix(3)), vec![(3, 100, "new".to_string())]);
}

#[test]
fn scan_range_pages_and_resumes() {
    let mut store = Store::new();
    for t in 0..5i64 {
        store.put_reading(SensorValue::new(t.to_string(), 2, t * 10));
    }
    store.put_reading(SensorValue::new("other".to_string(), 3, 0));
    let lower = ReadingKey { sensor: 2, time: 10 };
    let upper = ReadingKey { sensor: 3, time: i64::MIN };
    let page = store.scan_range(Some(lower), Some(upper), 2);
    assert_eq!(values(&page.items), vec![(2, 10, "1".to_string()), (2, 20, "2".to_string())]);
    assert_eq!(page.resume, Some(ReadingKey { sensor: 2, time: 30 }));
    let rest = store.scan_range(page.resume, Some(upper), 2);
    assert_eq!(values(&rest.items), vec![(2, 30, "3".to_string()), (2, 40, "4".to_string())]);
    assert_eq!(rest.resume, None);
    let none = store.scan_range(Some(lower), Some(upper), 0);
    assert!(none.items.is_empty());
    assert_eq!(none.resume, Some(lower));
}

#[test]
fn scan_prefix_of_largest_sensor_id() {
    let mut store = Store::new();
    store.put_reading(SensorValue::new("x".to_string(), usize::MAX, i64::MAX));
    store.put_reading(SensorValue::new("y".to_string(), usize::MAX - 1, i64::MIN));
    assert_eq!(values(&store.scan_prefix(usize::MAX)), vec![(usize::MAX, i64::MAX, "x".to_string())]);
}

#[test]
fn latest_is_most_recent_reading() {
    let mut store = store_with(&["a"]);
    let id = resolve(&mut store, &"a".to_string(), &"t".to_string()).unwrap();
    assert!(latest(&store, id).is_empty());
    store.put_reading(SensorValue::new("2".to_string(), id, 20));
    store.put_reading(SensorValue::new("1".to_string(), id, 10));
    assert_eq!(values(&latest(&store, id)), vec![(id, 20, "2".to_string())]);
    let s = Sensor::get(&store, id).unwrap();
    assert_eq!(values(s.values.as_ref().unwrap()), vec![(id, 20, "2".to_string())]);
}

#[test]
fn sensors_by_station_with_latest() {
    let mut store = store_with(&["a", "b"]);
    let x = resolve(&mut store, &"a".to_string(), &"x".to_string()).unwrap();
    let y = resolve(&mut store, &"b".to_string(), &"y".to_string()).unwrap();
    let z = resolve(&mut store, &"a".to_string(), &"z".to_string()).unwrap();
    store.put_reading(SensorValue::new("1".to_string(), x, 1));
    store.put_reading(SensorValue::new("2".to_string(), x, 2));
    store.put_reading(SensorValue::new("9".to_string(), y, 9));
    let list = Sensor::get_by_station(&store, &"a".to_string());
    let ids: Vec<usize> = list.iter().map(|s| s.id).collect();
    assert_eq!(ids, vec![x, z]);
    assert_eq!(values(list[0].values.as_ref().unwrap()), vec![(x, 2, "2".to_string())]);
    assert!(list[1].values.as_ref().unwrap().is_empty());
}

#[test]
fn sensor_with_all_values() {
    let mut store = store_with(&["a"]);
    let x = resolve(&mut store, &"a".to_string(), &"x".to_string()).unwrap();
    store.put_reading(SensorValue::new("2".to_string(), x, 2));
    store.put_reading(SensorValue::new("1".to_string(), x, 1));
    let s = Sensor::get_with_values(&store, x).unwrap();
    assert_eq!(values(s.values.as_ref().unwrap()), vec![(x, 1, "1".to_string()), (x, 2, "2".to_string())]);
    assert!(Sensor::get_with_values(&store, 5).is_none());
    let period = TimePeriod { from: Some(2), to: None };
    let s = Sensor::get_values_within_timeperiod(&store, x, &period).unwrap().unwrap();
    assert_eq!(values(s.values.as_ref().unwrap()), vec![(x, 2, "2".to_string())]);
    assert!(Sensor::get_values_within_timeperiod(&store, 5, &period).unwrap().is_none());
}

#[test]
fn sensor_value_create_uses_clock() {
    let mut store = Store::new();
    let r = SensorValue::create(&mut store, "5".to_string(), 4);
    assert_eq!(r.sensor, 4);
    assert!(r.server_timestamp > 1_600_000_000_000);
    assert_eq!(values(&store.scan_prefix(4)), vec![(4, r.server_timestamp, "5".to_string())]);
}

#[test]
fn endpoint_url() {
    let api = RestApi {
        base_url: "http://127.0.0.1".to_string(),
        port: "8001".to_string(),
        postfix: "mhubx-cc/module/juwi/action".to_string(),
        username: "user".to_string(),
        password: "password".to_string(),
    };
    assert_eq!(
        get_endpoint(&api, "?page=Logic.Interface"),
        "http://127.0.0.1:8001/mhubx-cc/module/juwi/action?page=Logic.Interface"
    );
}

#[test]
fn claims_expire_after_one_day() {
    let c = Claims::new(1, "a@b.c".to_string(), 1_000);
    assert_eq!(c.sub, 1);
    assert_eq!(c.name, "a@b.c");
    assert_eq!(c.iat, 1_000);
    assert_eq!(c.exp, 1_000 + 86_400);
    assert_eq!(TOKEN_LIFETIME_SECS, 86_400);
}
