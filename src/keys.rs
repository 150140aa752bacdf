//! The ordered key space of readings: sorted runs, writes at a key, and
//! half-open key ranges, with the facts that range scans rest on.

use vstd::prelude::*;
use crate::model::{key_less, key_lt, ReadingKey, ReadingRec, SensorId};

verus! {

/// Keys strictly ascend along `rs`; in particular no key occurs twice.
pub open spec fn sorted(rs: Seq<ReadingRec>) -> bool {
    forall|i: int, j: int| 0 <= i < j < rs.len() ==> key_lt(rs[i].key, rs[j].key)
}

/// `rs` with `rec` written at its key: it replaces a reading with the same
/// key, or is placed before the first reading with a larger key.
pub open spec fn upsert(rs: Seq<ReadingRec>, rec: ReadingRec) -> Seq<ReadingRec>
    decreases rs.len(),
{
    if rs.len() == 0 {
        seq![rec]
    } else if key_lt(rec.key, rs[0].key) {
        seq![rec] + rs
    } else if rec.key == rs[0].key {
        seq![rec] + rs.drop_first()
    } else {
        seq![rs[0]] + upsert(rs.drop_first(), rec)
    }
}

/// Writing `rec` at position `idx`, the first whose key is not below
/// `rec`'s, is what `upsert` describes, and keeps the readings sorted.
pub(crate) proof fn lemma_upsert_at(rs: Seq<ReadingRec>, rec: ReadingRec, idx: int)
    requires
        sorted(rs),
        0 <= idx <= rs.len(),
        forall|j: int| 0 <= j < idx ==> key_lt(rs[j].key, rec.key),
        forall|j: int| idx <= j < rs.len() ==> !key_lt(rs[j].key, rec.key),
    ensures
        upsert(rs, rec) == if idx < rs.len() && rs[idx].key == rec.key {
            rs.update(idx, rec)
        } else {
            rs.insert(idx, rec)
        },
        sorted(upsert(rs, rec)),
    decreases rs.len(),
{
    if rs.len() == 0 {
        assert(rs.insert(0, rec) =~= seq![rec]);
    } else if idx == 0 {
        if rs[0].key == rec.key {
            assert(rs.update(0, rec) =~= seq![rec] + rs.drop_first());
        } else {
            assert(rs.insert(0, rec) =~= seq![rec] + rs);
        }
    } else {
        let t = rs.drop_first();
        lemma_upsert_at(t, rec, idx - 1);
        if idx < rs.len() && rs[idx].key == rec.key {
            assert(seq![rs[0]] + t.update(idx - 1, rec) =~= rs.update(idx, rec));
        } else {
            assert(seq![rs[0]] + t.insert(idx - 1, rec) =~= rs.insert(idx, rec));
        }
    }
    let u = upsert(rs, rec);
    assert forall|i: int, j: int| 0 <= i < j < u.len() implies key_lt(u[i].key, u[j].key) by {
        if idx < rs.len() && rs[idx].key == rec.key {
            assert(u[i].key == rs[i].key && u[j].key == rs[j].key);
        } else {
            if j < idx {
                assert(u[i] == rs[i] && u[j] == rs[j]);
            } else if j == idx {
                assert(u[j] == rec && u[i] == rs[i]);
            } else if i < idx {
                assert(u[i] == rs[i] && u[j] == rs[j - 1]);
                assert(!key_lt(rs[j - 1].key, rec.key));
            } else if i == idx {
                assert(u[i] == rec && u[j] == rs[j - 1]);
                assert(!key_lt(rs[idx].key, rec.key));
                assert(rs[idx].key != rec.key);
            } else {
                assert(u[i] == rs[i - 1] && u[j] == rs[j - 1]);
            }
        }
    }
}

/// Whether key `k` lies in the half-open range from `lower` (inclusive) to
/// `upper` (exclusive); a missing bound does not limit that side.
pub open spec fn in_range(k: ReadingKey, lower: Option<ReadingKey>, upper: Option<ReadingKey>) -> bool {
    from_lower(k, lower) && under_upper(k, upper)
}

/// Whether `k` is not below the inclusive bound `lower`.
pub open spec fn from_lower(k: ReadingKey, lower: Option<ReadingKey>) -> bool {
    match lower {
        Some(l) => !key_lt(k, l),
        None => true,
    }
}

/// Whether `k` is below the exclusive bound `upper`.
pub open spec fn under_upper(k: ReadingKey, upper: Option<ReadingKey>) -> bool {
    match upper {
        Some(u) => key_lt(k, u),
        None => true,
    }
}

/// The readings whose keys lie in the range.
pub open spec fn range_pred(lower: Option<ReadingKey>, upper: Option<ReadingKey>) -> spec_fn(ReadingRec) -> bool {
    |r: ReadingRec| in_range(r.key, lower, upper)
}

/// The readings of `rs` whose keys lie in the range, in key order.
pub open spec fn range_spec(
    rs: Seq<ReadingRec>,
    lower: Option<ReadingKey>,
    upper: Option<ReadingKey>,
) -> Seq<ReadingRec> {
    rs.filter(range_pred(lower, upper))
}

/// The readings of one sensor.
pub open spec fn sensor_pred(sensor: SensorId) -> spec_fn(ReadingRec) -> bool {
    |r: ReadingRec| r.key.sensor == sensor
}

/// A filter that keeps nothing of `s` is empty.
pub proof fn lemma_filter_none<A>(s: Seq<A>, p: spec_fn(A) -> bool)
    requires
        forall|i: int| 0 <= i < s.len() ==> !p(s[i]),
    ensures
        s.filter(p) == Seq::<A>::empty(),
    decreases s.len(),
{
    reveal(Seq::filter);
    if s.len() > 0 {
        lemma_filter_none(s.drop_last(), p);
    }
}

/// A filter that keeps all of `s` is `s`.
pub proof fn lemma_filter_all<A>(s: Seq<A>, p: spec_fn(A) -> bool)
    requires
        forall|i: int| 0 <= i < s.len() ==> p(s[i]),
    ensures
        s.filter(p) == s,
    decreases s.len(),
{
    reveal(Seq::filter);
    if s.len() > 0 {
        lemma_filter_all(s.drop_last(), p);
        assert(s.drop_last().push(s.last()) =~= s);
    }
}

/// Splitting a sorted sequence at `a` and `b`: nothing before `a` is in the
/// range, everything from `a` to `b` is, and the range's readings from `b` on
/// are those of the tail.
pub(crate) proof fn lemma_range_split(rs: Seq<ReadingRec>, lower: Option<ReadingKey>, upper: Option<ReadingKey>, a: int, b: int)
    requires
        0 <= a <= b <= rs.len(),
        forall|j: int| 0 <= j < a ==> !in_range(rs[j].key, lower, upper),
        forall|j: int| a <= j < b ==> in_range(rs[j].key, lower, upper),
    ensures
        range_spec(rs, lower, upper) == rs.subrange(a, b) + range_spec(rs.subrange(b, rs.len() as int), lower, upper),
{
    let p = range_pred(lower, upper);
    let x = rs.subrange(0, a);
    let y = rs.subrange(a, b);
    let z = rs.subrange(b, rs.len() as int);
    assert(rs =~= x + y + z);
    Seq::filter_distributes_over_add(x + y, z, p);
    Seq::filter_distributes_over_add(x, y, p);
    lemma_filter_none(x, p);
    lemma_filter_all(y, p);
    assert(x.filter(p) + y.filter(p) =~= y);
}

/// The filter of a sequence that starts with a kept element starts with it.
pub(crate) proof fn lemma_filter_first<A>(s: Seq<A>, p: spec_fn(A) -> bool)
    requires
        s.len() > 0,
        p(s[0]),
    ensures
        s.filter(p) == seq![s[0]] + s.drop_first().filter(p),
{
    assert(s =~= seq![s[0]] + s.drop_first());
    Seq::filter_distributes_over_add(seq![s[0]], s.drop_first(), p);
    lemma_filter_all(seq![s[0]], p);
}



/// Whether `k` lies below `upper`; a missing bound is above every key.
pub(crate) fn below(k: &ReadingKey, upper: &Option<ReadingKey>) -> (r: bool)
    ensures
        r == under_upper(*k, *upper),
{
    match upper {
        Some(u) => key_less(k, u),
        None => true,
    }
}

/// Key bounds that enclose exactly the readings of `sensor`.
pub fn sensor_bounds(sensor: SensorId) -> (r: (ReadingKey, Option<ReadingKey>))
    ensures
        r.0 == (ReadingKey { sensor, time: i64::MIN }),
        forall|k: ReadingKey| in_range(k, Some(r.0), r.1) <==> k.sensor == sensor,
{
    let lower = ReadingKey { sensor, time: i64::MIN };
    if sensor < usize::MAX {
        (lower, Some(ReadingKey { sensor: sensor + 1, time: i64::MIN }))
    } else {
        (lower, None)
    }
}

/// In a sorted sequence some position splits the keys below `k` from the rest.
pub(crate) proof fn lemma_lower_bound_exists(rs: Seq<ReadingRec>, k: ReadingKey) -> (idx: int)
    requires
        sorted(rs),
    ensures
        0 <= idx <= rs.len(),
        forall|j: int| 0 <= j < idx ==> key_lt(rs[j].key, k),
        forall|j: int| idx <= j < rs.len() ==> !key_lt(rs[j].key, k),
    decreases rs.len(),
{
    if rs.len() == 0 {
        0
    } else {
        let i = lemma_lower_bound_exists(rs.drop_last(), k);
        if key_lt(rs.last().key, k) {
            assert forall|j: int| 0 <= j < rs.len() implies key_lt(rs[j].key, k) by {
                if j < rs.len() - 1 {
                    assert(key_lt(rs[j].key, rs.last().key));
                }
            }
            rs.len() as int
        } else {
            let d = rs.drop_last();
            assert forall|j: int| 0 <= j < i implies key_lt(rs[j].key, k) by {
                assert(rs[j] == d[j]);
            }
            assert forall|j: int| i <= j < rs.len() implies !key_lt(rs[j].key, k) by {
                if j < rs.len() - 1 {
                    assert(rs[j] == d[j]);
                }
            }
            i
        }
    }
}

/// In a sorted sequence the readings in a range form one contiguous run
/// `rs[a..b]`: `a` is the first position not below `lower` and `b` the first
/// position from `a` on that is not below `upper`.
pub proof fn lemma_range_contiguous(rs: Seq<ReadingRec>, lower: Option<ReadingKey>, upper: Option<ReadingKey>) -> (ab: (int, int))
    requires
        sorted(rs),
    ensures
        0 <= ab.0 <= ab.1 <= rs.len(),
        range_spec(rs, lower, upper) == rs.subrange(ab.0, ab.1),
        forall|j: int| 0 <= j < ab.0 ==> !from_lower(rs[j].key, lower),
        forall|j: int| ab.0 <= j < rs.len() ==> from_lower(rs[j].key, lower),
        forall|j: int| ab.1 <= j < rs.len() ==> !under_upper(rs[j].key, upper),
{
    let n = rs.len() as int;
    let a = match lower {
        Some(l) => lemma_lower_bound_exists(rs, l),
        None => 0,
    };
    let c = match upper {
        Some(u) => lemma_lower_bound_exists(rs, u),
        None => n,
    };
    let b = if c < a { a } else { c };
    let p = range_pred(lower, upper);
    lemma_range_split(rs, lower, upper, a, b);
    let tail = rs.subrange(b, n);
    assert forall|j: int| 0 <= j < tail.len() implies !p(tail[j]) by {
        assert(tail[j] == rs[b + j]);
    }
    lemma_filter_none(tail, p);
    assert(rs.subrange(a, b) + Seq::<ReadingRec>::empty() =~= rs.subrange(a, b));
    (a, b)
}

/// Writing a reading keeps the readings sorted.
pub proof fn lemma_upsert_sorted(rs: Seq<ReadingRec>, rec: ReadingRec)
    requires
        sorted(rs),
    ensures
        sorted(upsert(rs, rec)),
{
    let idx = lemma_lower_bound_exists(rs, rec.key);
    lemma_upsert_at(rs, rec, idx);
}

} // verus!
