//! Decoding of transport topics into a (station name, sensor name) pair.

use vstd::prelude::*;
use vstd::string::*;

verus! {

/// Every accepted topic starts with this prefix.
pub const TOPIC_PREFIX: &'static str = "/i40/fertigungsanlage/";

/// Why a topic could not be decoded.
#[derive(Debug, Clone, Copy, PartialEq, Eq, Structural)]
pub enum ParseError {
    /// The topic does not start with [`TOPIC_PREFIX`].
    UnknownPrefix,
    /// Nothing follows the station segment.
    Malformed,
}

/// The separator character `'/'` becomes `'_'`; every other character stays.
pub open spec fn flatten_char(c: char) -> char {
    if c == '/' {
        '_'
    } else {
        c
    }
}

/// A multi-segment sensor path flattened into one identifier.
pub open spec fn flatten_path(s: Seq<char>) -> Seq<char> {
    s.map_values(|c: char| flatten_char(c))
}

/// Position of the first `'/'` in `s`, or `s.len()` when there is none.
pub open spec fn first_slash(s: Seq<char>) -> int
    decreases s.len(),
{
    if s.len() == 0 {
        0
    } else if s[0] == '/' {
        0
    } else {
        1 + first_slash(s.drop_first())
    }
}

/// Whether `t` starts with the topic prefix.
pub open spec fn has_prefix(t: Seq<char>) -> bool {
    TOPIC_PREFIX@.len() <= t.len() && t.subrange(0, TOPIC_PREFIX@.len() as int) == TOPIC_PREFIX@
}

/// What remains of `t` once the prefix is stripped.
pub open spec fn after_prefix(t: Seq<char>) -> Seq<char> {
    t.subrange(TOPIC_PREFIX@.len() as int, t.len() as int)
}

/// The decoding of a topic: the station segment up to the first `'/'` after
/// the prefix, and the rest of the topic with each `'/'` turned into `'_'`.
pub open spec fn parse_spec(t: Seq<char>) -> Result<(Seq<char>, Seq<char>), ParseError> {
    if !has_prefix(t) {
        Err(ParseError::UnknownPrefix)
    } else {
        let rem = after_prefix(t);
        let k = first_slash(rem);
        if k + 1 >= rem.len() {
            Err(ParseError::Malformed)
        } else {
            Ok((rem.subrange(0, k), flatten_path(rem.subrange(k + 1, rem.len() as int))))
        }
    }
}

/// `first_slash` is pinned down by the characters before it.
pub proof fn lemma_first_slash(s: Seq<char>, k: int)
    requires
        0 <= k <= s.len(),
        forall|j: int| 0 <= j < k ==> s[j] != '/',
        k == s.len() || s[k] == '/',
    ensures
        first_slash(s) == k,
    decreases k,
{
    if k > 0 {
        let t = s.drop_first();
        assert forall|j: int| 0 <= j < k - 1 implies t[j] != '/' by {
            assert(t[j] == s[j + 1]);
        }
        lemma_first_slash(t, k - 1);
    }
}

/// Whether the first `n` characters of `s` and `p` agree.
fn starts_with_chars(s: &str, p: &str) -> (r: bool)
    ensures
        r == (p@.len() <= s@.len() && s@.subrange(0, p@.len() as int) == p@),
{
    let n = p.unicode_len();
    if s.unicode_len() < n {
        return false;
    }
    let mut i: usize = 0;
    while i < n
        invariant
            n == p@.len(),
            n <= s@.len(),
            i <= n,
            forall|j: int| 0 <= j < i ==> s@[j] == p@[j],
        decreases n - i,
    {
        if s.get_char(i) != p.get_char(i) {
            assert(s@.subrange(0, n as int)[i as int] != p@[i as int]);
            return false;
        }
        i = i + 1;
    }
    assert(s@.subrange(0, n as int) =~= p@);
    true
}

/// Copies `s[from..]` with every `'/'` replaced by `'_'`.
fn flatten_from(s: &str, from: usize) -> (r: String)
    requires
        from <= s@.len(),
    ensures
        r@ == flatten_path(s@.subrange(from as int, s@.len() as int)),
{
    let n = s.unicode_len();
    let mut out = String::new();
    let mut i: usize = from;
    while i < n
        invariant
            n == s@.len(),
            from <= i <= n,
            out@ == flatten_path(s@.subrange(from as int, i as int)),
        decreases n - i,
    {
        let c = s.get_char(i);
        proof {
            reveal_strlit("_");
        }
        if c == '/' {
            assert("_"@ =~= seq![flatten_char(c)]);
            out.append("_");
        } else {
            let one = s.substring_char(i, i + 1);
            assert(one@ =~= seq![flatten_char(c)]);
            out.append(one);
        }
        assert(s@.subrange(from as int, i + 1) =~= s@.subrange(from as int, i as int).push(c));
        assert(flatten_path(s@.subrange(from as int, i + 1)) =~= flatten_path(
            s@.subrange(from as int, i as int),
        ).push(flatten_char(c)));
        i = i + 1;
    }
    out
}

/// Decodes `topic` into `(station name, sensor name)`.
///
/// The prefix is stripped, the remainder is split at its first `'/'`, and the
/// sensor path after it is flattened (`kugelfuellstand/rot` becomes
/// `kugelfuellstand_rot`). Total on every input.
pub fn parse(topic: &str) -> (r: Result<(String, String), ParseError>)
    ensures
        match r {
            Ok((station, sensor)) => parse_spec(topic@) == Ok::<(Seq<char>, Seq<char>), ParseError>((station@, sensor@)),
            Err(e) => parse_spec(topic@) == Err::<(Seq<char>, Seq<char>), ParseError>(e),
        },
{
    if !starts_with_chars(topic, TOPIC_PREFIX) {
        return Err(ParseError::UnknownPrefix);
    }
    let ghost rem = after_prefix(topic@);
    let p = TOPIC_PREFIX.unicode_len();
    let n = topic.unicode_len();
    let mut k: usize = p;
    while k < n && topic.get_char(k) != '/'
        invariant
            p == TOPIC_PREFIX@.len(),
            n == topic@.len(),
            p <= k <= n,
            rem == topic@.subrange(p as int, n as int),
            forall|j: int| 0 <= j < k - p ==> rem[j] != '/',
        decreases n - k,
    {
        k = k + 1;
    }
    proof {
        lemma_first_slash(rem, k - p);
    }
    if n - k <= 1 {
        return Err(ParseError::Malformed);
    }
    let station = String::from_str(topic.substring_char(p, k));
    let sensor = flatten_from(topic, k + 1);
    assert(rem.subrange(0, k - p) =~= topic@.subrange(p as int, k as int));
    assert(rem.subrange(k - p + 1, rem.len() as int) =~= topic@.subrange(k + 1, n as int));
    Ok((station, sensor))
}

/// The topics that a simulated plant publishes on.
pub fn mock() -> (r: [&'static str; 12])
    ensures
        r[0]@ == "/i40/fertigungsanlage/palettenlager/dosenfuellstand"@,
        r[1]@ == "/i40/fertigungsanlage/palettenlager/kugelfuellstand/rot"@,
        r[2]@ == "/i40/fertigungsanlage/palettenlager/kugelfuellstand/gruen"@,
        r[3]@ == "/i40/fertigungsanlage/palettenlager/kugelfuellstand/blau"@,
        r[4]@ == "/i40/fertigungsanlage/palettenlager/deckelfuellstand/rot"@,
        r[5]@ == "/i40/fertigungsanlage/palettenlager/deckelfuellstand/gruen"@,
        r[6]@ == "/i40/fertigungsanlage/palettenlager/deckelfuellstand/blau"@,
        r[7]@ == "/i40/fertigungsanlage/palettenlager/palettenfuellstandrandom"@,
        r[8]@ == "/i40/fertigungsanlage/presswerk/arm/motorgeschwindigkeit/x"@,
        r[9]@ == "/i40/fertigungsanlage/presswerk/arm/motorgeschwindigkeit/y"@,
        r[10]@ == "/i40/fertigungsanlage/presswerk/arm/motorgeschwindigkeit/z"@,
        r[11]@ == "/i40/fertigungsanlage/presswerk/presse/pressenstatus"@,
{
    [
        "/i40/fertigungsanlage/palettenlager/dosenfuellstand",
        "/i40/fertigungsanlage/palettenlager/kugelfuellstand/rot",
        "/i40/fertigungsanlage/palettenlager/kugelfuellstand/gruen",
        "/i40/fertigungsanlage/palettenlager/kugelfuellstand/blau",
        "/i40/fertigungsanlage/palettenlager/deckelfuellstand/rot",
        "/i40/fertigungsanlage/palettenlager/deckelfuellstand/gruen",
        "/i40/fertigungsanlage/palettenlager/deckelfuellstand/blau",
        "/i40/fertigungsanlage/palettenlager/palettenfuellstandrandom",
        "/i40/fertigungsanlage/presswerk/arm/motorgeschwindigkeit/x",
        "/i40/fertigungsanlage/presswerk/arm/motorgeschwindigkeit/y",
        "/i40/fertigungsanlage/presswerk/arm/motorgeschwindigkeit/z",
        "/i40/fertigungsanlage/presswerk/presse/pressenstatus",
    ]
}

} // verus!
