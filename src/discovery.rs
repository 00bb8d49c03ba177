//! Discovery: reading a day's listing from the history feed and gathering
//! the listings of a window into the pairs a pass processes.
use crate::record::{json_value_of, parse_json};
use vstd::prelude::*;

verus! {

/// A discovered kill: its identifier and the access hash the secondary
/// source asks for.
pub type Pair = (i64, String);

pub open spec fn pair_seq(pairs: Seq<Pair>) -> Seq<(i64, Seq<char>)> {
    pairs.map_values(|p: Pair| (p.0, p.1@))
}

/// Each day's outcome as a sequence: the pairs of a day that was read, or
/// `None` for a day whose listing could not be had.
pub open spec fn day_outcomes(days: Seq<Option<Vec<Pair>>>) -> Seq<Option<Seq<(i64, Seq<char>)>>> {
    days.map_values(
        |d: Option<Vec<Pair>>|
            match d {
                Some(p) => Some(pair_seq(p@)),
                None => None,
            },
    )
}

/// What a day adds to a pass: its pairs, or nothing if it failed.
pub open spec fn contribution(day: Option<Seq<(i64, Seq<char>)>>) -> Seq<(i64, Seq<char>)> {
    match day {
        Some(p) => p,
        None => Seq::empty(),
    }
}

/// The pairs of all days, in day order.
pub open spec fn discovered(days: Seq<Option<Seq<(i64, Seq<char>)>>>) -> Seq<(i64, Seq<char>)>
    decreases days.len(),
{
    if days.len() == 0 {
        Seq::empty()
    } else {
        discovered(days.drop_last()) + contribution(days.last())
    }
}

/// No identifier occurs twice.
pub open spec fn distinct_ids(pairs: Seq<(i64, Seq<char>)>) -> bool {
    forall|i: int, j: int| 0 <= i < j < pairs.len() ==> #[trigger] pairs[i].0 != #[trigger] pairs[j].0
}

/// The listing a JSON value holds, if it is an object whose keys are
/// integers and whose values are strings: each identifier with its hash.
pub uninterp spec fn listing_of(v: serde_json::Value) -> Option<Map<i64, Seq<char>>>;

/// `ps` lists the entries of `m`, each once, in some order.
pub open spec fn lists(ps: Seq<(i64, Seq<char>)>, m: Map<i64, Seq<char>>) -> bool {
    &&& distinct_ids(ps)
    &&& ps.len() == m.len()
    &&& forall|i: int| 0 <= i < ps.len() ==> #[trigger] m.contains_key(ps[i].0) && m[ps[i].0] == ps[i].1
}

/// The listing in a history body, if it is JSON of that shape.
pub open spec fn history_listing(body: Seq<char>) -> Option<Map<i64, Seq<char>>> {
    match json_value_of(body) {
        Some(v) => listing_of(v),
        None => None,
    }
}

/// Relies on `serde_json::from_value` into a `HashMap<i64, String>`: the
/// entries of a JSON object whose keys are integers and whose values are
/// strings, or `None` for any other value. A map holds each key once; the
/// order of its entries is not fixed.
#[verifier::external_body]
fn id_hash_entries(v: serde_json::Value) -> (r: Option<Vec<Pair>>)
    ensures
        r is Some <==> listing_of(v) is Some,
        r matches Some(ps) ==> lists(pair_seq(ps@), listing_of(v)->0),
{
    serde_json::from_value::<std::collections::HashMap<i64, String>>(v).ok().map(
        |m| m.into_iter().collect(),
    )
}

/// A day's listing from the body the history feed sent: each identifier of
/// the JSON object with its access hash. `None` when the body is not such an
/// object.
pub fn decode_history(body: &str) -> (r: Option<Vec<Pair>>)
    ensures
        r is Some <==> history_listing(body@) is Some,
        r matches Some(ps) ==> lists(pair_seq(ps@), history_listing(body@)->0),
{
    match parse_json(body) {
        Some(v) => id_hash_entries(v),
        None => None,
    }
}

/// The pairs of a pass: each read day's pairs, in day order; a day that
/// failed adds nothing and does not stop the others.
pub fn collect_discovered(days: Vec<Option<Vec<Pair>>>) -> (r: Vec<Pair>)
    ensures
        pair_seq(r@) == discovered(day_outcomes(days@)),
{
    let ghost all = day_outcomes(days@);
    let n: usize = days.len();
    let mut rest = days;
    let mut out: Vec<Pair> = Vec::new();
    let mut i: usize = 0;
    while rest.len() > 0
        invariant
            i + rest@.len() == n,
            n == all.len(),
            day_outcomes(rest@) =~= all.subrange(i as int, n as int),
            pair_seq(out@) == discovered(all.take(i as int)),
        decreases rest@.len(),
    {
        let ghost before = rest@;
        let day = rest.remove(0);
        proof {
            assert(day_outcomes(before)[0] == all[i as int]);
            assert(day_outcomes(rest@) =~= day_outcomes(before).subrange(1, before.len() as int));
            assert(all.take(i as int + 1).drop_last() =~= all.take(i as int));
        }
        match day {
            Some(pairs) => {
                let mut pairs = pairs;
                let ghost prev = out@;
                out.append(&mut pairs);
                proof {
                    assert(pair_seq(out@) =~= pair_seq(prev) + contribution(all[i as int]));
                }
            },
            None => {
                proof {
                    assert(pair_seq(out@) =~= pair_seq(out@) + contribution(all[i as int]));
                }
            },
        }
        i = i + 1;
    }
    proof {
        assert(all.take(n as int) =~= all);
    }
    out
}

proof fn lemma_discovered_concat(
    a: Seq<Option<Seq<(i64, Seq<char>)>>>,
    b: Seq<Option<Seq<(i64, Seq<char>)>>>,
)
    ensures
        discovered(a + b) == discovered(a) + discovered(b),
    decreases b.len(),
{
    if b.len() == 0 {
        assert(a + b =~= a);
        assert(discovered(a) + discovered(b) =~= discovered(a));
    } else {
        lemma_discovered_concat(a, b.drop_last());
        assert((a + b).drop_last() =~= a + b.drop_last());
        assert(discovered(a) + discovered(b) =~= discovered(a) + discovered(b.drop_last()) + contribution(b.last()));
    }
}

/// A day whose listing could not be had takes nothing from the rest: the
/// pairs of the pass are those of the days before it followed by those of
/// the days after it.
pub proof fn lemma_failed_day_isolated(days: Seq<Option<Seq<(i64, Seq<char>)>>>, i: int)
    requires
        0 <= i < days.len(),
        days[i] is None,
    ensures
        discovered(days) == discovered(days.take(i)) + discovered(days.skip(i + 1)),
{
    let before = days.take(i);
    let after = days.skip(i + 1);
    let failed = seq![days[i]];
    assert(days =~= before + failed + after);
    lemma_discovered_concat(before + failed, after);
    lemma_discovered_concat(before, failed);
    assert(failed.drop_last() =~= Seq::<Option<Seq<(i64, Seq<char>)>>>::empty());
    assert(discovered(failed.drop_last()) =~= Seq::<(i64, Seq<char>)>::empty());
    assert(failed.last() is None);
    assert(contribution(failed.last()) =~= Seq::<(i64, Seq<char>)>::empty());
    assert(discovered(failed) =~= Seq::<(i64, Seq<char>)>::empty());
    assert(discovered(before) + discovered(failed) =~= discovered(before));
}

} // verus!
