//! Hash maps of `rustc_hash`, whose contents are known to Verus by the names and
//! contracts in this file.
//!
//! An `FxHashMap` is the standard `HashMap` with `FxBuildHasher`, which starts every
//! hasher from the same state. So equal keys have equal hashes, and a map finds a key by
//! what it is equal to: a number by its value, a text by its characters.

use rustc_hash::{FxBuildHasher, FxHashMap};
use vstd::prelude::*;

use crate::diagnostics::PeerDiagnostics;
use crate::traffic::Counter;

verus! {

/// The hash builder of `rustc_hash`: a map type mentions it, and nothing here
/// looks inside it.
#[verifier::external_type_specification]
#[verifier::external_body]
pub struct ExFxBuildHasher(FxBuildHasher);

/// The counters that a map holds, by the text of their category.
pub uninterp spec fn counters_of(map: FxHashMap<&'static str, Counter>) -> Map<Seq<char>, Counter>;

/// `FxHashMap::default`: the map that it makes holds nothing.
#[verifier::external_body]
pub(crate) fn new_counters() -> (made: FxHashMap<&'static str, Counter>)
    ensures
        counters_of(made) == (Map::<Seq<char>, Counter>::empty()),
{
    FxHashMap::default()
}

/// `FxHashMap::get`, the value copied: the counter that the map has for the text of
/// `category`, if it has one.
#[verifier::external_body]
pub(crate) fn counter_of(
    map: &FxHashMap<&'static str, Counter>,
    category: &'static str,
) -> (found: Option<Counter>)
    ensures
        found == (if counters_of(*map).contains_key(category@) {
            Some(counters_of(*map)[category@])
        } else {
            None
        }),
{
    map.get(category).copied()
}

/// `FxHashMap::insert`: afterwards the map has `counter` for the text of `category`,
/// and its other counters are what they were.
#[verifier::external_body]
pub(crate) fn put_counter(
    map: &mut FxHashMap<&'static str, Counter>,
    category: &'static str,
    counter: Counter,
)
    ensures
        counters_of(*final(map)) == counters_of(*old(map)).insert(category@, counter),
{
    map.insert(category, counter);
}

/// `FxHashMap::iter`, each item copied: every category that the map holds is listed
/// once with its counter, and nothing else is. Nothing is said of the order.
#[verifier::external_body]
pub(crate) fn listed_counters(map: &FxHashMap<&'static str, Counter>) -> (listed: Vec<
    (&'static str, Counter),
>)
    ensures
        forall|i: int|
            0 <= i < listed@.len() ==> counters_of(*map).contains_key(#[trigger] listed@[i].0@)
                && counters_of(*map)[listed@[i].0@] == listed@[i].1,
        forall|i: int, j: int|
            0 <= i < j < listed@.len() ==> #[trigger] listed@[i].0@ != #[trigger] listed@[j].0@,
        forall|category: Seq<char>| #[trigger]
            counters_of(*map).contains_key(category) ==> exists|i: int|
                0 <= i < listed@.len() && #[trigger] listed@[i].0@ == category,
{
    map.iter().map(|(category, counter)| (*category, *counter)).collect()
}

/// The peers that a map holds, by their number.
pub uninterp spec fn peers_of(map: FxHashMap<u64, PeerDiagnostics>) -> Map<u64, PeerDiagnostics>;

/// `FxHashMap::default`: the map that it makes holds nobody.
#[verifier::external_body]
pub(crate) fn new_peers() -> (made: FxHashMap<u64, PeerDiagnostics>)
    ensures
        peers_of(made) == (Map::<u64, PeerDiagnostics>::empty()),
{
    FxHashMap::default()
}

/// `FxHashMap::get`: what the map has for `peer`, if it has anything.
#[verifier::external_body]
pub(crate) fn peer_of(map: &FxHashMap<u64, PeerDiagnostics>, peer: u64) -> (found: Option<
    &PeerDiagnostics,
>)
    ensures
        found == (if peers_of(*map).contains_key(peer) {
            Some(&peers_of(*map)[peer])
        } else {
            None
        }),
{
    map.get(&peer)
}

/// `FxHashMap::get_mut`: what the map has for `peer`, if it has anything. What is left
/// behind the reference is what the map has for that peer from then on; the other
/// peers stay.
#[verifier::external_body]
pub(crate) fn peer_mut(map: &mut FxHashMap<u64, PeerDiagnostics>, peer: u64) -> (found: Option<
    &mut PeerDiagnostics,
>)
    ensures
        match found {
            Some(stats) => {
                &&& peers_of(*old(map)).contains_key(peer)
                &&& *stats == peers_of(*old(map))[peer]
                &&& peers_of(*final(map)) == peers_of(*old(map)).insert(peer, *final(stats))
            },
            None => {
                &&& !peers_of(*old(map)).contains_key(peer)
                &&& peers_of(*final(map)) == peers_of(*old(map))
            },
        },
{
    map.get_mut(&peer)
}

/// `FxHashMap::insert`: afterwards the map has `stats` for `peer`, and the other peers
/// are what they were.
#[verifier::external_body]
pub(crate) fn put_peer(
    map: &mut FxHashMap<u64, PeerDiagnostics>,
    peer: u64,
    stats: PeerDiagnostics,
)
    ensures
        peers_of(*final(map)) == peers_of(*old(map)).insert(peer, stats),
{
    map.insert(peer, stats);
}

} // verus!
