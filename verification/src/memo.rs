//! The equity memo: a concurrent map from a drawn-card mask to the count
//! of favourable board completions for that configuration.
//!
//! The map itself comes from the dashmap crate; this module declares the
//! type to the verifier, names its contents, and wraps the few methods
//! the engine calls.
use vstd::prelude::*;

verus! {

#[verifier::external_type_specification]
#[verifier::external_body]
#[verifier::reject_recursive_types(K)]
#[verifier::reject_recursive_types(V)]
#[verifier::reject_recursive_types(S)]
pub struct ExDashMap<K, V, S>(dashmap::DashMap<K, V, S>);

/// The key-value pairs a dashmap holds.
pub uninterp spec fn dash_entries(m: dashmap::DashMap<u64, u64>) -> Map<u64, u64>;

/// Relies on dashmap::DashMap::new: creates an empty map.
#[verifier::external_body]
fn dash_new() -> (m: dashmap::DashMap<u64, u64>)
    ensures
        forall|k: u64| !dash_entries(m).dom().contains(k),
{
    dashmap::DashMap::new()
}

/// Relies on dashmap::DashMap::get: returns the value stored under the
/// key, or nothing when the key is absent.
#[verifier::external_body]
fn dash_get(m: &dashmap::DashMap<u64, u64>, k: u64) -> (r: Option<u64>)
    ensures
        r == if dash_entries(*m).dom().contains(k) {
            Some(dash_entries(*m)[k])
        } else {
            None::<u64>
        },
{
    match m.get(&k) {
        Some(v) => Some(*v),
        None => None,
    }
}

/// Relies on dashmap::DashMap::insert: stores the value under the key,
/// replacing any previous one.
#[verifier::external_body]
fn dash_insert(m: &mut dashmap::DashMap<u64, u64>, k: u64, v: u64)
    ensures
        dash_entries(*final(m)) == dash_entries(*old(m)).insert(k, v),
{
    m.insert(k, v);
}

/// Relies on dashmap::DashMap::clear: removes every entry.
#[verifier::external_body]
fn dash_clear(m: &mut dashmap::DashMap<u64, u64>)
    ensures
        forall|k: u64| !dash_entries(*final(m)).dom().contains(k),
{
    m.clear();
}

/// Relies on dashmap::DashMap::clone (the Clone impl): copies every
/// entry into a fresh map.
#[verifier::external_body]
fn dash_clone(m: &dashmap::DashMap<u64, u64>) -> (r: dashmap::DashMap<u64, u64>)
    ensures
        dash_entries(r) == dash_entries(*m),
{
    m.clone()
}

/// The shared equity memo, keyed by drawn-card mask.
pub struct Memo {
    map: dashmap::DashMap<u64, u64>,
}

impl View for Memo {
    type V = Map<u64, u64>;

    closed spec fn view(&self) -> Map<u64, u64> {
        dash_entries(self.map)
    }
}

impl Memo {
    pub fn new() -> (m: Memo)
        ensures
            m@ == Map::<u64, u64>::empty(),
    {
        let m = Memo { map: dash_new() };
        proof {
            assert(m@ =~= Map::<u64, u64>::empty());
        }
        m
    }

    pub fn get(&self, k: u64) -> (r: Option<u64>)
        ensures
            r == if self@.dom().contains(k) {
                Some(self@[k])
            } else {
                None::<u64>
            },
    {
        dash_get(&self.map, k)
    }

    pub fn insert(&mut self, k: u64, v: u64)
        ensures
            final(self)@ == old(self)@.insert(k, v),
    {
        dash_insert(&mut self.map, k, v);
    }

    pub fn clear(&mut self)
        ensures
            final(self)@ == Map::<u64, u64>::empty(),
    {
        dash_clear(&mut self.map);
        proof {
            assert(self@ =~= Map::<u64, u64>::empty());
        }
    }

    /// A copy holding the same entries.
    pub fn duplicate(&self) -> (r: Memo)
        ensures
            r@ == self@,
    {
        Memo { map: dash_clone(&self.map) }
    }
}

} // verus!
