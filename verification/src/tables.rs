//! The coordinator's sharded concurrent tables (`dashmap`), declared to Verus
//! and reached through small wrappers whose contracts describe each table by
//! its contents. Every mutation goes through `&mut`, so the contents seen
//! before and after a call are related exactly.

use dashmap::{DashMap, DashSet};
use vstd::prelude::*;

use crate::coordinator::{Job, Provider};
use crate::types::LedgerEntry;

verus! {

#[verifier::external_type_specification]
#[verifier::external_body]
#[verifier::reject_recursive_types(K)]
#[verifier::reject_recursive_types(V)]
#[verifier::reject_recursive_types(S)]
pub struct ExDashMap<K, V, S>(DashMap<K, V, S>);

#[verifier::external_type_specification]
#[verifier::external_body]
#[verifier::reject_recursive_types(K)]
#[verifier::reject_recursive_types(S)]
pub struct ExDashSet<K, S>(DashSet<K, S>);

/// The live provider directory, keyed by peer id.
pub uninterp spec fn provider_table(m: DashMap<String, Provider>) -> Map<Seq<char>, Provider>;

/// The ratio ledger, keyed by peer id.
pub uninterp spec fn ledger_table(m: DashMap<String, LedgerEntry>) -> Map<Seq<char>, LedgerEntry>;

/// Open jobs, keyed by job id.
pub uninterp spec fn job_table(m: DashMap<String, Job>) -> Map<Seq<char>, Job>;

/// The per-model index: model name -> the peer ids serving it.
pub uninterp spec fn model_index(m: DashMap<String, DashSet<String>>) -> Map<
    Seq<char>,
    Set<Seq<char>>,
>;

/// `entries` lists every key of `table` exactly once, each with its value.
pub open spec fn is_snapshot<V>(entries: Seq<(String, V)>, table: Map<Seq<char>, V>) -> bool {
    &&& forall|i: int|
        0 <= i < entries.len() ==> table.dom().contains(#[trigger] entries[i].0@) && table[entries[i].0@]
            == entries[i].1
    &&& forall|i: int, j: int|
        0 <= i < j < entries.len() ==> (#[trigger] entries[i].0)@ != (#[trigger] entries[j].0)@
    &&& forall|k: Seq<char>|
        #[trigger] table.dom().contains(k) ==> exists|i: int|
            0 <= i < entries.len() && (#[trigger] entries[i].0)@ == k
}

/// `peers` lists every element of `set` exactly once.
pub open spec fn lists_set(peers: Seq<String>, set: Set<Seq<char>>) -> bool {
    &&& forall|i: int| 0 <= i < peers.len() ==> set.contains(#[trigger] peers[i]@)
    &&& forall|i: int, j: int|
        0 <= i < j < peers.len() ==> (#[trigger] peers[i])@ != (#[trigger] peers[j])@
    &&& forall|k: Seq<char>|
        #[trigger] set.contains(k) ==> exists|i: int| 0 <= i < peers.len() && (#[trigger] peers[i])@ == k
}

/// `DashMap::new` for the provider directory: an empty table.
#[verifier::external_body]
pub(crate) fn new_provider_table() -> (r: DashMap<String, Provider>)
    ensures
        provider_table(r).is_empty(),
{
    DashMap::new()
}

/// `DashMap::new` for the ledger: an empty table.
#[verifier::external_body]
pub(crate) fn new_ledger_table() -> (r: DashMap<String, LedgerEntry>)
    ensures
        ledger_table(r).is_empty(),
{
    DashMap::new()
}

/// `DashMap::new` for the job table: an empty table.
#[verifier::external_body]
pub(crate) fn new_job_table() -> (r: DashMap<String, Job>)
    ensures
        job_table(r).is_empty(),
{
    DashMap::new()
}

/// `DashMap::new` for the model index: an empty index.
#[verifier::external_body]
pub(crate) fn new_model_index() -> (r: DashMap<String, DashSet<String>>)
    ensures
        model_index(r).is_empty(),
{
    DashMap::new()
}

/// `DashMap::get` on the provider directory, the entry copied out.
#[verifier::external_body]
pub(crate) fn provider_get(m: &DashMap<String, Provider>, peer: &str) -> (r: Option<Provider>)
    ensures
        r == provider_table(*m).get(peer@),
{
    m.get(peer).map(|e| e.value().clone())
}

/// `DashMap::insert` on the provider directory.
#[verifier::external_body]
pub(crate) fn provider_insert(m: &mut DashMap<String, Provider>, peer: String, p: Provider)
    ensures
        provider_table(*final(m)) == provider_table(*old(m)).insert(peer@, p),
{
    m.insert(peer, p);
}

/// `DashMap::iter` over the provider directory, entries copied out (in the
/// table's own, unspecified order).
#[verifier::external_body]
pub(crate) fn provider_entries(m: &DashMap<String, Provider>) -> (r: Vec<(String, Provider)>)
    ensures
        is_snapshot(r@, provider_table(*m)),
{
    m.iter().map(|e| (e.key().clone(), e.value().clone())).collect()
}

/// `DashMap::get` on the ledger, the entry copied out.
#[verifier::external_body]
pub(crate) fn ledger_get(m: &DashMap<String, LedgerEntry>, peer: &str) -> (r: Option<LedgerEntry>)
    ensures
        r == ledger_table(*m).get(peer@),
{
    m.get(peer).map(|e| e.value().clone())
}

/// `DashMap::contains_key` on the ledger.
#[verifier::external_body]
pub(crate) fn ledger_contains(m: &DashMap<String, LedgerEntry>, peer: &str) -> (r: bool)
    ensures
        r == ledger_table(*m).dom().contains(peer@),
{
    m.contains_key(peer)
}

/// `DashMap::insert` on the ledger.
#[verifier::external_body]
pub(crate) fn ledger_insert(m: &mut DashMap<String, LedgerEntry>, peer: String, e: LedgerEntry)
    ensures
        ledger_table(*final(m)) == ledger_table(*old(m)).insert(peer@, e),
{
    m.insert(peer, e);
}

/// `DashMap::remove` on the provider directory.
#[verifier::external_body]
pub(crate) fn provider_remove(m: &mut DashMap<String, Provider>, peer: &str)
    ensures
        provider_table(*final(m)) == provider_table(*old(m)).remove(peer@),
{
    m.remove(peer);
}

/// `DashMap::contains_key` on the job table.
#[verifier::external_body]
pub(crate) fn job_contains(m: &DashMap<String, Job>, id: &str) -> (r: bool)
    ensures
        r == job_table(*m).dom().contains(id@),
{
    m.contains_key(id)
}

/// `DashMap::insert` on the job table.
#[verifier::external_body]
pub(crate) fn job_insert(m: &mut DashMap<String, Job>, id: String, j: Job)
    ensures
        job_table(*final(m)) == job_table(*old(m)).insert(id@, j),
{
    m.insert(id, j);
}

/// `DashMap::remove` on the job table: the removed job, if any.
#[verifier::external_body]
pub(crate) fn job_remove(m: &mut DashMap<String, Job>, id: &str) -> (r: Option<Job>)
    ensures
        r == job_table(*old(m)).get(id@),
        job_table(*final(m)) == job_table(*old(m)).remove(id@),
{
    m.remove(id).map(|(_, j)| j)
}

/// `DashMap::iter` over the job table, entries copied out (unspecified order).
#[verifier::external_body]
pub(crate) fn job_entries(m: &DashMap<String, Job>) -> (r: Vec<(String, Job)>)
    ensures
        is_snapshot(r@, job_table(*m)),
{
    m.iter().map(|e| (e.key().clone(), e.value().clone())).collect()
}

/// `DashMap::get` on the model index: the peers listed for `model`, in the
/// set's own (unspecified) order.
#[verifier::external_body]
pub(crate) fn index_peers(m: &DashMap<String, DashSet<String>>, model: &str) -> (r: Option<Vec<String>>)
    ensures
        match model_index(*m).get(model@) {
            None => r is None,
            Some(set) => r matches Some(v) && lists_set(v@, set),
        },
{
    m.get(model).map(|set| set.iter().map(|p| p.key().clone()).collect())
}

/// `DashMap::entry(..).or_default()` then `DashSet::insert`: list `peer`
/// under `model`, creating the model's entry when absent.
#[verifier::external_body]
pub(crate) fn index_add(m: &mut DashMap<String, DashSet<String>>, model: String, peer: String)
    ensures
        model_index(*final(m)) == model_index(*old(m)).insert(
            model@,
            match model_index(*old(m)).get(model@) {
                Some(set) => set.insert(peer@),
                None => Set::<Seq<char>>::empty().insert(peer@),
            },
        ),
{
    m.entry(model).or_default().insert(peer);
}

/// `DashMap::get` then `DashSet::remove`: unlist `peer` under `model` (the
/// model's entry stays, possibly empty).
#[verifier::external_body]
pub(crate) fn index_remove(m: &mut DashMap<String, DashSet<String>>, model: &str, peer: &str)
    ensures
        model_index(*final(m)) == match model_index(*old(m)).get(model@) {
            Some(set) => model_index(*old(m)).insert(model@, set.remove(peer@)),
            None => model_index(*old(m)),
        },
{
    if let Some(set) = m.get(model) {
        set.remove(peer);
    }
}

} // verus!
