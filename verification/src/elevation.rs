//! The elevation of every node that a selected way refers to.

use fxhash::FxHashMap;
use vstd::prelude::*;

verus! {

/// `fxhash::FxHasher`, the hasher of the index's map. Nothing is said of it.
#[verifier::external_type_specification]
#[verifier::external_body]
pub struct ExFxHasher(fxhash::FxHasher);

/// `std::hash::BuildHasherDefault`, which makes the map's hashers. Nothing is
/// said of it.
#[verifier::external_type_specification]
#[verifier::external_body]
#[verifier::reject_recursive_types(H)]
pub struct ExBuildHasherDefault<H>(std::hash::BuildHasherDefault<H>);

/// `FxHashMap::default`: a map that holds no key.
#[verifier::external_body]
fn fx_empty() -> (r: FxHashMap<i64, i64>)
    ensures
        forall|key: i64| !r@.contains_key(key),
{
    FxHashMap::default()
}

/// `HashMap::insert` on a map hashed by `FxHasher`: afterwards the map holds
/// `value` under `key` and is otherwise unchanged.
#[verifier::external_body]
fn fx_insert(m: &mut FxHashMap<i64, i64>, key: i64, value: i64)
    ensures
        final(m)@ == old(m)@.insert(key, value),
{
    m.insert(key, value);
}

/// `HashMap::get` on a map hashed by `FxHasher`: the value held under `key`,
/// if any.
#[verifier::external_body]
fn fx_get(m: &FxHashMap<i64, i64>, key: i64) -> (r: Option<i64>)
    ensures
        r == if m@.contains_key(key) {
            Some(m@[key])
        } else {
            None
        },
{
    match m.get(&key) {
        Some(value) => Some(*value),
        None => None,
    }
}

/// One sampled node: its id and the elevation read for it.
#[derive(Clone, Copy, Debug, PartialEq, Eq, Structural)]
pub struct Sample {
    pub node: i64,
    pub elevation: i64,
}

/// The elevations recorded by a run of samples, later samples of a node
/// replacing earlier ones.
pub open spec fn recorded(samples: Seq<Sample>) -> Map<i64, i64>
    decreases samples.len(),
{
    if samples.len() == 0 {
        Map::empty()
    } else {
        recorded(samples.drop_last()).insert(samples.last().node, samples.last().elevation)
    }
}

/// A node is recorded exactly when it was sampled, and then with the
/// elevation of its last sample.
pub proof fn lemma_recorded(samples: Seq<Sample>, node: i64)
    ensures
        recorded(samples).contains_key(node) <==> exists|i: int|
            0 <= i < samples.len() && (#[trigger] samples[i]).node == node,
        recorded(samples).contains_key(node) ==> exists|i: int|
            {
                &&& 0 <= i < samples.len()
                &&& (#[trigger] samples[i]).node == node
                &&& samples[i].elevation == recorded(samples)[node]
                &&& forall|j: int| i < j < samples.len() ==> (#[trigger] samples[j]).node != node
            },
    decreases samples.len(),
{
    if samples.len() > 0 {
        let before = samples.drop_last();
        let last = samples.len() - 1;
        lemma_recorded(before, node);
        if samples[last].node == node {
            assert(samples[last].elevation == recorded(samples)[node]);
        } else if recorded(before).contains_key(node) {
            let i = choose|i: int|
                {
                    &&& 0 <= i < before.len()
                    &&& (#[trigger] before[i]).node == node
                    &&& before[i].elevation == recorded(before)[node]
                    &&& forall|j: int| i < j < before.len() ==> (#[trigger] before[j]).node != node
                };
            assert(samples[i] == before[i]);
            assert forall|j: int| i < j < samples.len() implies (#[trigger] samples[j]).node
                != node by {
                if j < last {
                    assert(samples[j] == before[j]);
                }
            }
        } else {
            if exists|i: int| 0 <= i < samples.len() && (#[trigger] samples[i]).node == node {
                let i = choose|i: int|
                    0 <= i < samples.len() && (#[trigger] samples[i]).node == node;
                assert(before[i] == samples[i]);
            }
        }
    }
}

/// Where no node is sampled twice, every sample is recorded as it stands,
/// whatever the order of the samples.
pub proof fn lemma_recorded_of_distinct(samples: Seq<Sample>, i: int)
    requires
        0 <= i < samples.len(),
        forall|j: int, k: int|
            0 <= j < k < samples.len() ==> (#[trigger] samples[j]).node != (
            #[trigger] samples[k]).node,
    ensures
        recorded(samples).contains_key(samples[i].node),
        recorded(samples)[samples[i].node] == samples[i].elevation,
{
    lemma_recorded(samples, samples[i].node);
}

/// A map from node id to elevation. It is built once from the samples and
/// only read afterwards.
pub struct ElevationIndex {
    map: FxHashMap<i64, i64>,
}

impl View for ElevationIndex {
    type V = Map<i64, i64>;

    closed spec fn view(&self) -> Map<i64, i64> {
        self.map@
    }
}

impl ElevationIndex {
    /// Builds the index that holds exactly the elevations recorded by
    /// `samples`.
    pub fn build(samples: &Vec<Sample>) -> (index: ElevationIndex)
        ensures
            index@ == recorded(samples@),
    {
        let mut map = fx_empty();
        proof {
            assert(map@ =~= Map::empty());
        }
        let mut i: usize = 0;
        while i < samples.len()
            invariant
                i <= samples.len(),
                map@ == recorded(samples@.take(i as int)),
            decreases samples.len() - i,
        {
            let sample = samples[i];
            fx_insert(&mut map, sample.node, sample.elevation);
            proof {
                assert(samples@.take(i + 1).drop_last() == samples@.take(i as int));
            }
            i += 1;
        }
        proof {
            assert(samples@.take(samples.len() as int) == samples@);
        }
        ElevationIndex { map }
    }

    /// The elevation of `node`, or `None` when the node was never sampled.
    pub fn get(&self, node: i64) -> (r: Option<i64>)
        ensures
            r == if self@.contains_key(node) {
                Some(self@[node])
            } else {
                None
            },
    {
        fx_get(&self.map, node)
    }
}

} // verus!
