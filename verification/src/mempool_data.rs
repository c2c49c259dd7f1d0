use std::collections::HashMap;
use vstd::prelude::*;
use crate::str_map::StrMap;
use crate::text::texts;
use vstd::std_specs::hash::spec_keys_iter;
use vstd::std_specs::iter::IteratorSpec;

verus! {

broadcast use vstd::std_specs::hash::group_hash_axioms;

/// The descendants and the ancestors of transactions, each under the
/// transaction's id.
pub struct AscenDescenForTxid {
    pub descen: StrMap<Vec<String>>,
    pub ascen: StrMap<Vec<String>>,
}

impl AscenDescenForTxid {
    /// No transaction yet.
    pub fn new() -> (r: AscenDescenForTxid)
        ensures
            r.descen@ == Map::<Seq<char>, Vec<String>>::empty(),
            r.ascen@ == Map::<Seq<char>, Vec<String>>::empty(),
            r.descen.key_seq() == Seq::<Seq<char>>::empty(),
            r.ascen.key_seq() == Seq::<Seq<char>>::empty(),
    {
        AscenDescenForTxid { descen: StrMap::new(), ascen: StrMap::new() }
    }

    /// Forgets every transaction in both maps.
    pub fn delete(&mut self)
        ensures
            final(self).descen@ == Map::<Seq<char>, Vec<String>>::empty(),
            final(self).ascen@ == Map::<Seq<char>, Vec<String>>::empty(),
            final(self).descen.key_seq() == Seq::<Seq<char>>::empty(),
            final(self).ascen.key_seq() == Seq::<Seq<char>>::empty(),
    {
        self.descen.clear();
        self.ascen.clear();
    }
}

/// What the node reports of one mempool transaction.
///
/// The fee is a floating-point number of bitcoins; it is carried here as the
/// 64 bits of its IEEE 754 encoding (`f64::to_bits`), which the library only
/// stores and hands on.
#[derive(Clone, Copy, Debug, PartialEq, Eq, Structural)]
pub struct MempoolDat {
    pub vsize: u64,
    pub weight: u64,
    pub time: u64,
    pub fees_base_bits: u64,
    pub num_ascen: u64,
    pub num_descen: u64,
}

impl MempoolDat {
    /// A record with the given fields.
    pub fn new(
        vsize: u64,
        weight: u64,
        time: u64,
        fees_base_bits: u64,
        num_ascen: u64,
        num_descen: u64,
    ) -> (d: MempoolDat)
        ensures
            d == (MempoolDat { vsize, weight, time, fees_base_bits, num_ascen, num_descen }),
    {
        MempoolDat { vsize, weight, time, fees_base_bits, num_ascen, num_descen }
    }

    /// The record of a transaction of which nothing is known: every field is
    /// zero (the fee too, as `0.0` is encoded by all-zero bits).
    pub open spec fn zero() -> MempoolDat {
        MempoolDat { vsize: 0, weight: 0, time: 0, fees_base_bits: 0, num_ascen: 0, num_descen: 0 }
    }
}

/// The mempool transactions that have ancestors or descendants, by id.
pub struct RawMempool {
    pub data: StrMap<MempoolDat>,
}

impl RawMempool {
    /// An empty mempool.
    pub fn new() -> (r: RawMempool)
        ensures
            r.data@ == Map::<Seq<char>, MempoolDat>::empty(),
            r.data.key_seq() == Seq::<Seq<char>>::empty(),
    {
        RawMempool { data: StrMap::new() }
    }

    /// Whether `txid` is in the mempool.
    pub fn txid_exists(&self, txid: &str) -> (b: bool)
        ensures
            b == self.data@.contains_key(txid@),
            b == self.data.key_seq().contains(txid@),
    {
        self.data.contains_key(txid)
    }
}

/// Various facts about the mempool, as text: the hash of the last block, the
/// number of transactions in the mempool, and the number of those that have
/// ancestors or descendants.
pub struct MempoolVarInfo {
    pub last_block: String,
    pub txs_totales: String,
    pub txs_ascen_descen: String,
}

impl MempoolVarInfo {
    /// Facts with the given last block and, as yet, empty counts.
    pub fn new(last_block: String) -> (r: MempoolVarInfo)
        ensures
            r.last_block == last_block,
            r.txs_totales@ == Seq::<char>::empty(),
            r.txs_ascen_descen@ == Seq::<char>::empty(),
    {
        MempoolVarInfo { last_block, txs_totales: String::new(), txs_ascen_descen: String::new() }
    }
}

/// The ids of the transactions, grouped by weight.
pub struct WeightTX {
    pub weight_tx: HashMap<u64, Vec<String>>,
}

impl View for WeightTX {
    type V = Map<u64, Seq<Seq<char>>>;

    open spec fn view(&self) -> Map<u64, Seq<Seq<char>>> {
        Map::new(|w: u64| self.weight_tx@.contains_key(w), |w: u64| texts(self.weight_tx@[w]@))
    }
}

/// Sorts a list of weights with std's `<[u64]>::sort`. The contract claims
/// what its documentation says: the result is in increasing order and holds
/// the same weights, each as often as before.
#[verifier::external_body]
fn sort_weights(v: &mut Vec<u64>)
    ensures
        final(v)@.to_multiset() == old(v)@.to_multiset(),
        forall|i: int, j: int| 0 <= i <= j < final(v)@.len() ==> final(v)@[i] <= final(v)@[j],
{
    v.sort();
}

/// The same weights in the opposite order.
fn reversed_weights(v: &Vec<u64>) -> (r: Vec<u64>)
    ensures
        r@ == v@.reverse(),
{
    let mut r: Vec<u64> = Vec::new();
    let mut i: usize = v.len();
    while i > 0
        invariant
            i <= v.len(),
            r@ == v@.subrange(i as int, v.len() as int).reverse(),
        decreases i,
    {
        i = i - 1;
        r.push(v[i]);
        assert(v@.subrange(i as int, v.len() as int).reverse() =~= v@.subrange(
            i + 1,
            v.len() as int,
        ).reverse().push(v@[i as int]));
    }
    assert(v@.subrange(0, v.len() as int) =~= v@);
    r
}

/// A copy of a list of ids.
fn clone_ids(v: &Vec<String>) -> (r: Vec<String>)
    ensures
        texts(r@) == texts(v@),
{
    let r = v.clone();
    assert(texts(r@) =~= texts(v@));
    r
}

impl WeightTX {
    /// No weight yet.
    pub fn new() -> (r: WeightTX)
        ensures
            r@ == Map::<u64, Seq<Seq<char>>>::empty(),
    {
        let r = WeightTX { weight_tx: HashMap::new() };
        assert(r@ =~= Map::<u64, Seq<Seq<char>>>::empty());
        r
    }

    /// Forgets every weight.
    pub fn erase_weight_tx(&mut self)
        ensures
            final(self)@ == Map::<u64, Seq<Seq<char>>>::empty(),
    {
        self.weight_tx.clear();
        assert(self@ =~= Map::<u64, Seq<Seq<char>>>::empty());
    }

    /// The weights of the map, from the heaviest to the lightest.
    pub fn weights_heaviest_first(&self) -> (weights: Vec<u64>)
        ensures
            forall|i: int, j: int| 0 <= i < j < weights@.len() ==> weights@[i] > weights@[j],
            forall|w: u64| weights@.contains(w) <==> #[trigger] self.weight_tx@.contains_key(w),
    {
        let mut weights: Vec<u64> = Vec::new();
        let ghost all_keys = spec_keys_iter(&self.weight_tx).remaining();
        for w in it: self.weight_tx.keys()
            invariant
                it.seq() == all_keys,
                weights@ == all_keys.take(it.index() as int).unref(),
        {
            weights.push(*w);
            assert(all_keys.take(it.index() + 1).unref() =~= all_keys.take(it.index() as int).unref().push(*w));
        }
        assert(weights@ =~= all_keys.unref());
        assert(weights@.to_set() == self.weight_tx@.dom());
        assert(weights@.no_duplicates());
        let ghost unsorted = weights@;
        sort_weights(&mut weights);
        let ghost sorted = weights@;
        let weights = reversed_weights(&weights);
        proof {
            broadcast use vstd::seq_lib::to_multiset_contains;
            sorted.lemma_reverse_to_multiset();
            assert forall|x: u64| weights@.contains(x) <==> #[trigger] self.weight_tx@.contains_key(x) by {
                assert(weights@.contains(x) <==> weights@.to_multiset().count(x) > 0);
                assert(sorted.contains(x) <==> sorted.to_multiset().count(x) > 0);
                assert(unsorted.contains(x) <==> unsorted.to_multiset().count(x) > 0);
                assert(all_keys.unref().contains(x) <==> self.weight_tx@.dom().contains(x));
            }
            unsorted.lemma_multiset_has_no_duplicates();
            sorted.lemma_multiset_has_no_duplicates_conv();
            assert forall|i: int, j: int| 0 <= i < j < weights@.len() implies weights@[i] > weights@[j] by {
                let n = sorted.len();
                assert(weights@[i] == sorted[n - 1 - i]);
                assert(weights@[j] == sorted[n - 1 - j]);
                assert(sorted[n - 1 - j] <= sorted[n - 1 - i]);
                assert(sorted[n - 1 - j] != sorted[n - 1 - i]);
            }
        }
        weights
    }

    /// Rebuilds the map by inserting its weights from the heaviest to the
    /// lightest. A hash map keeps no order, so what it holds is unchanged.
    pub fn sort_by_weight(&mut self)
        ensures
            final(self)@ == old(self)@,
    {
        let weight_tx = self.weight_tx.clone();
        let weights = self.weights_heaviest_first();
        let mut weight_tx_sorted: HashMap<u64, Vec<String>> = HashMap::new();
        let mut i: usize = 0;
        while i < weights.len()
            invariant
                0 <= i <= weights.len(),
                forall|x: u64| weights@.contains(x) <==> #[trigger] weight_tx@.contains_key(x),
                forall|j: int| 0 <= j < i ==> #[trigger] weight_tx_sorted@.contains_key(weights@[j]),
                forall|k: u64| #[trigger] weight_tx_sorted@.contains_key(k) ==> weight_tx@.contains_key(k)
                    && texts(weight_tx_sorted@[k]@) == texts(weight_tx@[k]@),
            decreases weights.len() - i,
        {
            let weight = weights[i];
            assert(weights@.contains(weight));
            let txs = clone_ids(weight_tx.get(&weight).unwrap());
            weight_tx_sorted.insert(weight, txs);
            i = i + 1;
        }
        proof {
            assert forall|k: u64| weight_tx@.contains_key(k) implies #[trigger] weight_tx_sorted@.contains_key(k) by {
                assert(weights@.contains(k));
                let j = choose|j: int| 0 <= j < weights@.len() && weights@[j] == k;
            }
        }
        self.weight_tx = weight_tx_sorted;
        assert(self@ =~= old(self)@);
    }
}

/// The weight ranges: under a weight, the number of transactions counted up
/// to it.
pub struct RangeWeights {
    pub rang_data: HashMap<u64, u64>,
}

impl View for RangeWeights {
    type V = Map<u64, u64>;

    open spec fn view(&self) -> Map<u64, u64> {
        self.rang_data@
    }
}

/// What `add_range_data` makes of a map of ranges: a weight that is already
/// there keeps its count.
pub open spec fn with_range(ranges: Map<u64, u64>, weight: u64, num: u64) -> Map<u64, u64> {
    if ranges.contains_key(weight) {
        ranges
    } else {
        ranges.insert(weight, num)
    }
}

/// Law of `add_range_data`: once a weight has a count, a later count for it
/// is ignored.
pub proof fn lemma_with_range_keeps_first(ranges: Map<u64, u64>, weight: u64, first: u64, later: u64)
    ensures
        with_range(with_range(ranges, weight, first), weight, later) == with_range(ranges, weight, first),
        with_range(with_range(ranges, weight, first), weight, later).contains_key(weight),
{
}

impl RangeWeights {
    /// No range yet.
    pub fn new() -> (r: RangeWeights)
        ensures
            r@ == Map::<u64, u64>::empty(),
    {
        RangeWeights { rang_data: HashMap::new() }
    }

    /// Forgets every range.
    pub fn erase_range_data(&mut self)
        ensures
            final(self)@ == Map::<u64, u64>::empty(),
    {
        self.rang_data.clear();
    }

    /// Records `num` under `weight`, unless `weight` already has a count.
    pub fn add_range_data(&mut self, weight: u64, num: u64)
        ensures
            final(self)@ == with_range(old(self)@, weight, num),
    {
        if !self.rang_data.contains_key(&weight) {
            self.rang_data.insert(weight, num);
        }
    }
}

} // verus!
