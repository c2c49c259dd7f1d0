use vstd::prelude::*;
use vstd::std_specs::hash::spec_hash_map_iter;
use vstd::std_specs::iter::IteratorSpec;
use crate::mempool_data::{MempoolDat, MempoolVarInfo, RangeWeights, RawMempool, WeightTX, with_range};
use crate::text::texts;

verus! {

broadcast use vstd::std_specs::hash::group_hash_axioms;

/// A weight range is closed once it holds more than this many transactions.
pub const NUM_TXS_X_RANGE: u64 = 200;

/// Where a walk over the weights stands after the given `(weight, number of
/// transactions)` pairs: the count of the range being filled, the heaviest
/// weight seen, and the ranges closed so far.
pub open spec fn range_walk(walk: Seq<(u64, usize)>) -> (int, u64, Map<u64, u64>)
    decreases walk.len(),
{
    if walk.len() == 0 {
        (1, 0, Map::empty())
    } else {
        let (conta, max_weight, ranges) = range_walk(walk.drop_last());
        let (weight, n) = walk.last();
        let max_weight2 = if weight > max_weight { weight } else { max_weight };
        let conta2 = conta + n;
        if conta2 > NUM_TXS_X_RANGE {
            (1, max_weight2, with_range(ranges, weight, conta2 as u64))
        } else {
            (conta2, max_weight2, ranges)
        }
    }
}

/// The ranges of a walk: those closed on the way, and the last one, under
/// the heaviest weight (unless that weight already closed a range).
pub open spec fn ranges_of(walk: Seq<(u64, usize)>) -> Map<u64, u64> {
    let (conta, max_weight, ranges) = range_walk(walk);
    with_range(ranges, max_weight, conta as u64)
}

/// The count of a walk never passes `u64::MAX`.
pub open spec fn range_walk_fits(walk: Seq<(u64, usize)>) -> bool {
    forall|i: int|
        0 <= i < walk.len() ==> range_walk(walk.take(i)).0 + (#[trigger] walk[i]).1 <= u64::MAX
}

/// The count of the range being filled stays between 1 and the limit.
pub proof fn lemma_range_walk_count(walk: Seq<(u64, usize)>)
    ensures
        1 <= range_walk(walk).0 <= NUM_TXS_X_RANGE,
    decreases walk.len(),
{
    if walk.len() > 0 {
        lemma_range_walk_count(walk.drop_last());
    }
}

proof fn lemma_range_walk_step(walk: Seq<(u64, usize)>, i: int)
    requires
        0 <= i < walk.len(),
    ensures
        ({
            let (conta, max_weight, ranges) = range_walk(walk.take(i));
            let (weight, n) = walk[i];
            let max_weight2 = if weight > max_weight { weight } else { max_weight };
            let conta2 = conta + n;
            range_walk(walk.take(i + 1)) == if conta2 > NUM_TXS_X_RANGE {
                (1, max_weight2, with_range(ranges, weight, conta2 as u64))
            } else {
                (conta2, max_weight2, ranges)
            }
        }),
{
    assert(walk.take(i + 1).drop_last() =~= walk.take(i));
}

/// Computes the weight ranges of a walk over the weights, from the first pair
/// to the last: the count starts at one and grows by the number of
/// transactions of each weight; once it passes `NUM_TXS_X_RANGE` it is
/// recorded under that weight and starts again at one. The last count is
/// recorded under the heaviest weight.
#[verifier::spinoff_prover]
pub fn ranges_from_walk(range: &mut RangeWeights, walk: &Vec<(u64, usize)>)
    requires
        range_walk_fits(walk@),
    ensures
        final(range)@ == ranges_of(walk@),
{
    range.erase_range_data();
    let mut conta: u64 = 1;
    let mut max_weight: u64 = 0;
    let mut i: usize = 0;
    while i < walk.len()
        invariant
            0 <= i <= walk.len(),
            range_walk_fits(walk@),
            range_walk(walk@.take(i as int)) == (conta as int, max_weight, range@),
        decreases walk.len() - i,
    {
        let (weight, n) = walk[i];
        proof {
            lemma_range_walk_step(walk@, i as int);
        }
        assert(range_walk(walk@.take(i as int)).0 + walk@[i as int].1 <= u64::MAX);
        if weight > max_weight {
            max_weight = weight;
        }
        conta = conta + n as u64;
        if conta > NUM_TXS_X_RANGE {
            range.add_range_data(weight, conta);
            conta = 1;
        }
        i = i + 1;
    }
    assert(walk@.take(walk.len() as int) =~= walk@);
    range.add_range_data(max_weight, conta);
}

/// The heaviest weight of a walk, or 0 for an empty walk.
pub open spec fn heaviest(walk: Seq<(u64, usize)>) -> u64
    decreases walk.len(),
{
    if walk.len() == 0 {
        0
    } else {
        let m = heaviest(walk.drop_last());
        if walk.last().0 > m {
            walk.last().0
        } else {
            m
        }
    }
}

proof fn lemma_range_walk_closed(walk: Seq<(u64, usize)>)
    requires
        range_walk_fits(walk),
    ensures
        range_walk(walk).1 == heaviest(walk),
        forall|w: u64| #[trigger]
            range_walk(walk).2.contains_key(w) ==> range_walk(walk).2[w] > NUM_TXS_X_RANGE
                && exists|i: int| 0 <= i < walk.len() && walk[i].0 == w,
    decreases walk.len(),
{
    if walk.len() > 0 {
        let prefix = walk.drop_last();
        assert forall|i: int| 0 <= i < prefix.len() implies range_walk(prefix.take(i)).0
            + (#[trigger] prefix[i]).1 <= u64::MAX by {
            assert(prefix.take(i) =~= walk.take(i));
            assert(prefix[i] == walk[i]);
        }
        lemma_range_walk_closed(prefix);
        assert(walk.take(walk.len() - 1) =~= prefix);
        assert(range_walk(prefix).0 + walk[walk.len() - 1].1 <= u64::MAX);
        let ranges = range_walk(walk).2;
        assert forall|w: u64| #[trigger] ranges.contains_key(w) implies ranges[w] > NUM_TXS_X_RANGE
            && exists|i: int| 0 <= i < walk.len() && walk[i].0 == w by {
            if range_walk(prefix).2.contains_key(w) {
                let i = choose|i: int| 0 <= i < prefix.len() && prefix[i].0 == w;
                assert(walk[i].0 == w);
            } else {
                assert(walk[walk.len() - 1].0 == w);
            }
        }
    }
}

/// Law of the weight ranges: the heaviest weight always has a range; every
/// other weight with a range is a weight of the walk whose range holds more
/// than `NUM_TXS_X_RANGE` transactions; and no range is empty.
pub proof fn lemma_ranges_of_shape(walk: Seq<(u64, usize)>)
    requires
        range_walk_fits(walk),
    ensures
        ranges_of(walk).contains_key(heaviest(walk)),
        forall|w: u64| #[trigger]
            ranges_of(walk).contains_key(w) && w != heaviest(walk) ==> ranges_of(walk)[w]
                > NUM_TXS_X_RANGE && exists|i: int| 0 <= i < walk.len() && walk[i].0 == w,
        forall|w: u64| #[trigger] ranges_of(walk).contains_key(w) ==> ranges_of(walk)[w] >= 1,
{
    lemma_range_walk_closed(walk);
    lemma_range_walk_count(walk);
}

/// `walk` goes once through the weights of `groups`, each with the number of
/// its transactions.
pub open spec fn is_walk_of(walk: Seq<(u64, usize)>, groups: Map<u64, Seq<Seq<char>>>) -> bool {
    &&& walk.len() == groups.dom().len()
    &&& walk.map_values(|p: (u64, usize)| p.0).no_duplicates()
    &&& forall|i: int|
        0 <= i < walk.len() ==> groups.contains_key((#[trigger] walk[i]).0) && walk[i].1
            == groups[walk[i].0].len()
}

/// The weights of `weight_tx`, each with the number of its transactions, in
/// the order in which its hash map is walked. That order is the map's own
/// (the same map is walked the same way); which order it is, is left open.
pub open spec fn weight_walk(weight_tx: &WeightTX) -> Seq<(u64, usize)> {
    vstd::std_specs::hash::into_iter(spec_hash_map_iter(&weight_tx.weight_tx)).map_values(
        |p: (u64, Vec<String>)| (p.0, p.1.len()),
    )
}

/// Computes the weight ranges of `weight_tx`, walking its weights in the
/// order of the hash map; see `ranges_from_walk`. What the range held before
/// plays no part.
pub fn get_range_weights(range: &mut RangeWeights, weight_tx: &WeightTX)
    requires
        forall|w: u64| #[trigger]
            weight_tx@.contains_key(w) ==> weight_tx@[w].len() <= u64::MAX - NUM_TXS_X_RANGE,
    ensures
        is_walk_of(weight_walk(weight_tx), weight_tx@),
        final(range)@ == ranges_of(weight_walk(weight_tx)),
{
    let ghost m = weight_tx.weight_tx@;
    let ghost all = spec_hash_map_iter(&weight_tx.weight_tx).remaining();
    let mut walk: Vec<(u64, usize)> = Vec::new();
    for (w, txs) in it: weight_tx.weight_tx.iter()
        invariant
            it.seq() == all,
            walk@.len() == it.index(),
            forall|j: int| 0 <= j < it.index() ==> (#[trigger] walk@[j]).0 == *all[j].0
                && walk@[j].1 == all[j].1.len(),
    {
        walk.push((*w, txs.len()));
    }
    proof {
        let keys = walk@.map_values(|p: (u64, usize)| p.0);
        assert forall|a: int, b: int| 0 <= a < b < keys.len() implies keys[a] != keys[b] by {
            if keys[a] == keys[b] {
                assert(m[*all[a].0] == *all[a].1);
                assert(m[*all[b].0] == *all[b].1);
                assert(all[a] == all[b]);
            }
        }
        assert forall|j: int| 0 <= j < walk@.len() implies weight_tx@.contains_key(
            (#[trigger] walk@[j]).0,
        ) && walk@[j].1 == weight_tx@[walk@[j].0].len() by {
            assert(m.contains_key(*all[j].0) && m[*all[j].0] == *all[j].1);
        }
        assert(weight_tx@.dom() =~= m.dom());
        assert forall|i: int| 0 <= i < walk@.len() implies range_walk(walk@.take(i)).0
            + (#[trigger] walk@[i]).1 <= u64::MAX by {
            lemma_range_walk_count(walk@.take(i));
        }
        assert(is_walk_of(walk@, weight_tx@));
        assert(vstd::std_specs::hash::into_iter(spec_hash_map_iter(&weight_tx.weight_tx)) == all.unref());
        assert(walk@ =~= weight_walk(weight_tx));
    }
    ranges_from_walk(range, &walk);
}

/// The transaction ids of `pairs`, grouped by weight: each group lists the ids
/// of that weight in the order of `pairs`.
pub open spec fn group_by_weight(pairs: Seq<(Seq<char>, MempoolDat)>) -> Map<u64, Seq<Seq<char>>>
    decreases pairs.len(),
{
    if pairs.len() == 0 {
        Map::empty()
    } else {
        let groups = group_by_weight(pairs.drop_last());
        let (txid, dat) = pairs.last();
        if groups.contains_key(dat.weight) {
            groups.insert(dat.weight, groups[dat.weight].push(txid))
        } else {
            groups.insert(dat.weight, seq![txid])
        }
    }
}

/// Law of the weight groups: an id is listed under a weight exactly when
/// `pairs` holds it with that weight, no group is empty, and, when the ids of
/// `pairs` are distinct, no group lists an id twice.
pub proof fn lemma_group_by_weight_members(pairs: Seq<(Seq<char>, MempoolDat)>)
    ensures
        forall|w: u64, t: Seq<char>|
            group_by_weight(pairs).contains_key(w) && #[trigger] group_by_weight(pairs)[w].contains(t)
                ==> exists|i: int| 0 <= i < pairs.len() && (#[trigger] pairs[i]).0 == t && pairs[i].1.weight == w,
        forall|i: int|
            0 <= i < pairs.len() ==> group_by_weight(pairs).contains_key((#[trigger] pairs[i]).1.weight)
                && group_by_weight(pairs)[pairs[i].1.weight].contains(pairs[i].0),
        forall|w: u64| #[trigger]
            group_by_weight(pairs).contains_key(w) ==> group_by_weight(pairs)[w].len() > 0,
        pairs.map_values(|p: (Seq<char>, MempoolDat)| p.0).no_duplicates() ==> forall|w: u64| #[trigger]
            group_by_weight(pairs).contains_key(w) ==> group_by_weight(pairs)[w].no_duplicates(),
    decreases pairs.len(),
{
    if pairs.len() > 0 {
        let prefix = pairs.drop_last();
        lemma_group_by_weight_members(prefix);
        let g = group_by_weight(prefix);
        let g2 = group_by_weight(pairs);
        let n = pairs.len() - 1;
        let t = pairs[n].0;
        let d = pairs[n].1;
        assert(pairs.last() == pairs[n]);
        assert forall|w: u64, x: Seq<char>|
            g2.contains_key(w) && #[trigger] g2[w].contains(x) implies exists|i: int|
                0 <= i < pairs.len() && (#[trigger] pairs[i]).0 == x && pairs[i].1.weight == w by {
            if w == d.weight && x == t {
                assert(pairs[n].0 == x);
            } else {
                let j = choose|j: int| 0 <= j < g2[w].len() && g2[w][j] == x;
                if w == d.weight {
                    if g.contains_key(w) {
                        assert(g2[w] == g[w].push(t));
                        assert(j < g[w].len());
                        assert(g[w][j] == x);
                    } else {
                        assert(g2[w] == seq![t]);
                        assert(false);
                    }
                } else {
                    assert(g2[w] == g[w]);
                    assert(g[w][j] == x);
                }
                assert(g.contains_key(w) && g[w].contains(x));
                let i = choose|i: int| 0 <= i < prefix.len() && (#[trigger] prefix[i]).0 == x && prefix[i].1.weight == w;
                assert(pairs[i] == prefix[i]);
            }
        }
        assert forall|i: int| 0 <= i < pairs.len() implies g2.contains_key((#[trigger] pairs[i]).1.weight)
            && g2[pairs[i].1.weight].contains(pairs[i].0) by {
            let w = pairs[i].1.weight;
            let x = pairs[i].0;
            if i == n {
                assert(g2[w][g2[w].len() - 1] == x);
            } else {
                assert(prefix[i] == pairs[i]);
                assert(g.contains_key(w) && g[w].contains(x));
                let j = choose|j: int| 0 <= j < g[w].len() && g[w][j] == x;
                if w == d.weight {
                    assert(g2[w] == g[w].push(t));
                    assert(g2[w][j] == x);
                } else {
                    assert(g2[w] == g[w]);
                }
            }
        }
        let keys = pairs.map_values(|p: (Seq<char>, MempoolDat)| p.0);
        if keys.no_duplicates() {
            let pkeys = prefix.map_values(|p: (Seq<char>, MempoolDat)| p.0);
            assert forall|a: int, b: int| 0 <= a < b < pkeys.len() implies pkeys[a] != pkeys[b] by {
                assert(keys[a] == pkeys[a] && keys[b] == pkeys[b]);
            }
            if g.contains_key(d.weight) && g[d.weight].contains(t) {
                let i = choose|i: int| 0 <= i < prefix.len() && (#[trigger] prefix[i]).0 == t && prefix[i].1.weight == d.weight;
                assert(keys[i] == t && keys[n] == t);
            }
            assert forall|w: u64| #[trigger] g2.contains_key(w) implies g2[w].no_duplicates() by {
                if w == d.weight && g.contains_key(w) {
                    let s = g[w];
                    assert(g2[w] == s.push(t));
                    assert forall|a: int, b: int| 0 <= a < b < g2[w].len() implies g2[w][a] != g2[w][b] by {
                        if b == s.len() {
                            assert(s[a] == g2[w][a]);
                            assert(s.contains(g2[w][a]));
                        } else {
                            assert(s[a] == g2[w][a] && s[b] == g2[w][b]);
                        }
                    }
                } else if w == d.weight {
                    assert(g2[w] == seq![t]);
                } else {
                    assert(g2[w] == g[w]);
                }
            }
        }
    }
}

/// Groups the ids of the mempool by weight, in the mempool's order, then
/// rebuilds the groups from the heaviest weight down (`sort_by_weight`).
pub fn get_weight_tx(weight_tx: &mut WeightTX, raw: &RawMempool)
    ensures
        final(weight_tx)@ == group_by_weight(raw.data.pairs()),
{
    weight_tx.erase_weight_tx();
    let keys = raw.data.keys();
    let ghost pairs = raw.data.pairs();
    let mut i: usize = 0;
    while i < keys.len()
        invariant
            0 <= i <= keys.len(),
            keys@ == raw.data.key_list(),
            pairs == raw.data.pairs(),
            forall|k: Seq<char>| #[trigger] raw.data@.contains_key(k) <==> raw.data.key_seq().contains(k),
            weight_tx@ == group_by_weight(pairs.take(i as int)),
        decreases keys.len() - i,
    {
        let txid = &keys[i];
        assert(raw.data.key_seq()[i as int] == txid@);
        assert(raw.data@.contains_key(txid@));
        let dat = raw.data.get(txid.as_str()).unwrap();
        let weight = dat.weight;
        let ghost before = weight_tx@;
        assert(pairs.take(i + 1).drop_last() =~= pairs.take(i as int));
        assert(pairs.take(i + 1).last() == (txid@, *dat));
        match weight_tx.weight_tx.remove(&weight) {
            Some(mut ids) => {
                ids.push(txid.clone());
                weight_tx.weight_tx.insert(weight, ids);
                assert(texts(ids@) =~= before[weight].push(txid@));
            },
            None => {
                let mut ids: Vec<String> = Vec::new();
                ids.push(txid.clone());
                weight_tx.weight_tx.insert(weight, ids);
                assert(texts(ids@) =~= seq![txid@]);
            },
        }
        assert(weight_tx@ =~= group_by_weight(pairs.take(i + 1)));
        i = i + 1;
    }
    assert(pairs.take(keys.len() as int) =~= pairs);
    weight_tx.sort_by_weight();
}

/// The walking order of the mempool after the ids of `ids`, in turn, were
/// taken out of it.
pub open spec fn keys_without(keys: Seq<Seq<char>>, ids: Seq<Seq<char>>) -> Seq<Seq<char>>
    decreases ids.len(),
{
    if ids.len() == 0 {
        keys
    } else {
        keys_without(keys, ids.drop_last()).remove_value(ids.last())
    }
}

/// Takes out of the mempool every transaction of the last block that is in
/// it, and returns how many were taken out.
pub fn delete_txs_last_block(txs_last_block: Vec<String>, raw: &mut RawMempool) -> (conta: u64)
    ensures
        final(raw).data@ == old(raw).data@.remove_keys(texts(txs_last_block@).to_set()),
        final(raw).data.key_seq() == keys_without(old(raw).data.key_seq(), texts(txs_last_block@)),
        conta == old(raw).data@.dom().intersect(texts(txs_last_block@).to_set()).len(),
{
    let ghost old_map = raw.data@;
    let ghost old_keys = raw.data.key_seq();
    let ghost ids = texts(txs_last_block@);
    proof {
        assert(ids.take(0).to_set() =~= Set::<Seq<char>>::empty());
        assert(old_map.dom().intersect(Set::<Seq<char>>::empty()) =~= Set::<Seq<char>>::empty());
        assert(old_map.remove_keys(Set::<Seq<char>>::empty()) =~= old_map);
    }
    let mut conta: u64 = 0;
    let mut i: usize = 0;
    while i < txs_last_block.len()
        invariant
            0 <= i <= txs_last_block.len(),
            ids == texts(txs_last_block@),
            raw.data@ == old_map.remove_keys(ids.take(i as int).to_set()),
            raw.data.key_seq() == keys_without(old_keys, ids.take(i as int)),
            conta == old_map.dom().intersect(ids.take(i as int).to_set()).len(),
            conta <= i,
        decreases txs_last_block.len() - i,
    {
        let txid = &txs_last_block[i];
        let ghost before = ids.take(i as int).to_set();
        assert(ids.take(i + 1) =~= ids.take(i as int).push(txid@));
        proof {
            Seq::lemma_to_set_insert_commutes(ids.take(i as int), txid@);
            assert(ids.take(i as int) + seq![txid@] =~= ids.take(i + 1));
        }
        let ghost inter = old_map.dom().intersect(before);
        assert(ids.take(i + 1).drop_last() =~= ids.take(i as int));
        proof {
            raw.data.key_seq().index_of_first_ensures(txid@);
        }
        if raw.txid_exists(txid.as_str()) {
            raw.data.remove(txid);
            conta = conta + 1;
            proof {
                assert(!inter.contains(txid@));
                assert(old_map.dom().intersect(before.insert(txid@)) =~= inter.insert(txid@));
                vstd::seq_lib::seq_to_set_is_finite(ids.take(i as int));
                assert(inter =~= before.intersect(old_map.dom()));
                assert(inter.finite());
            }
        } else {
            proof {
                assert(old_map.dom().intersect(before.insert(txid@)) =~= inter);
            }
        }
        assert(raw.data@ =~= old_map.remove_keys(ids.take(i + 1).to_set()));
        i = i + 1;
    }
    assert(ids.take(txs_last_block.len() as int) =~= ids);
    conta
}

/// The walking order of the mempool after the fetched records, in order: the
/// id of a record with more than one descendant goes to the end unless it is
/// already there.
pub open spec fn keys_with_fetched(keys: Seq<Seq<char>>, fetched: Seq<(Seq<char>, MempoolDat)>) -> Seq<
    Seq<char>,
>
    decreases fetched.len(),
{
    if fetched.len() == 0 {
        keys
    } else {
        let k0 = keys_with_fetched(keys, fetched.drop_last());
        let (txid, dat) = fetched.last();
        if dat.num_descen > 1 && !k0.contains(txid) {
            k0.push(txid)
        } else {
            k0
        }
    }
}

/// What the node told of one mempool entry, field by field; a field that was
/// missing or not an unsigned integer is `None`. The fee is the 64 bits of its
/// floating-point encoding.
#[derive(Clone, Copy, Debug, PartialEq, Eq, Structural)]
pub struct MempoolEntry {
    pub vsize: Option<u64>,
    pub weight: Option<u64>,
    pub time: Option<u64>,
    pub fees_base_bits: Option<u64>,
    pub ancestorcount: Option<u64>,
    pub descendantcount: Option<u64>,
}

/// The value of a field, or zero where it is missing.
pub open spec fn or_zero(field: Option<u64>) -> u64 {
    match field {
        Some(v) => v,
        None => 0,
    }
}

/// The record of a transaction, from its mempool entry (`None` where the node
/// gave none): the entry's fields, missing ones as zero, when the entry counts
/// more than one descendant; otherwise the all-zero record.
pub open spec fn descendant_record(entry: Option<MempoolEntry>) -> MempoolDat {
    match entry {
        Some(e) => if or_zero(e.descendantcount) > 1 {
            MempoolDat {
                vsize: or_zero(e.vsize),
                weight: or_zero(e.weight),
                time: or_zero(e.time),
                fees_base_bits: or_zero(e.fees_base_bits),
                num_ascen: or_zero(e.ancestorcount),
                num_descen: or_zero(e.descendantcount),
            }
        } else {
            MempoolDat::zero()
        },
        None => MempoolDat::zero(),
    }
}

/// Law of the record of a transaction: with an entry that counts more than
/// one descendant, each field of the record is the entry's field of the same
/// name (zero where the node left it out); otherwise every field is zero.
pub proof fn lemma_descendant_record_fields(entry: Option<MempoolEntry>)
    ensures
        entry is Some && or_zero(entry.unwrap().descendantcount) > 1 ==> {
            &&& descendant_record(entry).vsize == or_zero(entry.unwrap().vsize)
            &&& descendant_record(entry).weight == or_zero(entry.unwrap().weight)
            &&& descendant_record(entry).time == or_zero(entry.unwrap().time)
            &&& descendant_record(entry).fees_base_bits == or_zero(entry.unwrap().fees_base_bits)
            &&& descendant_record(entry).num_ascen == or_zero(entry.unwrap().ancestorcount)
            &&& descendant_record(entry).num_descen == or_zero(entry.unwrap().descendantcount)
        },
        !(entry is Some && or_zero(entry.unwrap().descendantcount) > 1) ==> {
            &&& descendant_record(entry).vsize == 0
            &&& descendant_record(entry).weight == 0
            &&& descendant_record(entry).time == 0
            &&& descendant_record(entry).fees_base_bits == 0
            &&& descendant_record(entry).num_ascen == 0
            &&& descendant_record(entry).num_descen == 0
        },
        forall|v: u64| #[trigger] or_zero(Some(v)) == v,
        or_zero(None) == 0,
{
}

fn field_or_zero(field: Option<u64>) -> (v: u64)
    ensures
        v == or_zero(field),
{
    match field {
        Some(v) => v,
        None => 0,
    }
}

/// Makes the record of a transaction from its mempool entry; see
/// `descendant_record`.
pub fn get_descendant_count(entry: Option<MempoolEntry>) -> (dat: MempoolDat)
    ensures
        dat == descendant_record(entry),
{
    let mut my_mempool_dat = MempoolDat::new(0, 0, 0, 0, 0, 0);
    match entry {
        Some(e) => {
            let descendant_count = field_or_zero(e.descendantcount);
            if descendant_count > 1 {
                let vsize = field_or_zero(e.vsize);
                let weight = field_or_zero(e.weight);
                let time = field_or_zero(e.time);
                let fees_base_bits = field_or_zero(e.fees_base_bits);
                let num_ascen = field_or_zero(e.ancestorcount);
                let num_descen = field_or_zero(e.descendantcount);
                my_mempool_dat = MempoolDat::new(
                    vsize,
                    weight,
                    time,
                    fees_base_bits,
                    num_ascen,
                    num_descen,
                );
            }
            my_mempool_dat
        },
        None => my_mempool_dat,
    }
}

/// The fetched records as `(id, record)` pairs of character sequences.
pub open spec fn fetched_view(fetched: Seq<(String, MempoolDat)>) -> Seq<(Seq<char>, MempoolDat)> {
    fetched.map_values(|p: (String, MempoolDat)| (p.0@, p.1))
}

/// The mempool after the fetched records, in order, of which those with more
/// than one descendant are put in (a later record of the same id wins).
pub open spec fn with_fetched(m: Map<Seq<char>, MempoolDat>, fetched: Seq<(Seq<char>, MempoolDat)>) -> Map<
    Seq<char>,
    MempoolDat,
>
    decreases fetched.len(),
{
    if fetched.len() == 0 {
        m
    } else {
        let m0 = with_fetched(m, fetched.drop_last());
        let (txid, dat) = fetched.last();
        if dat.num_descen > 1 {
            m0.insert(txid, dat)
        } else {
            m0
        }
    }
}

/// How many of the fetched records have more than one descendant.
pub open spec fn count_with_descendants(fetched: Seq<(Seq<char>, MempoolDat)>) -> nat
    decreases fetched.len(),
{
    if fetched.len() == 0 {
        0
    } else {
        count_with_descendants(fetched.drop_last()) + if fetched.last().1.num_descen > 1 { 1nat } else { 0 }
    }
}

/// Law of the count of additions: it is the number of fetched records that
/// count more than one descendant.
pub proof fn lemma_count_with_descendants_filter(fetched: Seq<(Seq<char>, MempoolDat)>)
    ensures
        count_with_descendants(fetched) == fetched.filter(
            |p: (Seq<char>, MempoolDat)| p.1.num_descen > 1,
        ).len(),
    decreases fetched.len(),
{
    reveal_with_fuel(Seq::<_>::filter, 1);
    if fetched.len() > 0 {
        lemma_count_with_descendants_filter(fetched.drop_last());
    }
}

/// Puts into the mempool the new transactions, each with the record that was
/// fetched for it, when that record counts more than one descendant; returns
/// how many were put in.
pub fn add_txs_mempool_new_not_old(raw: &mut RawMempool, fetched: Vec<(String, MempoolDat)>) -> (conta: u64)
    ensures
        final(raw).data@ == with_fetched(old(raw).data@, fetched_view(fetched@)),
        final(raw).data.key_seq() == keys_with_fetched(old(raw).data.key_seq(), fetched_view(fetched@)),
        conta == count_with_descendants(fetched_view(fetched@)),
{
    let ghost old_map = raw.data@;
    let ghost old_keys = raw.data.key_seq();
    let ghost fv = fetched_view(fetched@);
    let mut conta: u64 = 0;
    let mut i: usize = 0;
    while i < fetched.len()
        invariant
            0 <= i <= fetched.len(),
            fv == fetched_view(fetched@),
            raw.data@ == with_fetched(old_map, fv.take(i as int)),
            raw.data.key_seq() == keys_with_fetched(old_keys, fv.take(i as int)),
            conta == count_with_descendants(fv.take(i as int)),
            conta <= i,
        decreases fetched.len() - i,
    {
        let (txid, my_mempool_dat) = &fetched[i];
        assert(fv.take(i + 1).drop_last() =~= fv.take(i as int));
        assert(fv.take(i + 1).last() == (txid@, *my_mempool_dat));
        if my_mempool_dat.num_descen > 1 {
            raw.data.insert(txid.clone(), *my_mempool_dat);
            conta = conta + 1;
        }
        i = i + 1;
    }
    assert(fv.take(fetched.len() as int) =~= fv);
    conta
}

/// Law of the fetched records: a transaction is in the mempool afterwards
/// exactly when it was before or a record with more than one descendant was
/// fetched for it; a transaction that comes in has such a record.
pub proof fn lemma_with_fetched_members(m: Map<Seq<char>, MempoolDat>, fetched: Seq<(Seq<char>, MempoolDat)>)
    ensures
        forall|t: Seq<char>| #[trigger]
            with_fetched(m, fetched).contains_key(t) <==> m.contains_key(t) || exists|i: int|
                0 <= i < fetched.len() && (#[trigger] fetched[i]).0 == t && fetched[i].1.num_descen > 1,
        forall|t: Seq<char>| #[trigger]
            with_fetched(m, fetched).contains_key(t) && !m.contains_key(t) ==> with_fetched(
                m,
                fetched,
            )[t].num_descen > 1,
    decreases fetched.len(),
{
    if fetched.len() > 0 {
        let prefix = fetched.drop_last();
        lemma_with_fetched_members(m, prefix);
        let n = fetched.len() - 1;
        assert(fetched.last() == fetched[n]);
        assert forall|t: Seq<char>| #[trigger]
            with_fetched(m, fetched).contains_key(t) <==> m.contains_key(t) || exists|i: int|
                0 <= i < fetched.len() && (#[trigger] fetched[i]).0 == t && fetched[i].1.num_descen > 1 by {
            if exists|i: int| 0 <= i < fetched.len() && (#[trigger] fetched[i]).0 == t && fetched[i].1.num_descen > 1 {
                let i = choose|i: int| 0 <= i < fetched.len() && (#[trigger] fetched[i]).0 == t && fetched[i].1.num_descen > 1;
                if i < n {
                    assert(prefix[i] == fetched[i]);
                }
            }
            if with_fetched(m, prefix).contains_key(t) && !m.contains_key(t) {
                let i = choose|i: int| 0 <= i < prefix.len() && (#[trigger] prefix[i]).0 == t && prefix[i].1.num_descen > 1;
                assert(fetched[i] == prefix[i]);
            }
        }
        assert forall|t: Seq<char>| #[trigger]
            with_fetched(m, fetched).contains_key(t) && !m.contains_key(t) implies with_fetched(
                m,
                fetched,
            )[t].num_descen > 1 by {
            if !(fetched[n].0 == t && fetched[n].1.num_descen > 1) {
                assert(with_fetched(m, prefix).contains_key(t));
            }
        }
    }
}

/// The records that `get_descendant_count` makes from the entries of
/// `txids`, paired with their ids.
pub open spec fn records_of(txids: Seq<Seq<char>>, entries: Seq<Option<MempoolEntry>>) -> Seq<(Seq<char>, MempoolDat)> {
    Seq::new(txids.len(), |i: int| (txids[i], descendant_record(entries[i])))
}

/// Law of the new transactions: a transaction enters the mempool only if the
/// node gave an entry for it that counts more than one descendant (its record
/// being made by `get_descendant_count`).
pub proof fn lemma_only_txs_with_descendants_enter(
    m: Map<Seq<char>, MempoolDat>,
    txids: Seq<Seq<char>>,
    entries: Seq<Option<MempoolEntry>>,
)
    requires
        txids.len() == entries.len(),
    ensures
        forall|t: Seq<char>| #[trigger]
            with_fetched(m, records_of(txids, entries)).contains_key(t) && !m.contains_key(t) ==> exists|i: int|
                0 <= i < txids.len() && txids[i] == t && (#[trigger] entries[i]) is Some
                    && or_zero(entries[i].unwrap().descendantcount) > 1,
{
    let fetched = records_of(txids, entries);
    lemma_with_fetched_members(m, fetched);
    assert forall|t: Seq<char>| #[trigger]
        with_fetched(m, fetched).contains_key(t) && !m.contains_key(t) implies exists|i: int|
            0 <= i < txids.len() && txids[i] == t && (#[trigger] entries[i]) is Some
                && or_zero(entries[i].unwrap().descendantcount) > 1 by {
        let i = choose|i: int| 0 <= i < fetched.len() && (#[trigger] fetched[i]).0 == t && fetched[i].1.num_descen > 1;
        assert(entries[i] is Some);
    }
}

/// Law of the deletion of a block: none of the block's transactions is left
/// in the mempool, and every other transaction stays as it was.
pub proof fn lemma_block_txs_gone(m: Map<Seq<char>, MempoolDat>, block: Seq<Seq<char>>)
    ensures
        forall|t: Seq<char>| #[trigger] block.contains(t) ==> !m.remove_keys(block.to_set()).contains_key(t),
        forall|t: Seq<char>|
            !block.contains(t) ==> (#[trigger] m.remove_keys(block.to_set()).contains_key(t)
                <==> m.contains_key(t)),
        forall|t: Seq<char>|
            !block.contains(t) && m.contains_key(t) ==> #[trigger] m.remove_keys(block.to_set())[t] == m[t],
{
}

/// Why the transactions of the last block could not be read.
#[derive(Clone, Copy, Debug, PartialEq, Eq, Structural)]
pub enum MempoolError {
    /// The block had no `tx` array.
    NoTxArray,
}

/// The id that a `tx` element of a block stands for: its text, or the empty
/// id where it was not a string.
pub open spec fn tx_element_text(element: Option<String>) -> Seq<char> {
    match element {
        Some(s) => s@,
        None => Seq::empty(),
    }
}

/// The ids of the transactions of a block, from the block's `tx` field:
/// `None` where the block had no `tx` array; otherwise each element, `None`
/// where it was not a string.
pub fn get_txs_last_block(tx_array: Option<Vec<Option<String>>>) -> (r: Result<Vec<String>, MempoolError>)
    ensures
        tx_array is None ==> r == Err::<Vec<String>, MempoolError>(MempoolError::NoTxArray),
        tx_array matches Some(elements) ==> r matches Ok(txs) && texts(txs@)
            == elements@.map_values(|e: Option<String>| tx_element_text(e)),
{
    match tx_array {
        Some(elements) => {
            let mut txs: Vec<String> = Vec::new();
            let mut i: usize = 0;
            while i < elements.len()
                invariant
                    0 <= i <= elements.len(),
                    txs@.len() == i,
                    texts(txs@) == elements@.take(i as int).map_values(
                        |e: Option<String>| tx_element_text(e),
                    ),
                decreases elements.len() - i,
            {
                let tx = match &elements[i] {
                    Some(s) => s.clone(),
                    None => String::new(),
                };
                assert(tx@ == tx_element_text(elements@[i as int]));
                let ghost prev = txs@;
                txs.push(tx);
                assert(txs@ == prev.push(tx));
                proof {
                    let lhs = texts(txs@);
                    let rhs = elements@.take(i + 1).map_values(|e: Option<String>| tx_element_text(e));
                    let old_rhs = elements@.take(i as int).map_values(|e: Option<String>| tx_element_text(e));
                    assert forall|j: int| 0 <= j < i + 1 implies lhs[j] == rhs[j] by {
                        if j < i {
                            assert(lhs[j] == texts(prev)[j]);
                            assert(old_rhs[j] == tx_element_text(elements@[j]));
                        }
                    }
                    assert(lhs =~= rhs);
                }
                i = i + 1;
            }
            assert(elements@.take(elements.len() as int) =~= elements@);
            Ok(txs)
        },
        None => Err(MempoolError::NoTxArray),
    }
}

/// Records the hash of the last block in the mempool facts, and returns it.
pub fn get_last_block(last_block: String, mempool_var_info: &mut MempoolVarInfo) -> (r: String)
    ensures
        r@ == last_block@,
        final(mempool_var_info).last_block@ == last_block@,
        final(mempool_var_info).txs_totales == old(mempool_var_info).txs_totales,
        final(mempool_var_info).txs_ascen_descen == old(mempool_var_info).txs_ascen_descen,
{
    mempool_var_info.last_block = last_block.clone();
    last_block
}

} // verus!
