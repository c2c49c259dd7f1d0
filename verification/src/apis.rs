use vstd::prelude::*;
use vstd::std_specs::hash::spec_hash_map_iter;
use vstd::std_specs::iter::IteratorSpec;
use crate::mempool_data::{AscenDescenForTxid, MempoolDat, RawMempool, WeightTX};
use crate::text::texts;
use crate::mempool_processor::{group_by_weight, lemma_group_by_weight_members};
use crate::str_map::{StrMap, entries_of};

verus! {

broadcast use vstd::std_specs::hash::group_hash_axioms;

/// An HTML page, to be sent as the body of a response.
pub struct HtmlContent(pub String);

/// A JSON document, to be sent as the body of a response.
pub struct JsonResponse(pub String);

/// The page that loads the drawing script.
pub const INDEX_HTML: &'static str = "<!DOCTYPE html>\n         <html>\n             \n             <head>\n                 <script src='/static/p5.min.js'></script>\n             </head>\n             <body>\n                <script align='center' src='/sketch_js'></script>\n             </body>\n             \n         </html>";

/// The index page: it loads p5.js and the drawing script.
pub fn get_index() -> (page: HtmlContent)
    ensures
        page.0@ == INDEX_HTML@,
{
    HtmlContent(String::from_str(INDEX_HTML))
}

/// The descendants and the ancestors of one transaction, each listed under
/// its id.
pub fn ascen_descen_for_txid(txid: String, descen: Vec<String>, ascen: Vec<String>) -> (r:
    AscenDescenForTxid)
    ensures
        r.descen@ == Map::<Seq<char>, Vec<String>>::empty().insert(txid@, descen),
        r.ascen@ == Map::<Seq<char>, Vec<String>>::empty().insert(txid@, ascen),
        r.descen.key_seq() == seq![txid@],
        r.ascen.key_seq() == seq![txid@],
{
    let txid_2 = txid.clone();
    let mut ascen_descen_for_txid = AscenDescenForTxid::new();
    ascen_descen_for_txid.delete();
    ascen_descen_for_txid.descen.insert(txid, descen);
    ascen_descen_for_txid.ascen.insert(txid_2, ascen);
    ascen_descen_for_txid
}

/// `txid` is listed under some weight from `weight1` to `weight2`.
pub open spec fn listed_in_range(
    groups: Map<u64, Seq<Seq<char>>>,
    weight1: u64,
    weight2: u64,
    txid: Seq<char>,
) -> bool {
    exists|w: u64| weight1 <= w <= weight2 && #[trigger] groups.contains_key(w) && groups[w].contains(txid)
}

/// The mempool records of the transactions listed under the weights from
/// `weight1` to `weight2`.
pub open spec fn txs_in_weight_range(
    groups: Map<u64, Seq<Seq<char>>>,
    weight1: u64,
    weight2: u64,
    records: Map<Seq<char>, MempoolDat>,
) -> Map<Seq<char>, MempoolDat> {
    records.restrict(Set::new(|t: Seq<char>| listed_in_range(groups, weight1, weight2, t)))
}

/// Law of the transactions of a weight range: when the groups are those that
/// `get_weight_tx` makes of a mempool, `get_txs_range_weights` finds exactly
/// the mempool's transactions whose weight is from `weight1` to `weight2`,
/// with their records. (`keys` and `m` are the mempool's walking order and
/// contents.)
pub proof fn lemma_range_txs_by_weight(
    keys: Seq<Seq<char>>,
    m: Map<Seq<char>, MempoolDat>,
    weight1: u64,
    weight2: u64,
)
    requires
        forall|t: Seq<char>| #[trigger] m.contains_key(t) <==> keys.contains(t),
    ensures
        txs_in_weight_range(group_by_weight(entries_of(keys, m)), weight1, weight2, m) == m.restrict(
            Set::new(|t: Seq<char>| weight1 <= m[t].weight <= weight2),
        ),
{
    let pairs = entries_of(keys, m);
    let groups = group_by_weight(pairs);
    lemma_group_by_weight_members(pairs);
    let lhs = Set::new(|t: Seq<char>| listed_in_range(groups, weight1, weight2, t));
    let rhs = Set::new(|t: Seq<char>| weight1 <= m[t].weight <= weight2);
    assert forall|t: Seq<char>| m.contains_key(t) implies (lhs.contains(t) <==> rhs.contains(t)) by {
        if lhs.contains(t) {
            let w = choose|w: u64|
                weight1 <= w <= weight2 && #[trigger] groups.contains_key(w) && groups[w].contains(t);
            let i = choose|i: int| 0 <= i < pairs.len() && (#[trigger] pairs[i]).0 == t && pairs[i].1.weight == w;
            assert(pairs[i] == (keys[i], m[keys[i]]));
        }
        if rhs.contains(t) {
            let i = choose|i: int| 0 <= i < keys.len() && keys[i] == t;
            assert(pairs[i] == (keys[i], m[keys[i]]));
            let w = m[t].weight;
            assert(groups.contains_key(w) && groups[w].contains(t));
        }
    }
    assert(m.restrict(lhs) =~= m.restrict(rhs));
}

/// The ids met so far by the walk of `get_txs_range_weights`: those of the
/// first `j` groups of `walk` whose weight is in range, and the first `q`
/// ids of group `j` if its weight is in range.
spec fn seen_ids(
    walk: Seq<(&u64, &Vec<String>)>,
    weight1: u64,
    weight2: u64,
    j: int,
    q: int,
) -> Set<Seq<char>> {
    Set::new(
        |t: Seq<char>|
            (exists|a: int|
                0 <= a < j && weight1 <= *(#[trigger] walk[a]).0 <= weight2 && texts(
                    walk[a].1@,
                ).contains(t)) || (0 <= j < walk.len() && weight1 <= *walk[j].0 <= weight2
                && texts(walk[j].1@).take(q).contains(t)),
    )
}

/// The records of the mempool transactions whose weight is from `weight1` to
/// `weight2`, found through the weight groups.
pub fn get_txs_range_weights(weight1: u64, weight2: u64, weight_tx: &WeightTX, raw: &RawMempool) -> (txs:
    StrMap<MempoolDat>)
    ensures
        txs@ == txs_in_weight_range(weight_tx@, weight1, weight2, raw.data@),
{
    let ghost m = weight_tx.weight_tx@;
    let ghost all = spec_hash_map_iter(&weight_tx.weight_tx).remaining();
    let mut txs: StrMap<MempoolDat> = StrMap::new();
    for (weight, txsid) in it: weight_tx.weight_tx.iter()
        invariant
            it.seq() == all,
            txs@ == raw.data@.restrict(seen_ids(all, weight1, weight2, it.index() as int, 0)),
    {
        let ghost j = it.index() as int;
        proof {
            assert(seen_ids(all, weight1, weight2, j, 0) =~= seen_ids(all, weight1, weight2, j, 0));
        }
        if *weight >= weight1 && *weight <= weight2 {
            let mut q: usize = 0;
            while q < txsid.len()
                invariant
                    0 <= q <= txsid.len(),
                    0 <= j < all.len(),
                    all[j] == (weight, txsid),
                    weight1 <= *weight <= weight2,
                    txs@ == raw.data@.restrict(seen_ids(all, weight1, weight2, j, q as int)),
                decreases txsid.len() - q,
            {
                let txid = &txsid[q];
                let ghost before = seen_ids(all, weight1, weight2, j, q as int);
                let ghost after = seen_ids(all, weight1, weight2, j, q + 1);
                proof {
                    assert(texts(txsid@).take(q + 1) =~= texts(txsid@).take(q as int).push(txid@));
                    let ids = texts(all[j].1@);
                    assert(ids == texts(txsid@));
                    let s1 = ids.take(q + 1);
                    let s0 = ids.take(q as int);
                    assert forall|t: Seq<char>| after.contains(t) <==> before.insert(txid@).contains(t) by {
                        if s1.contains(t) && t != txid@ {
                            let b = choose|b: int| 0 <= b < s1.len() && s1[b] == t;
                            assert(s0[b] == t);
                        }
                        if s0.contains(t) {
                            let b = choose|b: int| 0 <= b < s0.len() && s0[b] == t;
                            assert(s1[b] == t);
                        }
                        if t == txid@ {
                            assert(s1[q as int] == t);
                        }
                    }
                    assert(after =~= before.insert(txid@));
                }
                match raw.data.get(txid.as_str()) {
                    Some(data) => {
                        txs.insert(txid.clone(), *data);
                        assert(txs@ =~= raw.data@.restrict(after));
                    },
                    None => {
                        assert(txs@ =~= raw.data@.restrict(after));
                    },
                }
                q = q + 1;
            }
            proof {
                assert(texts(txsid@).take(txsid.len() as int) =~= texts(txsid@));
                assert(seen_ids(all, weight1, weight2, j, txsid.len() as int) =~= seen_ids(
                    all,
                    weight1,
                    weight2,
                    j + 1,
                    0,
                ));
            }
        } else {
            proof {
                assert(seen_ids(all, weight1, weight2, j, 0) =~= seen_ids(
                    all,
                    weight1,
                    weight2,
                    j + 1,
                    0,
                ));
            }
        }
    }
    proof {
        let done = seen_ids(all, weight1, weight2, all.len() as int, 0);
        let wanted = Set::new(|t: Seq<char>| listed_in_range(weight_tx@, weight1, weight2, t));
        assert forall|t: Seq<char>| done.contains(t) <==> wanted.contains(t) by {
            if done.contains(t) {
                let a = choose|a: int|
                    0 <= a < all.len() && weight1 <= *(#[trigger] all[a]).0 <= weight2 && texts(
                        all[a].1@,
                    ).contains(t);
                assert(m.contains_key(*all[a].0) && m[*all[a].0] == *all[a].1);
                assert(weight_tx@.contains_key(*all[a].0));
            }
            if wanted.contains(t) {
                let w = choose|w: u64|
                    weight1 <= w <= weight2 && #[trigger] weight_tx@.contains_key(w)
                        && weight_tx@[w].contains(t);
                assert(m.contains_key(w));
                assert(all.contains((&w, &m[w])));
                let a = choose|a: int| 0 <= a < all.len() && all[a] == (&w, &m[w]);
                assert(weight1 <= *all[a].0 <= weight2);
            }
        }
        assert(done =~= wanted);
    }
    txs
}

} // verus!
