use vstd::prelude::*;
use vstd::hash_set::StringHashSet;
use crate::mempool_data::{MempoolVarInfo, RawMempool};
use crate::text::{decimal_string, decimal_text, texts};

verus! {

/// The ids of `txs_new` that are not among `txs_old`, in the order of `txs_new`.
pub open spec fn new_not_old(txs_new: Seq<Seq<char>>, txs_old: Seq<Seq<char>>) -> Seq<Seq<char>> {
    txs_new.filter(not_in(txs_old))
}

/// Whether an id is missing from `txs`.
pub open spec fn not_in(txs: Seq<Seq<char>>) -> spec_fn(Seq<char>) -> bool {
    |t: Seq<char>| !txs.contains(t)
}

/// Law of the new transactions: they are the transactions of the new listing
/// that the old listing lacks; in particular the same listing twice in a row
/// brings nothing new.
pub proof fn lemma_new_not_old_members(txs_new: Seq<Seq<char>>, txs_old: Seq<Seq<char>>)
    ensures
        forall|t: Seq<char>| #[trigger]
            new_not_old(txs_new, txs_old).contains(t) <==> txs_new.contains(t) && !txs_old.contains(t),
        new_not_old(txs_new, txs_new).len() == 0,
{
    broadcast use vstd::seq_lib::group_filter_ensures;
    let keep = not_in(txs_old);
    let kept = txs_new.filter(keep);
    assert forall|t: Seq<char>| #[trigger]
        new_not_old(txs_new, txs_old).contains(t) <==> txs_new.contains(t) && !txs_old.contains(t) by {
        if txs_new.contains(t) && !txs_old.contains(t) {
            let i = choose|i: int| 0 <= i < txs_new.len() && txs_new[i] == t;
            txs_new.lemma_filter_contains(keep, i);
        }
        if kept.contains(t) {
            txs_new.lemma_filter_contains_rev(keep, t);
            let i = choose|i: int| 0 <= i < kept.len() && kept[i] == t;
            txs_new.lemma_filter_pred(keep, i);
        }
    }
    let same = txs_new.filter(not_in(txs_new));
    if same.len() > 0 {
        txs_new.lemma_filter_pred(not_in(txs_new), 0);
        txs_new.lemma_filter_contains_rev(not_in(txs_new), same[0]);
        assert(same.contains(same[0]));
        assert(false);
    }
}

/// The transactions of the new mempool listing that the old listing did not
/// have, in the order of the new listing.
pub fn txs_mempool_new_not_old(txs_mempool_new: &Vec<String>, txs_mempool_old: &Vec<String>) -> (r: Vec<String>)
    ensures
        texts(r@) == new_not_old(texts(txs_mempool_new@), texts(txs_mempool_old@)),
{
    let ghost old_ids = texts(txs_mempool_old@);
    let ghost new_ids = texts(txs_mempool_new@);
    let mut txs_mempool_old_set = StringHashSet::new();
    let mut i: usize = 0;
    while i < txs_mempool_old.len()
        invariant
            0 <= i <= txs_mempool_old.len(),
            old_ids == texts(txs_mempool_old@),
            txs_mempool_old_set@ == old_ids.take(i as int).to_set(),
        decreases txs_mempool_old.len() - i,
    {
        txs_mempool_old_set.insert(txs_mempool_old[i].clone());
        proof {
            Seq::lemma_to_set_insert_commutes(old_ids.take(i as int), old_ids[i as int]);
            assert(old_ids.take(i as int) + seq![old_ids[i as int]] =~= old_ids.take(i + 1));
        }
        i = i + 1;
    }
    assert(old_ids.take(txs_mempool_old.len() as int) =~= old_ids);
    let mut r: Vec<String> = Vec::new();
    let mut j: usize = 0;
    while j < txs_mempool_new.len()
        invariant
            0 <= j <= txs_mempool_new.len(),
            new_ids == texts(txs_mempool_new@),
            forall|t: Seq<char>| #[trigger] txs_mempool_old_set@.contains(t) <==> old_ids.contains(t),
            texts(r@) == new_not_old(new_ids.take(j as int), old_ids),
        decreases txs_mempool_new.len() - j,
    {
        let tx = &txs_mempool_new[j];
        proof {
            reveal_with_fuel(Seq::<_>::filter, 1);
            assert(new_ids.take(j + 1).drop_last() =~= new_ids.take(j as int));
            assert(new_ids.take(j + 1).last() == tx@);
        }
        let ghost prev = r@;
        if !txs_mempool_old_set.contains(tx.as_str()) {
            r.push(tx.clone());
            assert(texts(r@) =~= texts(prev).push(tx@));
        }
        j = j + 1;
    }
    assert(new_ids.take(txs_mempool_new.len() as int) =~= new_ids);
    r
}

/// Where a round of the monitoring loop stands: which answer it waits for.
#[derive(PartialEq, Eq, Structural, Clone, Copy)]
pub enum RoundPhase {
    /// Waits for the node's listing of the mempool.
    Listing,
    /// Waits until the new transactions have been added.
    Adding,
    /// Waits for the hash of the node's last block.
    LastBlock,
    /// Waits for the transactions of that block.
    BlockTxs,
    /// Waits until those transactions have been deleted.
    Deleting,
    /// Waits until the weights and ranges have been recomputed.
    Recomputing,
    /// Waits for the end of the pause between rounds.
    Sleeping,
}

/// What the outside hands the monitor: an answer, or that an action is done.
pub enum RoundEvent {
    Listed(Vec<String>),
    LastBlock(String),
    BlockTxs(Vec<String>),
    Done,
}

/// What the monitor asks the outside to do next.
pub enum RoundAction {
    /// List the mempool's transactions.
    ListMempool,
    /// Fetch the facts of these transactions and add them to the raw mempool.
    AddTxs(Vec<String>),
    /// Ask for the hash of the last block.
    AskLastBlock,
    /// Ask for the transactions of that block.
    FetchBlockTxs,
    /// Delete these transactions from the raw mempool.
    DeleteTxs(Vec<String>),
    /// Group the raw mempool by weight, compute the weight ranges and count
    /// the transactions with ancestors or descendants.
    Recompute,
    /// Pause before the next round.
    Sleep,
}

/// An event, with its lists and texts as character sequences.
pub ghost enum EventModel {
    Listed(Seq<Seq<char>>),
    LastBlock(Seq<char>),
    BlockTxs(Seq<Seq<char>>),
    Done,
}

/// An action, with its lists as character sequences.
pub ghost enum ActionModel {
    ListMempool,
    AddTxs(Seq<Seq<char>>),
    AskLastBlock,
    FetchBlockTxs,
    DeleteTxs(Seq<Seq<char>>),
    Recompute,
    Sleep,
}

/// The monitor: where the round stands, the last listing, the last block.
pub ghost struct MonitorModel {
    pub phase: RoundPhase,
    pub listing: Seq<Seq<char>>,
    pub block: Seq<char>,
}

impl View for RoundEvent {
    type V = EventModel;

    open spec fn view(&self) -> EventModel {
        match self {
            RoundEvent::Listed(txs) => EventModel::Listed(texts(txs@)),
            RoundEvent::LastBlock(hash) => EventModel::LastBlock(hash@),
            RoundEvent::BlockTxs(txs) => EventModel::BlockTxs(texts(txs@)),
            RoundEvent::Done => EventModel::Done,
        }
    }
}

impl View for RoundAction {
    type V = ActionModel;

    open spec fn view(&self) -> ActionModel {
        match self {
            RoundAction::ListMempool => ActionModel::ListMempool,
            RoundAction::AddTxs(txs) => ActionModel::AddTxs(texts(txs@)),
            RoundAction::AskLastBlock => ActionModel::AskLastBlock,
            RoundAction::FetchBlockTxs => ActionModel::FetchBlockTxs,
            RoundAction::DeleteTxs(txs) => ActionModel::DeleteTxs(texts(txs@)),
            RoundAction::Recompute => ActionModel::Recompute,
            RoundAction::Sleep => ActionModel::Sleep,
        }
    }
}

/// Whether a monitor in `phase` waits for `event`.
pub open spec fn awaits(phase: RoundPhase, event: EventModel) -> bool {
    match event {
        EventModel::Listed(_) => phase == RoundPhase::Listing,
        EventModel::LastBlock(_) => phase == RoundPhase::LastBlock,
        EventModel::BlockTxs(_) => phase == RoundPhase::BlockTxs,
        EventModel::Done => phase == RoundPhase::Adding || phase == RoundPhase::Deleting
            || phase == RoundPhase::Recomputing || phase == RoundPhase::Sleeping,
    }
}

/// One step of the loop: the monitor after `event`, and the next action. A
/// listing is remembered and its transactions missing from the last listing
/// are added; the hash of the last block is remembered and, when it differs
/// from the last one, the block's transactions are fetched and deleted; then
/// the weights are recomputed, the loop pauses and lists the mempool again.
pub open spec fn next(m: MonitorModel, event: EventModel) -> (MonitorModel, ActionModel) {
    match event {
        EventModel::Listed(txs) => (
            MonitorModel { phase: RoundPhase::Adding, listing: txs, block: m.block },
            ActionModel::AddTxs(new_not_old(txs, m.listing)),
        ),
        EventModel::LastBlock(hash) => if hash != m.block {
            (
                MonitorModel { phase: RoundPhase::BlockTxs, listing: m.listing, block: hash },
                ActionModel::FetchBlockTxs,
            )
        } else {
            (MonitorModel { phase: RoundPhase::Recomputing, ..m }, ActionModel::Recompute)
        },
        EventModel::BlockTxs(txs) => (
            MonitorModel { phase: RoundPhase::Deleting, ..m },
            ActionModel::DeleteTxs(txs),
        ),
        EventModel::Done => if m.phase == RoundPhase::Adding {
            (MonitorModel { phase: RoundPhase::LastBlock, ..m }, ActionModel::AskLastBlock)
        } else if m.phase == RoundPhase::Deleting {
            (MonitorModel { phase: RoundPhase::Recomputing, ..m }, ActionModel::Recompute)
        } else if m.phase == RoundPhase::Recomputing {
            (MonitorModel { phase: RoundPhase::Sleeping, ..m }, ActionModel::Sleep)
        } else {
            (MonitorModel { phase: RoundPhase::Listing, ..m }, ActionModel::ListMempool)
        },
    }
}

/// The monitor after `events`, one after the other, and the actions it asks
/// for on the way.
pub open spec fn run(m: MonitorModel, events: Seq<EventModel>) -> (MonitorModel, Seq<ActionModel>)
    decreases events.len(),
{
    if events.len() == 0 {
        (m, Seq::empty())
    } else {
        let (m1, a) = next(m, events[0]);
        let (m2, actions) = run(m1, events.drop_first());
        (m2, seq![a] + actions)
    }
}

/// Whether the monitor waits for each of `events` when it comes.
pub open spec fn accepts(m: MonitorModel, events: Seq<EventModel>) -> bool
    decreases events.len(),
{
    events.len() == 0 || (awaits(m.phase, events[0]) && accepts(next(m, events[0]).0, events.drop_first()))
}

/// The events of one round: the listing, the end of the additions, the hash
/// of the last block, the block's transactions and the end of their deletion
/// when the hash differs from the last one, then the ends of the
/// recomputation and of the pause.
pub open spec fn round_events(
    m: MonitorModel,
    listing: Seq<Seq<char>>,
    hash: Seq<char>,
    block_txs: Seq<Seq<char>>,
) -> Seq<EventModel> {
    seq![EventModel::Listed(listing), EventModel::Done, EventModel::LastBlock(hash)] + (if hash
        != m.block {
        seq![EventModel::BlockTxs(block_txs), EventModel::Done]
    } else {
        Seq::empty()
    }) + seq![EventModel::Done, EventModel::Done]
}

/// The actions of one round: add the listed transactions that the last
/// listing lacked, ask for the last block; if it is another block than the
/// last one, fetch its transactions and delete them; recompute; pause; list
/// the mempool again.
pub open spec fn round_actions(
    m: MonitorModel,
    listing: Seq<Seq<char>>,
    hash: Seq<char>,
    block_txs: Seq<Seq<char>>,
) -> Seq<ActionModel> {
    seq![ActionModel::AddTxs(new_not_old(listing, m.listing)), ActionModel::AskLastBlock] + (if hash
        != m.block {
        seq![ActionModel::FetchBlockTxs, ActionModel::DeleteTxs(block_txs)]
    } else {
        Seq::empty()
    }) + seq![ActionModel::Recompute, ActionModel::Sleep, ActionModel::ListMempool]
}

/// The monitor at the start of the round after one with `listing` and `hash`.
pub open spec fn after_round(listing: Seq<Seq<char>>, hash: Seq<char>) -> MonitorModel {
    MonitorModel { phase: RoundPhase::Listing, listing, block: hash }
}

/// The events of `rounds` (each a listing, a hash and the block's
/// transactions), one round after the other, from monitor `m`.
pub open spec fn rounds_events(
    m: MonitorModel,
    rounds: Seq<(Seq<Seq<char>>, Seq<char>, Seq<Seq<char>>)>,
) -> Seq<EventModel>
    decreases rounds.len(),
{
    if rounds.len() == 0 {
        Seq::empty()
    } else {
        let (listing, hash, block_txs) = rounds[0];
        round_events(m, listing, hash, block_txs) + rounds_events(
            after_round(listing, hash),
            rounds.drop_first(),
        )
    }
}

/// The actions of `rounds`, one round after the other, from monitor `m`: each
/// round compares its listing and hash with those of the round before (with
/// those of `m` for the first round).
pub open spec fn rounds_actions(
    m: MonitorModel,
    rounds: Seq<(Seq<Seq<char>>, Seq<char>, Seq<Seq<char>>)>,
) -> Seq<ActionModel>
    decreases rounds.len(),
{
    if rounds.len() == 0 {
        Seq::empty()
    } else {
        let (listing, hash, block_txs) = rounds[0];
        round_actions(m, listing, hash, block_txs) + rounds_actions(
            after_round(listing, hash),
            rounds.drop_first(),
        )
    }
}

proof fn lemma_run_append(m: MonitorModel, a: Seq<EventModel>, b: Seq<EventModel>)
    ensures
        run(m, a + b) == (run(run(m, a).0, b).0, run(m, a).1 + run(run(m, a).0, b).1),
        accepts(m, a + b) == (accepts(m, a) && accepts(run(m, a).0, b)),
    decreases a.len(),
{
    if a.len() == 0 {
        assert(a + b =~= b);
        assert(run(m, a).1 + run(m, b).1 =~= run(m, b).1);
    } else {
        let m1 = next(m, a[0]).0;
        assert((a + b).drop_first() =~= a.drop_first() + b);
        assert((a + b)[0] == a[0]);
        lemma_run_append(m1, a.drop_first(), b);
        let ra = run(m1, a.drop_first());
        let rb = run(ra.0, b);
        assert(seq![next(m, a[0]).1] + (ra.1 + rb.1) =~= (seq![next(m, a[0]).1] + ra.1) + rb.1);
    }
}

/// Law of one round: from a monitor that waits for a listing, the round's
/// events are each awaited in turn, the round asks for `round_actions`, and
/// the monitor ends waiting for the next listing, remembering this round's
/// listing and hash.
pub proof fn lemma_round(
    m: MonitorModel,
    listing: Seq<Seq<char>>,
    hash: Seq<char>,
    block_txs: Seq<Seq<char>>,
)
    requires
        m.phase == RoundPhase::Listing,
    ensures
        accepts(m, round_events(m, listing, hash, block_txs)),
        run(m, round_events(m, listing, hash, block_txs)) == (
            after_round(listing, hash),
            round_actions(m, listing, hash, block_txs),
        ),
{
    reveal_with_fuel(run, 8);
    reveal_with_fuel(accepts, 8);
    let events = round_events(m, listing, hash, block_txs);
    if hash != m.block {
        assert(events =~= seq![
            EventModel::Listed(listing),
            EventModel::Done,
            EventModel::LastBlock(hash),
            EventModel::BlockTxs(block_txs),
            EventModel::Done,
            EventModel::Done,
            EventModel::Done,
        ]);
    } else {
        assert(events =~= seq![
            EventModel::Listed(listing),
            EventModel::Done,
            EventModel::LastBlock(hash),
            EventModel::Done,
            EventModel::Done,
        ]);
    }
    assert(run(m, events).1 =~= round_actions(m, listing, hash, block_txs));
}

/// Law of the loop: from a monitor that waits for a listing, any number of
/// rounds are each awaited in turn and ask for `rounds_actions`: in every
/// round the transactions added are those of its listing missing from the
/// listing of the round before, and the block's transactions are fetched and
/// deleted exactly when its hash differs from that of the round before,
/// before the weights are recomputed.
pub proof fn lemma_rounds(m: MonitorModel, rounds: Seq<(Seq<Seq<char>>, Seq<char>, Seq<Seq<char>>)>)
    requires
        m.phase == RoundPhase::Listing,
    ensures
        accepts(m, rounds_events(m, rounds)),
        run(m, rounds_events(m, rounds)).1 == rounds_actions(m, rounds),
        run(m, rounds_events(m, rounds)).0 == if rounds.len() == 0 {
            m
        } else {
            after_round(rounds.last().0, rounds.last().1)
        },
    decreases rounds.len(),
{
    if rounds.len() == 0 {
        assert(rounds_events(m, rounds) =~= Seq::<EventModel>::empty());
    } else {
        let (listing, hash, block_txs) = rounds[0];
        let first = round_events(m, listing, hash, block_txs);
        let m1 = after_round(listing, hash);
        let rest = rounds.drop_first();
        lemma_round(m, listing, hash, block_txs);
        lemma_rounds(m1, rest);
        lemma_run_append(m, first, rounds_events(m1, rest));
        if rest.len() > 0 {
            assert(rest.last() == rounds.last());
        }
    }
}

/// What the monitoring loop remembers from one round to the next: where the
/// round stands, the last mempool listing, and the last block that was
/// processed.
pub struct MempoolMonitor {
    pub phase: RoundPhase,
    pub txs_mempool_old: Vec<String>,
    pub last_block_processed_old: String,
}

impl View for MempoolMonitor {
    type V = MonitorModel;

    open spec fn view(&self) -> MonitorModel {
        MonitorModel {
            phase: self.phase,
            listing: texts(self.txs_mempool_old@),
            block: self.last_block_processed_old@,
        }
    }
}

impl MempoolMonitor {
    /// Before the first round: waiting for a listing, with no listing and no
    /// block yet.
    pub fn new() -> (m: MempoolMonitor)
        ensures
            m.phase == RoundPhase::Listing,
            m.txs_mempool_old@ == Seq::<String>::empty(),
            m.last_block_processed_old@ == Seq::<char>::empty(),
    {
        MempoolMonitor {
            phase: RoundPhase::Listing,
            txs_mempool_old: Vec::new(),
            last_block_processed_old: String::new(),
        }
    }

    /// A round starts with the node's listing of the mempool: the number of
    /// transactions goes into the mempool facts, the listing is remembered for
    /// the next round, and the transactions it did not list last time are
    /// returned, in listing order.
    pub fn record_mempool_listing(
        &mut self,
        txs_mempool_new: Vec<String>,
        mempool_var_info: &mut MempoolVarInfo,
    ) -> (txs_mempool_new_not_old: Vec<String>)
        ensures
            texts(txs_mempool_new_not_old@) == new_not_old(
                texts(txs_mempool_new@),
                texts(old(self).txs_mempool_old@),
            ),
            final(self).txs_mempool_old@ == txs_mempool_new@,
            final(self).last_block_processed_old == old(self).last_block_processed_old,
            final(self).phase == old(self).phase,
            final(mempool_var_info).txs_totales@ == decimal_text(txs_mempool_new@.len()),
            final(mempool_var_info).last_block == old(mempool_var_info).last_block,
            final(mempool_var_info).txs_ascen_descen == old(mempool_var_info).txs_ascen_descen,
    {
        mempool_var_info.txs_totales = decimal_string(txs_mempool_new.len() as u64);
        let txs_mempool_new_not_old = txs_mempool_new_not_old(&txs_mempool_new, &self.txs_mempool_old);
        self.txs_mempool_old = txs_mempool_new;
        txs_mempool_new_not_old
    }

    /// The node named its last block: returns whether it is another block than
    /// the one processed last, and remembers it.
    pub fn record_last_block(&mut self, last_block_processed_new: &String) -> (is_new: bool)
        ensures
            is_new == (last_block_processed_new@ != old(self).last_block_processed_old@),
            final(self).last_block_processed_old@ == last_block_processed_new@,
            final(self).txs_mempool_old == old(self).txs_mempool_old,
            final(self).phase == old(self).phase,
    {
        if *last_block_processed_new != self.last_block_processed_old {
            self.last_block_processed_old = last_block_processed_new.clone();
            true
        } else {
            false
        }
    }

    /// Takes the answer or the end of the action that the round waits for,
    /// and returns the next action; see `next`. A listing also sets the number
    /// of transactions in the mempool facts.
    pub fn step(&mut self, event: RoundEvent, mempool_var_info: &mut MempoolVarInfo) -> (action: RoundAction)
        requires
            awaits(old(self).phase, event@),
        ensures
            (final(self)@, action@) == next(old(self)@, event@),
            final(mempool_var_info).txs_totales@ == (match event {
                RoundEvent::Listed(txs) => decimal_text(txs@.len()),
                _ => old(mempool_var_info).txs_totales@,
            }),
            final(mempool_var_info).last_block == old(mempool_var_info).last_block,
            final(mempool_var_info).txs_ascen_descen == old(mempool_var_info).txs_ascen_descen,
    {
        match event {
            RoundEvent::Listed(txs) => {
                let new_txs = self.record_mempool_listing(txs, mempool_var_info);
                self.phase = RoundPhase::Adding;
                RoundAction::AddTxs(new_txs)
            },
            RoundEvent::LastBlock(hash) => {
                if self.record_last_block(&hash) {
                    self.phase = RoundPhase::BlockTxs;
                    RoundAction::FetchBlockTxs
                } else {
                    self.phase = RoundPhase::Recomputing;
                    RoundAction::Recompute
                }
            },
            RoundEvent::BlockTxs(txs) => {
                self.phase = RoundPhase::Deleting;
                RoundAction::DeleteTxs(txs)
            },
            RoundEvent::Done => {
                match self.phase {
                    RoundPhase::Adding => {
                        self.phase = RoundPhase::LastBlock;
                        RoundAction::AskLastBlock
                    },
                    RoundPhase::Deleting => {
                        self.phase = RoundPhase::Recomputing;
                        RoundAction::Recompute
                    },
                    RoundPhase::Recomputing => {
                        self.phase = RoundPhase::Sleeping;
                        RoundAction::Sleep
                    },
                    _ => {
                        self.phase = RoundPhase::Listing;
                        RoundAction::ListMempool
                    },
                }
            },
        }
    }
}

/// A round ends by counting, in the mempool facts, the transactions that have
/// ancestors or descendants.
pub fn record_txs_ascen_descen(mempool_var_info: &mut MempoolVarInfo, raw: &RawMempool)
    ensures
        final(mempool_var_info).txs_ascen_descen@ == decimal_text(raw.data@.len()),
        final(mempool_var_info).last_block == old(mempool_var_info).last_block,
        final(mempool_var_info).txs_totales == old(mempool_var_info).txs_totales,
{
    mempool_var_info.txs_ascen_descen = decimal_string(raw.data.len() as u64);
}

} // verus!
