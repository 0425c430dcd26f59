//! Dollar-cost averaging: schedules of recurring buys, and the planning of their ids per block.
//!
//! The storage of the pallet is held by [`Pallet`]: the id sequencer, the schedules, their
//! owners, the remaining recurrences of fixed schedules, and the ids planned for each block
//! (at most 20 per block). Executing a buy is the work of another pallet, so the block hook is
//! split: [`Pallet::schedules_due`] names the ids of the block, [`Pallet::buy_order`] says what
//! to buy for each, and once the runtime has tried the buys, [`Pallet::process_block`] goes
//! through the block's ids with their outcomes, replanning each schedule as
//! [`Pallet::process_buy_result`] does for one.
use vstd::prelude::*;
use std::collections::HashMap;
use bounded_collections::{BoundedVec, ConstU32};
use crate::bounded::{ids_of, ids_try_from, ids_try_push, ids_clone, ids_into_inner};

verus! {

broadcast use vstd::std_specs::hash::group_hash_axioms;

pub type AssetId = u32;

pub type Balance = u128;

pub type BlockNumber = u32;

pub type ScheduleId = u32;

/// A 32-byte account identifier.
pub type AccountId = [u8; 32];

/// The most trades that a route can hold.
pub const MAX_NUMBER_OF_TRADES: u32 = 5;

/// The most schedule ids that one block can hold.
pub const MAX_NUMBER_OF_SCHEDULES_PER_BLOCK: u32 = 20;

/// How often a schedule runs: a fixed number of times, or until it is stopped.
#[derive(Debug, Clone, Copy, PartialEq, Eq, Structural)]
pub enum Recurrence {
    Fixed(u128),
    Perpetual,
}

#[derive(Debug, PartialEq, Eq)]
pub struct Order<Asset> {
    pub asset_in: Asset,
    pub asset_out: Asset,
    pub amount_in: Balance,
    pub amount_out: Balance,
    pub limit: Balance,
    pub route: BoundedVec<Trade, ConstU32<5>>,
}

#[derive(Debug, PartialEq, Eq)]
pub struct Schedule<Asset> {
    pub period: BlockNumber,
    pub recurrence: Recurrence,
    pub order: Order<Asset>,
}

/// A single trade for buy/sell, describing the asset pair and the pool type in which the trade
/// is executed.
#[derive(Debug, Clone, Copy, PartialEq, Eq, Structural)]
pub struct Trade {
    pub pool: PoolType,
    pub asset_in: AssetId,
    pub asset_out: AssetId,
}

#[derive(Debug, Clone, Copy, PartialEq, Eq, Structural)]
pub enum PoolType {
    XYK,
}

#[derive(Debug, Clone, Copy, PartialEq, Eq, Structural)]
pub struct Bond {
    pub asset: AssetId,
    pub amount: Balance,
}

/// What the runtime fixes for the pallet: the type that identifies an asset.
pub trait Config {
    type Asset: Copy;
}

#[derive(Debug, Clone, Copy, PartialEq, Eq, Structural)]
pub enum Event {
    /// First event
    DummyEvent,
}

#[derive(Debug, Clone, Copy, PartialEq, Eq, Structural)]
pub enum Error {
    /// First error
    UnexpectedError,
}

#[derive(Debug, Clone, Copy, PartialEq, Eq, Structural)]
pub enum ArithmeticError {
    Overflow,
}

/// Why a call into the pallet was refused.
#[derive(Debug, Clone, Copy, PartialEq, Eq, Structural)]
pub enum DispatchError {
    BadOrigin,
    Arithmetic(ArithmeticError),
    Module(Error),
}

/// Who makes a call.
#[derive(Debug, Clone, Copy, PartialEq, Eq)]
pub enum Origin {
    Root,
    Signed(AccountId),
    /// A call that carries no signature.
    Unsigned,
}

/// The arguments of the buy that a schedule asks for.
#[derive(Debug, Clone, Copy, PartialEq, Eq)]
pub struct BuyOrder<Asset> {
    pub who: AccountId,
    pub asset_out: Asset,
    pub asset_in: Asset,
    pub amount_out: Balance,
    pub limit: Balance,
}

/// The storage of the pallet.
pub struct Pallet<T: Config> {
    schedule_id_sequencer: ScheduleId,
    schedules: HashMap<ScheduleId, Schedule<T::Asset>>,
    schedule_ownership: HashMap<ScheduleId, AccountId>,
    remaining_recurrences: HashMap<ScheduleId, u128>,
    schedule_ids_per_block: HashMap<BlockNumber, BoundedVec<ScheduleId, ConstU32<20>>>,
}

/// The storage of the pallet as mathematical maps.
#[verifier::ext_equal]
pub struct PalletView<Asset> {
    /// The last schedule id handed out (0 before the first).
    pub next_schedule_id: ScheduleId,
    pub schedules: Map<ScheduleId, Schedule<Asset>>,
    pub owners: Map<ScheduleId, AccountId>,
    pub remaining: Map<ScheduleId, u128>,
    pub per_block: Map<BlockNumber, Seq<ScheduleId>>,
}

impl<T: Config> View for Pallet<T> {
    type V = PalletView<T::Asset>;

    closed spec fn view(&self) -> PalletView<T::Asset> {
        PalletView {
            next_schedule_id: self.schedule_id_sequencer,
            schedules: self.schedules@,
            owners: self.schedule_ownership@,
            remaining: self.remaining_recurrences@,
            per_block: self.schedule_ids_per_block@.map_values(
                |v: BoundedVec<ScheduleId, ConstU32<20>>| ids_of(v),
            ),
        }
    }
}

impl<Asset> PalletView<Asset> {
    /// What every reachable storage satisfies: the ids in use were handed out by the
    /// sequencer, every schedule has an owner, remaining recurrences belong to fixed schedules,
    /// and each block plans at most 20 ids, all of existing schedules.
    pub open spec fn wf(self) -> bool {
        &&& forall|id: ScheduleId| #[trigger]
            self.schedules.contains_key(id) ==> 1 <= id <= self.next_schedule_id
        &&& forall|id: ScheduleId| #[trigger]
            self.schedules.contains_key(id) <==> self.owners.contains_key(id)
        &&& forall|id: ScheduleId| #[trigger]
            self.remaining.contains_key(id) ==> self.schedules.contains_key(id)
                && self.schedules[id].recurrence is Fixed
        &&& forall|b: BlockNumber| #[trigger]
            self.per_block.contains_key(b) ==> self.per_block[b].len() <= 20
        &&& forall|b: BlockNumber, i: int| #[trigger]
            self.per_block.contains_key(b) && 0 <= i < self.per_block[b].len()
                ==> self.schedules.contains_key(#[trigger] self.per_block[b][i])
    }

    /// The storage after a schedule was handed `id` and stored with its owner and, for a fixed
    /// recurrence, its count.
    pub open spec fn with_schedule(
        self,
        id: ScheduleId,
        who: AccountId,
        schedule: Schedule<Asset>,
    ) -> PalletView<Asset> {
        PalletView {
            next_schedule_id: id,
            schedules: self.schedules.insert(id, schedule),
            owners: self.owners.insert(id, who),
            remaining: match schedule.recurrence {
                Recurrence::Fixed(n) => self.remaining.insert(id, n),
                Recurrence::Perpetual => self.remaining,
            },
            per_block: self.per_block,
        }
    }

    /// The storage after the buy of schedule `id` succeeded in block `current`: the schedule
    /// is planned again `period` blocks later, unless it is a fixed one whose count of
    /// remaining recurrences, lowered by one, reaches 0; that count then goes.
    pub open spec fn after_successful_buy(self, current: BlockNumber, id: ScheduleId) -> PalletView<
        Asset,
    > {
        let next = (current + self.schedules[id].period) as BlockNumber;
        match self.schedules[id].recurrence {
            Recurrence::Fixed(_) => {
                let left = (self.remaining[id] - 1) as u128;
                if left == 0 {
                    PalletView { remaining: self.remaining.remove(id), ..self }
                } else {
                    PalletView { remaining: self.remaining.insert(id, left), ..self }.planned(
                        next,
                        id,
                    )
                }
            },
            Recurrence::Perpetual => self.planned(next, id),
        }
    }

    /// The storage with `id` planned for `block`.
    pub open spec fn planned(self, block: BlockNumber, id: ScheduleId) -> PalletView<Asset> {
        PalletView { per_block: plan_for_block(self.per_block, block, id), ..self }
    }
}

/// The block lists after `id` is planned for `block`: a block without a list gets one holding
/// `id`; a list with room gets `id` at its end; a full list stays as it was.
pub open spec fn plan_for_block(
    per_block: Map<BlockNumber, Seq<ScheduleId>>,
    block: BlockNumber,
    id: ScheduleId,
) -> Map<BlockNumber, Seq<ScheduleId>> {
    if !per_block.contains_key(block) {
        per_block.insert(block, seq![id])
    } else if per_block[block].len() < 20 {
        per_block.insert(block, per_block[block].push(id))
    } else {
        per_block
    }
}

/// The block after `current`, or `current` itself at the end of the block numbers.
pub open spec fn next_block_number(current: BlockNumber) -> BlockNumber {
    if current < u32::MAX {
        (current + 1) as BlockNumber
    } else {
        current
    }
}

impl<T: Config> Pallet<T> {
    proof fn lemma_per_block_insert(
        m: HashMap<BlockNumber, BoundedVec<ScheduleId, ConstU32<20>>>,
        b: BlockNumber,
        v: BoundedVec<ScheduleId, ConstU32<20>>,
    )
        ensures
            m@.insert(b, v).map_values(|v: BoundedVec<ScheduleId, ConstU32<20>>| ids_of(v))
                =~= m@.map_values(|v: BoundedVec<ScheduleId, ConstU32<20>>| ids_of(v)).insert(
                b,
                ids_of(v),
            ),
    {
    }

    /// The storage of a chain at genesis: no schedule, and the sequencer at 0.
    pub fn new() -> (pallet: Self)
        ensures
            pallet@ == (PalletView::<T::Asset> {
                next_schedule_id: 0,
                schedules: Map::empty(),
                owners: Map::empty(),
                remaining: Map::empty(),
                per_block: Map::empty(),
            }),
            pallet@.wf(),
    {
        let pallet = Pallet {
            schedule_id_sequencer: 0,
            schedules: HashMap::new(),
            schedule_ownership: HashMap::new(),
            remaining_recurrences: HashMap::new(),
            schedule_ids_per_block: HashMap::new(),
        };
        assert(pallet@.per_block =~= Map::empty());
        pallet
    }

    /// Hands out the next schedule id, or fails without a change when the sequencer is at its
    /// end.
    fn get_next_schedule_id(&mut self) -> (res: Result<ScheduleId, ArithmeticError>)
        ensures
            old(self)@.next_schedule_id < u32::MAX ==> {
                &&& res == Ok::<ScheduleId, ArithmeticError>(
                    (old(self)@.next_schedule_id + 1) as ScheduleId,
                )
                &&& final(self)@ == (PalletView {
                    next_schedule_id: (old(self)@.next_schedule_id + 1) as ScheduleId,
                    ..old(self)@
                })
            },
            old(self)@.next_schedule_id == u32::MAX ==> {
                &&& res == Err::<ScheduleId, ArithmeticError>(ArithmeticError::Overflow)
                &&& final(self)@ == old(self)@
            },
    {
        match self.schedule_id_sequencer.checked_add(1) {
            Some(id) => {
                self.schedule_id_sequencer = id;
                Ok(id)
            },
            None => Err(ArithmeticError::Overflow),
        }
    }

    /// The block after `current_block_number`, saturating at the last block number.
    fn get_next_block_mumber(current_block_number: BlockNumber) -> (next: BlockNumber)
        ensures
            next == next_block_number(current_block_number),
    {
        current_block_number.saturating_add(1)
    }

    /// A block list that holds `next_schedule_id` alone.
    fn create_bounded_vec(next_schedule_id: ScheduleId) -> (ids: BoundedVec<
        ScheduleId,
        ConstU32<20>,
    >)
        ensures
            ids_of(ids) == seq![next_schedule_id],
    {
        let schedule_id = vec![next_schedule_id];
        assert(schedule_id@ == seq![next_schedule_id]);
        match ids_try_from(schedule_id) {
            Ok(bounded_vec) => bounded_vec,
            Err(_) => vstd::pervasive::unreached(),
        }
    }

    /// Stores the count of a fixed recurrence under `next_schedule_id`; a perpetual one leaves
    /// the storage as it was.
    fn store_recurrence_in_case_of_fixed_schedule(
        &mut self,
        next_schedule_id: ScheduleId,
        recurrence: &Recurrence,
    )
        ensures
            final(self)@ == (PalletView {
                remaining: match *recurrence {
                    Recurrence::Fixed(n) => old(self)@.remaining.insert(next_schedule_id, n),
                    Recurrence::Perpetual => old(self)@.remaining,
                },
                ..old(self)@
            }),
    {
        if let Recurrence::Fixed(number_of_recurrence) = *recurrence {
            self.remaining_recurrences.insert(next_schedule_id, number_of_recurrence);
        }
    }

    /// Appends `next_schedule_id` to the list of `blocknumber_for_schedule`; fails without a
    /// change when the block has no list or its list is full.
    fn add_schedule_id_to_existing_ids_per_block(
        &mut self,
        next_schedule_id: ScheduleId,
        blocknumber_for_schedule: BlockNumber,
    ) -> (res: Result<(), DispatchError>)
        ensures
            ({
                let per_block = old(self)@.per_block;
                if per_block.contains_key(blocknumber_for_schedule)
                    && per_block[blocknumber_for_schedule].len() < 20 {
                    &&& res == Ok::<(), DispatchError>(())
                    &&& final(self)@ == old(self)@.planned(
                        blocknumber_for_schedule,
                        next_schedule_id,
                    )
                } else {
                    &&& res == Err::<(), DispatchError>(
                        DispatchError::Module(Error::UnexpectedError),
                    )
                    &&& final(self)@ == old(self)@
                }
            }),
    {
        let ghost m0 = self.schedule_ids_per_block;
        match self.schedule_ids_per_block.remove(&blocknumber_for_schedule) {
            None => {
                assert(self@ =~= old(self)@);
                Err(DispatchError::Module(Error::UnexpectedError))
            },
            Some(mut schedule_ids) => {
                let ghost m1 = self.schedule_ids_per_block;
                let pushed = ids_try_push(&mut schedule_ids, next_schedule_id);
                self.schedule_ids_per_block.insert(blocknumber_for_schedule, schedule_ids);
                proof {
                    Self::lemma_per_block_insert(m1, blocknumber_for_schedule, schedule_ids);
                    assert(m1@.insert(blocknumber_for_schedule, schedule_ids) =~= m0@.insert(
                        blocknumber_for_schedule,
                        schedule_ids,
                    ));
                    Self::lemma_per_block_insert(m0, blocknumber_for_schedule, schedule_ids);
                }
                match pushed {
                    Ok(()) => {
                        assert(self@ =~= old(self)@.planned(
                            blocknumber_for_schedule,
                            next_schedule_id,
                        ));
                        Ok(())
                    },
                    Err(_) => {
                        assert(self@.per_block =~= old(self)@.per_block);
                        assert(self@ =~= old(self)@);
                        Err(DispatchError::Module(Error::UnexpectedError))
                    },
                }
            },
        }
    }

    /// Plans `schedule_id` for block `b`; a full block leaves the storage as it was.
    fn plan_schedule_for_block(&mut self, b: BlockNumber, schedule_id: ScheduleId)
        ensures
            final(self)@ == old(self)@.planned(b, schedule_id),
    {
        if !self.schedule_ids_per_block.contains_key(&b) {
            let vec_with_first_schedule_id = Self::create_bounded_vec(schedule_id);
            let ghost m0 = self.schedule_ids_per_block;
            self.schedule_ids_per_block.insert(b, vec_with_first_schedule_id);
            proof {
                Self::lemma_per_block_insert(m0, b, vec_with_first_schedule_id);
            }
            assert(self@ =~= old(self)@.planned(b, schedule_id));
        } else {
            let _ = self.add_schedule_id_to_existing_ids_per_block(schedule_id, b);
            assert(self@ =~= old(self)@.planned(b, schedule_id));
        }
    }

    /// Counts down the remaining recurrences of `schedule_id` and returns what is left; the
    /// entry goes when it reaches 0. Fails without a change when there is no entry or it is 0.
    fn decrement_recurrences(&mut self, schedule_id: ScheduleId) -> (res: Result<u128, DispatchError>)
        ensures
            ({
                let remaining = old(self)@.remaining;
                if remaining.contains_key(schedule_id) && remaining[schedule_id] > 0 {
                    let left = (remaining[schedule_id] - 1) as u128;
                    &&& res == Ok::<u128, DispatchError>(left)
                    &&& final(self)@ == (PalletView {
                        remaining: if left == 0 {
                            remaining.remove(schedule_id)
                        } else {
                            remaining.insert(schedule_id, left)
                        },
                        ..old(self)@
                    })
                } else {
                    &&& res == Err::<u128, DispatchError>(
                        DispatchError::Module(Error::UnexpectedError),
                    )
                    &&& final(self)@ == old(self)@
                }
            }),
    {
        let remaining_ocurrences = match self.remaining_recurrences.get(&schedule_id) {
            Some(r) => *r,
            None => return Err(DispatchError::Module(Error::UnexpectedError)),
        };
        let remainings = match remaining_ocurrences.checked_sub(1) {
            Some(r) => r,
            None => return Err(DispatchError::Module(Error::UnexpectedError)),
        };
        if remainings == 0 {
            self.remaining_recurrences.remove(&schedule_id);
        } else {
            self.remaining_recurrences.insert(schedule_id, remainings);
        }
        Ok(remainings)
    }

    /// Stores `schedule` under a fresh id, owned by the signer of `origin`, and plans it for
    /// `next_execution_block`, or else for the block after `current_block_number`.
    ///
    /// Fails without a change when `origin` is not signed, or when the id sequencer is at its
    /// end. A block whose list is full does not get the id; the schedule is stored all the same.
    pub fn schedule(
        &mut self,
        origin: Origin,
        schedule: Schedule<T::Asset>,
        next_execution_block: Option<BlockNumber>,
        current_block_number: BlockNumber,
    ) -> (res: Result<(), DispatchError>)
        requires
            old(self)@.wf(),
        ensures
            final(self)@.wf(),
            match origin {
                Origin::Signed(who) => if old(self)@.next_schedule_id == u32::MAX {
                    &&& res == Err::<(), DispatchError>(
                        DispatchError::Arithmetic(ArithmeticError::Overflow),
                    )
                    &&& final(self)@ == old(self)@
                } else {
                    let id = (old(self)@.next_schedule_id + 1) as ScheduleId;
                    let block = match next_execution_block {
                        Some(b) => b,
                        None => next_block_number(current_block_number),
                    };
                    &&& res == Ok::<(), DispatchError>(())
                    &&& !old(self)@.schedules.contains_key(id)
                    &&& final(self)@ == old(self)@.with_schedule(id, who, schedule).planned(
                        block,
                        id,
                    )
                },
                _ => {
                    &&& res == Err::<(), DispatchError>(DispatchError::BadOrigin)
                    &&& final(self)@ == old(self)@
                },
            },
    {
        let who = match origin {
            Origin::Signed(who) => who,
            _ => return Err(DispatchError::BadOrigin),
        };
        let next_schedule_id = match self.get_next_schedule_id() {
            Ok(id) => id,
            Err(e) => return Err(DispatchError::Arithmetic(e)),
        };
        let ghost v0 = old(self)@;
        self.store_recurrence_in_case_of_fixed_schedule(next_schedule_id, &schedule.recurrence);
        self.schedules.insert(next_schedule_id, schedule);
        self.schedule_ownership.insert(next_schedule_id, who);
        assert(self@ =~= v0.with_schedule(next_schedule_id, who, schedule));
        let blocknumber_for_schedule = match next_execution_block {
            Some(b) => b,
            None => Self::get_next_block_mumber(current_block_number),
        };
        self.plan_schedule_for_block(blocknumber_for_schedule, next_schedule_id);
        assert(self@.wf());
        Ok(())
    }

    /// The ids planned for `current_blocknumber`, in the order they were planned.
    pub fn schedules_due(&self, current_blocknumber: BlockNumber) -> (ids: Vec<ScheduleId>)
        requires
            self@.per_block.contains_key(current_blocknumber),
        ensures
            ids@ == self@.per_block[current_blocknumber],
    {
        match self.schedule_ids_per_block.get(&current_blocknumber) {
            Some(schedules) => ids_into_inner(ids_clone(schedules)),
            None => vstd::pervasive::unreached(),
        }
    }

    /// The buy that schedule `schedule_id` asks for: its owner buys `amount_out` of the order's
    /// `asset_out` for at most `limit` of its `asset_in`.
    pub fn buy_order(&self, schedule_id: ScheduleId) -> (order: BuyOrder<T::Asset>)
        requires
            self@.wf(),
            self@.schedules.contains_key(schedule_id),
        ensures
            order == (BuyOrder {
                who: self@.owners[schedule_id],
                asset_out: self@.schedules[schedule_id].order.asset_out,
                asset_in: self@.schedules[schedule_id].order.asset_in,
                amount_out: self@.schedules[schedule_id].order.amount_out,
                limit: self@.schedules[schedule_id].order.limit,
            }),
    {
        let schedule = match self.schedules.get(&schedule_id) {
            Some(s) => s,
            None => vstd::pervasive::unreached(),
        };
        let owner = match self.schedule_ownership.get(&schedule_id) {
            Some(o) => *o,
            None => vstd::pervasive::unreached(),
        };
        BuyOrder {
            who: owner,
            asset_out: schedule.order.asset_out,
            asset_in: schedule.order.asset_in,
            amount_out: schedule.order.amount_out,
            limit: schedule.order.limit,
        }
    }

    /// What the block hook does with schedule `schedule_id` once its buy was tried in block
    /// `current_blocknumber`.
    ///
    /// A failed buy changes nothing. After a successful one, a perpetual schedule is planned
    /// again `period` blocks later; a fixed one counts down its remaining recurrences and is
    /// planned again only while some remain.
    pub fn process_buy_result(
        &mut self,
        current_blocknumber: BlockNumber,
        schedule_id: ScheduleId,
        buy_succeeded: bool,
    )
        requires
            old(self)@.wf(),
            old(self)@.schedules.contains_key(schedule_id),
            buy_succeeded ==> current_blocknumber + old(self)@.schedules[schedule_id].period
                <= u32::MAX,
            buy_succeeded && old(self)@.schedules[schedule_id].recurrence is Fixed ==> {
                &&& old(self)@.remaining.contains_key(schedule_id)
                &&& old(self)@.remaining[schedule_id] > 0
            },
        ensures
            final(self)@.wf(),
            !buy_succeeded ==> final(self)@ == old(self)@,
            buy_succeeded ==> final(self)@ == old(self)@.after_successful_buy(
                current_blocknumber,
                schedule_id,
            ),
    {
        if !buy_succeeded {
            return;
        }
        let (period, is_fixed) = match self.schedules.get(&schedule_id) {
            Some(schedule) => (
                schedule.period,
                match schedule.recurrence {
                    Recurrence::Fixed(_) => true,
                    Recurrence::Perpetual => false,
                },
            ),
            None => vstd::pervasive::unreached(),
        };
        let blocknumber_for_schedule = current_blocknumber + period;
        if is_fixed {
            let remaining_reccurences = match self.decrement_recurrences(schedule_id) {
                Ok(r) => r,
                Err(_) => vstd::pervasive::unreached(),
            };
            if remaining_reccurences != 0 {
                self.plan_schedule_for_block(blocknumber_for_schedule, schedule_id);
            }
        } else {
            self.plan_schedule_for_block(blocknumber_for_schedule, schedule_id);
        }
    }

    /// The block hook of block `current_blocknumber`: goes through the ids planned for the
    /// block when it starts, in order, and for each does what [`Pallet::process_buy_result`]
    /// does with `outcomes[i]`, whether its buy succeeded. Ids planned for this block during
    /// the hook are not gone through.
    pub fn process_block(&mut self, current_blocknumber: BlockNumber, outcomes: &Vec<bool>)
        requires
            old(self)@.wf(),
            old(self)@.per_block.contains_key(current_blocknumber),
            outcomes@.len() == old(self)@.per_block[current_blocknumber].len(),
            forall|i: int|
                0 <= i < outcomes@.len() ==> #[trigger] block_step_allowed(
                    old(self)@,
                    current_blocknumber,
                    old(self)@.per_block[current_blocknumber],
                    outcomes@,
                    i,
                ),
        ensures
            final(self)@.wf(),
            final(self)@ == after_block(
                old(self)@,
                current_blocknumber,
                old(self)@.per_block[current_blocknumber],
                outcomes@,
            ),
    {
        let schedules = self.schedules_due(current_blocknumber);
        let ghost v0 = old(self)@;
        let ghost ids = schedules@;
        let mut i: usize = 0;
        assert(ids.take(0) =~= Seq::<ScheduleId>::empty());
        while i < schedules.len()
            invariant
                i <= schedules@.len(),
                schedules@ == ids,
                ids == v0.per_block[current_blocknumber],
                v0.wf(),
                v0.per_block.contains_key(current_blocknumber),
                outcomes@.len() == ids.len(),
                forall|k: int|
                    0 <= k < outcomes@.len() ==> #[trigger] block_step_allowed(
                        v0,
                        current_blocknumber,
                        ids,
                        outcomes@,
                        k,
                    ),
                self@.wf(),
                self@.schedules == v0.schedules,
                self@ == after_block(
                    v0,
                    current_blocknumber,
                    ids.take(i as int),
                    outcomes@.take(i as int),
                ),
            decreases schedules@.len() - i,
        {
            let schedule_id = schedules[i];
            proof {
                assert(block_step_allowed(v0, current_blocknumber, ids, outcomes@, i as int));
                assert(v0.schedules.contains_key(ids[i as int]));
            }
            self.process_buy_result(current_blocknumber, schedule_id, outcomes[i]);
            i = i + 1;
            proof {
                assert(ids.take(i as int).drop_last() =~= ids.take(i - 1));
                assert(outcomes@.take(i as int).take(i - 1) =~= outcomes@.take(i - 1));
                assert(ids.take(i as int).last() == ids[i - 1]);
            }
        }
        assert(ids.take(ids.len() as int) =~= ids);
        assert(outcomes@.take(ids.len() as int) =~= outcomes@);
    }

    /// The last schedule id handed out (0 before the first).
    pub fn next_schedule_id(&self) -> (id: ScheduleId)
        ensures
            id == self@.next_schedule_id,
    {
        self.schedule_id_sequencer
    }

    /// The schedule stored under `schedule_id`.
    pub fn schedules(&self, schedule_id: ScheduleId) -> (schedule: Option<&Schedule<T::Asset>>)
        ensures
            match schedule {
                Some(s) => self@.schedules.contains_key(schedule_id) && *s == self@.schedules[schedule_id],
                None => !self@.schedules.contains_key(schedule_id),
            },
    {
        self.schedules.get(&schedule_id)
    }

    /// The owner of schedule `schedule_id`.
    pub fn schedule_ownership(&self, schedule_id: ScheduleId) -> (owner: Option<AccountId>)
        ensures
            match owner {
                Some(o) => self@.owners.contains_key(schedule_id) && o == self@.owners[schedule_id],
                None => !self@.owners.contains_key(schedule_id),
            },
    {
        match self.schedule_ownership.get(&schedule_id) {
            Some(o) => Some(*o),
            None => None,
        }
    }

    /// The recurrences left to schedule `schedule_id`.
    pub fn remaining_recurrences(&self, schedule_id: ScheduleId) -> (left: Option<u128>)
        ensures
            match left {
                Some(n) => self@.remaining.contains_key(schedule_id) && n == self@.remaining[schedule_id],
                None => !self@.remaining.contains_key(schedule_id),
            },
    {
        match self.remaining_recurrences.get(&schedule_id) {
            Some(n) => Some(*n),
            None => None,
        }
    }

    /// The ids planned for `block`, in the order they were planned.
    pub fn schedule_ids_per_block(&self, block: BlockNumber) -> (ids: Option<Vec<ScheduleId>>)
        ensures
            match ids {
                Some(v) => self@.per_block.contains_key(block) && v@ == self@.per_block[block],
                None => !self@.per_block.contains_key(block),
            },
    {
        match self.schedule_ids_per_block.get(&block) {
            Some(schedules) => Some(ids_into_inner(ids_clone(schedules))),
            None => None,
        }
    }
}

/// The storage after the buys of schedule `id` succeeded, one in each block of `blocks`, in
/// order.
pub open spec fn after_buys<Asset>(
    v: PalletView<Asset>,
    id: ScheduleId,
    blocks: Seq<BlockNumber>,
) -> PalletView<Asset>
    decreases blocks.len(),
{
    if blocks.len() == 0 {
        v
    } else {
        after_buys(v, id, blocks.drop_last()).after_successful_buy(blocks.last(), id)
    }
}

/// The storage after the block hook of block `current` went through `ids` in order, the buy
/// of `ids[i]` having succeeded exactly when `outcomes[i]` holds.
pub open spec fn after_block<Asset>(
    v: PalletView<Asset>,
    current: BlockNumber,
    ids: Seq<ScheduleId>,
    outcomes: Seq<bool>,
) -> PalletView<Asset>
    decreases ids.len(),
{
    if ids.len() == 0 {
        v
    } else {
        let prev = after_block(v, current, ids.drop_last(), outcomes.take(ids.len() - 1));
        if outcomes[ids.len() - 1] {
            prev.after_successful_buy(current, ids.last())
        } else {
            prev
        }
    }
}

/// The block hook goes through its ids one at a time, each by the outcome of its own buy: with
/// no ids it changes nothing, and one more id `x` whose buy had outcome `o` adds, to the storage
/// reached so far, the step of a successful buy of `x` exactly when `o` holds, whatever the
/// outcomes of the earlier ids were.
pub proof fn law_block_is_fold_of_own_steps<Asset>(
    v: PalletView<Asset>,
    current: BlockNumber,
    ids: Seq<ScheduleId>,
    outcomes: Seq<bool>,
    x: ScheduleId,
    o: bool,
)
    requires
        ids.len() == outcomes.len(),
    ensures
        after_block(v, current, Seq::empty(), Seq::empty()) == v,
        after_block(v, current, ids.push(x), outcomes.push(o)) == (if o {
            after_block(v, current, ids, outcomes).after_successful_buy(current, x)
        } else {
            after_block(v, current, ids, outcomes)
        }),
{
    assert(ids.push(x).drop_last() =~= ids);
    assert(outcomes.push(o).take(ids.len() as int) =~= outcomes);
    assert(outcomes.push(o)[ids.len() as int] == o);
}

/// Whether the `i`-th step of the block hook of block `current` can be taken without the
/// hook's panics: after a successful buy, the next block of the schedule must be a block
/// number, and a fixed schedule must have recurrences left in the storage reached so far.
pub open spec fn block_step_allowed<Asset>(
    v: PalletView<Asset>,
    current: BlockNumber,
    ids: Seq<ScheduleId>,
    outcomes: Seq<bool>,
    i: int,
) -> bool {
    let s = after_block(v, current, ids.take(i), outcomes.take(i));
    outcomes[i] ==> {
        &&& current + v.schedules[ids[i]].period <= u32::MAX
        &&& v.schedules[ids[i]].recurrence is Fixed ==> s.remaining.contains_key(ids[i])
            && s.remaining[ids[i]] > 0
    }
}

proof fn lemma_after_buys_prefix<Asset>(
    v: PalletView<Asset>,
    id: ScheduleId,
    blocks: Seq<BlockNumber>,
    k: int,
)
    requires
        v.schedules.contains_key(id),
        v.schedules[id].recurrence is Fixed,
        v.remaining.contains_key(id),
        v.remaining[id] == blocks.len(),
        0 <= k < blocks.len(),
    ensures
        after_buys(v, id, blocks.take(k)).schedules == v.schedules,
        after_buys(v, id, blocks.take(k)).remaining.contains_key(id),
        after_buys(v, id, blocks.take(k)).remaining[id] == blocks.len() - k,
    decreases k,
{
    if k == 0 {
        assert(blocks.take(0) =~= Seq::<BlockNumber>::empty());
    } else {
        lemma_after_buys_prefix(v, id, blocks, k - 1);
        assert(blocks.take(k).drop_last() =~= blocks.take(k - 1));
    }
}

/// A schedule with a fixed count of `n > 0` recurrences is bought `n` times: after `k < n`
/// successful buys it has `n - k` left, and the `n`-th buy drops its count and plans it for no
/// block. No buy changes the stored schedules.
pub proof fn law_fixed_schedule_runs_its_count<Asset>(
    v: PalletView<Asset>,
    id: ScheduleId,
    blocks: Seq<BlockNumber>,
)
    requires
        v.schedules.contains_key(id),
        v.schedules[id].recurrence is Fixed,
        v.remaining.contains_key(id),
        v.remaining[id] == blocks.len(),
        blocks.len() > 0,
    ensures
        forall|k: int|
            0 <= k < blocks.len() ==> {
                &&& #[trigger] after_buys(v, id, blocks.take(k)).remaining.contains_key(id)
                &&& after_buys(v, id, blocks.take(k)).remaining[id] == blocks.len() - k
            },
        !after_buys(v, id, blocks).remaining.contains_key(id),
        after_buys(v, id, blocks).per_block == after_buys(v, id, blocks.drop_last()).per_block,
        after_buys(v, id, blocks).schedules == v.schedules,
{
    assert forall|k: int| 0 <= k < blocks.len() implies {
        &&& #[trigger] after_buys(v, id, blocks.take(k)).remaining.contains_key(id)
        &&& after_buys(v, id, blocks.take(k)).remaining[id] == blocks.len() - k
    } by {
        lemma_after_buys_prefix(v, id, blocks, k);
    }
    let n = blocks.len() as int;
    lemma_after_buys_prefix(v, id, blocks, n - 1);
    assert(blocks.drop_last() =~= blocks.take(n - 1));
}

/// The blocks `b, b + p, b + 2p, ...` of the first `k` buys of a schedule with period `p` that is
/// first due at block `b`.
pub open spec fn buy_blocks(b: BlockNumber, p: BlockNumber, k: nat) -> Seq<BlockNumber> {
    Seq::new(k, |j: int| (b + j * p) as BlockNumber)
}

proof fn lemma_replanning_prefix<Asset>(v: PalletView<Asset>, id: ScheduleId, b: BlockNumber, k: int)
    requires
        v.schedules.contains_key(id),
        v.schedules[id].recurrence is Fixed,
        v.schedules[id].period >= 1,
        v.remaining.contains_key(id),
        v.remaining[id] >= 1,
        b + (v.remaining[id] - 1) * v.schedules[id].period <= u32::MAX,
        forall|c: BlockNumber| c > b ==> !#[trigger] v.per_block.contains_key(c),
        0 <= k < v.remaining[id],
    ensures
        ({
            let n = v.remaining[id] as nat;
            let p = v.schedules[id].period;
            let s = after_buys(v, id, buy_blocks(b, p, n).take(k));
            &&& s.schedules == v.schedules
            &&& s.remaining.contains_key(id)
            &&& s.remaining[id] == n - k
            &&& forall|c: BlockNumber|
                c > b && #[trigger] s.per_block.contains_key(c) ==> c <= b + k * p
                    && s.per_block[c] == seq![id]
            &&& k >= 1 ==> s.per_block.contains_key((b + k * p) as BlockNumber)
                && s.per_block[(b + k * p) as BlockNumber] == seq![id]
        }),
    decreases k,
{
    let n = v.remaining[id] as nat;
    let p = v.schedules[id].period;
    let blocks = buy_blocks(b, p, n);
    if k == 0 {
        assert(blocks.take(0) =~= Seq::<BlockNumber>::empty());
    } else {
        lemma_replanning_prefix(v, id, b, k - 1);
        let s = after_buys(v, id, blocks.take(k - 1));
        assert(blocks.take(k).drop_last() =~= blocks.take(k - 1));
        assert(blocks.take(k).last() == blocks[k - 1]);
        assert((k - 1) * p <= (n - 1) * p && k * p <= (n - 1) * p && k * p == (k - 1) * p + p
            && (k - 1) * p >= 0) by (nonlinear_arith)
            requires
                1 <= k <= n - 1,
                p >= 1,
        ;
        assert(blocks[k - 1] == b + (k - 1) * p);
        let next = (blocks[k - 1] + p) as BlockNumber;
        assert(next == b + k * p);
        assert(!s.per_block.contains_key(next));
        let t = after_buys(v, id, blocks.take(k));
        assert(t.per_block == s.per_block.insert(next, seq![id]));
        assert forall|c: BlockNumber|
            c > b && #[trigger] t.per_block.contains_key(c) implies c <= b + k * p
                && t.per_block[c] == seq![id] by {
            if c != next {
                assert(s.per_block.contains_key(c));
            }
        }
    }
}

/// Where a fixed schedule is bought and planned again: a schedule with a fixed count of
/// `n > 0` recurrences and period `p > 0`, due at block `b` with no block after `b` planned
/// yet, whose buys at `b, b + p, ...` all succeed, is listed alone at block `b + k * p` after
/// its `k`-th buy for every `k < n`; after its `n`-th buy, at `b + (n - 1) * p`, its count is
/// gone and no later block lists anything.
pub proof fn law_fixed_schedule_replanning<Asset>(v: PalletView<Asset>, id: ScheduleId, b: BlockNumber)
    requires
        v.schedules.contains_key(id),
        v.schedules[id].recurrence is Fixed,
        v.schedules[id].period >= 1,
        v.remaining.contains_key(id),
        v.remaining[id] >= 1,
        b + (v.remaining[id] - 1) * v.schedules[id].period <= u32::MAX,
        forall|c: BlockNumber| c > b ==> !#[trigger] v.per_block.contains_key(c),
    ensures
        ({
            let n = v.remaining[id] as nat;
            let p = v.schedules[id].period;
            let blocks = buy_blocks(b, p, n);
            let last = after_buys(v, id, blocks);
            &&& forall|k: int|
                1 <= k < n ==> {
                    let s = #[trigger] after_buys(v, id, blocks.take(k));
                    &&& s.per_block.contains_key((b + k * p) as BlockNumber)
                    &&& s.per_block[(b + k * p) as BlockNumber] == seq![id]
                }
            &&& !last.remaining.contains_key(id)
            &&& forall|c: BlockNumber|
                c > b + (n - 1) * p ==> !#[trigger] last.per_block.contains_key(c)
        }),
{
    let n = v.remaining[id] as nat;
    let p = v.schedules[id].period;
    let blocks = buy_blocks(b, p, n);
    assert forall|k: int| 1 <= k < n implies {
        let s = #[trigger] after_buys(v, id, blocks.take(k));
        &&& s.per_block.contains_key((b + k * p) as BlockNumber)
        &&& s.per_block[(b + k * p) as BlockNumber] == seq![id]
    } by {
        lemma_replanning_prefix(v, id, b, k);
    }
    lemma_replanning_prefix(v, id, b, n - 1);
    assert(blocks.drop_last() =~= blocks.take(n - 1));
    let s = after_buys(v, id, blocks.take(n - 1));
    let last = after_buys(v, id, blocks);
    assert(last.per_block == s.per_block);
    assert((n - 1) * p >= 0) by (nonlinear_arith)
        requires
            n >= 1,
            p >= 1,
    ;
    assert forall|c: BlockNumber| c > b + (n - 1) * p implies !#[trigger] last.per_block.contains_key(
        c,
    ) by {
        if last.per_block.contains_key(c) {
            assert(s.per_block.contains_key(c));
        }
    }
}

/// Planning `id` for `block` touches only the list of `block`: a block without a list gets the
/// list holding `id` alone, a list of fewer than 20 ids gets `id` at its end with the earlier
/// ids kept in order, and a full list stays as it was.
pub proof fn law_planning<Asset>(v: PalletView<Asset>, block: BlockNumber, id: ScheduleId)
    ensures
        ({
            let s = v.planned(block, id);
            &&& s.next_schedule_id == v.next_schedule_id
            &&& s.schedules == v.schedules
            &&& s.owners == v.owners
            &&& s.remaining == v.remaining
            &&& forall|c: BlockNumber|
                c != block ==> (#[trigger] s.per_block.contains_key(c) == v.per_block.contains_key(c))
                    && s.per_block[c] == v.per_block[c]
            &&& s.per_block.contains_key(block)
            &&& !v.per_block.contains_key(block) ==> s.per_block[block] == seq![id]
            &&& v.per_block.contains_key(block) && v.per_block[block].len() < 20 ==> {
                &&& s.per_block[block].len() == v.per_block[block].len() + 1
                &&& s.per_block[block].last() == id
                &&& s.per_block[block].drop_last() == v.per_block[block]
            }
            &&& v.per_block.contains_key(block) && v.per_block[block].len() >= 20
                ==> s.per_block[block] == v.per_block[block]
        }),
{
    let s = v.planned(block, id);
    if v.per_block.contains_key(block) && v.per_block[block].len() < 20 {
        assert(s.per_block[block].drop_last() =~= v.per_block[block]);
    }
}

/// One successful buy of schedule `id` in block `current`: a perpetual schedule, and a fixed
/// one with more than one recurrence left, is planned for block `current + period` (and only
/// there); a fixed one counts its recurrences down by one, and with its last one it drops its
/// count and is planned nowhere. Schedules, owners and the sequencer stay as they were.
pub proof fn law_successful_buy_step<Asset>(v: PalletView<Asset>, current: BlockNumber, id: ScheduleId)
    requires
        v.schedules.contains_key(id),
        current + v.schedules[id].period <= u32::MAX,
        v.schedules[id].recurrence is Fixed ==> v.remaining.contains_key(id) && v.remaining[id] > 0,
    ensures
        ({
            let s = v.after_successful_buy(current, id);
            let next = (current + v.schedules[id].period) as BlockNumber;
            let last_run = v.schedules[id].recurrence is Fixed && v.remaining[id] == 1;
            &&& s.next_schedule_id == v.next_schedule_id
            &&& s.schedules == v.schedules
            &&& s.owners == v.owners
            &&& v.schedules[id].recurrence is Perpetual ==> s.remaining == v.remaining
            &&& v.schedules[id].recurrence is Fixed && !last_run ==> s.remaining == v.remaining.insert(
                id,
                (v.remaining[id] - 1) as u128,
            )
            &&& last_run ==> s.remaining == v.remaining.remove(id) && s.per_block == v.per_block
            &&& !last_run ==> s.per_block == v.planned(next, id).per_block
            &&& !last_run ==> s.per_block.contains_key(next) && s.per_block[next].contains(id)
                || v.per_block.contains_key(next) && v.per_block[next].len() >= 20
        }),
{
    let next = (current + v.schedules[id].period) as BlockNumber;
    law_planning(v, next, id);
    let t = PalletView { remaining: v.remaining.insert(id, (v.remaining[id] - 1) as u128), ..v };
    law_planning(t, next, id);
    let s = v.after_successful_buy(current, id);
    if !(v.schedules[id].recurrence is Fixed && v.remaining[id] == 1) {
        if s.per_block.contains_key(next) && !(v.per_block.contains_key(next)
            && v.per_block[next].len() >= 20) {
            let l = s.per_block[next];
            assert(l[l.len() - 1] == id);
        }
    }
}

/// What scheduling stores can be read back: the schedule sits under the next id, which no
/// schedule held before, with the signer as its owner and, for a fixed recurrence, its count;
/// every other schedule stays as it was, and the storage stays well formed.
pub proof fn law_schedule_stores_under_fresh_id<Asset>(
    v: PalletView<Asset>,
    who: AccountId,
    schedule: Schedule<Asset>,
    block: BlockNumber,
)
    requires
        v.wf(),
        v.next_schedule_id < u32::MAX,
    ensures
        ({
            let id = (v.next_schedule_id + 1) as ScheduleId;
            let post = v.with_schedule(id, who, schedule).planned(block, id);
            &&& !v.schedules.contains_key(id)
            &&& post.wf()
            &&& post.schedules[id] == schedule
            &&& post.owners[id] == who
            &&& (post.remaining.contains_key(id) <==> schedule.recurrence is Fixed)
            &&& forall|other: ScheduleId|
                other != id ==> #[trigger] post.schedules.contains_key(other)
                    == v.schedules.contains_key(other) && post.schedules[other]
                    == v.schedules[other]
        }),
{
}

} // verus!
