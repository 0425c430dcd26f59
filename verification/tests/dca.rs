use bounded_collections::{BoundedVec, ConstU32};
use hydradx::dca::{
    BuyOrder, Config, DispatchError, Order, Origin, Pallet, PoolType, Recurrence, Schedule,
    Trade,
};

struct Test;

impl Config for Test {
    type Asset = u32;
}

const ALICE: [u8; 32] = [1u8; 32];
const BOB: [u8; 32] = [2u8; 32];

fn route() -> BoundedVec<Trade, ConstU32<5>> {
    BoundedVec::try_from(vec![Trade { pool: PoolType::XYK, asset_in: 3, asset_out: 4 }]).unwrap()
}

fn schedule(period: u32, recurrence: Recurrence) -> Schedule<u32> {
    Schedule {
        period,
        recurrence,
        order: Order { asset_in: 3, asset_out: 4, amount_in: 1000, amount_out: 2000, limit: 5000, route: route() },
    }
}

#[test]
fn new_pallet_is_empty() {
    let pallet = Pallet::<Test>::new();
    assert_eq!(pallet.next_schedule_id(), 0);
    assert!(pallet.schedules(1).is_none());
    assert!(pallet.schedule_ownership(1).is_none());
    assert!(pallet.remaining_recurrences(1).is_none());
    assert!(pallet.schedule_ids_per_block(1).is_none());
}

#[test]
fn schedule_stores_schedule_owner_and_recurrence() {
    let mut pallet = Pallet::<Test>::new();
    assert_eq!(pallet.schedule(Origin::Signed(ALICE), schedule(10, Recurrence::Fixed(5)), Some(7), 1), Ok(()));
    assert_eq!(pallet.next_schedule_id(), 1);
    assert_eq!(pallet.schedules(1), Some(&schedule(10, Recurrence::Fixed(5))));
    assert_eq!(pallet.schedule_ownership(1), Some(ALICE));
    assert_eq!(pallet.remaining_recurrences(1), Some(5));
    assert_eq!(pallet.schedule_ids_per_block(7), Some(vec![1]));
}

#[test]
fn perpetual_schedule_stores_no_recurrence_count() {
    let mut pallet = Pallet::<Test>::new();
    assert_eq!(pallet.schedule(Origin::Signed(BOB), schedule(10, Recurrence::Perpetual), Some(7), 1), Ok(()));
    assert_eq!(pallet.remaining_recurrences(1), None);
    assert_eq!(pallet.schedule_ownership(1), Some(BOB));
}

#[test]
fn schedule_without_block_is_planned_for_next_block() {
    let mut pallet = Pallet::<Test>::new();
    assert_eq!(pallet.schedule(Origin::Signed(ALICE), schedule(10, Recurrence::Perpetual), None, 41), Ok(()));
    assert_eq!(pallet.schedule_ids_per_block(42), Some(vec![1]));
    assert_eq!(pallet.schedule_ids_per_block(41), None);
}

#[test]
fn next_block_saturates_at_last_block_number() {
    let mut pallet = Pallet::<Test>::new();
    assert_eq!(pallet.schedule(Origin::Signed(ALICE), schedule(10, Recurrence::Perpetual), None, u32::MAX), Ok(()));
    assert_eq!(pallet.schedule_ids_per_block(u32::MAX), Some(vec![1]));
}

#[test]
fn schedule_from_unsigned_or_root_origin_is_refused() {
    let mut pallet = Pallet::<Test>::new();
    assert_eq!(
        pallet.schedule(Origin::Root, schedule(10, Recurrence::Perpetual), Some(5), 1),
        Err(DispatchError::BadOrigin)
    );
    assert_eq!(
        pallet.schedule(Origin::Unsigned, schedule(10, Recurrence::Perpetual), Some(5), 1),
        Err(DispatchError::BadOrigin)
    );
    assert_eq!(pallet.next_schedule_id(), 0);
    assert!(pallet.schedules(1).is_none());
    assert!(pallet.schedule_ids_per_block(5).is_none());
}

#[test]
fn schedule_ids_are_handed_out_in_sequence() {
    let mut pallet = Pallet::<Test>::new();
    for _ in 0..3 {
        assert_eq!(pallet.schedule(Origin::Signed(ALICE), schedule(1, Recurrence::Perpetual), Some(9), 1), Ok(()));
    }
    assert_eq!(pallet.next_schedule_id(), 3);
    assert_eq!(pallet.schedule_ids_per_block(9), Some(vec![1, 2, 3]));
}

#[test]
fn a_block_plans_at_most_twenty_schedules() {
    let mut pallet = Pallet::<Test>::new();
    for _ in 0..21 {
        assert_eq!(pallet.schedule(Origin::Signed(ALICE), schedule(1, Recurrence::Perpetual), Some(9), 1), Ok(()));
    }
    let planned = pallet.schedule_ids_per_block(9).unwrap();
    assert_eq!(planned, (1..=20).collect::<Vec<u32>>());
    // the 21st schedule is stored all the same, but planned for no block
    assert_eq!(pallet.schedules(21), Some(&schedule(1, Recurrence::Perpetual)));
    assert_eq!(pallet.schedule_ownership(21), Some(ALICE));
}

#[test]
fn due_schedules_and_their_buy_orders() {
    let mut pallet = Pallet::<Test>::new();
    assert_eq!(pallet.schedule(Origin::Signed(ALICE), schedule(10, Recurrence::Perpetual), Some(5), 1), Ok(()));
    assert_eq!(pallet.schedule(Origin::Signed(BOB), schedule(3, Recurrence::Fixed(2)), Some(5), 1), Ok(()));
    assert_eq!(pallet.schedules_due(5), vec![1, 2]);
    assert_eq!(
        pallet.buy_order(2),
        BuyOrder { who: BOB, asset_out: 4, asset_in: 3, amount_out: 2000, limit: 5000 }
    );
}

#[test]
fn perpetual_schedule_is_planned_again_after_a_buy() {
    let mut pallet = Pallet::<Test>::new();
    assert_eq!(pallet.schedule(Origin::Signed(ALICE), schedule(10, Recurrence::Perpetual), Some(5), 1), Ok(()));
    pallet.process_buy_result(5, 1, true);
    assert_eq!(pallet.schedule_ids_per_block(15), Some(vec![1]));
    pallet.process_buy_result(15, 1, true);
    assert_eq!(pallet.schedule_ids_per_block(25), Some(vec![1]));
    assert_eq!(pallet.remaining_recurrences(1), None);
}

#[test]
fn fixed_schedule_counts_down_and_stops() {
    let mut pallet = Pallet::<Test>::new();
    assert_eq!(pallet.schedule(Origin::Signed(ALICE), schedule(3, Recurrence::Fixed(2)), Some(5), 1), Ok(()));
    pallet.process_buy_result(5, 1, true);
    assert_eq!(pallet.remaining_recurrences(1), Some(1));
    assert_eq!(pallet.schedule_ids_per_block(8), Some(vec![1]));
    pallet.process_buy_result(8, 1, true);
    assert_eq!(pallet.remaining_recurrences(1), None);
    assert_eq!(pallet.schedule_ids_per_block(11), None);
    // the schedule itself stays stored
    assert_eq!(pallet.schedules(1), Some(&schedule(3, Recurrence::Fixed(2))));
}

#[test]
fn failed_buy_changes_nothing() {
    let mut pallet = Pallet::<Test>::new();
    assert_eq!(pallet.schedule(Origin::Signed(ALICE), schedule(3, Recurrence::Fixed(2)), Some(5), 1), Ok(()));
    pallet.process_buy_result(5, 1, false);
    assert_eq!(pallet.remaining_recurrences(1), Some(2));
    assert_eq!(pallet.schedule_ids_per_block(8), None);
    assert_eq!(pallet.schedule_ids_per_block(5), Some(vec![1]));
}

#[test]
fn replanning_into_the_current_block_appends_to_its_list() {
    let mut pallet = Pallet::<Test>::new();
    assert_eq!(pallet.schedule(Origin::Signed(ALICE), schedule(0, Recurrence::Perpetual), Some(5), 1), Ok(()));
    pallet.process_buy_result(5, 1, true);
    assert_eq!(pallet.schedule_ids_per_block(5), Some(vec![1, 1]));
}

#[test]
fn process_block_goes_through_the_planned_ids_in_order() {
    let mut pallet = Pallet::<Test>::new();
    assert_eq!(pallet.schedule(Origin::Signed(ALICE), schedule(10, Recurrence::Perpetual), Some(5), 1), Ok(()));
    assert_eq!(pallet.schedule(Origin::Signed(BOB), schedule(3, Recurrence::Fixed(1)), Some(5), 1), Ok(()));
    assert_eq!(pallet.schedule(Origin::Signed(BOB), schedule(0, Recurrence::Perpetual), Some(5), 1), Ok(()));
    assert_eq!(pallet.schedule(Origin::Signed(ALICE), schedule(4, Recurrence::Perpetual), Some(5), 1), Ok(()));
    pallet.process_block(5, &vec![true, true, true, false]);
    // 1 is planned again, 2 has run its last recurrence, 3 goes to the end of this very block
    // without running twice, 4 failed and stays where it was
    assert_eq!(pallet.schedule_ids_per_block(15), Some(vec![1]));
    assert_eq!(pallet.remaining_recurrences(2), None);
    assert_eq!(pallet.schedule_ids_per_block(8), None);
    assert_eq!(pallet.schedule_ids_per_block(5), Some(vec![1, 2, 3, 4, 3]));
    assert_eq!(pallet.schedule_ids_per_block(9), None);
}

#[test]
fn fixed_schedule_runs_n_times_at_its_period() {
    let mut pallet = Pallet::<Test>::new();
    assert_eq!(pallet.schedule(Origin::Signed(ALICE), schedule(4, Recurrence::Fixed(3)), Some(10), 1), Ok(()));
    let mut runs = vec![];
    let mut block = 10;
    while let Some(ids) = pallet.schedule_ids_per_block(block) {
        runs.push(block);
        let outcomes = vec![true; ids.len()];
        pallet.process_block(block, &outcomes);
        block += 4;
    }
    assert_eq!(runs, vec![10, 14, 18]);
    assert_eq!(pallet.remaining_recurrences(1), None);
    assert_eq!(pallet.schedule_ids_per_block(22), None);
}
