use stockflow::catalog::ItemKind;
use stockflow::errors::Error;
use stockflow::finance::{FinanceReply, TitleKind, TitleStatus};
use stockflow::ledger::InventoryLedger;
use stockflow::orders::OrderWorkflow;
use stockflow::pipeline::{parse_stock_action, PipelineCategory, StockAction};

const TENANT: u128 = 7;
const LOC: u128 = 40;

struct Setup {
    workflow: OrderWorkflow,
    ledger: InventoryLedger,
    item: u128,
    draft: u128,
    active: u128,
    done: u128,
    order: u128,
}

// A pipeline Draft(0) -> Active(1, Reserve) -> Done(2, Deduct, makes a
// receivable), an item with 100 units on hand, and an open order with
// one line of 2 units at 50.00.
fn setup() -> Setup {
    let mut workflow = OrderWorkflow::new();
    let pipeline = workflow
        .create_pipeline(TENANT, String::from("Sales"), true)
        .unwrap();
    let draft = workflow
        .add_stage(TENANT, pipeline, String::from("Draft"), PipelineCategory::Draft, 0, None, false)
        .unwrap();
    let active = workflow
        .add_stage(
            TENANT,
            pipeline,
            String::from("Active"),
            PipelineCategory::Active,
            1,
            Some(StockAction::Reserve),
            false,
        )
        .unwrap();
    let done = workflow
        .add_stage(
            TENANT,
            pipeline,
            String::from("Done"),
            PipelineCategory::Done,
            2,
            Some(StockAction::Deduct),
            true,
        )
        .unwrap();
    let mut ledger = InventoryLedger::new();
    let item = ledger
        .create_item(
            TENANT,
            Some(LOC),
            None,
            1,
            String::from("SKU-9"),
            String::from("Gadget"),
            None,
            ItemKind::Product,
            None,
            100,
            1000,
            5000,
            None,
            0,
            50,
        )
        .unwrap();
    let order = workflow
        .create_order(TENANT, Some(99), pipeline, None, 60)
        .unwrap();
    workflow
        .add_item_to_order(TENANT, order, item, 2, 5000, 1000)
        .unwrap();
    Setup { workflow, ledger, item, draft, active, done, order }
}

#[test]
fn order_lands_in_lowest_position_stage() {
    let s = setup();
    let o = s.workflow.get_order(TENANT, s.order).unwrap();
    assert_eq!(o.stage_id, s.draft);
    assert_eq!(o.closed_at, None);
    assert_eq!(o.opened_at, 60);
    assert_eq!(o.customer_id, Some(99));
    let _ = s.active;
}

#[test]
fn entry_stage_ignores_insertion_order() {
    let mut workflow = OrderWorkflow::new();
    let pipeline = workflow
        .create_pipeline(TENANT, String::from("P"), false)
        .unwrap();
    let _later = workflow
        .add_stage(TENANT, pipeline, String::from("Mid"), PipelineCategory::Active, 5, None, false)
        .unwrap();
    let first = workflow
        .add_stage(TENANT, pipeline, String::from("Start"), PipelineCategory::Draft, 1, None, false)
        .unwrap();
    let order = workflow.create_order(TENANT, None, pipeline, None, 1).unwrap();
    assert_eq!(workflow.get_order(TENANT, order).unwrap().stage_id, first);
}

#[test]
fn create_order_needs_a_stage() {
    let mut workflow = OrderWorkflow::new();
    let pipeline = workflow
        .create_pipeline(TENANT, String::from("Empty"), false)
        .unwrap();
    let err = workflow.create_order(TENANT, None, pipeline, None, 1).unwrap_err();
    assert_eq!(err, Error::StageNotFound);
}

#[test]
fn add_stage_needs_the_pipeline() {
    let mut workflow = OrderWorkflow::new();
    let err = workflow
        .add_stage(TENANT, 123, String::from("X"), PipelineCategory::Draft, 0, None, false)
        .unwrap_err();
    assert_eq!(err, Error::PipelineNotFound);
}

#[test]
fn adding_lines_recomputes_the_total() {
    let mut s = setup();
    // The setup line: 2 * 50.00 = 100.00.
    assert_eq!(s.workflow.get_order(TENANT, s.order).unwrap().total_amount, 10000);
    s.workflow
        .add_item_to_order(TENANT, s.order, s.item, 3, 250, 100)
        .unwrap();
    assert_eq!(s.workflow.get_order(TENANT, s.order).unwrap().total_amount, 10750);
    let err = s
        .workflow
        .add_item_to_order(TENANT, 424242, s.item, 1, 1, 1)
        .unwrap_err();
    assert_eq!(err, Error::OrderNotFound);
}

#[test]
fn full_transition_deducts_and_emits_receivable() {
    // Example run: transition to Done deducts 2 units, emits a
    // receivable of 100.00 due today, and closes the order now.
    let mut s = setup();
    let outcome = s
        .workflow
        .transition_order(
            &mut s.ledger,
            TENANT,
            s.order,
            s.done,
            Some(LOC),
            777,
            FinanceReply::Granted(55),
        )
        .unwrap();
    assert!(outcome.deducted);
    let charge = outcome.receivable.unwrap();
    assert_eq!(charge.title_id, 55);
    assert_eq!(charge.amount, 10000);
    assert_eq!(charge.due_date, 777);
    assert_eq!(charge.kind, TitleKind::Receivable);
    assert_eq!(charge.status, TitleStatus::Pending);
    assert_eq!(charge.customer_id, Some(99));
    let o = s.workflow.get_order(TENANT, s.order).unwrap();
    assert_eq!(o.stage_id, s.done);
    assert_eq!(o.closed_at, Some(777));
    let lv = s.ledger.get_inventory_level(TENANT, s.item, LOC).unwrap();
    assert_eq!(lv.quantity, 98);
    let entry = s.ledger.get_entry(TENANT, s.item, LOC).unwrap();
    let sale = entry.movements.last().unwrap();
    assert_eq!(sale.quantity_changed, -2);
    assert_eq!(sale.unit_price, Some(5000));
    assert_eq!(sale.created_at, 777);
}

#[test]
fn refused_receivable_rolls_back_everything() {
    let mut s = setup();
    let err = s
        .workflow
        .transition_order(
            &mut s.ledger,
            TENANT,
            s.order,
            s.done,
            Some(LOC),
            777,
            FinanceReply::Refused,
        )
        .unwrap_err();
    assert_eq!(err, Error::FinanceRejected);
    let o = s.workflow.get_order(TENANT, s.order).unwrap();
    assert_eq!(o.stage_id, s.draft);
    assert_eq!(o.closed_at, None);
    let lv = s.ledger.get_inventory_level(TENANT, s.item, LOC).unwrap();
    assert_eq!(lv.quantity, 100);
    let entry = s.ledger.get_entry(TENANT, s.item, LOC).unwrap();
    assert_eq!(entry.movements.len(), 1);
    assert_eq!(entry.batches[0].quantity, 100);
}

#[test]
fn infeasible_deduction_rolls_back_everything() {
    let mut s = setup();
    // A second line pushes the demand beyond what is on hand.
    s.workflow
        .add_item_to_order(TENANT, s.order, s.item, 99, 5000, 1000)
        .unwrap();
    let err = s
        .workflow
        .transition_order(
            &mut s.ledger,
            TENANT,
            s.order,
            s.done,
            Some(LOC),
            777,
            FinanceReply::Granted(55),
        )
        .unwrap_err();
    assert_eq!(err, Error::InsufficientStock);
    assert_eq!(s.workflow.get_order(TENANT, s.order).unwrap().stage_id, s.draft);
    let lv = s.ledger.get_inventory_level(TENANT, s.item, LOC).unwrap();
    assert_eq!(lv.quantity, 100);
    assert_eq!(s.ledger.get_entry(TENANT, s.item, LOC).unwrap().movements.len(), 1);
}

#[test]
fn repeated_lines_deduct_cumulatively() {
    let mut s = setup();
    // 2 + 97 units in two lines of the same item: exactly enough.
    s.workflow
        .add_item_to_order(TENANT, s.order, s.item, 97, 100, 100)
        .unwrap();
    s.workflow
        .transition_order(
            &mut s.ledger,
            TENANT,
            s.order,
            s.done,
            Some(LOC),
            777,
            FinanceReply::Granted(1),
        )
        .unwrap();
    let lv = s.ledger.get_inventory_level(TENANT, s.item, LOC).unwrap();
    assert_eq!(lv.quantity, 1);
    let entry = s.ledger.get_entry(TENANT, s.item, LOC).unwrap();
    assert_eq!(entry.movements.len(), 3);
    assert_eq!(entry.movements[1].quantity_changed, -2);
    assert_eq!(entry.movements[2].quantity_changed, -97);
}

#[test]
fn plain_transition_moves_the_cursor_only() {
    let mut s = setup();
    let outcome = s
        .workflow
        .transition_order(
            &mut s.ledger,
            TENANT,
            s.order,
            s.active,
            None,
            700,
            FinanceReply::Refused,
        )
        .unwrap();
    assert!(!outcome.deducted);
    assert!(outcome.receivable.is_none());
    let o = s.workflow.get_order(TENANT, s.order).unwrap();
    assert_eq!(o.stage_id, s.active);
    assert_eq!(o.closed_at, None);
    assert_eq!(s.ledger.get_inventory_level(TENANT, s.item, LOC).unwrap().quantity, 100);
}

#[test]
fn moving_back_reopens_the_order() {
    let mut s = setup();
    s.workflow
        .transition_order(
            &mut s.ledger,
            TENANT,
            s.order,
            s.done,
            Some(LOC),
            777,
            FinanceReply::Granted(5),
        )
        .unwrap();
    assert_eq!(s.workflow.get_order(TENANT, s.order).unwrap().closed_at, Some(777));
    s.workflow
        .transition_order(&mut s.ledger, TENANT, s.order, s.active, None, 800, FinanceReply::Refused)
        .unwrap();
    let o = s.workflow.get_order(TENANT, s.order).unwrap();
    assert_eq!(o.stage_id, s.active);
    assert_eq!(o.closed_at, None);
}

#[test]
fn missing_deduction_location_skips_deduction() {
    let mut s = setup();
    let outcome = s
        .workflow
        .transition_order(&mut s.ledger, TENANT, s.order, s.done, None, 777, FinanceReply::Granted(5))
        .unwrap();
    assert!(!outcome.deducted);
    assert!(outcome.receivable.is_some());
    assert_eq!(s.ledger.get_inventory_level(TENANT, s.item, LOC).unwrap().quantity, 100);
}

#[test]
fn transition_errors_name_the_missing_record() {
    let mut s = setup();
    let err = s
        .workflow
        .transition_order(&mut s.ledger, TENANT, 4242, s.done, None, 1, FinanceReply::Refused)
        .unwrap_err();
    assert_eq!(err, Error::OrderNotFound);
    let err = s
        .workflow
        .transition_order(&mut s.ledger, TENANT, s.order, 4242, None, 1, FinanceReply::Refused)
        .unwrap_err();
    assert_eq!(err, Error::StageNotFound);
}

#[test]
fn stock_action_labels_parse() {
    assert_eq!(parse_stock_action(&String::from("NONE")), Some(StockAction::NoAction));
    assert_eq!(parse_stock_action(&String::from("RESERVE")), Some(StockAction::Reserve));
    assert_eq!(parse_stock_action(&String::from("DEDUCT")), Some(StockAction::Deduct));
    assert_eq!(parse_stock_action(&String::from("deduct")), None);
    assert_eq!(parse_stock_action(&String::from("")), None);
}

#[test]
fn oversized_amounts_are_reported_not_wrapped() {
    let mut s = setup();
    // A line amount beyond the i128 range is refused outright.
    let err = s
        .workflow
        .add_item_to_order(TENANT, s.order, s.item, u64::MAX, u64::MAX, 1)
        .unwrap_err();
    assert_eq!(err, Error::NumericOverflow);
    assert_eq!(s.workflow.get_order(TENANT, s.order).unwrap().total_amount, 10000);
    // A stock arrival beyond the i64 range is refused outright.
    let err = s
        .ledger
        .add_stock(
            TENANT,
            s.item,
            LOC,
            u64::MAX,
            1,
            stockflow::ledger::StockMovementReason::Purchase,
            None,
            None,
            None,
            None,
            1,
        )
        .unwrap_err();
    assert_eq!(err, Error::NumericOverflow);
    assert_eq!(s.ledger.get_inventory_level(TENANT, s.item, LOC).unwrap().quantity, 100);
}

#[test]
fn stage_lookup_and_total_recalculation() {
    let s = setup();
    let st = s.workflow.get_stage_by_id(TENANT, s.done).unwrap();
    assert_eq!(st.category, PipelineCategory::Done);
    assert_eq!(st.stock_action, StockAction::Deduct);
    assert!(st.generates_receivable);
    assert!(s.workflow.get_stage_by_id(TENANT, 999).is_none());
    assert_eq!(s.workflow.recalculate_order_total(TENANT, s.order), Ok(10000));
    assert_eq!(
        s.workflow.recalculate_order_total(TENANT, 999),
        Err(Error::OrderNotFound)
    );
}
