use stockflow::catalog::{CompositionType, ItemKind};
use stockflow::errors::Error;
use stockflow::ledger::{InventoryLedger, StockMovementReason};

const TENANT: u128 = 7;
const LOC: u128 = 40;
const UNIT: u128 = 2;
const CAT: u128 = 3;

fn stocked_ledger(initial: u64, cost: u64) -> (InventoryLedger, u128) {
    let mut ledger = InventoryLedger::new();
    let item = ledger
        .create_item(
            TENANT,
            Some(LOC),
            Some(CAT),
            UNIT,
            String::from("SKU-1"),
            String::from("Beans"),
            None,
            ItemKind::Product,
            None,
            initial,
            cost,
            2500,
            None,
            5,
            100,
        )
        .unwrap();
    (ledger, item)
}

#[test]
fn create_item_with_opening_stock() {
    // Opening 100 units at 10.00 each: quantity 100, average cost 10.00,
    // one InitialStock movement of +100.
    let (ledger, item) = stocked_ledger(100, 1000);
    let entry = ledger.get_entry(TENANT, item, LOC).unwrap();
    assert_eq!(entry.level.quantity, 100);
    assert_eq!(entry.level.reserved_quantity, 0);
    assert!(entry.level.average_cost.is_units(1000));
    assert_eq!(entry.level.sale_price, Some(2500));
    assert_eq!(entry.level.low_stock_threshold, 5);
    assert_eq!(entry.movements.len(), 1);
    assert_eq!(entry.movements[0].quantity_changed, 100);
    assert_eq!(entry.movements[0].reason, StockMovementReason::InitialStock);
    assert_eq!(entry.movements[0].unit_cost, Some(1000));
    assert_eq!(entry.movements[0].position, "Geral");
    assert_eq!(entry.batches.len(), 1);
    assert_eq!(entry.batches[0].batch_number, "DEFAULT");
    assert_eq!(entry.batches[0].position, "Geral");
    assert_eq!(entry.batches[0].quantity, 100);
    assert_eq!(entry.batches[0].unit_cost, 1000);
    // The catalog row was written in the same step.
    assert_eq!(ledger.catalog.items.len(), 1);
    assert_eq!(ledger.catalog.items[0].sku, "SKU-1");
    assert_eq!(ledger.catalog.items[0].cost_price, Some(1000));
    assert!(ledger.catalog.items[0].settings.is_some());
}

#[test]
fn create_service_item_ignores_stock() {
    let mut ledger = InventoryLedger::new();
    let item = ledger
        .create_item(
            TENANT,
            Some(LOC),
            None,
            UNIT,
            String::from("SVC-1"),
            String::from("Consultation"),
            None,
            ItemKind::Service,
            None,
            100,
            1000,
            5000,
            None,
            0,
            100,
        )
        .unwrap();
    assert!(ledger.get_entry(TENANT, item, LOC).is_none());
    assert_eq!(ledger.catalog.items.len(), 1);
}

#[test]
fn create_item_duplicate_sku_rejected() {
    let (mut ledger, _) = stocked_ledger(100, 1000);
    let err = ledger
        .create_item(
            TENANT,
            None,
            None,
            UNIT,
            String::from("SKU-1"),
            String::from("Other"),
            None,
            ItemKind::Product,
            None,
            0,
            0,
            100,
            None,
            0,
            101,
        )
        .unwrap_err();
    assert_eq!(err, Error::DuplicateSku);
    assert_eq!(ledger.catalog.items.len(), 1);
    // The same SKU is fine for another tenant.
    assert!(ledger
        .create_item(
            TENANT + 1,
            None,
            None,
            UNIT,
            String::from("SKU-1"),
            String::from("Other"),
            None,
            ItemKind::Product,
            None,
            0,
            0,
            100,
            None,
            0,
            101,
        )
        .is_ok());
}

#[test]
fn add_stock_blends_average_cost() {
    // 100 at 10.00, then 50 at 16.00: (100*10 + 50*16) / 150 = 12.00.
    let (mut ledger, item) = stocked_ledger(100, 1000);
    ledger
        .add_stock(
            TENANT,
            item,
            LOC,
            50,
            1600,
            StockMovementReason::Purchase,
            None,
            None,
            None,
            None,
            110,
        )
        .unwrap();
    let level = ledger.get_inventory_level(TENANT, item, LOC).unwrap();
    assert_eq!(level.quantity, 150);
    assert!(level.average_cost.is_units(1200));
    // The stored rational is fully reduced.
    assert_eq!(level.average_cost.num, 1200);
    assert_eq!(level.average_cost.den, 1);
    let entry = ledger.get_entry(TENANT, item, LOC).unwrap();
    assert_eq!(entry.movements.len(), 2);
    assert_eq!(entry.movements[1].quantity_changed, 50);
    assert_eq!(entry.movements[1].reason, StockMovementReason::Purchase);
}

#[test]
fn average_cost_is_exact_rational() {
    // 1 at 0.01 and 2 at 0.02 average to 5/3 of a cent: no rounding.
    let mut ledger = InventoryLedger::new();
    ledger
        .add_stock(TENANT, 1, LOC, 1, 1, StockMovementReason::Purchase, None, None, None, None, 1)
        .unwrap();
    ledger
        .add_stock(TENANT, 1, LOC, 2, 2, StockMovementReason::Purchase, None, None, None, None, 2)
        .unwrap();
    let level = ledger.get_inventory_level(TENANT, 1, LOC).unwrap();
    assert!(level.average_cost.is_ratio(5, 3));
    assert!(!level.average_cost.is_units(1));
    assert!(!level.average_cost.is_units(2));
}

#[test]
fn average_cost_ignores_insertion_order() {
    let mut a = InventoryLedger::new();
    let mut b = InventoryLedger::new();
    for (qty, cost) in [(10u64, 700u64), (30, 150), (5, 999)] {
        a.add_stock(TENANT, 1, LOC, qty, cost, StockMovementReason::Purchase, None, None, None, None, 1)
            .unwrap();
    }
    for (qty, cost) in [(5u64, 999u64), (10, 700), (30, 150)] {
        b.add_stock(TENANT, 1, LOC, qty, cost, StockMovementReason::Purchase, None, None, None, None, 1)
            .unwrap();
    }
    let la = a.get_inventory_level(TENANT, 1, LOC).unwrap();
    let lb = b.get_inventory_level(TENANT, 1, LOC).unwrap();
    assert!(la.average_cost.is_ratio(lb.average_cost.num, lb.average_cost.den));
    assert_eq!(la.quantity, lb.quantity);
}

#[test]
fn add_stock_creates_missing_level() {
    let mut ledger = InventoryLedger::new();
    ledger
        .add_stock(
            TENANT,
            9,
            LOC,
            12,
            500,
            StockMovementReason::Return,
            Some(String::from("customer return")),
            Some(String::from("L-77")),
            Some(20000),
            Some(String::from("Shelf A")),
            55,
        )
        .unwrap();
    let entry = ledger.get_entry(TENANT, 9, LOC).unwrap();
    assert_eq!(entry.level.quantity, 12);
    assert_eq!(entry.level.sale_price, None);
    assert_eq!(entry.batches.len(), 1);
    assert_eq!(entry.batches[0].batch_number, "L-77");
    assert_eq!(entry.batches[0].position, "Shelf A");
    assert_eq!(entry.batches[0].expiration_date, Some(20000));
    assert_eq!(entry.movements[0].note.as_deref(), Some("customer return"));
}

#[test]
fn fifo_sale_drains_oldest_batch_first() {
    // B1 (100 at 10.00, no expiration, created first), B2 (50 at 16.00,
    // created later); selling 120 leaves B1 at 0 and B2 at 30.
    let mut ledger = InventoryLedger::new();
    ledger
        .add_stock(TENANT, 1, LOC, 100, 1000, StockMovementReason::Purchase, None,
            Some(String::from("B1")), None, None, 10)
        .unwrap();
    ledger
        .add_stock(TENANT, 1, LOC, 50, 1600, StockMovementReason::Purchase, None,
            Some(String::from("B2")), None, None, 11)
        .unwrap();
    ledger
        .sell_item(TENANT, 1, LOC, 120, 2500, false, None, None, None, 12)
        .unwrap();
    let entry = ledger.get_entry(TENANT, 1, LOC).unwrap();
    assert_eq!(entry.level.quantity, 30);
    let b1 = entry.batches.iter().find(|b| b.batch_number == "B1").unwrap();
    let b2 = entry.batches.iter().find(|b| b.batch_number == "B2").unwrap();
    assert_eq!(b1.quantity, 0);
    assert_eq!(b2.quantity, 30);
    let sale = entry.movements.last().unwrap();
    assert_eq!(sale.quantity_changed, -120);
    assert_eq!(sale.reason, StockMovementReason::Sale);
    assert_eq!(sale.unit_price, Some(2500));
    assert_eq!(sale.position, "Vários/FIFO");
}

#[test]
fn fifo_sale_prefers_earliest_expiration() {
    // A dated batch beats an earlier-created undated one; among dated
    // batches the sooner expiration goes first.
    let mut ledger = InventoryLedger::new();
    ledger
        .add_stock(TENANT, 1, LOC, 10, 100, StockMovementReason::Purchase, None,
            Some(String::from("UNDATED")), None, None, 1)
        .unwrap();
    ledger
        .add_stock(TENANT, 1, LOC, 10, 100, StockMovementReason::Purchase, None,
            Some(String::from("LATER")), Some(300), None, 2)
        .unwrap();
    ledger
        .add_stock(TENANT, 1, LOC, 10, 100, StockMovementReason::Purchase, None,
            Some(String::from("SOON")), Some(200), None, 3)
        .unwrap();
    ledger
        .sell_item(TENANT, 1, LOC, 15, 500, false, None, None, None, 4)
        .unwrap();
    let entry = ledger.get_entry(TENANT, 1, LOC).unwrap();
    let soon = entry.batches.iter().find(|b| b.batch_number == "SOON").unwrap();
    let later = entry.batches.iter().find(|b| b.batch_number == "LATER").unwrap();
    let undated = entry.batches.iter().find(|b| b.batch_number == "UNDATED").unwrap();
    assert_eq!(soon.quantity, 0);
    assert_eq!(later.quantity, 5);
    assert_eq!(undated.quantity, 10);
    // The batches stand in consumption order.
    assert_eq!(entry.batches[0].batch_number, "SOON");
    assert_eq!(entry.batches[1].batch_number, "LATER");
    assert_eq!(entry.batches[2].batch_number, "UNDATED");
}

#[test]
fn sale_beyond_available_is_rejected_without_any_change() {
    let (mut ledger, item) = stocked_ledger(10, 1000);
    let before_level = {
        let lv = ledger.get_inventory_level(TENANT, item, LOC).unwrap();
        (lv.quantity, lv.reserved_quantity, lv.average_cost.num, lv.average_cost.den)
    };
    let before_batches: Vec<(String, i64)> = ledger
        .get_entry(TENANT, item, LOC)
        .unwrap()
        .batches
        .iter()
        .map(|b| (b.batch_number.clone(), b.quantity))
        .collect();
    let before_movements = ledger.get_entry(TENANT, item, LOC).unwrap().movements.len();

    let err = ledger
        .sell_item(TENANT, item, LOC, 11, 2500, false, None, None, None, 20)
        .unwrap_err();
    assert_eq!(err, Error::InsufficientStock);

    let lv = ledger.get_inventory_level(TENANT, item, LOC).unwrap();
    assert_eq!(
        (lv.quantity, lv.reserved_quantity, lv.average_cost.num, lv.average_cost.den),
        before_level
    );
    let after_batches: Vec<(String, i64)> = ledger
        .get_entry(TENANT, item, LOC)
        .unwrap()
        .batches
        .iter()
        .map(|b| (b.batch_number.clone(), b.quantity))
        .collect();
    assert_eq!(after_batches, before_batches);
    assert_eq!(
        ledger.get_entry(TENANT, item, LOC).unwrap().movements.len(),
        before_movements
    );
}

#[test]
fn two_sales_serialize_on_one_level() {
    // Two sales of 8 against an availability of 10: exactly one goes
    // through, the other is rejected, and 2 units remain available.
    let (mut ledger, item) = stocked_ledger(10, 1000);
    assert!(ledger
        .sell_item(TENANT, item, LOC, 8, 2500, false, None, None, None, 21)
        .is_ok());
    let second = ledger.sell_item(TENANT, item, LOC, 8, 2500, false, None, None, None, 22);
    assert_eq!(second.unwrap_err(), Error::InsufficientStock);
    let lv = ledger.get_inventory_level(TENANT, item, LOC).unwrap();
    assert_eq!(lv.quantity - lv.reserved_quantity, 2);
}

#[test]
fn sale_on_missing_level_is_not_found() {
    let mut ledger = InventoryLedger::new();
    let err = ledger
        .sell_item(TENANT, 1, LOC, 1, 100, false, None, None, None, 1)
        .unwrap_err();
    assert_eq!(err, Error::InventoryLevelNotFound);
}

#[test]
fn specific_batch_sale_deducts_named_batch_fully() {
    let mut ledger = InventoryLedger::new();
    ledger
        .add_stock(TENANT, 1, LOC, 10, 100, StockMovementReason::Purchase, None,
            Some(String::from("B1")), None, Some(String::from("Shelf")), 1)
        .unwrap();
    ledger
        .sell_item(TENANT, 1, LOC, 4, 500, false, None, Some(String::from("B1")),
            Some(String::from("Shelf")), 2)
        .unwrap();
    let entry = ledger.get_entry(TENANT, 1, LOC).unwrap();
    assert_eq!(entry.level.quantity, 6);
    assert_eq!(entry.batches[0].quantity, 6);
    assert_eq!(entry.movements.last().unwrap().position, "Shelf");
}

#[test]
fn specific_batch_sale_creates_negative_batch_when_absent() {
    // Naming a batch that does not exist leaves the caller's problem on
    // record: the batch is created with a negative quantity.
    let mut ledger = InventoryLedger::new();
    ledger
        .add_stock(TENANT, 1, LOC, 10, 100, StockMovementReason::Purchase, None, None, None, None, 1)
        .unwrap();
    ledger
        .sell_item(TENANT, 1, LOC, 4, 500, false, None, Some(String::from("GHOST")), None, 2)
        .unwrap();
    let entry = ledger.get_entry(TENANT, 1, LOC).unwrap();
    assert_eq!(entry.level.quantity, 6);
    let ghost_batch = entry.batches.iter().find(|b| b.batch_number == "GHOST").unwrap();
    assert_eq!(ghost_batch.quantity, -4);
    assert_eq!(ghost_batch.position, "Geral");
}

#[test]
fn consume_reservation_lowers_both_quantities() {
    let (mut ledger, item) = stocked_ledger(10, 1000);
    ledger
        .sell_item(TENANT, item, LOC, 3, 2500, true, None, None, None, 30)
        .unwrap();
    let lv = ledger.get_inventory_level(TENANT, item, LOC).unwrap();
    assert_eq!(lv.quantity, 7);
    assert_eq!(lv.reserved_quantity, -3);
}

#[test]
fn movements_reconcile_with_level_quantity() {
    let (mut ledger, item) = stocked_ledger(100, 1000);
    ledger
        .add_stock(TENANT, item, LOC, 50, 1600, StockMovementReason::Purchase, None, None, None, None, 2)
        .unwrap();
    ledger
        .sell_item(TENANT, item, LOC, 30, 2500, false, None, None, None, 3)
        .unwrap();
    ledger
        .add_stock(TENANT, item, LOC, 5, 900, StockMovementReason::Correction, None, None, None, None, 4)
        .unwrap();
    let entry = ledger.get_entry(TENANT, item, LOC).unwrap();
    let total: i64 = entry.movements.iter().map(|m| m.quantity_changed).sum();
    assert_eq!(total, entry.level.quantity);
    assert_eq!(entry.level.quantity, 125);
}

#[test]
fn tenants_do_not_see_each_other() {
    let (mut ledger, item) = stocked_ledger(10, 1000);
    assert!(ledger.get_entry(TENANT + 1, item, LOC).is_none());
    let err = ledger
        .sell_item(TENANT + 1, item, LOC, 1, 100, false, None, None, None, 1)
        .unwrap_err();
    assert_eq!(err, Error::InventoryLevelNotFound);
    assert_eq!(ledger.get_entry(TENANT, item, LOC).unwrap().level.quantity, 10);
}

#[test]
fn unit_and_category_conflicts() {
    let mut ledger = InventoryLedger::new();
    ledger
        .catalog
        .create_unit(TENANT, String::from("Kilogram"), String::from("kg"))
        .unwrap();
    let err = ledger
        .catalog
        .create_unit(TENANT, String::from("Kilogram"), String::from("kilo"))
        .unwrap_err();
    assert_eq!(err, Error::DuplicateUnitName);
    let err = ledger
        .catalog
        .create_unit(TENANT, String::from("Kilo"), String::from("kg"))
        .unwrap_err();
    assert_eq!(err, Error::DuplicateUnitSymbol);
    ledger
        .catalog
        .create_category(TENANT, String::from("Drinks"), None, None)
        .unwrap();
    let err = ledger
        .catalog
        .create_category(TENANT, String::from("Drinks"), Some(String::from("again")), None)
        .unwrap_err();
    assert_eq!(err, Error::DuplicateCategoryName);
    // Other tenants are unaffected.
    assert!(ledger
        .catalog
        .create_unit(TENANT + 1, String::from("Kilogram"), String::from("kg"))
        .is_ok());
}

#[test]
fn composition_rules() {
    let mut ledger = InventoryLedger::new();
    let err = ledger
        .catalog
        .add_composition_item(TENANT, 5, 5, 1, CompositionType::Component)
        .unwrap_err();
    assert_eq!(err, Error::SelfCompositionRejected);

    ledger
        .catalog
        .add_composition_item(TENANT, 5, 6, 2, CompositionType::Component)
        .unwrap();
    ledger
        .catalog
        .add_composition_item(TENANT, 5, 7, 1, CompositionType::Accessory)
        .unwrap();
    // Upsert: the same (parent, child) pair only updates the edge.
    ledger
        .catalog
        .add_composition_item(TENANT, 5, 6, 9, CompositionType::Substitute)
        .unwrap();
    let edges = ledger.catalog.get_item_composition(TENANT, 5);
    assert_eq!(edges.len(), 2);
    assert_eq!(edges[0].child_item_id, 6);
    assert_eq!(edges[0].quantity, 9);
    assert_eq!(edges[0].comp_type, CompositionType::Substitute);
    assert_eq!(edges[1].child_item_id, 7);

    ledger.catalog.remove_composition_item(TENANT, 5, 6);
    let edges = ledger.catalog.get_item_composition(TENANT, 5);
    assert_eq!(edges.len(), 1);
    assert_eq!(edges[0].child_item_id, 7);
    // Removing an absent edge changes nothing.
    ledger.catalog.remove_composition_item(TENANT, 5, 6);
    assert_eq!(ledger.catalog.get_item_composition(TENANT, 5).len(), 1);
}

#[test]
fn consumable_batches_skip_drained_lots() {
    let mut ledger = InventoryLedger::new();
    ledger
        .add_stock(TENANT, 1, LOC, 10, 100, StockMovementReason::Purchase, None,
            Some(String::from("B1")), None, None, 1)
        .unwrap();
    ledger
        .add_stock(TENANT, 1, LOC, 10, 100, StockMovementReason::Purchase, None,
            Some(String::from("B2")), None, None, 2)
        .unwrap();
    ledger
        .sell_item(TENANT, 1, LOC, 10, 500, false, None, None, None, 3)
        .unwrap();
    let entry = ledger.get_entry(TENANT, 1, LOC).unwrap();
    let walkable = entry.get_batches_for_consumption();
    assert_eq!(walkable.len(), 1);
    assert_eq!(walkable[0].batch_number, "B2");
    assert_eq!(walkable[0].quantity, 10);
}

#[test]
fn tenant_scoped_catalog_listings() {
    let mut ledger = InventoryLedger::new();
    let u1 = ledger
        .catalog
        .create_unit(TENANT, String::from("Kilogram"), String::from("kg"))
        .unwrap();
    let _other = ledger
        .catalog
        .create_unit(TENANT + 1, String::from("Litre"), String::from("l"))
        .unwrap();
    let c1 = ledger
        .catalog
        .create_category(TENANT, String::from("Drinks"), None, None)
        .unwrap();
    let i1 = ledger
        .create_item(
            TENANT,
            None,
            Some(c1),
            u1,
            String::from("A"),
            String::from("Apple"),
            None,
            ItemKind::Product,
            None,
            0,
            0,
            100,
            None,
            0,
            1,
        )
        .unwrap();
    assert_eq!(ledger.catalog.get_all_items(TENANT), vec![i1]);
    assert_eq!(ledger.catalog.get_all_items(TENANT + 1), Vec::<u128>::new());
    assert_eq!(ledger.catalog.get_all_units(TENANT), vec![u1]);
    assert_eq!(ledger.catalog.get_all_categories(TENANT), vec![c1]);
}
