use stockflow::catalog::ItemKind;
use stockflow::pipeline::{PipelineCategory, StockAction};
use stockflow::ratio::{gcd_u128, AverageCost};
use stockflow::requests::{
    AddStagePayload, CreateEntityTypePayload, CreateItemPayload, CreateLocationPayload,
    CreatePipelinePayload, CreateStockPoolPayload, CreateTenantPayload, CreateUnitPayload,
};

fn item_payload() -> CreateItemPayload {
    CreateItemPayload {
        sku: String::from("SKU-1"),
        name: String::from("Beans"),
        description: None,
        category_id: Some(1),
        base_unit_id: Some(2),
        kind: ItemKind::Product,
        settings: None,
        sale_price: 2500,
        location_id: Some(3),
        initial_stock: 10,
        initial_cost: 1000,
        low_stock_threshold: 2,
    }
}

#[test]
fn item_payload_field_rules() {
    assert!(item_payload().validate());
    let mut p = item_payload();
    p.sku = String::new();
    assert!(!p.validate());
    let mut p = item_payload();
    p.base_unit_id = None;
    assert!(!p.validate());
}

#[test]
fn item_payload_needs_location_for_stock() {
    let mut p = item_payload();
    p.location_id = None;
    assert!(!p.validate_consistency());
    p.initial_stock = 0;
    assert!(p.validate_consistency());
    let mut p = item_payload();
    p.location_id = None;
    p.kind = ItemKind::Service;
    assert!(p.validate_consistency());
}

#[test]
fn simple_name_rules() {
    assert!(CreateUnitPayload { name: String::from("Kilogram"), symbol: String::from("kg") }
        .validate());
    assert!(!CreateUnitPayload { name: String::from("Kilogram"), symbol: String::new() }
        .validate());
    assert!(CreatePipelinePayload { name: String::from("Sales"), is_default: true }.validate());
    assert!(!CreatePipelinePayload { name: String::new(), is_default: false }.validate());
    assert!(CreateTenantPayload { name: String::from("Acme"), description: None }.validate());
    assert!(!CreateTenantPayload { name: String::new(), description: None }.validate());
    assert!(CreateStockPoolPayload { name: String::from("Main"), description: None }.validate());
    assert!(!CreateStockPoolPayload { name: String::new(), description: None }.validate());
}

#[test]
fn minimum_length_rules() {
    assert!(CreateLocationPayload { name: String::from("Loja"), is_warehouse: false }.validate());
    assert!(!CreateLocationPayload { name: String::from("Lo"), is_warehouse: false }.validate());
    assert!(CreateEntityTypePayload { name: String::from("Patient"), slug: String::from("pa") }
        .validate());
    assert!(!CreateEntityTypePayload { name: String::from("P"), slug: String::from("patient") }
        .validate());
}

#[test]
fn stage_payload_parses_its_action() {
    let p = AddStagePayload {
        name: String::from("Done"),
        category: PipelineCategory::Done,
        position: 2,
        stock_action: Some(String::from("DEDUCT")),
    };
    assert!(p.validate());
    assert_eq!(p.parsed_stock_action(), Ok(Some(StockAction::Deduct)));
    let p = AddStagePayload {
        name: String::from("Draft"),
        category: PipelineCategory::Draft,
        position: 0,
        stock_action: None,
    };
    assert_eq!(p.parsed_stock_action(), Ok(None));
    let p = AddStagePayload {
        name: String::from("Odd"),
        category: PipelineCategory::Active,
        position: 1,
        stock_action: Some(String::from("EXPLODE")),
    };
    assert_eq!(p.parsed_stock_action(), Err(()));
}

#[test]
fn gcd_and_cost_comparisons() {
    assert_eq!(gcd_u128(180000, 150), 150);
    assert_eq!(gcd_u128(0, 7), 7);
    assert_eq!(gcd_u128(7, 0), 7);
    assert_eq!(gcd_u128(12, 18), 6);
    let zero = AverageCost::zero();
    assert!(zero.is_units(0));
    assert!(!zero.is_units(1));
    let c = AverageCost::from_units(1200);
    assert!(c.is_units(1200));
    assert!(c.is_ratio(2400, 2));
    assert!(c.is_ratio(180000, 150));
    assert!(!c.is_ratio(180001, 150));
    let third = AverageCost { num: 5, den: 3 };
    assert!(third.is_ratio(10, 6));
    assert!(!third.is_ratio(10, 7));
    let neg = AverageCost { num: -5, den: 3 };
    assert!(neg.is_ratio(-10, 6));
    assert!(!neg.is_ratio(5, 3));
}

#[test]
fn settings_survive_item_creation() {
    let mut ledger = stockflow::ledger::InventoryLedger::new();
    let mut fields = serde_json::Map::new();
    fields.insert(String::from("color"), serde_json::Value::String(String::from("red")));
    ledger
        .create_item(
            1,
            None,
            None,
            2,
            String::from("S"),
            String::from("Widget"),
            None,
            ItemKind::Product,
            Some(serde_json::Value::Object(fields)),
            0,
            0,
            100,
            None,
            0,
            1,
        )
        .unwrap();
    let settings = ledger.catalog.items[0].settings.as_ref().unwrap();
    assert_eq!(settings.get("color").and_then(|v| v.as_str()), Some("red"));
}
