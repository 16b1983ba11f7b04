//! Request payloads and their validation rules.
//!
//! These are the shapes callers hand to the engine, with the checks the
//! request boundary applies before anything runs: required names must
//! not be empty, some names carry a minimum length, and an item created
//! with opening stock must name a location. Quantities and money
//! amounts are unsigned here, so the non-negativity rules of the
//! boundary hold by type.

use crate::catalog::ItemKind;
use crate::pipeline::{parse_stock_action, PipelineCategory, StockAction};
use vstd::prelude::*;
use vstd::string::StrSliceExecFns;

verus! {

/// A kind of identity document.
#[derive(Clone, Copy, Debug, PartialEq, Eq, Structural)]
pub enum DocumentType {
    TaxId,
    IdCard,
    Passport,
    DriverLicense,
    Other,
}

/// The type of a custom field definition.
#[derive(Clone, Copy, Debug, PartialEq, Eq, Structural)]
pub enum FieldType {
    Text,
    Number,
    Date,
    Boolean,
    Select,
    Multiselect,
}

/// Request to create a catalog item, possibly with opening stock.
pub struct CreateItemPayload {
    pub sku: String,
    pub name: String,
    pub description: Option<String>,
    pub category_id: Option<u128>,
    pub base_unit_id: Option<u128>,
    pub kind: ItemKind,
    pub settings: Option<serde_json::Value>,
    pub sale_price: u64,
    pub location_id: Option<u128>,
    pub initial_stock: u64,
    pub initial_cost: u64,
    pub low_stock_threshold: u64,
}

impl CreateItemPayload {
    /// The field rules: SKU and name present, category and unit given.
    pub fn validate(&self) -> (r: bool)
        ensures
            r == (self.sku@.len() > 0 && self.name@.len() > 0 && self.category_id is Some
                && self.base_unit_id is Some),
    {
        !self.sku.as_str().is_empty() && !self.name.as_str().is_empty()
            && self.category_id.is_some() && self.base_unit_id.is_some()
    }

    /// The consistency rule: a physical product with opening stock
    /// needs a location to put it.
    pub fn validate_consistency(&self) -> (r: bool)
        ensures
            r == !(self.kind == ItemKind::Product && self.initial_stock > 0 && self.location_id
                is None),
    {
        !(self.kind == ItemKind::Product && self.initial_stock > 0 && self.location_id.is_none())
    }
}

/// Request to create a unit of measure.
pub struct CreateUnitPayload {
    pub name: String,
    pub symbol: String,
}

impl CreateUnitPayload {
    /// Name and symbol must both be present.
    pub fn validate(&self) -> (r: bool)
        ensures
            r == (self.name@.len() > 0 && self.symbol@.len() > 0),
    {
        !self.name.as_str().is_empty() && !self.symbol.as_str().is_empty()
    }
}

/// Request to create a pipeline.
pub struct CreatePipelinePayload {
    pub name: String,
    pub is_default: bool,
}

impl CreatePipelinePayload {
    /// The name must be present.
    pub fn validate(&self) -> (r: bool)
        ensures
            r == (self.name@.len() > 0),
    {
        !self.name.as_str().is_empty()
    }
}

/// Request to append a stage to a pipeline. The stock action arrives as
/// its wire label ("NONE", "RESERVE" or "DEDUCT"), or not at all.
pub struct AddStagePayload {
    pub name: String,
    pub category: PipelineCategory,
    pub position: i32,
    pub stock_action: Option<String>,
}

impl AddStagePayload {
    /// The name must be present.
    pub fn validate(&self) -> (r: bool)
        ensures
            r == (self.name@.len() > 0),
    {
        !self.name.as_str().is_empty()
    }

    /// The stage's stock action: the parsed label, none when absent,
    /// refused when the label is not a known action.
    pub fn parsed_stock_action(&self) -> (r: Result<Option<StockAction>, ()>)
        ensures
            match self.stock_action {
                Option::Some(s) => match r {
                    Ok(a) => a is Some && (a->0 == StockAction::NoAction <==> s@ == "NONE"@) && (
                    a->0 == StockAction::Reserve <==> s@ == "RESERVE"@) && (a->0
                        == StockAction::Deduct <==> s@ == "DEDUCT"@),
                    Err(()) => s@ != "NONE"@ && s@ != "RESERVE"@ && s@ != "DEDUCT"@,
                },
                Option::None => r == Ok::<Option<StockAction>, ()>(Option::None),
            },
    {
        match &self.stock_action {
            Some(s) => match parse_stock_action(s) {
                Some(a) => Ok(Some(a)),
                None => Err(()),
            },
            None => Ok(None),
        }
    }
}

/// Request to create a tenant.
pub struct CreateTenantPayload {
    pub name: String,
    pub description: Option<String>,
}

impl CreateTenantPayload {
    /// The name must be present.
    pub fn validate(&self) -> (r: bool)
        ensures
            r == (self.name@.len() > 0),
    {
        !self.name.as_str().is_empty()
    }
}

/// Request to create a stock pool.
pub struct CreateStockPoolPayload {
    pub name: String,
    pub description: Option<String>,
}

impl CreateStockPoolPayload {
    /// The name must be present.
    pub fn validate(&self) -> (r: bool)
        ensures
            r == (self.name@.len() > 0),
    {
        !self.name.as_str().is_empty()
    }
}

/// Request to create a location.
pub struct CreateLocationPayload {
    pub name: String,
    pub is_warehouse: bool,
}

impl CreateLocationPayload {
    /// The name must have at least three characters.
    pub fn validate(&self) -> (r: bool)
        ensures
            r == (self.name@.len() >= 3),
    {
        self.name.as_str().unicode_len() >= 3
    }
}

/// Request to create a custom entity type.
pub struct CreateEntityTypePayload {
    pub name: String,
    pub slug: String,
}

impl CreateEntityTypePayload {
    /// Name and slug must each have at least two characters.
    pub fn validate(&self) -> (r: bool)
        ensures
            r == (self.name@.len() >= 2 && self.slug@.len() >= 2),
    {
        self.name.as_str().unicode_len() >= 2 && self.slug.as_str().unicode_len() >= 2
    }
}

/// Request to create a role with its permission slugs.
pub struct CreateRolePayload {
    pub name: String,
    pub description: Option<String>,
    pub permissions: Vec<String>,
}

/// Request to update tenant settings; absent fields stay unchanged.
pub struct UpdateSettingsRequest {
    pub company_name: Option<String>,
    pub document_number: Option<String>,
    pub pix_key: Option<String>,
    pub address: Option<String>,
}

} // verus!
