//! The tenant-scoped catalog: items, units of measure, categories and
//! bill-of-material (composition) edges.
//!
//! Every record carries its tenant id and every lookup filters by it.
//! The catalog enforces the uniqueness rules of the data model: one SKU
//! per tenant, one unit name and one unit symbol per tenant, one
//! category name per tenant, one composition edge per (parent, child)
//! pair, and no composition edge from an item to itself.

use crate::errors::Error;
use vstd::prelude::*;

verus! {

/// What kind of thing an item is.
#[derive(Clone, Copy, Debug, PartialEq, Eq, Structural)]
pub enum ItemKind {
    /// Physical, stockable.
    Product,
    /// Intangible; initial stock is ignored.
    Service,
    /// Allocatable (a table, a room).
    Resource,
    /// A virtual combination of other items.
    Bundle,
}

/// How a child item relates to its parent in a bill of materials.
#[derive(Clone, Copy, Debug, PartialEq, Eq, Structural)]
pub enum CompositionType {
    /// Part of the parent.
    Component,
    /// Comes along with the parent, not essential.
    Accessory,
    /// An allowed replacement.
    Substitute,
}

/// A catalog entry. The `current_stock` field is a display-only cache;
/// the inventory ledger is the authority on quantities.
pub struct Item {
    pub id: u128,
    pub tenant_id: u128,
    pub sku: String,
    pub name: String,
    pub description: Option<String>,
    pub kind: ItemKind,
    pub settings: Option<serde_json::Value>,
    pub unit_id: u128,
    pub category_id: Option<u128>,
    pub cost_price: Option<u64>,
    pub sale_price: u64,
    pub current_stock: i64,
    pub min_stock: Option<u64>,
}

/// A unit of measure, unique per tenant by name and by symbol.
pub struct UnitOfMeasure {
    pub id: u128,
    pub tenant_id: u128,
    pub name: String,
    pub symbol: String,
}

/// An item category, unique per tenant by name.
pub struct Category {
    pub id: u128,
    pub tenant_id: u128,
    pub parent_id: Option<u128>,
    pub name: String,
    pub description: Option<String>,
}

/// One bill-of-material edge: `quantity` of the child goes into the
/// parent. At most one edge per (parent, child) pair; never a self-loop.
#[derive(Clone, Copy, Debug, PartialEq, Eq, Structural)]
pub struct CompositionEdge {
    pub id: u128,
    pub tenant_id: u128,
    pub parent_item_id: u128,
    pub child_item_id: u128,
    pub quantity: u64,
    pub comp_type: CompositionType,
}

/// Some item of the tenant already carries this SKU.
pub open spec fn has_item_sku(items: Seq<Item>, tenant: u128, sku: Seq<char>) -> bool {
    exists|i: int|
        0 <= i < items.len() && (#[trigger] items[i]).tenant_id == tenant && items[i].sku@ == sku
}

/// Some unit of the tenant already carries this name.
pub open spec fn has_unit_name(units: Seq<UnitOfMeasure>, tenant: u128, name: Seq<char>) -> bool {
    exists|i: int|
        0 <= i < units.len() && (#[trigger] units[i]).tenant_id == tenant && units[i].name@ == name
}

/// Some unit of the tenant already carries this symbol.
pub open spec fn has_unit_symbol(
    units: Seq<UnitOfMeasure>,
    tenant: u128,
    symbol: Seq<char>,
) -> bool {
    exists|i: int|
        0 <= i < units.len() && (#[trigger] units[i]).tenant_id == tenant && units[i].symbol@
            == symbol
}

/// Some category of the tenant already carries this name.
pub open spec fn has_category_name(
    categories: Seq<Category>,
    tenant: u128,
    name: Seq<char>,
) -> bool {
    exists|i: int|
        0 <= i < categories.len() && (#[trigger] categories[i]).tenant_id == tenant
            && categories[i].name@ == name
}

/// The index of the tenant's composition edge for (parent, child),
/// if one exists.
pub open spec fn edge_index(
    edges: Seq<CompositionEdge>,
    tenant: u128,
    parent: u128,
    child: u128,
) -> Option<int>
    decreases edges.len(),
{
    if edges.len() == 0 {
        Option::None
    } else if edges[0].tenant_id == tenant && edges[0].parent_item_id == parent
        && edges[0].child_item_id == child {
        Option::Some(0)
    } else {
        match edge_index(edges.drop_first(), tenant, parent, child) {
            Option::Some(i) => Option::Some(i + 1),
            Option::None => Option::None,
        }
    }
}

/// The tenant-scoped catalog store.
pub struct Catalog {
    pub items: Vec<Item>,
    pub units: Vec<UnitOfMeasure>,
    pub categories: Vec<Category>,
    pub compositions: Vec<CompositionEdge>,
    /// The next record id to hand out; larger than every stored id.
    pub next_id: u128,
}

impl Catalog {
    /// The uniqueness rules of the data model, and freshness of the id
    /// counter.
    pub open spec fn wf(self) -> bool {
        &&& forall|i: int|
            0 <= i < self.items@.len() ==> (#[trigger] self.items@[i]).id < self.next_id
        &&& forall|i: int|
            0 <= i < self.units@.len() ==> (#[trigger] self.units@[i]).id < self.next_id
        &&& forall|i: int|
            0 <= i < self.categories@.len() ==> (#[trigger] self.categories@[i]).id < self.next_id
        &&& forall|i: int|
            0 <= i < self.compositions@.len() ==> (#[trigger] self.compositions@[i]).id
                < self.next_id
        &&& forall|i: int, j: int|
            0 <= i < j < self.items@.len() ==> !((#[trigger] self.items@[i]).tenant_id == (
            #[trigger] self.items@[j]).tenant_id && self.items@[i].sku@ == self.items@[j].sku@)
        &&& forall|i: int, j: int|
            0 <= i < j < self.units@.len() ==> !((#[trigger] self.units@[i]).tenant_id == (
            #[trigger] self.units@[j]).tenant_id && self.units@[i].name@ == self.units@[j].name@)
        &&& forall|i: int, j: int|
            0 <= i < j < self.units@.len() ==> !((#[trigger] self.units@[i]).tenant_id == (
            #[trigger] self.units@[j]).tenant_id && self.units@[i].symbol@
                == self.units@[j].symbol@)
        &&& forall|i: int, j: int|
            0 <= i < j < self.categories@.len() ==> !((#[trigger] self.categories@[i]).tenant_id
                == (#[trigger] self.categories@[j]).tenant_id && self.categories@[i].name@
                == self.categories@[j].name@)
        &&& forall|i: int, j: int|
            0 <= i < j < self.compositions@.len() ==> !((#[trigger] self.compositions@[i]).tenant_id
                == (#[trigger] self.compositions@[j]).tenant_id
                && self.compositions@[i].parent_item_id == self.compositions@[j].parent_item_id
                && self.compositions@[i].child_item_id == self.compositions@[j].child_item_id)
        &&& forall|i: int|
            0 <= i < self.compositions@.len() ==> (#[trigger] self.compositions@[i]).parent_item_id
                != self.compositions@[i].child_item_id
    }

    /// An empty catalog.
    pub fn new() -> (r: Catalog)
        ensures
            r.wf(),
            r.items@.len() == 0,
            r.units@.len() == 0,
            r.categories@.len() == 0,
            r.compositions@.len() == 0,
            r.next_id == 0,
    {
        Catalog {
            items: Vec::new(),
            units: Vec::new(),
            categories: Vec::new(),
            compositions: Vec::new(),
            next_id: 0,
        }
    }

    /// Insert a catalog item. Rejects a SKU the tenant already uses,
    /// with `DuplicateSku` and no change; succeeds on every other input
    /// unless the id counter is exhausted.
    pub fn create_item(
        &mut self,
        tenant_id: u128,
        sku: String,
        name: String,
        description: Option<String>,
        kind: ItemKind,
        settings: Option<serde_json::Value>,
        unit_id: u128,
        category_id: Option<u128>,
        cost_price: Option<u64>,
        sale_price: u64,
        min_stock: Option<u64>,
    ) -> (r: Result<u128, Error>)
        requires
            old(self).wf(),
        ensures
            final(self).wf(),
            match r {
                Ok(id) => {
                    &&& !has_item_sku(old(self).items@, tenant_id, sku@)
                    &&& old(self).next_id < u128::MAX
                    &&& id == old(self).next_id
                    &&& final(self).items@.len() == old(self).items@.len() + 1
                    &&& final(self).items@.drop_last() == old(self).items@
                    &&& {
                        let it = final(self).items@.last();
                        &&& it.id == id
                        &&& it.tenant_id == tenant_id
                        &&& it.sku@ == sku@
                        &&& it.name@ == name@
                        &&& it.description == description
                        &&& it.kind == kind
                        &&& (settings is Some ==> it.settings == settings)
                        &&& it.settings is Some
                        &&& it.unit_id == unit_id
                        &&& it.category_id == category_id
                        &&& it.cost_price == cost_price
                        &&& it.sale_price == sale_price
                        &&& it.current_stock == 0
                        &&& it.min_stock == min_stock
                    }
                    &&& final(self).next_id == old(self).next_id + 1
                    &&& final(self).units@ == old(self).units@
                    &&& final(self).categories@ == old(self).categories@
                    &&& final(self).compositions@ == old(self).compositions@
                },
                Err(Error::DuplicateSku) => {
                    &&& has_item_sku(old(self).items@, tenant_id, sku@)
                    &&& *final(self) == *old(self)
                },
                Err(Error::NumericOverflow) => {
                    &&& !has_item_sku(old(self).items@, tenant_id, sku@)
                    &&& old(self).next_id == u128::MAX
                    &&& *final(self) == *old(self)
                },
                _ => false,
            },
    {
        let n = self.items.len();
        let mut i: usize = 0;
        while i < n
            invariant
                *self == *old(self),
                old(self).wf(),
                n == self.items@.len(),
                i <= n,
                forall|j: int|
                    0 <= j < i ==> !((#[trigger] self.items@[j]).tenant_id == tenant_id
                        && self.items@[j].sku@ == sku@),
            decreases n - i,
        {
            if self.items[i].tenant_id == tenant_id && self.items[i].sku == sku {
                return Err(Error::DuplicateSku);
            }
            i += 1;
        }
        let id = match self.next_id.checked_add(1) {
            Some(next) => {
                let id = self.next_id;
                self.next_id = next;
                id
            },
            None => {
                return Err(Error::NumericOverflow);
            },
        };
        let stored_settings = match settings {
            Some(v) => Some(v),
            None => Some(crate::jsonval::empty_settings()),
        };
        let item = Item {
            id,
            tenant_id,
            sku,
            name,
            description,
            kind,
            settings: stored_settings,
            unit_id,
            category_id,
            cost_price,
            sale_price,
            current_stock: 0,
            min_stock,
        };
        self.items.push(item);
        Ok(id)
    }

    /// Insert a unit of measure. Rejects a name the tenant already
    /// uses, then a symbol the tenant already uses, each with no change;
    /// succeeds on every other input unless the id counter is exhausted.
    pub fn create_unit(&mut self, tenant_id: u128, name: String, symbol: String) -> (r: Result<
        u128,
        Error,
    >)
        requires
            old(self).wf(),
        ensures
            final(self).wf(),
            match r {
                Ok(id) => {
                    &&& !has_unit_name(old(self).units@, tenant_id, name@)
                    &&& !has_unit_symbol(old(self).units@, tenant_id, symbol@)
                    &&& old(self).next_id < u128::MAX
                    &&& id == old(self).next_id
                    &&& final(self).units@.len() == old(self).units@.len() + 1
                    &&& final(self).units@.drop_last() == old(self).units@
                    &&& {
                        let u = final(self).units@.last();
                        &&& u.id == id
                        &&& u.tenant_id == tenant_id
                        &&& u.name@ == name@
                        &&& u.symbol@ == symbol@
                    }
                    &&& final(self).next_id == old(self).next_id + 1
                    &&& final(self).items@ == old(self).items@
                    &&& final(self).categories@ == old(self).categories@
                    &&& final(self).compositions@ == old(self).compositions@
                },
                Err(Error::DuplicateUnitName) => {
                    &&& has_unit_name(old(self).units@, tenant_id, name@)
                    &&& *final(self) == *old(self)
                },
                Err(Error::DuplicateUnitSymbol) => {
                    &&& !has_unit_name(old(self).units@, tenant_id, name@)
                    &&& has_unit_symbol(old(self).units@, tenant_id, symbol@)
                    &&& *final(self) == *old(self)
                },
                Err(Error::NumericOverflow) => {
                    &&& !has_unit_name(old(self).units@, tenant_id, name@)
                    &&& !has_unit_symbol(old(self).units@, tenant_id, symbol@)
                    &&& old(self).next_id == u128::MAX
                    &&& *final(self) == *old(self)
                },
                _ => false,
            },
    {
        let n = self.units.len();
        let mut i: usize = 0;
        while i < n
            invariant
                *self == *old(self),
                old(self).wf(),
                n == self.units@.len(),
                i <= n,
                forall|j: int|
                    0 <= j < i ==> !((#[trigger] self.units@[j]).tenant_id == tenant_id
                        && self.units@[j].name@ == name@),
            decreases n - i,
        {
            if self.units[i].tenant_id == tenant_id && self.units[i].name == name {
                return Err(Error::DuplicateUnitName);
            }
            i += 1;
        }
        let mut i: usize = 0;
        while i < n
            invariant
                *self == *old(self),
                old(self).wf(),
                !has_unit_name(old(self).units@, tenant_id, name@),
                n == self.units@.len(),
                i <= n,
                forall|j: int|
                    0 <= j < i ==> !((#[trigger] self.units@[j]).tenant_id == tenant_id
                        && self.units@[j].symbol@ == symbol@),
            decreases n - i,
        {
            if self.units[i].tenant_id == tenant_id && self.units[i].symbol == symbol {
                return Err(Error::DuplicateUnitSymbol);
            }
            i += 1;
        }
        let id = match self.next_id.checked_add(1) {
            Some(next) => {
                let id = self.next_id;
                self.next_id = next;
                id
            },
            None => {
                return Err(Error::NumericOverflow);
            },
        };
        self.units.push(UnitOfMeasure { id, tenant_id, name, symbol });
        Ok(id)
    }

    /// Insert a category. Rejects a name the tenant already uses, with
    /// no change; succeeds on every other input unless the id counter
    /// is exhausted.
    pub fn create_category(
        &mut self,
        tenant_id: u128,
        name: String,
        description: Option<String>,
        parent_id: Option<u128>,
    ) -> (r: Result<u128, Error>)
        requires
            old(self).wf(),
        ensures
            final(self).wf(),
            match r {
                Ok(id) => {
                    &&& !has_category_name(old(self).categories@, tenant_id, name@)
                    &&& old(self).next_id < u128::MAX
                    &&& id == old(self).next_id
                    &&& final(self).categories@.len() == old(self).categories@.len() + 1
                    &&& final(self).categories@.drop_last() == old(self).categories@
                    &&& {
                        let c = final(self).categories@.last();
                        &&& c.id == id
                        &&& c.tenant_id == tenant_id
                        &&& c.name@ == name@
                        &&& c.description == description
                        &&& c.parent_id == parent_id
                    }
                    &&& final(self).next_id == old(self).next_id + 1
                    &&& final(self).items@ == old(self).items@
                    &&& final(self).units@ == old(self).units@
                    &&& final(self).compositions@ == old(self).compositions@
                },
                Err(Error::DuplicateCategoryName) => {
                    &&& has_category_name(old(self).categories@, tenant_id, name@)
                    &&& *final(self) == *old(self)
                },
                Err(Error::NumericOverflow) => {
                    &&& !has_category_name(old(self).categories@, tenant_id, name@)
                    &&& old(self).next_id == u128::MAX
                    &&& *final(self) == *old(self)
                },
                _ => false,
            },
    {
        let n = self.categories.len();
        let mut i: usize = 0;
        while i < n
            invariant
                *self == *old(self),
                old(self).wf(),
                n == self.categories@.len(),
                i <= n,
                forall|j: int|
                    0 <= j < i ==> !((#[trigger] self.categories@[j]).tenant_id == tenant_id
                        && self.categories@[j].name@ == name@),
            decreases n - i,
        {
            if self.categories[i].tenant_id == tenant_id && self.categories[i].name == name {
                return Err(Error::DuplicateCategoryName);
            }
            i += 1;
        }
        let id = match self.next_id.checked_add(1) {
            Some(next) => {
                let id = self.next_id;
                self.next_id = next;
                id
            },
            None => {
                return Err(Error::NumericOverflow);
            },
        };
        self.categories.push(Category { id, tenant_id, name, description, parent_id });
        Ok(id)
    }
}

/// One edge record matches the (tenant, parent, child) key.
pub open spec fn edge_matches(e: CompositionEdge, tenant: u128, parent: u128, child: u128) -> bool {
    e.tenant_id == tenant && e.parent_item_id == parent && e.child_item_id == child
}

/// A scan that found no match up to the end means `edge_index` finds none.
proof fn lemma_edge_index_none(edges: Seq<CompositionEdge>, tenant: u128, parent: u128, child: u128)
    requires
        forall|j: int|
            0 <= j < edges.len() ==> !edge_matches(#[trigger] edges[j], tenant, parent, child),
    ensures
        edge_index(edges, tenant, parent, child) is None,
    decreases edges.len(),
{
    if edges.len() > 0 {
        assert(forall|j: int|
            0 <= j < edges.drop_first().len() ==> #[trigger] edges.drop_first()[j] == edges[j + 1]);
        lemma_edge_index_none(edges.drop_first(), tenant, parent, child);
    }
}

/// A scan whose first match sits at `i` means `edge_index` returns `i`.
proof fn lemma_edge_index_found(
    edges: Seq<CompositionEdge>,
    tenant: u128,
    parent: u128,
    child: u128,
    i: int,
)
    requires
        0 <= i < edges.len(),
        edge_matches(edges[i], tenant, parent, child),
        forall|j: int| 0 <= j < i ==> !edge_matches(#[trigger] edges[j], tenant, parent, child),
    ensures
        edge_index(edges, tenant, parent, child) == Option::Some(i),
    decreases i,
{
    assert(forall|j: int|
        0 <= j < edges.drop_first().len() ==> #[trigger] edges.drop_first()[j] == edges[j + 1]);
    if i > 0 {
        lemma_edge_index_found(edges.drop_first(), tenant, parent, child, i - 1);
    }
}

/// The composition entries of one parent item, in storage order.
pub open spec fn edges_of(edges: Seq<CompositionEdge>, tenant: u128, parent: u128) -> Seq<
    CompositionEdge,
> {
    edges.filter(|e: CompositionEdge| e.tenant_id == tenant && e.parent_item_id == parent)
}

impl Catalog {
    /// Add one bill-of-material edge, or update the quantity and type of
    /// the existing edge for the same (parent, child) pair. Rejects an
    /// edge from an item to itself with `SelfCompositionRejected` and no
    /// change; succeeds on every other input unless the id counter is
    /// exhausted.
    pub fn add_composition_item(
        &mut self,
        tenant_id: u128,
        parent_id: u128,
        child_id: u128,
        quantity: u64,
        comp_type: CompositionType,
    ) -> (r: Result<(), Error>)
        requires
            old(self).wf(),
        ensures
            final(self).wf(),
            final(self).items@ == old(self).items@,
            final(self).units@ == old(self).units@,
            final(self).categories@ == old(self).categories@,
            match r {
                Ok(()) => {
                    &&& parent_id != child_id
                    &&& match edge_index(old(self).compositions@, tenant_id, parent_id, child_id) {
                        Option::Some(i) => {
                            &&& final(self).compositions@ == old(self).compositions@.update(
                                i,
                                CompositionEdge {
                                    quantity,
                                    comp_type,
                                    ..old(self).compositions@[i]
                                },
                            )
                            &&& final(self).next_id == old(self).next_id
                        },
                        Option::None => {
                            &&& old(self).next_id < u128::MAX
                            &&& final(self).compositions@ == old(self).compositions@.push(
                                CompositionEdge {
                                    id: old(self).next_id,
                                    tenant_id,
                                    parent_item_id: parent_id,
                                    child_item_id: child_id,
                                    quantity,
                                    comp_type,
                                },
                            )
                            &&& final(self).next_id == old(self).next_id + 1
                        },
                    }
                },
                Err(Error::SelfCompositionRejected) => {
                    &&& parent_id == child_id
                    &&& *final(self) == *old(self)
                },
                Err(Error::NumericOverflow) => {
                    &&& parent_id != child_id
                    &&& edge_index(old(self).compositions@, tenant_id, parent_id, child_id)
                        is None
                    &&& old(self).next_id == u128::MAX
                    &&& *final(self) == *old(self)
                },
                _ => false,
            },
    {
        if parent_id == child_id {
            return Err(Error::SelfCompositionRejected);
        }
        let n = self.compositions.len();
        let mut i: usize = 0;
        while i < n
            invariant
                *self == *old(self),
                old(self).wf(),
                parent_id != child_id,
                n == self.compositions@.len(),
                i <= n,
                forall|j: int|
                    0 <= j < i ==> !edge_matches(
                        #[trigger] self.compositions@[j],
                        tenant_id,
                        parent_id,
                        child_id,
                    ),
            decreases n - i,
        {
            let e = self.compositions[i];
            if e.tenant_id == tenant_id && e.parent_item_id == parent_id && e.child_item_id
                == child_id {
                proof {
                    lemma_edge_index_found(
                        self.compositions@,
                        tenant_id,
                        parent_id,
                        child_id,
                        i as int,
                    );
                }
                self.compositions.set(
                    i,
                    CompositionEdge {
                        id: e.id,
                        tenant_id: e.tenant_id,
                        parent_item_id: e.parent_item_id,
                        child_item_id: e.child_item_id,
                        quantity,
                        comp_type,
                    },
                );
                return Ok(());
            }
            i += 1;
        }
        proof {
            lemma_edge_index_none(self.compositions@, tenant_id, parent_id, child_id);
        }
        let id = match self.next_id.checked_add(1) {
            Some(next) => {
                let id = self.next_id;
                self.next_id = next;
                id
            },
            None => {
                return Err(Error::NumericOverflow);
            },
        };
        self.compositions.push(
            CompositionEdge {
                id,
                tenant_id,
                parent_item_id: parent_id,
                child_item_id: child_id,
                quantity,
                comp_type,
            },
        );
        Ok(())
    }

    /// Remove the tenant's composition edge for (parent, child); removing
    /// an absent edge changes nothing.
    pub fn remove_composition_item(&mut self, tenant_id: u128, parent_id: u128, child_id: u128)
        requires
            old(self).wf(),
        ensures
            final(self).wf(),
            final(self).items@ == old(self).items@,
            final(self).units@ == old(self).units@,
            final(self).categories@ == old(self).categories@,
            final(self).next_id == old(self).next_id,
            match edge_index(old(self).compositions@, tenant_id, parent_id, child_id) {
                Option::Some(i) => final(self).compositions@ == old(self).compositions@.remove(i),
                Option::None => *final(self) == *old(self),
            },
    {
        let n = self.compositions.len();
        let mut i: usize = 0;
        while i < n
            invariant
                *self == *old(self),
                old(self).wf(),
                n == self.compositions@.len(),
                i <= n,
                forall|j: int|
                    0 <= j < i ==> !edge_matches(
                        #[trigger] self.compositions@[j],
                        tenant_id,
                        parent_id,
                        child_id,
                    ),
            decreases n - i,
        {
            let e = self.compositions[i];
            if e.tenant_id == tenant_id && e.parent_item_id == parent_id && e.child_item_id
                == child_id {
                proof {
                    lemma_edge_index_found(
                        self.compositions@,
                        tenant_id,
                        parent_id,
                        child_id,
                        i as int,
                    );
                }
                self.compositions.remove(i);
                return ;
            }
            i += 1;
        }
        proof {
            lemma_edge_index_none(self.compositions@, tenant_id, parent_id, child_id);
        }
    }

    /// The composition (bill of materials) of one parent item, in
    /// storage order.
    pub fn get_item_composition(&self, tenant_id: u128, parent_id: u128) -> (r: Vec<
        CompositionEdge,
    >)
        ensures
            r@ == edges_of(self.compositions@, tenant_id, parent_id),
    {
        let n = self.compositions.len();
        let mut out: Vec<CompositionEdge> = Vec::new();
        let mut i: usize = 0;
        proof {
            assert(self.compositions@.subrange(0, 0) =~= Seq::<CompositionEdge>::empty());
            reveal(Seq::filter);
        }
        while i < n
            invariant
                n == self.compositions@.len(),
                i <= n,
                out@ == edges_of(self.compositions@.subrange(0, i as int), tenant_id, parent_id),
            decreases n - i,
        {
            let e = self.compositions[i];
            proof {
                reveal(Seq::filter);
                let pre = self.compositions@.subrange(0, i as int);
                let nxt = self.compositions@.subrange(0, i as int + 1);
                assert(nxt.drop_last() =~= pre);
                assert(nxt.last() == self.compositions@[i as int]);
            }
            if e.tenant_id == tenant_id && e.parent_item_id == parent_id {
                out.push(e);
            }
            i += 1;
        }
        proof {
            assert(self.compositions@.subrange(0, n as int) =~= self.compositions@);
        }
        out
    }

    /// The tenant's item with the given id, if it exists.
    pub fn get_item(&self, tenant_id: u128, item_id: u128) -> (r: Option<&Item>)
        ensures
            match r {
                Option::Some(it) => {
                    &&& it.tenant_id == tenant_id
                    &&& it.id == item_id
                    &&& exists|i: int| 0 <= i < self.items@.len() && self.items@[i] == *it
                },
                Option::None => forall|i: int|
                    0 <= i < self.items@.len() ==> !((#[trigger] self.items@[i]).tenant_id
                        == tenant_id && self.items@[i].id == item_id),
            },
    {
        let n = self.items.len();
        let mut i: usize = 0;
        while i < n
            invariant
                n == self.items@.len(),
                i <= n,
                forall|j: int|
                    0 <= j < i ==> !((#[trigger] self.items@[j]).tenant_id == tenant_id
                        && self.items@[j].id == item_id),
            decreases n - i,
        {
            if self.items[i].tenant_id == tenant_id && self.items[i].id == item_id {
                return Some(&self.items[i]);
            }
            i += 1;
        }
        None
    }
}

/// The ids of the tenant's items, in storage order.
pub open spec fn item_ids_of(items: Seq<Item>, tenant: u128) -> Seq<u128>
    decreases items.len(),
{
    if items.len() == 0 {
        Seq::<u128>::empty()
    } else {
        let rest = item_ids_of(items.drop_last(), tenant);
        if items.last().tenant_id == tenant {
            rest.push(items.last().id)
        } else {
            rest
        }
    }
}

/// The ids of the tenant's units, in storage order.
pub open spec fn unit_ids_of(units: Seq<UnitOfMeasure>, tenant: u128) -> Seq<u128>
    decreases units.len(),
{
    if units.len() == 0 {
        Seq::<u128>::empty()
    } else {
        let rest = unit_ids_of(units.drop_last(), tenant);
        if units.last().tenant_id == tenant {
            rest.push(units.last().id)
        } else {
            rest
        }
    }
}

/// The ids of the tenant's categories, in storage order.
pub open spec fn category_ids_of(categories: Seq<Category>, tenant: u128) -> Seq<u128>
    decreases categories.len(),
{
    if categories.len() == 0 {
        Seq::<u128>::empty()
    } else {
        let rest = category_ids_of(categories.drop_last(), tenant);
        if categories.last().tenant_id == tenant {
            rest.push(categories.last().id)
        } else {
            rest
        }
    }
}

impl Catalog {
    /// The ids of all items of one tenant, in storage order.
    pub fn get_all_items(&self, tenant_id: u128) -> (r: Vec<u128>)
        ensures
            r@ == item_ids_of(self.items@, tenant_id),
    {
        let n = self.items.len();
        let mut out: Vec<u128> = Vec::new();
        let mut i: usize = 0;
        proof {
            assert(self.items@.subrange(0, 0) =~= Seq::<Item>::empty());
        }
        while i < n
            invariant
                n == self.items@.len(),
                i <= n,
                out@ == item_ids_of(self.items@.subrange(0, i as int), tenant_id),
            decreases n - i,
        {
            proof {
                let nxt = self.items@.subrange(0, i as int + 1);
                assert(nxt.drop_last() =~= self.items@.subrange(0, i as int));
                assert(nxt.last() == self.items@[i as int]);
            }
            if self.items[i].tenant_id == tenant_id {
                out.push(self.items[i].id);
            }
            i += 1;
        }
        proof {
            assert(self.items@.subrange(0, n as int) =~= self.items@);
        }
        out
    }

    /// The ids of all units of one tenant, in storage order.
    pub fn get_all_units(&self, tenant_id: u128) -> (r: Vec<u128>)
        ensures
            r@ == unit_ids_of(self.units@, tenant_id),
    {
        let n = self.units.len();
        let mut out: Vec<u128> = Vec::new();
        let mut i: usize = 0;
        proof {
            assert(self.units@.subrange(0, 0) =~= Seq::<UnitOfMeasure>::empty());
        }
        while i < n
            invariant
                n == self.units@.len(),
                i <= n,
                out@ == unit_ids_of(self.units@.subrange(0, i as int), tenant_id),
            decreases n - i,
        {
            proof {
                let nxt = self.units@.subrange(0, i as int + 1);
                assert(nxt.drop_last() =~= self.units@.subrange(0, i as int));
                assert(nxt.last() == self.units@[i as int]);
            }
            if self.units[i].tenant_id == tenant_id {
                out.push(self.units[i].id);
            }
            i += 1;
        }
        proof {
            assert(self.units@.subrange(0, n as int) =~= self.units@);
        }
        out
    }

    /// The ids of all categories of one tenant, in storage order.
    pub fn get_all_categories(&self, tenant_id: u128) -> (r: Vec<u128>)
        ensures
            r@ == category_ids_of(self.categories@, tenant_id),
    {
        let n = self.categories.len();
        let mut out: Vec<u128> = Vec::new();
        let mut i: usize = 0;
        proof {
            assert(self.categories@.subrange(0, 0) =~= Seq::<Category>::empty());
        }
        while i < n
            invariant
                n == self.categories@.len(),
                i <= n,
                out@ == category_ids_of(self.categories@.subrange(0, i as int), tenant_id),
            decreases n - i,
        {
            proof {
                let nxt = self.categories@.subrange(0, i as int + 1);
                assert(nxt.drop_last() =~= self.categories@.subrange(0, i as int));
                assert(nxt.last() == self.categories@[i as int]);
            }
            if self.categories[i].tenant_id == tenant_id {
                out.push(self.categories[i].id);
            }
            i += 1;
        }
        proof {
            assert(self.categories@.subrange(0, n as int) =~= self.categories@);
        }
        out
    }
}

} // verus!
