//! Inventory manager: CRUD over the product catalog.

use vstd::prelude::*;
use vstd::pervasive::VecAdditionalExecFns;

use crate::store::has_product;
use crate::store::InventoryItem;
use crate::store::ProductV;
use crate::store::Store;
use crate::store::StoreV;
use crate::StoreError;

verus! {

/// The two stores agree on everything the sales history owns.
pub open spec fn same_sales(a: StoreV, b: StoreV) -> bool {
    &&& a.sales == b.sales
    &&& a.sale_items == b.sale_items
    &&& a.next_sale_id == b.next_sale_id
    &&& a.next_item_id == b.next_item_id
}

/// The two stores agree on the settings table.
pub open spec fn same_settings(a: StoreV, b: StoreV) -> bool {
    a.settings == b.settings
}

/// The two stores agree on the user table.
pub open spec fn same_users(a: StoreV, b: StoreV) -> bool {
    a.users == b.users
}

/// `b`'s catalog is `a`'s with the product `pid` overwritten by `p`.
pub open spec fn catalog_updated(a: StoreV, b: StoreV, pid: i64, p: ProductV) -> bool {
    exists|j: int|
        0 <= j < a.products.len() && a.products[j].id == pid && b.products == a.products.update(
            j,
            p,
        )
}

/// `b`'s catalog is `a`'s with the product `pid` taken out.
pub open spec fn catalog_removed(a: StoreV, b: StoreV, pid: i64) -> bool {
    exists|j: int|
        0 <= j < a.products.len() && a.products[j].id == pid && b.products == a.products.remove(j)
}

/// The two stores agree on the product catalog.
pub open spec fn same_catalog(a: StoreV, b: StoreV) -> bool {
    &&& a.products == b.products
    &&& a.next_product_id == b.next_product_id
}

impl Store {
    /// All products, in storage order.
    pub fn get_inventory(&self) -> (r: Vec<InventoryItem>)
        ensures
            r@ == self.products@,
    {
        let mut r: Vec<InventoryItem> = Vec::new();
        let mut i: usize = 0;
        while i < self.products.len()
            invariant
                i <= self.products@.len(),
                r@ =~= self.products@.take(i as int),
            decreases self.products@.len() - i,
        {
            let p = &self.products[i];
            r.push(
                InventoryItem {
                    id: p.id,
                    name: p.name.clone(),
                    price_cents: p.price_cents,
                    stock: p.stock,
                },
            );
            proof {
                assert(r@ =~= self.products@.take(i + 1));
            }
            i = i + 1;
        }
        proof {
            assert(self.products@.take(self.products@.len() as int) =~= self.products@);
        }
        r
    }

    /// Add a product under a fresh identifier.  Price and stock are
    /// taken as the caller supplies them.
    pub fn add_product(&mut self, name: String, price_cents: u64, stock: i64) -> (r: Result<
        InventoryItem,
        StoreError,
    >)
        requires
            old(self).wf(),
        ensures
            final(self).wf(),
            r is Err ==> *final(self) == *old(self),
            r is Err <==> old(self)@.next_product_id == i64::MAX,
            r is Err ==> r == Err::<InventoryItem, StoreError>(StoreError::Overflow),
            r matches Ok(p) ==> {
                &&& p@ == (ProductV {
                    id: old(self)@.next_product_id,
                    name: name@,
                    price_cents,
                    stock,
                })
                &&& final(self)@.products == old(self)@.products.push(p@)
                &&& final(self)@.next_product_id == old(self)@.next_product_id + 1
                &&& same_sales(old(self)@, final(self)@)
                &&& same_settings(old(self)@, final(self)@)
                &&& same_users(old(self)@, final(self)@)
            },
    {
        if self.next_product_id == i64::MAX {
            return Err(StoreError::Overflow);
        }
        let id = self.next_product_id;
        let item = InventoryItem { id, name: name.clone(), price_cents, stock };
        let returned = InventoryItem { id, name, price_cents, stock };
        self.products.push(item);
        self.next_product_id = id + 1;
        proof {
            assert(self@.sales == old(self)@.sales);
            assert(self@.sale_items == old(self)@.sale_items);
            assert(self@.settings == old(self)@.settings);
            assert(self@.users == old(self)@.users);
            assert(self@.products =~= old(self)@.products.push(returned@));
            let ps = self@.products;
            let ops = old(self)@.products;
            assert forall|i: int| 0 <= i < ps.len() implies 1 <= #[trigger] ps[i].id
                < self@.next_product_id by {
                if i < ops.len() {
                    assert(ps[i] == ops[i]);
                } else {
                    assert(ps[i] == returned@);
                }
            }
            assert forall|i: int, j: int| 0 <= i < j < ps.len() implies #[trigger] ps[i].id
                != #[trigger] ps[j].id by {
                assert(ps[i] == ops[i]);
                if j < ops.len() {
                    assert(ps[j] == ops[j]);
                } else {
                    assert(ps[j] == returned@);
                }
            }
        }
        Ok(returned)
    }

    /// Overwrite name, price and stock of the product `id`.
    pub fn update_product(&mut self, id: i64, name: String, price_cents: u64, stock: i64) -> (r:
        Result<InventoryItem, StoreError>)
        requires
            old(self).wf(),
        ensures
            final(self).wf(),
            r is Err ==> *final(self) == *old(self),
            r is Err <==> !has_product(old(self)@.products, id),
            r is Err ==> r == Err::<InventoryItem, StoreError>(StoreError::NotFound),
            r matches Ok(p) ==> {
                &&& p@ == (ProductV { id, name: name@, price_cents, stock })
                &&& catalog_updated(old(self)@, final(self)@, id, p@)
                &&& final(self)@.next_product_id == old(self)@.next_product_id
                &&& same_sales(old(self)@, final(self)@)
                &&& same_settings(old(self)@, final(self)@)
                &&& same_users(old(self)@, final(self)@)
            },
    {
        match self.find_product(id) {
            None => Err(StoreError::NotFound),
            Some(j) => {
                let item = InventoryItem { id, name: name.clone(), price_cents, stock };
                let returned = InventoryItem { id, name, price_cents, stock };
                self.products.set(j, item);
                proof {
                    assert(self@.sales == old(self)@.sales);
                    assert(self@.sale_items == old(self)@.sale_items);
                    assert(self@.settings == old(self)@.settings);
                    assert(self@.users == old(self)@.users);
                    assert(self@.products =~= old(self)@.products.update(j as int, returned@));
                    assert(old(self)@.products[j as int].id == id);
                    let ps = self@.products;
                    let ops = old(self)@.products;
                    assert forall|i: int| 0 <= i < ps.len() implies #[trigger] ps[i].id
                        == ops[i].id by {
                        if i != j as int {
                            assert(ps[i] == ops[i]);
                        }
                    }
                    assert(catalog_updated(old(self)@, self@, id, returned@)) by {
                        let k = j as int;
                        assert(0 <= k < old(self)@.products.len());
                        assert(old(self)@.products[k].id == id);
                        assert(self@.products == old(self)@.products.update(k, returned@));
                    }
                }
                Ok(returned)
            },
        }
    }

    /// Remove the product `id` from the catalog.  Sale history that
    /// references it stays behind untouched.
    pub fn delete_product(&mut self, id: i64) -> (r: Result<(), StoreError>)
        requires
            old(self).wf(),
        ensures
            final(self).wf(),
            r is Err ==> *final(self) == *old(self),
            r is Err <==> !has_product(old(self)@.products, id),
            r is Err ==> r == Err::<(), StoreError>(StoreError::NotFound),
            r is Ok ==> {
                &&& catalog_removed(old(self)@, final(self)@, id)
                &&& final(self)@.next_product_id == old(self)@.next_product_id
                &&& same_sales(old(self)@, final(self)@)
                &&& same_settings(old(self)@, final(self)@)
                &&& same_users(old(self)@, final(self)@)
            },
    {
        match self.find_product(id) {
            None => Err(StoreError::NotFound),
            Some(j) => {
                self.products.remove(j);
                proof {
                    assert(self@.sales == old(self)@.sales);
                    assert(self@.sale_items == old(self)@.sale_items);
                    assert(self@.settings == old(self)@.settings);
                    assert(self@.users == old(self)@.users);
                    assert(self@.products =~= old(self)@.products.remove(j as int));
                    assert(old(self)@.products[j as int].id == id);
                    let ps = self@.products;
                    let ops = old(self)@.products;
                    assert forall|i: int| 0 <= i < ps.len() implies #[trigger] ps[i] == ops[
                        if i < j as int {
                            i
                        } else {
                            i + 1
                        }
                    ] by {}
                    assert(catalog_removed(old(self)@, self@, id)) by {
                        let k = j as int;
                        assert(0 <= k < old(self)@.products.len());
                        assert(old(self)@.products[k].id == id);
                        assert(self@.products == old(self)@.products.remove(k));
                    }
                }
                Ok(())
            },
        }
    }
}

} // verus!
