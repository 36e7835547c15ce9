//! Checkout engine: turns a cart into one committed sale, its line
//! items and the matching stock decrements, as one all-or-nothing
//! unit.  Every input is validated before the store is touched, so a
//! rejected checkout leaves the store exactly as it was.

use vstd::arithmetic::mul::lemma_mul_nonnegative;
use vstd::arithmetic::mul::lemma_mul_upper_bound;
use vstd::pervasive::VecAdditionalExecFns;
use vstd::prelude::*;

use crate::inventory::same_settings;
use crate::inventory::same_users;
use crate::store::has_product;
use crate::store::lemma_seq_sum_concat;
use crate::store::lemma_seq_sum_nonneg;
use crate::store::lemma_seq_sum_prefix;
use crate::store::lemma_seq_sum_single;
use crate::store::lemma_seq_sum_take_step;
use crate::store::lemma_seq_sum_zero;
use crate::store::sale_summand;
use crate::store::sale_total;
use crate::store::seq_sum;
use crate::store::InventoryItem;
use crate::store::LineItemV;
use crate::store::ProductV;
use crate::store::SaleLineItem;
use crate::store::SaleRecord;
use crate::store::SaleV;
use crate::store::Store;
use crate::store::StoreV;
use crate::StoreError;

verus! {

/// One line of a cart: a client-supplied snapshot of the product it
/// wants, the price it saw and the amount it buys.
pub struct CartItem {
    pub id: i64,
    pub name: String,
    pub price_cents: u64,
    pub quantity: u32,
}

/// Model of a cart line.
pub struct CartItemV {
    pub id: i64,
    pub name: Seq<char>,
    pub price_cents: u64,
    pub quantity: u32,
}

impl View for CartItem {
    type V = CartItemV;

    open spec fn view(&self) -> CartItemV {
        CartItemV {
            id: self.id,
            name: self.name@,
            price_cents: self.price_cents,
            quantity: self.quantity,
        }
    }
}

/// What checkout returns: the committed sale with its echoed lines.
pub struct SalesTransaction {
    pub id: i64,
    pub date: u64,
    pub total_paid_cents: u64,
    pub items: Vec<CartItem>,
}

/// Model of a committed transaction.
pub struct SalesTransactionV {
    pub id: i64,
    pub date: u64,
    pub total_paid_cents: u64,
    pub items: Seq<CartItemV>,
}

impl View for SalesTransaction {
    type V = SalesTransactionV;

    open spec fn view(&self) -> SalesTransactionV {
        SalesTransactionV {
            id: self.id,
            date: self.date,
            total_paid_cents: self.total_paid_cents,
            items: self.items@.map_values(|c: CartItem| c@),
        }
    }
}

/// What one cart line owes: its snapshot price times its quantity.
pub open spec fn cart_summand() -> spec_fn(CartItemV) -> int {
    |c: CartItemV| (c.price_cents as int) * (c.quantity as int)
}

/// Sum of `price * quantity` over the whole cart.
pub open spec fn cart_total(cart: Seq<CartItemV>) -> int {
    seq_sum(cart, cart_summand())
}

/// How many units of product `pid` one cart line asks for.
pub open spec fn cart_qty_summand(pid: i64) -> spec_fn(CartItemV) -> int {
    |c: CartItemV|
        if c.id == pid {
            c.quantity as int
        } else {
            0
        }
}

/// Units of product `pid` the whole cart asks for.
pub open spec fn cart_qty(cart: Seq<CartItemV>, pid: i64) -> int {
    seq_sum(cart, cart_qty_summand(pid))
}

/// A cart the engine accepts: at least one line, every quantity
/// positive.
pub open spec fn cart_valid(cart: Seq<CartItemV>) -> bool {
    &&& cart.len() > 0
    &&& forall|i: int| 0 <= i < cart.len() ==> #[trigger] cart[i].quantity >= 1
}

/// Every cart line references a product the catalog has.
pub open spec fn cart_products_exist(products: Seq<ProductV>, cart: Seq<CartItemV>) -> bool {
    forall|i: int| 0 <= i < cart.len() ==> has_product(products, #[trigger] cart[i].id)
}

/// No value the commit writes would leave the range its column holds.
pub open spec fn checkout_fits(s: StoreV, cart: Seq<CartItemV>) -> bool {
    &&& cart_total(cart) <= u64::MAX as int
    &&& s.next_sale_id < i64::MAX
    &&& s.next_item_id + cart.len() <= i64::MAX as int
    &&& forall|j: int|
        #![trigger s.products[j]]
        0 <= j < s.products.len() ==> s.products[j].stock - cart_qty(cart, s.products[j].id)
            >= i64::MIN as int
}

/// All three gates a cart must pass for checkout to commit.
pub open spec fn checkout_accepted(s: StoreV, cart: Seq<CartItemV>) -> bool {
    &&& cart_valid(cart)
    &&& cart_products_exist(s.products, cart)
    &&& checkout_fits(s, cart)
}

/// The sale header a commit of `cart` at time `now` writes.
pub open spec fn new_sale(s: StoreV, cart: Seq<CartItemV>, now: u64) -> SaleV {
    SaleV { id: s.next_sale_id, sale_time: now, total_paid_cents: cart_total(cart) as u64 }
}

/// The line items a commit of `cart` writes for sale `sid`, with
/// identifiers counted up from `fid`.
pub open spec fn new_line_items(cart: Seq<CartItemV>, sid: i64, fid: i64) -> Seq<LineItemV> {
    Seq::new(
        cart.len(),
        |i: int|
            LineItemV {
                id: (fid + i) as i64,
                sale_id: sid,
                product_id: cart[i].id,
                quantity: cart[i].quantity,
                price_cents: cart[i].price_cents,
            },
    )
}

/// The catalog after the commit: every product's stock drops by the
/// units the cart asked of it, and nothing else moves.
pub open spec fn decremented_products(ps: Seq<ProductV>, cart: Seq<CartItemV>) -> Seq<ProductV> {
    Seq::new(
        ps.len(),
        |j: int|
            ProductV {
                id: ps[j].id,
                name: ps[j].name,
                price_cents: ps[j].price_cents,
                stock: (ps[j].stock - cart_qty(cart, ps[j].id)) as i64,
            },
    )
}

/// Every term of the cart total is non-negative.
pub proof fn lemma_cart_summand_nonneg(cart: Seq<CartItemV>)
    ensures
        forall|j: int| 0 <= j < cart.len() ==> #[trigger] cart_summand()(cart[j]) >= 0,
{
    assert forall|j: int| 0 <= j < cart.len() implies #[trigger] cart_summand()(cart[j]) >= 0 by {
        lemma_mul_nonnegative(cart[j].price_cents as int, cart[j].quantity as int);
    }
}

/// Every term of a per-product quantity sum is non-negative.
pub proof fn lemma_cart_qty_summand_nonneg(cart: Seq<CartItemV>, pid: i64)
    ensures
        forall|j: int| 0 <= j < cart.len() ==> #[trigger] cart_qty_summand(pid)(cart[j]) >= 0,
{
}

/// A cart that never names `pid` asks for none of it.
pub proof fn lemma_cart_qty_absent(cart: Seq<CartItemV>, pid: i64)
    requires
        forall|i: int| 0 <= i < cart.len() ==> #[trigger] cart[i].id != pid,
    ensures
        cart_qty(cart, pid) == 0,
{
    assert forall|j: int| 0 <= j < cart.len() implies #[trigger] cart_qty_summand(pid)(cart[j])
        == 0 by {}
    lemma_seq_sum_zero(cart, cart_qty_summand(pid));
}

/// A cart that names `pid` in exactly one line asks for exactly that
/// line's quantity of it.
pub proof fn lemma_cart_qty_single_line(cart: Seq<CartItemV>, i: int, pid: i64)
    requires
        0 <= i < cart.len(),
        cart[i].id == pid,
        forall|j: int| 0 <= j < cart.len() && j != i ==> #[trigger] cart[j].id != pid,
    ensures
        cart_qty(cart, pid) == cart[i].quantity,
{
    assert forall|j: int|
        0 <= j < cart.len() && j != i implies #[trigger] cart_qty_summand(pid)(cart[j]) == 0 by {}
    lemma_seq_sum_single(cart, cart_qty_summand(pid), i);
}

/// After a committed checkout, every product loses exactly the units
/// the cart asked of it; one the cart never names keeps its stock.
pub proof fn lemma_checkout_stock_delta(ps: Seq<ProductV>, cart: Seq<CartItemV>, j: int)
    requires
        0 <= j < ps.len(),
        ps[j].stock - cart_qty(cart, ps[j].id) >= i64::MIN as int,
    ensures
        decremented_products(ps, cart)[j].stock == ps[j].stock - cart_qty(cart, ps[j].id),
        (forall|i: int| 0 <= i < cart.len() ==> #[trigger] cart[i].id != ps[j].id)
            ==> decremented_products(ps, cart)[j].stock == ps[j].stock,
{
    lemma_cart_qty_summand_nonneg(cart, ps[j].id);
    lemma_seq_sum_nonneg(cart, cart_qty_summand(ps[j].id));
    if forall|i: int| 0 <= i < cart.len() ==> #[trigger] cart[i].id != ps[j].id {
        lemma_cart_qty_absent(cart, ps[j].id);
    }
}

/// The line items written for a sale add up to the cart total: the
/// reconciliation invariant holds of a fresh sale by construction.
pub proof fn lemma_new_items_total(cart: Seq<CartItemV>, sid: i64, fid: i64)
    ensures
        sale_total(new_line_items(cart, sid, fid), sid) == cart_total(cart),
    decreases cart.len(),
{
    let items = new_line_items(cart, sid, fid);
    if cart.len() == 0 {
        assert(items =~= Seq::<LineItemV>::empty());
    } else {
        lemma_new_items_total(cart.drop_last(), sid, fid);
        assert(items.drop_last() =~= new_line_items(cart.drop_last(), sid, fid));
        assert(sale_summand(sid)(items.last()) == cart_summand()(cart.last()));
    }
}

impl Store {
    /// Commit one sale: record its header and line items under fresh
    /// identifiers and decrement each product's stock by the units
    /// the cart asked of it — or reject the cart and change nothing.
    #[verifier::loop_isolation(false)]
    pub fn checkout(&mut self, items: Vec<CartItem>, now: u64) -> (r: Result<
        SalesTransaction,
        StoreError,
    >)
        requires
            old(self).wf(),
        ensures
            final(self).wf(),
            r is Err ==> *final(self) == *old(self),
            r == Err::<SalesTransaction, StoreError>(StoreError::Validation) <==> !cart_valid(
                items@.map_values(|c: CartItem| c@),
            ),
            r == Err::<SalesTransaction, StoreError>(StoreError::NotFound) <==> cart_valid(
                items@.map_values(|c: CartItem| c@),
            ) && !cart_products_exist(old(self)@.products, items@.map_values(|c: CartItem| c@)),
            r == Err::<SalesTransaction, StoreError>(StoreError::Overflow) <==> cart_valid(
                items@.map_values(|c: CartItem| c@),
            ) && cart_products_exist(old(self)@.products, items@.map_values(|c: CartItem| c@))
                && !checkout_fits(old(self)@, items@.map_values(|c: CartItem| c@)),
            r is Ok <==> checkout_accepted(old(self)@, items@.map_values(|c: CartItem| c@)),
            r matches Ok(t) ==> {
                let cart = items@.map_values(|c: CartItem| c@);
                &&& t@ == (SalesTransactionV {
                    id: old(self)@.next_sale_id,
                    date: now,
                    total_paid_cents: cart_total(cart) as u64,
                    items: cart,
                })
                &&& final(self)@.sales == old(self)@.sales.push(new_sale(old(self)@, cart, now))
                &&& final(self)@.sale_items == old(self)@.sale_items + new_line_items(
                    cart,
                    old(self)@.next_sale_id,
                    old(self)@.next_item_id,
                )
                &&& final(self)@.products == decremented_products(old(self)@.products, cart)
                &&& final(self)@.next_sale_id == old(self)@.next_sale_id + 1
                &&& final(self)@.next_item_id == old(self)@.next_item_id + cart.len()
                &&& final(self)@.next_product_id == old(self)@.next_product_id
                &&& same_settings(old(self)@, final(self)@)
                &&& same_users(old(self)@, final(self)@)
            },
    {
        let ghost cart = items@.map_values(|c: CartItem| c@);
        // Gate one: the cart itself.
        if items.len() == 0 {
            return Err(StoreError::Validation);
        }
        let mut i: usize = 0;
        while i < items.len()
            invariant
                i <= cart.len(),
                cart == items@.map_values(|c: CartItem| c@),
                self == old(self),
                forall|k: int| 0 <= k < i ==> #[trigger] cart[k].quantity >= 1,
            decreases cart.len() - i,
        {
            if items[i].quantity == 0 {
                proof {
                    assert(cart[i as int].quantity == 0);
                }
                return Err(StoreError::Validation);
            }
            i = i + 1;
        }
        assert(cart_valid(cart));
        // Gate two: every line names a product the catalog has.
        let mut i: usize = 0;
        while i < items.len()
            invariant
                i <= cart.len(),
                cart == items@.map_values(|c: CartItem| c@),
                self == old(self),
                cart_valid(cart),
                forall|k: int|
                    0 <= k < i ==> has_product(old(self)@.products, #[trigger] cart[k].id),
            decreases cart.len() - i,
        {
            if self.find_product(items[i].id).is_none() {
                proof {
                    assert(!has_product(old(self)@.products, cart[i as int].id));
                }
                return Err(StoreError::NotFound);
            }
            i = i + 1;
        }
        assert(cart_products_exist(old(self)@.products, cart));
        // Gate three, part one: the total fits its column.
        proof {
            lemma_cart_summand_nonneg(cart);
        }
        let mut total: u64 = 0;
        let mut i: usize = 0;
        while i < items.len()
            invariant
                i <= cart.len(),
                cart == items@.map_values(|c: CartItem| c@),
                self == old(self),
                cart_valid(cart),
                cart_products_exist(old(self)@.products, cart),
                total as int == cart_total(cart.take(i as int)),
                forall|j: int| 0 <= j < cart.len() ==> #[trigger] cart_summand()(cart[j]) >= 0,
            decreases cart.len() - i,
        {
            proof {
                lemma_mul_upper_bound(
                    items@[i as int].price_cents as int,
                    u64::MAX as int,
                    items@[i as int].quantity as int,
                    u32::MAX as int,
                );
            }
            let line_total: u128 = (items[i].price_cents as u128) * (items[i].quantity as u128);
            proof {
                lemma_seq_sum_take_step(cart, cart_summand(), i as int);
                lemma_seq_sum_prefix(cart, cart_summand(), i + 1);
            }
            if line_total > u64::MAX as u128 {
                return Err(StoreError::Overflow);
            }
            if total > u64::MAX - (line_total as u64) {
                return Err(StoreError::Overflow);
            }
            total = total + (line_total as u64);
            i = i + 1;
        }
        proof {
            assert(cart.take(cart.len() as int) =~= cart);
        }
        assert(total as int == cart_total(cart));
        // Gate three, part two: fresh identifiers do not run out.
        if self.next_sale_id == i64::MAX {
            return Err(StoreError::Overflow);
        }
        if (self.next_item_id as i128) + (items.len() as i128) > i64::MAX as i128 {
            return Err(StoreError::Overflow);
        }
        // Gate three, part three: no stock decrement leaves range.
        let mut dec: Vec<u64> = Vec::new();
        let mut j: usize = 0;
        while j < self.products.len()
            invariant
                j <= self@.products.len(),
                cart == items@.map_values(|c: CartItem| c@),
                self == old(self),
                cart_valid(cart),
                cart_products_exist(old(self)@.products, cart),
                dec@.len() == j,
                forall|k: int|
                    0 <= k < j ==> #[trigger] dec@[k] as int == cart_qty(
                        cart,
                        old(self)@.products[k].id,
                    ),
                forall|k: int|
                    #![trigger old(self)@.products[k]]
                    0 <= k < j ==> old(self)@.products[k].stock - cart_qty(
                        cart,
                        old(self)@.products[k].id,
                    ) >= i64::MIN as int,
            decreases self@.products.len() - j,
        {
            let pid = self.products[j].id;
            proof {
                lemma_cart_qty_summand_nonneg(cart, pid);
            }
            let mut q: u64 = 0;
            let mut i: usize = 0;
            while i < items.len()
                invariant
                    i <= cart.len(),
                    cart == items@.map_values(|c: CartItem| c@),
                    self == old(self),
                    0 <= j < self@.products.len(),
                    pid == old(self)@.products[j as int].id,
                    q as int == cart_qty(cart.take(i as int), pid),
                    forall|k: int|
                        0 <= k < cart.len() ==> #[trigger] cart_qty_summand(pid)(cart[k]) >= 0,
                decreases cart.len() - i,
            {
                proof {
                    lemma_seq_sum_take_step(cart, cart_qty_summand(pid), i as int);
                    lemma_seq_sum_prefix(cart, cart_qty_summand(pid), i + 1);
                }
                if items[i].id == pid {
                    let qu = items[i].quantity as u64;
                    if q > u64::MAX - qu {
                        // The cart asks for more than any column can
                        // hold, so the decrement is sure to leave range.
                        proof {
                            assert(cart_qty(cart, pid) > u64::MAX as int);
                            assert(old(self)@.products[j as int].stock - cart_qty(cart, pid)
                                < i64::MIN as int);
                        }
                        return Err(StoreError::Overflow);
                    }
                    q = q + qu;
                }
                i = i + 1;
            }
            proof {
                assert(cart.take(cart.len() as int) =~= cart);
            }
            assert(q as int == cart_qty(cart, pid));
            if (self.products[j].stock as i128) - (q as i128) < i64::MIN as i128 {
                return Err(StoreError::Overflow);
            }
            dec.push(q);
            j = j + 1;
        }
        assert(checkout_fits(old(self)@, cart));
        // Commit: from here on nothing can fail.
        let ghost fid = self@.next_item_id;
        let sale_id = self.next_sale_id;
        self.sales.push(SaleRecord { id: sale_id, sale_time: now, total_paid_cents: total });
        self.next_sale_id = sale_id + 1;
        proof {
            assert(self@.sales =~= old(self)@.sales.push(new_sale(old(self)@, cart, now)));
        }
        let mut i: usize = 0;
        while i < items.len()
            invariant
                i <= cart.len(),
                cart == items@.map_values(|c: CartItem| c@),
                cart_valid(cart),
                sale_id == old(self)@.next_sale_id,
                fid == old(self)@.next_item_id,
                fid + cart.len() <= i64::MAX as int,
                self.next_item_id as int == fid + i,
                self@.sale_items == old(self)@.sale_items + new_line_items(
                    cart,
                    sale_id,
                    fid as i64,
                ).take(i as int),
                self@.sales == old(self)@.sales.push(new_sale(old(self)@, cart, now)),
                self@.products == old(self)@.products,
                self@.settings == old(self)@.settings,
                self@.users == old(self)@.users,
                self@.next_sale_id == old(self)@.next_sale_id + 1,
                self@.next_product_id == old(self)@.next_product_id,
            decreases cart.len() - i,
        {
            let ghost prev_items = self@.sale_items;
            let line = SaleLineItem {
                id: self.next_item_id,
                sale_id,
                product_id: items[i].id,
                quantity: items[i].quantity,
                price_cents: items[i].price_cents,
            };
            self.sale_items.push(line);
            self.next_item_id = self.next_item_id + 1;
            proof {
                let all = new_line_items(cart, sale_id, fid as i64);
                assert(line@ == all[i as int]);
                assert(self@.sale_items =~= prev_items.push(line@));
                assert(self@.sale_items =~= old(self)@.sale_items + all.take(i + 1));
            }
            i = i + 1;
        }
        proof {
            assert(new_line_items(cart, sale_id, fid as i64).take(cart.len() as int)
                =~= new_line_items(cart, sale_id, fid as i64));
        }
        // Stock decrements, one write per product.
        let mut j: usize = 0;
        while j < self.products.len()
            invariant
                j <= self@.products.len(),
                cart == items@.map_values(|c: CartItem| c@),
                dec@.len() == old(self)@.products.len(),
                self@.products.len() == old(self)@.products.len(),
                forall|k: int|
                    0 <= k < old(self)@.products.len() ==> #[trigger] dec@[k] as int == cart_qty(
                        cart,
                        old(self)@.products[k].id,
                    ),
                forall|k: int|
                    #![trigger old(self)@.products[k]]
                    0 <= k < old(self)@.products.len() ==> old(self)@.products[k].stock - cart_qty(
                        cart,
                        old(self)@.products[k].id,
                    ) >= i64::MIN as int,
                forall|k: int|
                    0 <= k < j ==> #[trigger] self@.products[k] == decremented_products(
                        old(self)@.products,
                        cart,
                    )[k],
                forall|k: int|
                    j <= k < old(self)@.products.len() ==> #[trigger] self@.products[k] == old(
                        self,
                    )@.products[k],
                self@.sale_items == old(self)@.sale_items + new_line_items(
                    cart,
                    sale_id,
                    fid as i64,
                ),
                self@.sales == old(self)@.sales.push(new_sale(old(self)@, cart, now)),
                self@.settings == old(self)@.settings,
                self@.users == old(self)@.users,
                sale_id == old(self)@.next_sale_id,
                fid == old(self)@.next_item_id,
                self@.next_sale_id == old(self)@.next_sale_id + 1,
                self@.next_item_id as int == fid + cart.len(),
                self@.next_product_id == old(self)@.next_product_id,
            decreases self@.products.len() - j,
        {
            let q = dec[j];
            let p_id = self.products[j].id;
            let p_name = self.products[j].name.clone();
            let p_price = self.products[j].price_cents;
            let p_stock = self.products[j].stock;
            proof {
                assert(self@.products[j as int] == old(self)@.products[j as int]);
                assert(q as int == cart_qty(cart, p_id));
                assert(p_stock - q as int >= i64::MIN as int);
            }
            let ns = ((p_stock as i128) - (q as i128)) as i64;
            let ghost prev_products = self@.products;
            self.products.set(
                j,
                InventoryItem { id: p_id, name: p_name, price_cents: p_price, stock: ns },
            );
            proof {
                assert(self@.products =~= prev_products.update(
                    j as int,
                    (InventoryItem { id: p_id, name: p_name, price_cents: p_price, stock: ns })@,
                ));
                assert(self@.products[j as int] == decremented_products(
                    old(self)@.products,
                    cart,
                )[j as int]);
            }
            j = j + 1;
        }
        proof {
            assert(self@.products =~= decremented_products(old(self)@.products, cart));
        }
        let t = SalesTransaction { id: sale_id, date: now, total_paid_cents: total, items };
        proof {
            let s = self@;
            let o = old(self)@;
            let all = new_line_items(cart, sale_id, fid as i64);
            assert(t@.items =~= cart);
            // The fresh sale reconciles with its fresh line items;
            // every old sale keeps its old sum, since no fresh line
            // carries an old sale id.
            assert forall|k: int| 0 <= k < s.sales.len() implies #[trigger] s.sales[k].total_paid_cents
                == sale_total(s.sale_items, s.sales[k].id) by {
                lemma_seq_sum_concat(o.sale_items, all, sale_summand(s.sales[k].id));
                if k < o.sales.len() {
                    assert(s.sales[k] == o.sales[k]);
                    assert forall|m: int| 0 <= m < all.len() implies #[trigger] sale_summand(
                        s.sales[k].id,
                    )(all[m]) == 0 by {
                        assert(all[m].sale_id == sale_id);
                        assert(o.sales[k].id < sale_id);
                    }
                    lemma_seq_sum_zero(all, sale_summand(s.sales[k].id));
                } else {
                    assert(s.sales[k] == new_sale(o, cart, now));
                    assert forall|m: int| 0 <= m < o.sale_items.len() implies #[trigger] sale_summand(
                        sale_id,
                    )(o.sale_items[m]) == 0 by {
                        assert(o.sale_items[m].sale_id < o.next_sale_id);
                    }
                    lemma_seq_sum_zero(o.sale_items, sale_summand(sale_id));
                    lemma_new_items_total(cart, sale_id, fid as i64);
                }
            }
            // Fresh identifiers stay unique and within their bounds.
            assert forall|k: int| 0 <= k < s.sales.len() implies 1 <= #[trigger] s.sales[k].id
                < s.next_sale_id by {
                if k < o.sales.len() {
                    assert(s.sales[k] == o.sales[k]);
                }
            }
            assert forall|a: int, b: int| 0 <= a < b < s.sales.len() implies #[trigger] s.sales[a].id
                != #[trigger] s.sales[b].id by {
                assert(s.sales[a] == o.sales[a]);
                if b < o.sales.len() {
                    assert(s.sales[b] == o.sales[b]);
                }
            }
            assert forall|k: int| 0 <= k < s.sale_items.len() implies 1 <= #[trigger] s.sale_items[k].id
                < s.next_item_id by {
                if k < o.sale_items.len() {
                    assert(s.sale_items[k] == o.sale_items[k]);
                } else {
                    assert(s.sale_items[k] == all[k - o.sale_items.len()]);
                }
            }
            assert forall|a: int, b: int| 0 <= a < b < s.sale_items.len() implies #[trigger] s.sale_items[a].id
                != #[trigger] s.sale_items[b].id by {
                if a < o.sale_items.len() {
                    assert(s.sale_items[a] == o.sale_items[a]);
                } else {
                    assert(s.sale_items[a] == all[a - o.sale_items.len()]);
                }
                if b < o.sale_items.len() {
                    assert(s.sale_items[b] == o.sale_items[b]);
                } else {
                    assert(s.sale_items[b] == all[b - o.sale_items.len()]);
                }
            }
            assert forall|k: int| 0 <= k < s.sale_items.len() implies 1 <= #[trigger] s.sale_items[k].sale_id
                < s.next_sale_id by {
                if k < o.sale_items.len() {
                    assert(s.sale_items[k] == o.sale_items[k]);
                } else {
                    assert(s.sale_items[k] == all[k - o.sale_items.len()]);
                }
            }
            assert forall|k: int| 0 <= k < s.sale_items.len() implies #[trigger] s.sale_items[k].quantity
                >= 1 by {
                if k < o.sale_items.len() {
                    assert(s.sale_items[k] == o.sale_items[k]);
                } else {
                    assert(s.sale_items[k] == all[k - o.sale_items.len()]);
                    assert(cart[k - o.sale_items.len()].quantity >= 1);
                }
            }
            assert forall|k: int| 0 <= k < s.products.len() implies 1 <= #[trigger] s.products[k].id
                < s.next_product_id by {
                assert(s.products[k].id == o.products[k].id);
            }
            assert forall|a: int, b: int| 0 <= a < b < s.products.len() implies #[trigger] s.products[a].id
                != #[trigger] s.products[b].id by {
                assert(s.products[a].id == o.products[a].id);
                assert(s.products[b].id == o.products[b].id);
            }
        }
        Ok(t)
    }
}

} // verus!
