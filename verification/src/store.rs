//! The storage engine: the tables, their mathematical model, and the
//! well-formedness invariant that every operation preserves.

use vstd::prelude::*;

verus! {

/// One product of the catalog.  Prices are non-negative and held in
/// cents; stock is a signed count, since a sale may drive it below
/// zero (the engine does not rule on overselling).
pub struct InventoryItem {
    pub id: i64,
    pub name: String,
    pub price_cents: u64,
    pub stock: i64,
}

/// Model of a product: the same fields, with the name as a sequence.
pub struct ProductV {
    pub id: i64,
    pub name: Seq<char>,
    pub price_cents: u64,
    pub stock: i64,
}

impl View for InventoryItem {
    type V = ProductV;

    open spec fn view(&self) -> ProductV {
        ProductV {
            id: self.id,
            name: self.name@,
            price_cents: self.price_cents,
            stock: self.stock,
        }
    }
}

/// One committed sale: header row of a transaction.
pub struct SaleRecord {
    pub id: i64,
    pub sale_time: u64,
    pub total_paid_cents: u64,
}

/// Model of a sale header.
pub struct SaleV {
    pub id: i64,
    pub sale_time: u64,
    pub total_paid_cents: u64,
}

impl View for SaleRecord {
    type V = SaleV;

    open spec fn view(&self) -> SaleV {
        SaleV { id: self.id, sale_time: self.sale_time, total_paid_cents: self.total_paid_cents }
    }
}

/// One line of a committed sale.  The price is a snapshot taken at
/// sale time, never a reference to the product's live price.
pub struct SaleLineItem {
    pub id: i64,
    pub sale_id: i64,
    pub product_id: i64,
    pub quantity: u32,
    pub price_cents: u64,
}

/// Model of a line item.
pub struct LineItemV {
    pub id: i64,
    pub sale_id: i64,
    pub product_id: i64,
    pub quantity: u32,
    pub price_cents: u64,
}

impl View for SaleLineItem {
    type V = LineItemV;

    open spec fn view(&self) -> LineItemV {
        LineItemV {
            id: self.id,
            sale_id: self.sale_id,
            product_id: self.product_id,
            quantity: self.quantity,
            price_cents: self.price_cents,
        }
    }
}

/// One key-value row of the settings table.
pub struct Setting {
    pub key: String,
    pub value: String,
}

/// Model of a settings row.
pub struct SettingV {
    pub key: Seq<char>,
    pub value: Seq<char>,
}

impl View for Setting {
    type V = SettingV;

    open spec fn view(&self) -> SettingV {
        SettingV { key: self.key@, value: self.value@ }
    }
}

/// One user row.  The hash is a PHC string produced by the
/// authenticator; the engine never inspects its contents.
pub struct User {
    pub username: String,
    pub password_hash: String,
}

/// Model of a user row.
pub struct UserV {
    pub username: Seq<char>,
    pub password_hash: Seq<char>,
}

impl View for User {
    type V = UserV;

    open spec fn view(&self) -> UserV {
        UserV { username: self.username@, password_hash: self.password_hash@ }
    }
}

/// The whole store: every table, plus the next fresh identifier of
/// each table that assigns them.
pub struct Store {
    pub products: Vec<InventoryItem>,
    pub sales: Vec<SaleRecord>,
    pub sale_items: Vec<SaleLineItem>,
    pub settings: Vec<Setting>,
    pub users: Vec<User>,
    pub next_product_id: i64,
    pub next_sale_id: i64,
    pub next_item_id: i64,
}

/// Model of the whole store.
pub struct StoreV {
    pub products: Seq<ProductV>,
    pub sales: Seq<SaleV>,
    pub sale_items: Seq<LineItemV>,
    pub settings: Seq<SettingV>,
    pub users: Seq<UserV>,
    pub next_product_id: i64,
    pub next_sale_id: i64,
    pub next_item_id: i64,
}

impl View for Store {
    type V = StoreV;

    open spec fn view(&self) -> StoreV {
        StoreV {
            products: self.products@.map_values(|p: InventoryItem| p@),
            sales: self.sales@.map_values(|s: SaleRecord| s@),
            sale_items: self.sale_items@.map_values(|it: SaleLineItem| it@),
            settings: self.settings@.map_values(|s: Setting| s@),
            users: self.users@.map_values(|u: User| u@),
            next_product_id: self.next_product_id,
            next_sale_id: self.next_sale_id,
            next_item_id: self.next_item_id,
        }
    }
}

/// Sum of `f` over the elements of `s`.
pub open spec fn seq_sum<A>(s: Seq<A>, f: spec_fn(A) -> int) -> int
    decreases s.len(),
{
    if s.len() == 0 {
        0
    } else {
        seq_sum(s.drop_last(), f) + f(s.last())
    }
}

pub proof fn lemma_seq_sum_concat<A>(a: Seq<A>, b: Seq<A>, f: spec_fn(A) -> int)
    ensures
        seq_sum(a + b, f) == seq_sum(a, f) + seq_sum(b, f),
    decreases b.len(),
{
    if b.len() == 0 {
        assert(a + b =~= a);
    } else {
        lemma_seq_sum_concat(a, b.drop_last(), f);
        assert((a + b).drop_last() =~= a + b.drop_last());
        assert((a + b).last() == b.last());
    }
}

pub proof fn lemma_seq_sum_nonneg<A>(s: Seq<A>, f: spec_fn(A) -> int)
    requires
        forall|i: int| 0 <= i < s.len() ==> #[trigger] f(s[i]) >= 0,
    ensures
        seq_sum(s, f) >= 0,
    decreases s.len(),
{
    if s.len() > 0 {
        lemma_seq_sum_nonneg(s.drop_last(), f);
        assert(f(s[s.len() - 1]) >= 0);
    }
}

pub proof fn lemma_seq_sum_zero<A>(s: Seq<A>, f: spec_fn(A) -> int)
    requires
        forall|i: int| 0 <= i < s.len() ==> #[trigger] f(s[i]) == 0,
    ensures
        seq_sum(s, f) == 0,
    decreases s.len(),
{
    if s.len() > 0 {
        lemma_seq_sum_zero(s.drop_last(), f);
        assert(f(s[s.len() - 1]) == 0);
    }
}

/// One step of a left-to-right walk over the sum.
pub proof fn lemma_seq_sum_take_step<A>(s: Seq<A>, f: spec_fn(A) -> int, i: int)
    requires
        0 <= i < s.len(),
    ensures
        seq_sum(s.take(i + 1), f) == seq_sum(s.take(i), f) + f(s[i]),
{
    assert(s.take(i + 1).drop_last() =~= s.take(i));
    assert(s.take(i + 1).last() == s[i]);
}

/// A prefix of a sum of non-negative terms is at most the whole sum.
pub proof fn lemma_seq_sum_prefix<A>(s: Seq<A>, f: spec_fn(A) -> int, i: int)
    requires
        0 <= i <= s.len(),
        forall|j: int| 0 <= j < s.len() ==> #[trigger] f(s[j]) >= 0,
    ensures
        seq_sum(s.take(i), f) <= seq_sum(s, f),
{
    assert(s =~= s.take(i) + s.skip(i));
    lemma_seq_sum_concat(s.take(i), s.skip(i), f);
    assert(forall|j: int|
        0 <= j < s.skip(i).len() ==> #[trigger] f(s.skip(i)[j]) >= 0) by {
        assert(forall|j: int| 0 <= j < s.skip(i).len() ==> s.skip(i)[j] == s[j + i]);
    }
    lemma_seq_sum_nonneg(s.skip(i), f);
}

/// A sum whose every term but one vanishes is that term.
pub proof fn lemma_seq_sum_single<A>(s: Seq<A>, f: spec_fn(A) -> int, i: int)
    requires
        0 <= i < s.len(),
        forall|j: int| 0 <= j < s.len() && j != i ==> #[trigger] f(s[j]) == 0,
    ensures
        seq_sum(s, f) == f(s[i]),
    decreases s.len(),
{
    if i == s.len() - 1 {
        assert forall|j: int| 0 <= j < s.drop_last().len() implies #[trigger] f(
            s.drop_last()[j],
        ) == 0 by {
            assert(s.drop_last()[j] == s[j]);
        }
        lemma_seq_sum_zero(s.drop_last(), f);
    } else {
        assert forall|j: int|
            0 <= j < s.drop_last().len() && j != i implies #[trigger] f(s.drop_last()[j])
            == 0 by {
            assert(s.drop_last()[j] == s[j]);
        }
        lemma_seq_sum_single(s.drop_last(), f, i);
        assert(s.drop_last()[i] == s[i]);
        assert(f(s.last()) == 0);
    }
}

/// Sums of pointwise-dominated terms are ordered alike.
pub proof fn lemma_seq_sum_pointwise_le<A>(s: Seq<A>, f: spec_fn(A) -> int, g: spec_fn(A) -> int)
    requires
        forall|i: int| 0 <= i < s.len() ==> #[trigger] f(s[i]) <= #[trigger] g(s[i]),
    ensures
        seq_sum(s, f) <= seq_sum(s, g),
    decreases s.len(),
{
    if s.len() > 0 {
        lemma_seq_sum_pointwise_le(s.drop_last(), f, g);
        assert(f(s[s.len() - 1]) <= g(s[s.len() - 1]));
    }
}

/// Summand of the reconciliation invariant: what one line item
/// contributes to the total of the sale `sid`.
pub open spec fn sale_summand(sid: i64) -> spec_fn(LineItemV) -> int {
    |it: LineItemV|
        if it.sale_id == sid {
            (it.price_cents as int) * (it.quantity as int)
        } else {
            0
        }
}

/// Amount the line items of sale `sid` add up to.
pub open spec fn sale_total(items: Seq<LineItemV>, sid: i64) -> int {
    seq_sum(items, sale_summand(sid))
}

/// Is some product of the catalog carrying this id?
pub open spec fn has_product(products: Seq<ProductV>, pid: i64) -> bool {
    exists|i: int| 0 <= i < products.len() && products[i].id == pid
}

impl StoreV {
    /// Well-formedness: fresh-id counters really are fresh, every
    /// table keys uniquely, line items belong to recorded sales with
    /// positive quantities, and every sale's total reconciles with
    /// its line items.
    pub open spec fn wf(self) -> bool {
        &&& 1 <= self.next_product_id
        &&& 1 <= self.next_sale_id
        &&& 1 <= self.next_item_id
        &&& forall|i: int|
            0 <= i < self.products.len() ==> 1 <= #[trigger] self.products[i].id
                < self.next_product_id
        &&& forall|i: int, j: int|
            0 <= i < j < self.products.len() ==> #[trigger] self.products[i].id
                != #[trigger] self.products[j].id
        &&& forall|i: int|
            0 <= i < self.sales.len() ==> 1 <= #[trigger] self.sales[i].id < self.next_sale_id
        &&& forall|i: int, j: int|
            0 <= i < j < self.sales.len() ==> #[trigger] self.sales[i].id
                != #[trigger] self.sales[j].id
        &&& forall|i: int|
            0 <= i < self.sale_items.len() ==> 1 <= #[trigger] self.sale_items[i].id
                < self.next_item_id
        &&& forall|i: int, j: int|
            0 <= i < j < self.sale_items.len() ==> #[trigger] self.sale_items[i].id
                != #[trigger] self.sale_items[j].id
        &&& forall|i: int|
            0 <= i < self.sale_items.len() ==> 1 <= #[trigger] self.sale_items[i].sale_id
                < self.next_sale_id
        &&& forall|i: int|
            0 <= i < self.sale_items.len() ==> #[trigger] self.sale_items[i].quantity >= 1
        &&& forall|i: int|
            0 <= i < self.sales.len() ==> #[trigger] self.sales[i].total_paid_cents
                == sale_total(self.sale_items, self.sales[i].id)
        &&& forall|i: int, j: int|
            0 <= i < j < self.settings.len() ==> #[trigger] self.settings[i].key
                != #[trigger] self.settings[j].key
        &&& forall|i: int, j: int|
            0 <= i < j < self.users.len() ==> #[trigger] self.users[i].username
                != #[trigger] self.users[j].username
    }

    /// The empty store, as `Store::new` leaves it.
    pub open spec fn initial() -> StoreV {
        StoreV {
            products: Seq::empty(),
            sales: Seq::empty(),
            sale_items: Seq::empty(),
            settings: Seq::empty(),
            users: Seq::empty(),
            next_product_id: 1,
            next_sale_id: 1,
            next_item_id: 1,
        }
    }
}

impl Store {
    /// Shorthand for the invariant of the model behind this store.
    pub open spec fn wf(&self) -> bool {
        self@.wf()
    }

    /// A store with empty tables, as schema creation leaves the
    /// database on first run.
    pub fn new() -> (s: Store)
        ensures
            s@ == StoreV::initial(),
            s.wf(),
    {
        let s = Store {
            products: Vec::new(),
            sales: Vec::new(),
            sale_items: Vec::new(),
            settings: Vec::new(),
            users: Vec::new(),
            next_product_id: 1,
            next_sale_id: 1,
            next_item_id: 1,
        };
        proof {
            assert(s@.products =~= Seq::<ProductV>::empty());
            assert(s@.sales =~= Seq::<SaleV>::empty());
            assert(s@.sale_items =~= Seq::<LineItemV>::empty());
            assert(s@.settings =~= Seq::<SettingV>::empty());
            assert(s@.users =~= Seq::<UserV>::empty());
            assert(s@ =~= StoreV::initial());
        }
        s
    }

    /// Index of the product with id `pid`, if the catalog has one.
    pub fn find_product(&self, pid: i64) -> (r: Option<usize>)
        ensures
            match r {
                Some(j) => j < self@.products.len() && self@.products[j as int].id == pid,
                None => !has_product(self@.products, pid),
            },
    {
        let mut i: usize = 0;
        while i < self.products.len()
            invariant
                i <= self@.products.len(),
                forall|k: int| 0 <= k < i ==> #[trigger] self@.products[k].id != pid,
            decreases self@.products.len() - i,
        {
            if self.products[i].id == pid {
                return Some(i);
            }
            i = i + 1;
        }
        None
    }
}

} // verus!
