//! Reporting engine: read-only aggregations over the sales history.
//! Every figure is proved equal to the mathematical sum it stands
//! for, so reports cannot drift from the recorded line items.

use vstd::arithmetic::mul::lemma_mul_nonnegative;
use vstd::multiset::Multiset;
use vstd::prelude::*;

use crate::store::has_product;
use crate::store::lemma_seq_sum_pointwise_le;
use crate::store::lemma_seq_sum_prefix;
use crate::store::lemma_seq_sum_take_step;
use crate::store::seq_sum;
use crate::store::LineItemV;
use crate::store::ProductV;
use crate::store::SaleV;
use crate::store::Store;
use crate::store::StoreV;
use crate::StoreError;

verus! {

/// Per-product figures: units sold, revenue earned, current stock.
pub struct ProductPerformance {
    pub id: i64,
    pub name: String,
    pub sales_count: u64,
    pub revenue_cents: u64,
    pub stock: i64,
}

/// Model of a performance row.
pub struct PerformanceV {
    pub id: i64,
    pub name: Seq<char>,
    pub sales_count: u64,
    pub revenue_cents: u64,
    pub stock: i64,
}

impl View for ProductPerformance {
    type V = PerformanceV;

    open spec fn view(&self) -> PerformanceV {
        PerformanceV {
            id: self.id,
            name: self.name@,
            sales_count: self.sales_count,
            revenue_cents: self.revenue_cents,
            stock: self.stock,
        }
    }
}

/// Sums of sale totals over the rolling day, week and month windows.
pub struct RevenueOverview {
    pub daily_cents: u64,
    pub weekly_cents: u64,
    pub monthly_cents: u64,
}

/// Units of product `pid` one line item carries.
pub open spec fn product_qty_summand(pid: i64) -> spec_fn(LineItemV) -> int {
    |it: LineItemV|
        if it.product_id == pid {
            it.quantity as int
        } else {
            0
        }
}

/// Units of product `pid` sold over the whole history.
pub open spec fn product_qty(items: Seq<LineItemV>, pid: i64) -> int {
    seq_sum(items, product_qty_summand(pid))
}

/// Revenue of product `pid` one line item carries, at its snapshot
/// price.
pub open spec fn product_rev_summand(pid: i64) -> spec_fn(LineItemV) -> int {
    |it: LineItemV|
        if it.product_id == pid {
            (it.price_cents as int) * (it.quantity as int)
        } else {
            0
        }
}

/// Revenue of product `pid` over the whole history, from the prices
/// captured at sale time, never the live catalog price.
pub open spec fn product_revenue(items: Seq<LineItemV>, pid: i64) -> int {
    seq_sum(items, product_rev_summand(pid))
}

/// Both figures of product `pid` fit their columns.
pub open spec fn product_sums_fit(items: Seq<LineItemV>, pid: i64) -> bool {
    &&& product_qty(items, pid) <= u64::MAX as int
    &&& product_revenue(items, pid) <= u64::MAX as int
}

/// The catalog rows a low-stock report keeps, in catalog order.
pub open spec fn low_stock(ps: Seq<ProductV>) -> Seq<ProductV>
    decreases ps.len(),
{
    if ps.len() == 0 {
        Seq::empty()
    } else {
        let rest = low_stock(ps.drop_last());
        if ps.last().stock < 5 {
            rest.push(ps.last())
        } else {
            rest
        }
    }
}

/// What one sale adds to a window's revenue: its total if its
/// timestamp falls inside, nothing otherwise.
pub open spec fn window_summand(lo: u64, hi: u64) -> spec_fn(SaleV) -> int {
    |s: SaleV|
        if lo <= s.sale_time <= hi {
            s.total_paid_cents as int
        } else {
            0
        }
}

/// Revenue over the window `[lo, hi]`, both ends inclusive.
pub open spec fn revenue_in(sales: Seq<SaleV>, lo: u64, hi: u64) -> int {
    seq_sum(sales, window_summand(lo, hi))
}

/// Every term of the two per-product sums is non-negative.
pub proof fn lemma_product_summands_nonneg(items: Seq<LineItemV>, pid: i64)
    ensures
        forall|j: int| 0 <= j < items.len() ==> #[trigger] product_qty_summand(pid)(items[j]) >= 0,
        forall|j: int| 0 <= j < items.len() ==> #[trigger] product_rev_summand(pid)(items[j]) >= 0,
{
    assert forall|j: int| 0 <= j < items.len() implies #[trigger] product_rev_summand(pid)(
        items[j],
    ) >= 0 by {
        lemma_mul_nonnegative(items[j].price_cents as int, items[j].quantity as int);
    }
}

/// Revenue per product reads nothing but the line items: any two
/// stores with the same history agree on it, whatever their catalogs
/// say a product costs today.
pub proof fn lemma_revenue_ignores_live_price(a: StoreV, b: StoreV)
    requires
        a.sale_items == b.sale_items,
    ensures
        forall|pid: i64| #[trigger] product_revenue(a.sale_items, pid) == product_revenue(
            b.sale_items,
            pid,
        ),
        forall|pid: i64| #[trigger] product_qty(a.sale_items, pid) == product_qty(
            b.sale_items,
            pid,
        ),
{
}

/// Nested windows earn nested revenue: with the month opening no
/// later than the week and the week no later than the day, every sale
/// of the day's window lies in the week's, every sale of the week's
/// in the month's, and the three sums are ordered the same way.
pub proof fn lemma_revenue_windows_nested(sales: Seq<SaleV>, now: u64, day: u64, week: u64, month: u64)
    requires
        month <= week,
        week <= day,
    ensures
        forall|i: int|
            0 <= i < sales.len() && day <= #[trigger] sales[i].sale_time <= now ==> week
                <= sales[i].sale_time <= now,
        forall|i: int|
            0 <= i < sales.len() && week <= #[trigger] sales[i].sale_time <= now ==> month
                <= sales[i].sale_time <= now,
        revenue_in(sales, day, now) <= revenue_in(sales, week, now),
        revenue_in(sales, week, now) <= revenue_in(sales, month, now),
{
    assert forall|i: int| 0 <= i < sales.len() implies #[trigger] window_summand(day, now)(
        sales[i],
    ) <= #[trigger] window_summand(week, now)(sales[i]) by {}
    lemma_seq_sum_pointwise_le(sales, window_summand(day, now), window_summand(week, now));
    assert forall|i: int| 0 <= i < sales.len() implies #[trigger] window_summand(week, now)(
        sales[i],
    ) <= #[trigger] window_summand(month, now)(sales[i]) by {}
    lemma_seq_sum_pointwise_le(sales, window_summand(week, now), window_summand(month, now));
}

impl Store {
    /// Units sold and revenue earned for one product, from the
    /// snapshots in the line items.
    #[verifier::loop_isolation(false)]
    fn product_sums(&self, pid: i64) -> (r: Result<(u64, u64), StoreError>)
        ensures
            r is Ok <==> product_sums_fit(self@.sale_items, pid),
            r is Err ==> r == Err::<(u64, u64), StoreError>(StoreError::Overflow),
            r matches Ok((count, revenue)) ==> count as int == product_qty(self@.sale_items, pid)
                && revenue as int == product_revenue(self@.sale_items, pid),
    {
        let ghost items = self@.sale_items;
        proof {
            lemma_product_summands_nonneg(items, pid);
        }
        let mut count: u64 = 0;
        let mut revenue: u64 = 0;
        let mut i: usize = 0;
        while i < self.sale_items.len()
            invariant
                i <= items.len(),
                count as int == product_qty(items.take(i as int), pid),
                revenue as int == product_revenue(items.take(i as int), pid),
            decreases items.len() - i,
        {
            proof {
                lemma_seq_sum_take_step(items, product_qty_summand(pid), i as int);
                lemma_seq_sum_take_step(items, product_rev_summand(pid), i as int);
                lemma_seq_sum_prefix(items, product_qty_summand(pid), i + 1);
                lemma_seq_sum_prefix(items, product_rev_summand(pid), i + 1);
                lemma_mul_upper_bound_items(items, i as int);
            }
            let it = &self.sale_items[i];
            if it.product_id == pid {
                let qu = it.quantity as u64;
                if count > u64::MAX - qu {
                    return Err(StoreError::Overflow);
                }
                let line_rev: u128 = (it.price_cents as u128) * (it.quantity as u128);
                if line_rev > u64::MAX as u128 {
                    return Err(StoreError::Overflow);
                }
                if revenue > u64::MAX - (line_rev as u64) {
                    return Err(StoreError::Overflow);
                }
                count = count + qu;
                revenue = revenue + (line_rev as u64);
            }
            i = i + 1;
        }
        proof {
            assert(items.take(items.len() as int) =~= items);
        }
        Ok((count, revenue))
    }

    /// Per-product report over the whole catalog: every product
    /// appears, with zero figures where it never sold.
    #[verifier::loop_isolation(false)]
    pub fn get_product_performance(&self) -> (r: Result<Vec<ProductPerformance>, StoreError>)
        requires
            self.wf(),
        ensures
            r is Ok <==> forall|j: int|
                0 <= j < self@.products.len() ==> product_sums_fit(
                    self@.sale_items,
                    #[trigger] self@.products[j].id,
                ),
            r is Err ==> r == Err::<Vec<ProductPerformance>, StoreError>(StoreError::Overflow),
            r matches Ok(v) ==> {
                &&& v@.len() == self@.products.len()
                &&& forall|j: int|
                    0 <= j < v@.len() ==> {
                        let p = self@.products[j];
                        &&& (#[trigger] v@[j])@.id == p.id
                        &&& v@[j]@.name == p.name
                        &&& v@[j]@.stock == p.stock
                        &&& v@[j]@.sales_count as int == product_qty(self@.sale_items, p.id)
                        &&& v@[j]@.revenue_cents as int == product_revenue(self@.sale_items, p.id)
                    }
            },
    {
        let mut v: Vec<ProductPerformance> = Vec::new();
        let mut j: usize = 0;
        while j < self.products.len()
            invariant
                j <= self@.products.len(),
                v@.len() == j,
                forall|k: int|
                    0 <= k < j ==> product_sums_fit(
                        self@.sale_items,
                        #[trigger] self@.products[k].id,
                    ),
                forall|k: int|
                    0 <= k < j ==> {
                        let p = self@.products[k];
                        &&& (#[trigger] v@[k])@.id == p.id
                        &&& v@[k]@.name == p.name
                        &&& v@[k]@.stock == p.stock
                        &&& v@[k]@.sales_count as int == product_qty(self@.sale_items, p.id)
                        &&& v@[k]@.revenue_cents as int == product_revenue(self@.sale_items, p.id)
                    },
            decreases self@.products.len() - j,
        {
            let p = &self.products[j];
            match self.product_sums(p.id) {
                Err(_) => {
                    proof {
                        assert(!product_sums_fit(self@.sale_items, self@.products[j as int].id));
                    }
                    return Err(StoreError::Overflow);
                },
                Ok((count, revenue)) => {
                    v.push(
                        ProductPerformance {
                            id: p.id,
                            name: p.name.clone(),
                            sales_count: count,
                            revenue_cents: revenue,
                            stock: p.stock,
                        },
                    );
                },
            }
            j = j + 1;
        }
        Ok(v)
    }

    /// The same report, kept to products with stock under five.
    #[verifier::loop_isolation(false)]
    pub fn get_low_stock_products(&self) -> (r: Result<Vec<ProductPerformance>, StoreError>)
        requires
            self.wf(),
        ensures
            r is Ok <==> forall|j: int|
                0 <= j < low_stock(self@.products).len() ==> product_sums_fit(
                    self@.sale_items,
                    #[trigger] low_stock(self@.products)[j].id,
                ),
            r is Err ==> r == Err::<Vec<ProductPerformance>, StoreError>(StoreError::Overflow),
            r matches Ok(v) ==> {
                &&& v@.len() == low_stock(self@.products).len()
                &&& forall|j: int|
                    0 <= j < v@.len() ==> {
                        let p = low_stock(self@.products)[j];
                        &&& (#[trigger] v@[j])@.id == p.id
                        &&& v@[j]@.name == p.name
                        &&& v@[j]@.stock == p.stock
                        &&& v@[j]@.sales_count as int == product_qty(self@.sale_items, p.id)
                        &&& v@[j]@.revenue_cents as int == product_revenue(self@.sale_items, p.id)
                    }
            },
    {
        let ghost ps = self@.products;
        let mut v: Vec<ProductPerformance> = Vec::new();
        let mut j: usize = 0;
        while j < self.products.len()
            invariant
                j <= ps.len(),
                v@.len() == low_stock(ps.take(j as int)).len(),
                forall|k: int|
                    0 <= k < low_stock(ps.take(j as int)).len() ==> product_sums_fit(
                        self@.sale_items,
                        #[trigger] low_stock(ps.take(j as int))[k].id,
                    ),
                forall|k: int|
                    0 <= k < v@.len() ==> {
                        let p = low_stock(ps.take(j as int))[k];
                        &&& (#[trigger] v@[k])@.id == p.id
                        &&& v@[k]@.name == p.name
                        &&& v@[k]@.stock == p.stock
                        &&& v@[k]@.sales_count as int == product_qty(self@.sale_items, p.id)
                        &&& v@[k]@.revenue_cents as int == product_revenue(self@.sale_items, p.id)
                    },
            decreases ps.len() - j,
        {
            proof {
                assert(ps.take(j + 1).drop_last() =~= ps.take(j as int));
                assert(ps.take(j + 1).last() == ps[j as int]);
            }
            let p = &self.products[j];
            if p.stock < 5 {
                match self.product_sums(p.id) {
                    Err(_) => {
                        proof {
                            assert(ps[j as int].stock < 5);
                            assert(low_stock(ps.take(j + 1)) == low_stock(ps.take(j as int)).push(
                                ps[j as int],
                            ));
                            lemma_low_stock_prefix(ps, j + 1);
                            let m = low_stock(ps.take(j + 1)).len() - 1;
                            assert(low_stock(ps.take(j + 1))[m] == ps[j as int]);
                            assert(low_stock(ps)[m] == ps[j as int]);
                            assert(!product_sums_fit(
                                self@.sale_items,
                                low_stock(self@.products)[m].id,
                            ));
                        }
                        return Err(StoreError::Overflow);
                    },
                    Ok((count, revenue)) => {
                        v.push(
                            ProductPerformance {
                                id: p.id,
                                name: p.name.clone(),
                                sales_count: count,
                                revenue_cents: revenue,
                                stock: p.stock,
                            },
                        );
                    },
                }
            }
            j = j + 1;
        }
        proof {
            assert(ps.take(ps.len() as int) =~= ps);
        }
        Ok(v)
    }

    /// Revenue over one closed window of time.
    #[verifier::loop_isolation(false)]
    fn window_revenue(&self, lo: u64, hi: u64) -> (r: Result<u64, StoreError>)
        ensures
            r is Ok <==> revenue_in(self@.sales, lo, hi) <= u64::MAX as int,
            r is Err ==> r == Err::<u64, StoreError>(StoreError::Overflow),
            r matches Ok(total) ==> total as int == revenue_in(self@.sales, lo, hi),
    {
        let ghost sales = self@.sales;
        let mut total: u64 = 0;
        let mut i: usize = 0;
        while i < self.sales.len()
            invariant
                i <= sales.len(),
                total as int == revenue_in(sales.take(i as int), lo, hi),
            decreases sales.len() - i,
        {
            proof {
                lemma_seq_sum_take_step(sales, window_summand(lo, hi), i as int);
                lemma_seq_sum_prefix(sales, window_summand(lo, hi), i + 1);
            }
            let s = &self.sales[i];
            if lo <= s.sale_time && s.sale_time <= hi {
                if total > u64::MAX - s.total_paid_cents {
                    return Err(StoreError::Overflow);
                }
                total = total + s.total_paid_cents;
            }
            i = i + 1;
        }
        proof {
            assert(sales.take(sales.len() as int) =~= sales);
        }
        Ok(total)
    }

    /// The three rolling sums: sales of the day, of the last week and
    /// of the last month, each window closed at `now`.
    pub fn get_revenue_overview(&self, now: u64, day_start: u64, week_start: u64, month_start: u64)
        -> (r: Result<RevenueOverview, StoreError>)
        ensures
            r is Ok <==> revenue_in(self@.sales, day_start, now) <= u64::MAX as int && revenue_in(
                self@.sales,
                week_start,
                now,
            ) <= u64::MAX as int && revenue_in(self@.sales, month_start, now) <= u64::MAX as int,
            r is Err ==> r == Err::<RevenueOverview, StoreError>(StoreError::Overflow),
            r matches Ok(v) ==> v.daily_cents as int == revenue_in(self@.sales, day_start, now)
                && v.weekly_cents as int == revenue_in(self@.sales, week_start, now)
                && v.monthly_cents as int == revenue_in(self@.sales, month_start, now),
    {
        let daily_cents = match self.window_revenue(day_start, now) {
            Ok(t) => t,
            Err(_) => {
                return Err(StoreError::Overflow);
            },
        };
        let weekly_cents = match self.window_revenue(week_start, now) {
            Ok(t) => t,
            Err(_) => {
                return Err(StoreError::Overflow);
            },
        };
        let monthly_cents = match self.window_revenue(month_start, now) {
            Ok(t) => t,
            Err(_) => {
                return Err(StoreError::Overflow);
            },
        };
        Ok(RevenueOverview { daily_cents, weekly_cents, monthly_cents })
    }
}

/// A term of the revenue sum stays within one multiplication of the
/// column bounds.
proof fn lemma_mul_upper_bound_items(items: Seq<LineItemV>, i: int)
    requires
        0 <= i < items.len(),
    ensures
        (items[i].price_cents as int) * (items[i].quantity as int) <= (u64::MAX as int) * (
        u32::MAX as int),
{
    vstd::arithmetic::mul::lemma_mul_upper_bound(
        items[i].price_cents as int,
        u64::MAX as int,
        items[i].quantity as int,
        u32::MAX as int,
    );
}

/// Extending the catalog by one product extends its low-stock rows by
/// that product exactly when its stock is low.
proof fn lemma_low_stock_prefix(ps: Seq<ProductV>, j: int)
    requires
        0 <= j <= ps.len(),
    ensures
        low_stock(ps.take(j)).len() <= low_stock(ps).len(),
        forall|k: int|
            0 <= k < low_stock(ps.take(j)).len() ==> #[trigger] low_stock(ps.take(j))[k]
                == low_stock(ps)[k],
    decreases ps.len() - j,
{
    if j == ps.len() {
        assert(ps.take(j) =~= ps);
    } else {
        lemma_low_stock_prefix(ps, j + 1);
        assert(ps.take(j + 1).drop_last() =~= ps.take(j));
        assert(ps.take(j + 1).last() == ps[j]);
        let a = low_stock(ps.take(j));
        let b = low_stock(ps.take(j + 1));
        assert(b == if ps[j].stock < 5 {
            a.push(ps[j])
        } else {
            a
        });
        assert forall|k: int| 0 <= k < a.len() implies #[trigger] low_stock(ps.take(j))[k]
            == low_stock(ps)[k] by {
            assert(a[k] == b[k]);
            assert(b[k] == low_stock(ps)[k]);
        }
    }
}

/// One row of the transactions list: a sale annotated with the names
/// of the products sold in it.  A deleted product contributes no
/// name.
pub struct SalesTransaction {
    pub id: i64,
    pub date: u64,
    pub total_paid_cents: u64,
    pub items: Vec<String>,
}

/// Model of a transactions-list row.
pub struct TransactionV {
    pub id: i64,
    pub date: u64,
    pub total_paid_cents: u64,
    pub items: Seq<Seq<char>>,
}

impl View for SalesTransaction {
    type V = TransactionV;

    open spec fn view(&self) -> TransactionV {
        TransactionV {
            id: self.id,
            date: self.date,
            total_paid_cents: self.total_paid_cents,
            items: string_views(self.items@),
        }
    }
}

/// The views of a sequence of strings.
pub open spec fn string_views(v: Seq<String>) -> Seq<Seq<char>> {
    v.map_values(|n: String| n@)
}

/// The views of a sequence of transaction rows.
pub open spec fn txn_views(v: Seq<SalesTransaction>) -> Seq<TransactionV> {
    v.map_values(|t: SalesTransaction| t@)
}

/// Name of the catalog product carrying `pid`; meaningful only where
/// the catalog has it, and single-valued there because ids key the
/// catalog uniquely.
pub open spec fn product_name(products: Seq<ProductV>, pid: i64) -> Seq<char> {
    let j = choose|j: int| 0 <= j < products.len() && products[j].id == pid;
    products[j].name
}

/// The product names sold in sale `sid`, in line-item order, skipping
/// line items whose product has left the catalog.
pub open spec fn sale_names(products: Seq<ProductV>, items: Seq<LineItemV>, sid: i64) -> Seq<
    Seq<char>,
>
    decreases items.len(),
{
    if items.len() == 0 {
        Seq::empty()
    } else {
        let rest = sale_names(products, items.drop_last(), sid);
        let it = items.last();
        if it.sale_id == sid && has_product(products, it.product_id) {
            rest.push(product_name(products, it.product_id))
        } else {
            rest
        }
    }
}

/// The transactions-list row of one sale.
pub open spec fn txn_of(s: StoreV, sale: SaleV) -> TransactionV {
    TransactionV {
        id: sale.id,
        date: sale.sale_time,
        total_paid_cents: sale.total_paid_cents,
        items: sale_names(s.products, s.sale_items, sale.id),
    }
}

/// The rows of every sale, in storage order.
pub open spec fn txns_of(s: StoreV) -> Seq<TransactionV> {
    s.sales.map_values(|sale: SaleV| txn_of(s, sale))
}

/// Rows ordered newest first by timestamp.
pub open spec fn sorted_newest_first(ts: Seq<TransactionV>) -> bool {
    forall|a: int, b: int|
        0 <= a <= b < ts.len() ==> #[trigger] ts[a].date >= #[trigger] ts[b].date
}

impl Store {
    /// All sales, newest first, each with the names of the products
    /// sold in it: the same rows as the history holds, reordered.
    #[verifier::loop_isolation(false)]
    pub fn get_sales_transactions(&self) -> (r: Vec<SalesTransaction>)
        requires
            self.wf(),
        ensures
            sorted_newest_first(txn_views(r@)),
            txn_views(r@).to_multiset() == txns_of(self@).to_multiset(),
    {
        // Build one row per sale, in storage order.
        let mut work: Vec<SalesTransaction> = Vec::new();
        let mut k: usize = 0;
        while k < self.sales.len()
            invariant
                k <= self@.sales.len(),
                txn_views(work@) == txns_of(self@).take(k as int),
            decreases self@.sales.len() - k,
        {
            let ghost sid = self@.sales[k as int].id;
            let mut names: Vec<String> = Vec::new();
            let mut i: usize = 0;
            while i < self.sale_items.len()
                invariant
                    i <= self@.sale_items.len(),
                    k < self@.sales.len(),
                    sid == self@.sales[k as int].id,
                    string_views(names@) == sale_names(
                        self@.products,
                        self@.sale_items.take(i as int),
                        sid,
                    ),
                decreases self@.sale_items.len() - i,
            {
                proof {
                    assert(self@.sale_items.take(i + 1).drop_last() =~= self@.sale_items.take(
                        i as int,
                    ));
                    assert(self@.sale_items.take(i + 1).last() == self@.sale_items[i as int]);
                }
                let it_sale_id = self.sale_items[i].sale_id;
                let it_pid = self.sale_items[i].product_id;
                if it_sale_id == self.sales[k].id {
                    match self.find_product(it_pid) {
                        Some(j) => {
                            let nm = self.products[j].name.clone();
                            proof {
                                let ps = self@.products;
                                let c = choose|c: int|
                                    0 <= c < ps.len() && ps[c].id == it_pid;
                                assert(has_product(ps, it_pid));
                                assert(0 <= c < ps.len() && ps[c].id == it_pid);
                                assert(c == j as int);
                                assert(nm@ == product_name(ps, it_pid));
                            }
                            names.push(nm);
                            proof {
                                assert(string_views(names@) =~= sale_names(
                                    self@.products,
                                    self@.sale_items.take(i + 1),
                                    sid,
                                ));
                            }
                        },
                        None => {
                            proof {
                                assert(string_views(names@) =~= sale_names(
                                    self@.products,
                                    self@.sale_items.take(i + 1),
                                    sid,
                                ));
                            }
                        },
                    }
                } else {
                    proof {
                        assert(string_views(names@) =~= sale_names(
                            self@.products,
                            self@.sale_items.take(i + 1),
                            sid,
                        ));
                    }
                }
                i = i + 1;
            }
            proof {
                assert(self@.sale_items.take(self@.sale_items.len() as int) =~= self@.sale_items);
            }
            let row = SalesTransaction {
                id: self.sales[k].id,
                date: self.sales[k].sale_time,
                total_paid_cents: self.sales[k].total_paid_cents,
                items: names,
            };
            proof {
                assert(row@ == txn_of(self@, self@.sales[k as int]));
            }
            work.push(row);
            proof {
                assert(txn_views(work@) =~= txns_of(self@).take(k + 1));
            }
            k = k + 1;
        }
        proof {
            assert(txns_of(self@).take(self@.sales.len() as int) =~= txns_of(self@));
        }
        // Reorder newest first: repeatedly move the latest remaining
        // row to the output.
        let ghost all = txns_of(self@);
        let mut out: Vec<SalesTransaction> = Vec::new();
        proof {
            broadcast use vstd::seq_lib::group_to_multiset_ensures;

            assert(txn_views(out@) =~= Seq::<TransactionV>::empty());
            assert(txn_views(out@).to_multiset() =~= Multiset::<TransactionV>::empty());
            assert(txn_views(out@).to_multiset().add(txn_views(work@).to_multiset())
                =~= all.to_multiset());
        }
        while work.len() > 0
            invariant
                txn_views(out@).to_multiset().add(txn_views(work@).to_multiset())
                    == all.to_multiset(),
                sorted_newest_first(txn_views(out@)),
                forall|a: int, b: int|
                    0 <= a < out@.len() && 0 <= b < work@.len() ==> #[trigger] txn_views(out@)[a].date
                        >= #[trigger] txn_views(work@)[b].date,
            decreases work@.len(),
        {
            let mut m: usize = 0;
            let mut idx: usize = 1;
            while idx < work.len()
                invariant
                    m < work@.len(),
                    idx <= work@.len(),
                    forall|t: int|
                        0 <= t < idx ==> txn_views(work@)[m as int].date >= #[trigger] txn_views(
                            work@,
                        )[t].date,
                decreases work@.len() - idx,
            {
                if work[idx].date > work[m].date {
                    m = idx;
                }
                idx = idx + 1;
            }
            let ghost prev_work = txn_views(work@);
            let ghost prev_out = txn_views(out@);
            let row = work.remove(m);
            let ghost rv = row@;
            out.push(row);
            proof {
                broadcast use vstd::seq_lib::group_to_multiset_ensures;
                assert(rv == prev_work[m as int]);
                assert(txn_views(work@) =~= prev_work.remove(m as int));
                assert(txn_views(out@) =~= prev_out.push(rv));
                assert(prev_work.contains(prev_work[m as int]));
                assert(prev_work.to_multiset().count(rv) > 0);
                assert(txn_views(out@).to_multiset().add(txn_views(work@).to_multiset())
                    =~= prev_out.to_multiset().add(prev_work.to_multiset()));
                assert forall|a: int, b: int|
                    0 <= a <= b < txn_views(out@).len() implies #[trigger] txn_views(out@)[a].date
                    >= #[trigger] txn_views(out@)[b].date by {
                    if b == txn_views(out@).len() - 1 {
                        if a < b {
                            assert(txn_views(out@)[a] == prev_out[a]);
                        }
                        assert(txn_views(out@)[b] == rv);
                    }
                }
                assert forall|a: int, b: int|
                    0 <= a < out@.len() && 0 <= b < work@.len() implies #[trigger] txn_views(
                    out@,
                )[a].date >= #[trigger] txn_views(work@)[b].date by {
                    let wb = txn_views(work@)[b];
                    let b2 = if b < m as int {
                        b
                    } else {
                        b + 1
                    };
                    assert(wb == prev_work[b2]);
                    assert(rv.date >= prev_work[b2].date);
                    if a < out@.len() - 1 {
                        assert(txn_views(out@)[a] == prev_out[a]);
                    } else {
                        assert(txn_views(out@)[a] == rv);
                    }
                }
            }
        }
        proof {
            broadcast use vstd::seq_lib::group_to_multiset_ensures;
            assert(txn_views(work@) =~= Seq::<TransactionV>::empty());
            assert(txn_views(work@).to_multiset() =~= Multiset::<TransactionV>::empty());
            assert(txn_views(out@).to_multiset() =~= txn_views(out@).to_multiset().add(
                Multiset::<TransactionV>::empty(),
            ));
        }
        out
    }
}

} // verus!
