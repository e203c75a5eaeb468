//! Regional market escrow: station freight tariffs, escrow holdings for resting orders, and
//! settlement of matched trades with station sales tax and buyer refunds.
use vstd::prelude::*;

use crate::slots::{count_some, first_index, lemma_first_index, lemma_first_index_is, lemma_first_index_none};

verus! {

/// Maximum escrow holdings per coordinator.
pub const MAX_ESCROW_ORDERS: usize = 256;

/// Sales tax applied at stations that are not registered, in basis points.
pub const DEFAULT_SALES_TAX_BPS: u64 = 100;

/// `a * b` saturating at `u64::MAX`.
pub open spec fn sat_mul(a: u64, b: u64) -> u64 {
    if a * b > u64::MAX {
        u64::MAX
    } else {
        (a * b) as u64
    }
}

/// `a - b` saturating at 0.
pub open spec fn sat_sub(a: u64, b: u64) -> u64 {
    if a < b {
        0
    } else {
        (a - b) as u64
    }
}

/// `a + b` saturating at `u64::MAX`.
pub open spec fn sat_add(a: u64, b: u64) -> u64 {
    if a + b > u64::MAX {
        u64::MAX
    } else {
        (a + b) as u64
    }
}

fn saturating_mul_u64(a: u64, b: u64) -> (r: u64)
    ensures
        r == sat_mul(a, b),
{
    match a.checked_mul(b) {
        Some(v) => v,
        None => u64::MAX,
    }
}

/// Regional station with its location and tariffs.
#[derive(Debug, Clone, Copy, PartialEq, Eq, Structural)]
pub struct MarketStation {
    /// Station identifier.
    pub station_id: u32,
    /// Sector X on the continental grid.
    pub sector_x: i32,
    /// Sector Z on the continental grid.
    pub sector_z: i32,
    /// Sales tax in basis points.
    pub sales_tax_bps: u16,
    /// Freight tariff per sector of distance.
    pub freight_per_sector: u64,
}

/// `|a - b|`.
pub open spec fn abs_diff(a: i32, b: i32) -> int {
    if a >= b {
        a - b
    } else {
        b - a
    }
}

/// Manhattan distance in sectors between two stations, saturating at `u32::MAX`.
pub open spec fn station_distance(a: MarketStation, b: MarketStation) -> u32 {
    let d = abs_diff(a.sector_x, b.sector_x) + abs_diff(a.sector_z, b.sector_z);
    if d > u32::MAX {
        u32::MAX
    } else {
        d as u32
    }
}

fn abs_diff_u32(a: i32, b: i32) -> (d: u32)
    ensures
        d == abs_diff(a, b),
{
    let diff = (a as i64) - (b as i64);
    if diff < 0 {
        (-diff) as u32
    } else {
        diff as u32
    }
}

impl MarketStation {
    /// A station definition.
    pub fn new(
        station_id: u32,
        sector_x: i32,
        sector_z: i32,
        sales_tax_bps: u16,
        freight_per_sector: u64,
    ) -> (s: Self)
        ensures
            s == (MarketStation { station_id, sector_x, sector_z, sales_tax_bps, freight_per_sector }),
    {
        MarketStation { station_id, sector_x, sector_z, sales_tax_bps, freight_per_sector }
    }

    /// Manhattan distance in sectors to `other`.
    pub fn sector_distance_to(&self, other: &MarketStation) -> (d: u32)
        requires
            i32::MIN <= self.sector_x - other.sector_x <= i32::MAX,
            i32::MIN <= self.sector_z - other.sector_z <= i32::MAX,
        ensures
            d == station_distance(*self, *other),
    {
        let dx = abs_diff_u32(self.sector_x, other.sector_x);
        let dz = abs_diff_u32(self.sector_z, other.sector_z);
        dx.saturating_add(dz)
    }

    /// Freight fee for `quantity` units shipped to `destination`: distance times tariff times
    /// quantity, saturating.
    pub fn calculate_freight_fee(&self, destination: &MarketStation, quantity: u32) -> (f: u64)
        requires
            i32::MIN <= self.sector_x - destination.sector_x <= i32::MAX,
            i32::MIN <= self.sector_z - destination.sector_z <= i32::MAX,
        ensures
            f == sat_mul(
                sat_mul(station_distance(*self, *destination) as u64, self.freight_per_sector),
                quantity as u64,
            ),
    {
        let dist = self.sector_distance_to(destination);
        saturating_mul_u64(saturating_mul_u64(dist as u64, self.freight_per_sector), quantity as u64)
    }
}

/// Escrow held for a resting order.
#[derive(Debug, Clone, Copy, PartialEq, Eq, Structural)]
pub struct EscrowHolding {
    /// Order the holding backs.
    pub order_id: u64,
    /// Trader who placed the order.
    pub account_id: u64,
    /// Currency is locked (buy order) rather than items (sell order).
    pub is_currency: bool,
    /// Locked currency of a buy order.
    pub locked_currency: u64,
    /// Locked item or commodity type of a sell order.
    pub locked_item_id: u64,
    /// Locked quantity of a sell order.
    pub locked_quantity: u32,
    /// Station where the order was placed.
    pub station_id: u32,
}

/// Escrow errors.
#[derive(Debug, Clone, Copy, PartialEq, Eq, Structural)]
pub enum EscrowError {
    /// No room for another holding.
    EscrowCapacityExceeded,
    /// No holding for the order.
    EscrowNotFound,
    /// The wallet cannot fund a buy order.
    InsufficientFunds,
    /// The inventory cannot fund a sell order.
    InsufficientItems,
    /// The holding belongs to another account.
    UnauthorizedAccount,
}

/// A matched trade between a buy and a sell order.
#[derive(Debug, Clone, Copy, PartialEq, Eq, Structural)]
pub struct TradeExecution {
    /// Trade identifier.
    pub trade_id: u64,
    /// Buy order matched.
    pub buy_order_id: u64,
    /// Sell order matched.
    pub sell_order_id: u64,
    /// Buyer account.
    pub buyer_account_id: u64,
    /// Seller account.
    pub seller_account_id: u64,
    /// Item type traded.
    pub item_type_id: u32,
    /// Units traded.
    pub quantity: u32,
    /// Execution price per unit.
    pub unit_price: u64,
    /// Total execution price.
    pub total_price: u64,
    /// Station where the trade executed.
    pub station_id: u32,
    /// Tick of execution.
    pub tick: u64,
}

/// Slot predicate: a station with identifier `id`.
pub open spec fn station_with_id(id: u32) -> spec_fn(Option<MarketStation>) -> bool {
    |s: Option<MarketStation>| s matches Some(st) && st.station_id == id
}

/// Slot predicate: the slot is free.
pub open spec fn vacant<T>() -> spec_fn(Option<T>) -> bool {
    |s: Option<T>| s is None
}

/// Slot predicate: a holding for order `id`.
pub open spec fn holding_for(id: u64) -> spec_fn(Option<EscrowHolding>) -> bool {
    |s: Option<EscrowHolding>| s matches Some(h) && h.order_id == id
}

/// Slot predicate: the currency holding of buy order `id`.
pub open spec fn buyer_holding(id: u64) -> spec_fn(Option<EscrowHolding>) -> bool {
    |s: Option<EscrowHolding>| s matches Some(h) && h.order_id == id && h.is_currency
}

/// Slot predicate: the item holding of sell order `id`.
pub open spec fn seller_holding(id: u64) -> spec_fn(Option<EscrowHolding>) -> bool {
    |s: Option<EscrowHolding>| s matches Some(h) && h.order_id == id && !h.is_currency
}

/// Tax rate of the station where `trade` executed: its registered rate, else the default.
pub open spec fn trade_tax_bps(stations: Seq<Option<MarketStation>>, station_id: u32) -> u64 {
    let k = first_index(stations, station_with_id(station_id));
    if k >= 0 {
        stations[k]->0.sales_tax_bps as u64
    } else {
        DEFAULT_SALES_TAX_BPS
    }
}

/// Holdings after the buyer's escrow pays for `trade` at `limit` per unit; a holding drained
/// to zero is released.
pub open spec fn after_buyer_payment(h: Seq<Option<EscrowHolding>>, trade: TradeExecution, limit: u64) -> Seq<
    Option<EscrowHolding>,
> {
    let k = first_index(h, buyer_holding(trade.buy_order_id));
    if k < 0 {
        h
    } else {
        let old = h[k]->0;
        let left = sat_sub(old.locked_currency, sat_mul(trade.quantity as u64, limit));
        h.update(k, if left == 0 { None } else { Some(EscrowHolding { locked_currency: left, ..old }) })
    }
}

/// Holdings after the seller's escrow delivers `trade`; a holding drained to zero is released.
pub open spec fn after_seller_delivery(h: Seq<Option<EscrowHolding>>, trade: TradeExecution) -> Seq<
    Option<EscrowHolding>,
> {
    let k = first_index(h, seller_holding(trade.sell_order_id));
    if k < 0 {
        h
    } else {
        let old = h[k]->0;
        let left: u32 = if old.locked_quantity < trade.quantity {
            0
        } else {
            (old.locked_quantity - trade.quantity) as u32
        };
        h.update(k, if left == 0 { None } else { Some(EscrowHolding { locked_quantity: left, ..old }) })
    }
}

/// Regional market coordinator: stations, escrow holdings and settlement totals.
pub struct MarketEscrowCoordinator {
    stations: [Option<MarketStation>; 16],
    station_count: usize,
    holdings: [Option<EscrowHolding>; 256],
    holding_count: usize,
    /// Sales tax collected.
    pub total_tax_revenue: u64,
    /// Trade volume settled.
    pub total_volume_settled: u64,
}

impl MarketEscrowCoordinator {
    /// Station slots.
    pub closed spec fn spec_stations(&self) -> Seq<Option<MarketStation>> {
        self.stations@
    }

    /// Holding slots.
    pub closed spec fn spec_holdings(&self) -> Seq<Option<EscrowHolding>> {
        self.holdings@
    }

    /// Sales tax collected.
    pub closed spec fn spec_tax_revenue(&self) -> u64 {
        self.total_tax_revenue
    }

    /// Trade volume settled.
    pub closed spec fn spec_volume_settled(&self) -> u64 {
        self.total_volume_settled
    }

    /// Number of registered stations.
    pub closed spec fn spec_station_count(&self) -> usize {
        self.station_count
    }

    /// Number of active holdings.
    pub closed spec fn spec_holding_count(&self) -> usize {
        self.holding_count
    }

    /// The counters match the occupied slots.
    pub open spec fn wf(&self) -> bool {
        &&& self.spec_station_count() == count_some(self.spec_stations())
        &&& self.spec_holding_count() == count_some(self.spec_holdings())
    }

    /// No stations, no holdings, zero totals.
    pub fn new() -> (c: Self)
        ensures
            c.wf(),
            c.spec_stations() == Seq::new(16, |i: int| None::<MarketStation>),
            c.spec_holdings() == Seq::new(256, |i: int| None::<EscrowHolding>),
            c.spec_tax_revenue() == 0,
            c.spec_volume_settled() == 0,
    {
        let c = MarketEscrowCoordinator {
            stations: [None; 16],
            station_count: 0,
            holdings: [None; 256],
            holding_count: 0,
            total_tax_revenue: 0,
            total_volume_settled: 0,
        };
        assert(c.stations@ =~= Seq::new(16, |i: int| None::<MarketStation>));
        assert(c.holdings@ =~= Seq::new(256, |i: int| None::<EscrowHolding>));
        proof {
            crate::slots::lemma_count_some_bound(c.stations@);
            crate::slots::lemma_count_some_bound(c.holdings@);
        }
        c
    }

    /// Number of active holdings.
    pub fn holding_count(&self) -> (n: usize)
        ensures
            n == self.spec_holding_count(),
    {
        self.holding_count
    }

    /// Registers a station in the first free slot; with all 16 slots used it returns false.
    #[verifier::loop_isolation(false)]
    pub fn register_station(&mut self, station: MarketStation) -> (ok: bool)
        requires
            old(self).wf(),
        ensures
            final(self).wf(),
            final(self).spec_holdings() == old(self).spec_holdings(),
            final(self).spec_tax_revenue() == old(self).spec_tax_revenue(),
            final(self).spec_volume_settled() == old(self).spec_volume_settled(),
            ({
                let f = first_index(old(self).spec_stations(), vacant::<MarketStation>());
                if f >= 0 {
                    ok && final(self).spec_stations() == old(self).spec_stations().update(f, Some(station))
                } else {
                    !ok && final(self).spec_stations() == old(self).spec_stations()
                }
            }),
    {
        let ghost s = self.stations@;
        let ghost q = vacant::<MarketStation>();
        proof {
            crate::slots::lemma_count_some_bound(s);
            if self.station_count >= 16 {
                lemma_first_index(s, q);
                if first_index(s, q) >= 0 {
                    assert(s[first_index(s, q)] is None);
                }
            }
        }
        if self.station_count >= 16 {
            return false;
        }
        let mut i: usize = 0;
        while i < 16
            invariant
                i <= 16,
                s == self.stations@,
                *self == *old(self),
                q == vacant::<MarketStation>(),
                forall|j: int| 0 <= j < i ==> !q(#[trigger] s[j]),
            decreases 16 - i,
        {
            if self.stations[i].is_none() {
                proof {
                    lemma_first_index_is(s, q, i as int);
                    crate::slots::lemma_count_some_update(s, i as int, Some(station));
                }
                self.stations[i] = Some(station);
                self.station_count = self.station_count + 1;
                return true;
            }
            i = i + 1;
        }
        proof {
            lemma_first_index_none(s, q);
        }
        false
    }

    /// The first registered station with identifier `station_id`.
    pub fn get_station(&self, station_id: u32) -> (r: Option<&MarketStation>)
        ensures
            ({
                let k = first_index(self.spec_stations(), station_with_id(station_id));
                if k >= 0 {
                    r == Some(&self.spec_stations()[k]->0)
                } else {
                    r is None
                }
            }),
    {
        let ghost s = self.stations@;
        let ghost p = station_with_id(station_id);
        let mut i: usize = 0;
        while i < 16
            invariant
                i <= 16,
                s == self.stations@,
                p == station_with_id(station_id),
                forall|j: int| 0 <= j < i ==> !p(#[trigger] s[j]),
            decreases 16 - i,
        {
            if let Some(st) = &self.stations[i] {
                if st.station_id == station_id {
                    proof {
                        lemma_first_index_is(s, p, i as int);
                    }
                    return Some(st);
                }
            }
            i = i + 1;
        }
        proof {
            lemma_first_index_none(s, p);
        }
        None
    }

    /// Stores `holding` in the first free slot; with all slots used it is
    /// `EscrowCapacityExceeded`.
    #[verifier::loop_isolation(false)]
    fn lock_holding(&mut self, holding: EscrowHolding) -> (r: Result<(), EscrowError>)
        requires
            old(self).wf(),
        ensures
            final(self).wf(),
            final(self).spec_stations() == old(self).spec_stations(),
            final(self).spec_tax_revenue() == old(self).spec_tax_revenue(),
            final(self).spec_volume_settled() == old(self).spec_volume_settled(),
            ({
                let f = first_index(old(self).spec_holdings(), vacant::<EscrowHolding>());
                if f >= 0 {
                    r is Ok && final(self).spec_holdings() == old(self).spec_holdings().update(
                        f,
                        Some(holding),
                    )
                } else {
                    r == Err::<(), EscrowError>(EscrowError::EscrowCapacityExceeded)
                        && final(self).spec_holdings() == old(self).spec_holdings()
                }
            }),
    {
        let ghost s = self.holdings@;
        let ghost q = vacant::<EscrowHolding>();
        proof {
            crate::slots::lemma_count_some_bound(s);
            if self.holding_count >= 256 {
                lemma_first_index(s, q);
                if first_index(s, q) >= 0 {
                    assert(s[first_index(s, q)] is None);
                }
            }
        }
        if self.holding_count >= MAX_ESCROW_ORDERS {
            return Err(EscrowError::EscrowCapacityExceeded);
        }
        let mut i: usize = 0;
        while i < 256
            invariant
                i <= 256,
                s == self.holdings@,
                *self == *old(self),
                q == vacant::<EscrowHolding>(),
                forall|j: int| 0 <= j < i ==> !q(#[trigger] s[j]),
            decreases 256 - i,
        {
            if self.holdings[i].is_none() {
                proof {
                    lemma_first_index_is(s, q, i as int);
                    crate::slots::lemma_count_some_update(s, i as int, Some(holding));
                }
                self.holdings[i] = Some(holding);
                self.holding_count = self.holding_count + 1;
                return Ok(());
            }
            i = i + 1;
        }
        proof {
            lemma_first_index_none(s, q);
        }
        Err(EscrowError::EscrowCapacityExceeded)
    }

    /// Locks `total_escrow_currency` for buy order `order_id` in the first free slot; with all
    /// slots used it is `EscrowCapacityExceeded`.
    pub fn lock_buy_escrow(
        &mut self,
        order_id: u64,
        account_id: u64,
        total_escrow_currency: u64,
        station_id: u32,
    ) -> (r: Result<(), EscrowError>)
        requires
            old(self).wf(),
        ensures
            final(self).wf(),
            final(self).spec_stations() == old(self).spec_stations(),
            final(self).spec_tax_revenue() == old(self).spec_tax_revenue(),
            final(self).spec_volume_settled() == old(self).spec_volume_settled(),
            ({
                let f = first_index(old(self).spec_holdings(), vacant::<EscrowHolding>());
                let h = EscrowHolding {
                    order_id,
                    account_id,
                    is_currency: true,
                    locked_currency: total_escrow_currency,
                    locked_item_id: 0,
                    locked_quantity: 0,
                    station_id,
                };
                &&& (f >= 0 <==> old(self).spec_holding_count() < 256)
                &&& if f >= 0 {
                    &&& r is Ok
                    &&& final(self).spec_holdings() == old(self).spec_holdings().update(f, Some(h))
                    &&& final(self).spec_holding_count() == old(self).spec_holding_count() + 1
                } else {
                    &&& r == Err::<(), EscrowError>(EscrowError::EscrowCapacityExceeded)
                    &&& final(self).spec_holdings() == old(self).spec_holdings()
                    &&& final(self).spec_holding_count() == old(self).spec_holding_count()
                }
            }),
    {
        let h = EscrowHolding {
            order_id,
            account_id,
            is_currency: true,
            locked_currency: total_escrow_currency,
            locked_item_id: 0,
            locked_quantity: 0,
            station_id,
        };
        proof {
            let s = self.spec_holdings();
            let f = first_index(s, vacant::<EscrowHolding>());
            lemma_first_index(s, vacant::<EscrowHolding>());
            crate::slots::lemma_count_some_bound(s);
            if f >= 0 {
                crate::slots::lemma_count_some_update(s, f, Some(h));
            }
        }
        self.lock_holding(h)
    }

    /// Locks `quantity` of `item_id` for sell order `order_id` in the first free slot; with all
    /// slots used it is `EscrowCapacityExceeded`.
    pub fn lock_sell_escrow(
        &mut self,
        order_id: u64,
        account_id: u64,
        item_id: u64,
        quantity: u32,
        station_id: u32,
    ) -> (r: Result<(), EscrowError>)
        requires
            old(self).wf(),
        ensures
            final(self).wf(),
            final(self).spec_stations() == old(self).spec_stations(),
            final(self).spec_tax_revenue() == old(self).spec_tax_revenue(),
            final(self).spec_volume_settled() == old(self).spec_volume_settled(),
            ({
                let f = first_index(old(self).spec_holdings(), vacant::<EscrowHolding>());
                let h = EscrowHolding {
                    order_id,
                    account_id,
                    is_currency: false,
                    locked_currency: 0,
                    locked_item_id: item_id,
                    locked_quantity: quantity,
                    station_id,
                };
                &&& (f >= 0 <==> old(self).spec_holding_count() < 256)
                &&& if f >= 0 {
                    &&& r is Ok
                    &&& final(self).spec_holdings() == old(self).spec_holdings().update(f, Some(h))
                    &&& final(self).spec_holding_count() == old(self).spec_holding_count() + 1
                } else {
                    &&& r == Err::<(), EscrowError>(EscrowError::EscrowCapacityExceeded)
                    &&& final(self).spec_holdings() == old(self).spec_holdings()
                    &&& final(self).spec_holding_count() == old(self).spec_holding_count()
                }
            }),
    {
        let h = EscrowHolding {
            order_id,
            account_id,
            is_currency: false,
            locked_currency: 0,
            locked_item_id: item_id,
            locked_quantity: quantity,
            station_id,
        };
        proof {
            let s = self.spec_holdings();
            let f = first_index(s, vacant::<EscrowHolding>());
            lemma_first_index(s, vacant::<EscrowHolding>());
            crate::slots::lemma_count_some_bound(s);
            if f >= 0 {
                crate::slots::lemma_count_some_update(s, f, Some(h));
            }
        }
        self.lock_holding(h)
    }

    /// Releases the holding of `order_id` and returns it for refund; a holding of another
    /// account is `UnauthorizedAccount` and a missing one `EscrowNotFound`.
    #[verifier::loop_isolation(false)]
    pub fn cancel_and_refund_escrow(&mut self, order_id: u64, account_id: u64) -> (r: Result<
        EscrowHolding,
        EscrowError,
    >)
        requires
            old(self).wf(),
        ensures
            final(self).wf(),
            final(self).spec_stations() == old(self).spec_stations(),
            final(self).spec_tax_revenue() == old(self).spec_tax_revenue(),
            final(self).spec_volume_settled() == old(self).spec_volume_settled(),
            ({
                let h = old(self).spec_holdings();
                let k = first_index(h, holding_for(order_id));
                if k < 0 {
                    r == Err::<EscrowHolding, EscrowError>(EscrowError::EscrowNotFound)
                        && final(self).spec_holdings() == h
                        && final(self).spec_holding_count() == old(self).spec_holding_count()
                } else if h[k]->0.account_id != account_id {
                    r == Err::<EscrowHolding, EscrowError>(EscrowError::UnauthorizedAccount)
                        && final(self).spec_holdings() == h
                        && final(self).spec_holding_count() == old(self).spec_holding_count()
                } else {
                    r == Ok::<EscrowHolding, EscrowError>(h[k]->0) && final(self).spec_holdings()
                        == h.update(k, None) && final(self).spec_holding_count() == old(
                        self).spec_holding_count() - 1
                }
            }),
    {
        let ghost s = self.holdings@;
        let ghost p = holding_for(order_id);
        let mut i: usize = 0;
        while i < 256
            invariant
                i <= 256,
                s == self.holdings@,
                *self == *old(self),
                p == holding_for(order_id),
                forall|j: int| 0 <= j < i ==> !p(#[trigger] s[j]),
            decreases 256 - i,
        {
            if let Some(holding) = self.holdings[i] {
                if holding.order_id == order_id {
                    proof {
                        lemma_first_index_is(s, p, i as int);
                    }
                    if holding.account_id != account_id {
                        return Err(EscrowError::UnauthorizedAccount);
                    }
                    proof {
                        crate::slots::lemma_count_some_update(s, i as int, None);
                    }
                    self.holdings[i] = None;
                    self.holding_count = self.holding_count - 1;
                    return Ok(holding);
                }
            }
            i = i + 1;
        }
        proof {
            lemma_first_index_none(s, p);
        }
        Err(EscrowError::EscrowNotFound)
    }

    /// Settles a matched trade. Tax is the station's rate (the default rate at an unregistered
    /// station) applied to the total price; the seller receives the total minus tax; the buyer
    /// is refunded the difference between the limit and execution unit prices per unit. The
    /// buyer's currency escrow pays quantity times limit, the seller's item escrow delivers the
    /// quantity, and drained holdings are released. Returns `(seller payout, tax, buyer refund)`.
    pub fn settle_trade(&mut self, trade: &TradeExecution, buyer_limit_price: u64) -> (r: Result<
        (u64, u64, u64),
        EscrowError,
    >)
        requires
            old(self).wf(),
        ensures
            final(self).wf(),
            final(self).spec_stations() == old(self).spec_stations(),
            ({
                let bps = trade_tax_bps(old(self).spec_stations(), trade.station_id);
                let tax = sat_mul(trade.total_price, bps) / 10_000;
                &&& r == Ok::<(u64, u64, u64), EscrowError>(
                    (
                        sat_sub(trade.total_price, tax),
                        tax,
                        sat_mul(trade.quantity as u64, sat_sub(buyer_limit_price, trade.unit_price)),
                    ),
                )
                &&& final(self).spec_holdings() == after_seller_delivery(
                    after_buyer_payment(old(self).spec_holdings(), *trade, buyer_limit_price),
                    *trade,
                )
                &&& final(self).spec_tax_revenue() == sat_add(old(self).spec_tax_revenue(), tax)
                &&& final(self).spec_volume_settled() == sat_add(
                    old(self).spec_volume_settled(),
                    trade.total_price,
                )
            }),
    {
        let tax_bps: u64 = match self.get_station(trade.station_id) {
            Some(s) => s.sales_tax_bps as u64,
            None => DEFAULT_SALES_TAX_BPS,
        };
        let tax_collected = saturating_mul_u64(trade.total_price, tax_bps) / 10_000;
        let net_seller_payout = trade.total_price.saturating_sub(tax_collected);
        let buyer_unit_savings = buyer_limit_price.saturating_sub(trade.unit_price);
        let buyer_refund = saturating_mul_u64(trade.quantity as u64, buyer_unit_savings);
        self.pay_from_buyer(trade, buyer_limit_price);
        self.deliver_from_seller(trade);
        self.total_tax_revenue = self.total_tax_revenue.saturating_add(tax_collected);
        self.total_volume_settled = self.total_volume_settled.saturating_add(trade.total_price);
        Ok((net_seller_payout, tax_collected, buyer_refund))
    }

    #[verifier::loop_isolation(false)]
    fn pay_from_buyer(&mut self, trade: &TradeExecution, buyer_limit_price: u64)
        requires
            old(self).wf(),
        ensures
            final(self).wf(),
            final(self).spec_stations() == old(self).spec_stations(),
            final(self).spec_tax_revenue() == old(self).spec_tax_revenue(),
            final(self).spec_volume_settled() == old(self).spec_volume_settled(),
            final(self).spec_holdings() == after_buyer_payment(
                old(self).spec_holdings(),
                *trade,
                buyer_limit_price,
            ),
    {
        let ghost s = self.holdings@;
        let ghost p = buyer_holding(trade.buy_order_id);
        let mut i: usize = 0;
        while i < 256
            invariant
                i <= 256,
                s == self.holdings@,
                *self == *old(self),
                p == buyer_holding(trade.buy_order_id),
                forall|j: int| 0 <= j < i ==> !p(#[trigger] s[j]),
            decreases 256 - i,
        {
            if let Some(holding) = self.holdings[i] {
                if holding.order_id == trade.buy_order_id && holding.is_currency {
                    proof {
                        lemma_first_index_is(s, p, i as int);
                    }
                    let deduction = saturating_mul_u64(trade.quantity as u64, buyer_limit_price);
                    let left = holding.locked_currency.saturating_sub(deduction);
                    if left == 0 {
                        proof {
                            crate::slots::lemma_count_some_update(s, i as int, None);
                        }
                        self.holdings[i] = None;
                        self.holding_count = self.holding_count - 1;
                    } else {
                        proof {
                            crate::slots::lemma_count_some_update(
                                s,
                                i as int,
                                Some(EscrowHolding { locked_currency: left, ..holding }),
                            );
                        }
                        self.holdings[i] = Some(EscrowHolding { locked_currency: left, ..holding });
                    }
                    return;
                }
            }
            i = i + 1;
        }
        proof {
            lemma_first_index_none(s, p);
        }
    }

    #[verifier::loop_isolation(false)]
    fn deliver_from_seller(&mut self, trade: &TradeExecution)
        requires
            old(self).wf(),
        ensures
            final(self).wf(),
            final(self).spec_stations() == old(self).spec_stations(),
            final(self).spec_tax_revenue() == old(self).spec_tax_revenue(),
            final(self).spec_volume_settled() == old(self).spec_volume_settled(),
            final(self).spec_holdings() == after_seller_delivery(old(self).spec_holdings(), *trade),
    {
        let ghost s = self.holdings@;
        let ghost p = seller_holding(trade.sell_order_id);
        let mut i: usize = 0;
        while i < 256
            invariant
                i <= 256,
                s == self.holdings@,
                *self == *old(self),
                p == seller_holding(trade.sell_order_id),
                forall|j: int| 0 <= j < i ==> !p(#[trigger] s[j]),
            decreases 256 - i,
        {
            if let Some(holding) = self.holdings[i] {
                if holding.order_id == trade.sell_order_id && !holding.is_currency {
                    proof {
                        lemma_first_index_is(s, p, i as int);
                    }
                    let left = holding.locked_quantity.saturating_sub(trade.quantity);
                    if left == 0 {
                        proof {
                            crate::slots::lemma_count_some_update(s, i as int, None);
                        }
                        self.holdings[i] = None;
                        self.holding_count = self.holding_count - 1;
                    } else {
                        proof {
                            crate::slots::lemma_count_some_update(
                                s,
                                i as int,
                                Some(EscrowHolding { locked_quantity: left, ..holding }),
                            );
                        }
                        self.holdings[i] = Some(EscrowHolding { locked_quantity: left, ..holding });
                    }
                    return;
                }
            }
            i = i + 1;
        }
        proof {
            lemma_first_index_none(s, p);
        }
    }
}

impl Default for MarketEscrowCoordinator {
    /// Same as `new`.
    fn default() -> (c: Self)
        ensures
            c.wf(),
            c.spec_stations() == Seq::new(16, |i: int| None::<MarketStation>),
            c.spec_holdings() == Seq::new(256, |i: int| None::<EscrowHolding>),
            c.spec_tax_revenue() == 0,
            c.spec_volume_settled() == 0,
    {
        MarketEscrowCoordinator::new()
    }
}

/// Escrow is returned intact: locking a holding for a new order and then cancelling that order
/// as its owner gives back exactly the locked holding and frees its slot again.
pub proof fn lemma_lock_then_cancel_refunds(h: Seq<Option<EscrowHolding>>, holding: EscrowHolding)
    requires
        first_index(h, holding_for(holding.order_id)) < 0,
        first_index(h, vacant::<EscrowHolding>()) >= 0,
    ensures
        ({
            let f = first_index(h, vacant::<EscrowHolding>());
            let locked = h.update(f, Some(holding));
            &&& first_index(locked, holding_for(holding.order_id)) == f
            &&& locked[f]->0 == holding
            &&& locked.update(f, None) == h
        }),
{
    let f = first_index(h, vacant::<EscrowHolding>());
    let p = holding_for(holding.order_id);
    lemma_first_index(h, p);
    lemma_first_index(h, vacant::<EscrowHolding>());
    let locked = h.update(f, Some(holding));
    assert forall|j: int| 0 <= j < f implies !p(#[trigger] locked[j]) by {
        assert(locked[j] == h[j]);
    }
    lemma_first_index_is(locked, p, f);
    assert(locked.update(f, None) =~= h);
}

/// Settlement splits the price between seller and tax: at a rate of at most 100% and with no
/// saturation, the seller's payout plus the tax is the total price.
pub proof fn lemma_settlement_conserves_price(total: u64, bps: u64)
    requires
        bps <= 10_000,
        total * bps <= u64::MAX,
    ensures
        sat_sub(total, sat_mul(total, bps) / 10_000) + sat_mul(total, bps) / 10_000 == total,
{
    assert(total * bps / 10_000 <= total) by (nonlinear_arith)
        requires
            bps <= 10_000,
    ;
}

} // verus!
