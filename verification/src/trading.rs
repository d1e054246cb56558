//! The trading panel's rules: what a click on a shop row (buy) or on a
//! backpack row (sell) does to the player's gold and backpack, and which
//! row a HUD pixel lands on. Prices themselves are computed by the caller
//! from the item's value and the shop's markup.

use vstd::prelude::*;
use crate::inventory::{BackpackItem, HudSize, first_free_slot, next_backpack_slot};
use crate::overlay::ActiveOverlay;
use crate::tooltip::ItemQuality;

verus! {

/// A shop row the player clicked: the item's id and display name, its
/// price, and the quality and modifier ids its definition gives every
/// copy of it.
pub struct ShopOffer {
    pub item_id: String,
    pub name: String,
    pub price: i64,
    pub quality: ItemQuality,
    pub modifiers: Vec<String>,
}

pub enum BuyOutcome {
    Bought { name: String, price: i64 },
    BackpackFull,
    NotEnoughGold,
    UnknownItem,
}

/// The item a purchase creates: which definition, its quality, the
/// backpack slot it goes into and its modifier ids.
pub struct CreatedItem {
    pub item_id: String,
    pub quality: ItemQuality,
    pub slot: u32,
    pub modifiers: Vec<String>,
}

/// The outcome of a buy, the player's gold afterwards, and the item it
/// creates, if any.
pub struct BuyDecision {
    pub outcome: BuyOutcome,
    pub gold: i64,
    pub created: Option<CreatedItem>,
}

/// A copy of `strings`, element by element.
fn copy_strings(strings: &Vec<String>) -> (copy: Vec<String>)
    ensures
        copy@ == strings@,
{
    let mut copy: Vec<String> = Vec::new();
    let mut i: usize = 0;
    while i < strings.len()
        invariant
            i <= strings.len(),
            copy@ == strings@.subrange(0, i as int),
        decreases strings.len() - i,
    {
        copy.push(strings[i].clone());
        proof {
            assert(strings@.subrange(0, i + 1) =~= strings@.subrange(0, i as int).push(strings@[i as int]));
        }
        i = i + 1;
    }
    proof {
        assert(strings@.subrange(0, strings.len() as int) =~= strings@);
    }
    copy
}

/// Buying checks, in order: the item is known, the backpack has a free
/// slot, the player can afford the price. Only then is the price paid and
/// an item of the definition's quality, with its modifier ids, created in
/// the first free slot.
pub fn buy_item(gold: i64, offer: Option<&ShopOffer>, backpack: &Vec<Option<BackpackItem>>) -> (decision:
    BuyDecision)
    requires
        backpack@.len() <= u32::MAX,
        offer matches Some(o) ==> (o.price <= gold ==> gold - o.price <= i64::MAX),
    ensures
        match offer {
            None => decision.outcome is UnknownItem && decision.gold == gold && decision.created is None,
            Some(o) => match first_free_slot(backpack@) {
                None => decision.outcome is BackpackFull && decision.gold == gold && decision.created is None,
                Some(slot) => if gold < o.price {
                    decision.outcome is NotEnoughGold && decision.gold == gold && decision.created is None
                } else {
                    &&& decision.outcome matches BuyOutcome::Bought { name, price } && name@ == o.name@
                        && price == o.price
                    &&& decision.gold == gold - o.price
                    &&& decision.created matches Some(item) && item.item_id@ == o.item_id@ && item.quality
                        == o.quality && item.slot == slot && item.modifiers@ == o.modifiers@
                },
            },
        },
        decision.outcome is Bought ==> decision.gold >= 0,
        !(decision.outcome is Bought) ==> decision.gold == gold,
{
    let offer = match offer {
        None => return BuyDecision { outcome: BuyOutcome::UnknownItem, gold, created: None },
        Some(offer) => offer,
    };
    let slot = match next_backpack_slot(backpack) {
        None => return BuyDecision { outcome: BuyOutcome::BackpackFull, gold, created: None },
        Some(slot) => slot,
    };
    if gold < offer.price {
        return BuyDecision { outcome: BuyOutcome::NotEnoughGold, gold, created: None };
    }
    let created = CreatedItem {
        item_id: offer.item_id.clone(),
        quality: offer.quality,
        slot,
        modifiers: copy_strings(&offer.modifiers),
    };
    BuyDecision {
        outcome: BuyOutcome::Bought { name: offer.name.clone(), price: offer.price },
        gold: gold - offer.price,
        created: Some(created),
    }
}

pub enum SellOutcome {
    Sold { name: String, price: i64 },
    NotSellable,
    UnknownItem,
}

/// The outcome of a sale, the player's gold afterwards, and whether the
/// sold item leaves the registry.
pub struct SellDecision {
    pub outcome: SellOutcome,
    pub gold: i64,
    pub remove: bool,
}

/// Selling a known item with a positive price removes it and credits the
/// price; an item worth nothing cannot be sold, and an unknown one is
/// reported as such.
pub fn sell_item(gold: i64, offer: Option<&ShopOffer>) -> (decision: SellDecision)
    requires
        offer matches Some(o) ==> o.price > 0 ==> gold + o.price <= i64::MAX,
    ensures
        match offer {
            None => decision.outcome is UnknownItem && decision.gold == gold && !decision.remove,
            Some(o) => if o.price <= 0 {
                decision.outcome is NotSellable && decision.gold == gold && !decision.remove
            } else {
                &&& decision.outcome matches SellOutcome::Sold { name, price } && name@ == o.name@ && price
                    == o.price
                &&& decision.gold == gold + o.price
                &&& decision.remove
            },
        },
        decision.gold >= gold,
{
    let offer = match offer {
        None => return SellDecision { outcome: SellOutcome::UnknownItem, gold, remove: false },
        Some(offer) => offer,
    };
    if offer.price <= 0 {
        return SellDecision { outcome: SellOutcome::NotSellable, gold, remove: false };
    }
    SellDecision {
        outcome: SellOutcome::Sold { name: offer.name.clone(), price: offer.price },
        gold: gold + offer.price,
        remove: true,
    }
}

/// Backpack slots holding an item, in slot order.
pub open spec fn occupied_slots(backpack: Seq<Option<BackpackItem>>) -> Seq<u32>
    decreases backpack.len(),
{
    if backpack.len() == 0 {
        Seq::empty()
    } else {
        let earlier = occupied_slots(backpack.drop_last());
        if backpack.last() is Some { earlier.push((backpack.len() - 1) as u32) } else { earlier }
    }
}

/// The backpack column lists occupied slots only, in slot order.
pub fn occupied_backpack_slots(backpack: &Vec<Option<BackpackItem>>) -> (slots: Vec<u32>)
    requires
        backpack@.len() <= u32::MAX,
    ensures
        slots@ == occupied_slots(backpack@),
{
    let mut slots: Vec<u32> = Vec::new();
    let mut i: usize = 0;
    while i < backpack.len()
        invariant
            i <= backpack@.len() <= u32::MAX,
            slots@ == occupied_slots(backpack@.take(i as int)),
        decreases backpack.len() - i,
    {
        proof {
            assert(backpack@.take(i + 1).drop_last() =~= backpack@.take(i as int));
        }
        if backpack[i].is_some() {
            slots.push(i as u32);
        }
        i = i + 1;
    }
    proof {
        assert(backpack@.take(backpack@.len() as int) =~= backpack@);
    }
    slots
}

/// The listed slots are exactly the occupied ones, each once, ascending.
pub proof fn lemma_occupied_slots_exact(backpack: Seq<Option<BackpackItem>>)
    requires
        backpack.len() <= u32::MAX,
    ensures
        forall|k: int|
            0 <= k < occupied_slots(backpack).len() ==> (#[trigger] occupied_slots(backpack)[k]) < backpack.len()
                && backpack[occupied_slots(backpack)[k] as int] is Some,
        forall|a: int, b: int|
            0 <= a < b < occupied_slots(backpack).len() ==> occupied_slots(backpack)[a] < occupied_slots(
                backpack,
            )[b],
        forall|s: int|
            0 <= s < backpack.len() && (#[trigger] backpack[s]) is Some ==> occupied_slots(backpack).contains(
                s as u32,
            ),
    decreases backpack.len(),
{
    if backpack.len() > 0 {
        let init = backpack.drop_last();
        lemma_occupied_slots_exact(init);
        let earlier = occupied_slots(init);
        assert forall|s: int| 0 <= s < backpack.len() && (#[trigger] backpack[s]) is Some implies occupied_slots(
            backpack,
        ).contains(s as u32) by {
            if s < backpack.len() - 1 {
                assert(init[s] == backpack[s]);
                let k = choose|k: int| 0 <= k < earlier.len() && earlier[k] == s as u32;
                assert(occupied_slots(backpack)[k] == s as u32);
            } else {
                assert(occupied_slots(backpack).last() == s as u32);
            }
        }
    }
}

// ---------------------------------------------------------------------------
// Geometry
// ---------------------------------------------------------------------------

pub const TRADE_PANEL_W: i32 = 580;
pub const TRADE_PANEL_H: i32 = 320;
pub const COLUMN_GAP: i32 = 8;
pub const COLUMN_W: i32 = 278;
pub const ROW_H: i32 = 20;
pub const ROW_GAP: i32 = 2;

#[derive(Clone, Copy, PartialEq, Eq, Structural, Debug)]
pub enum TradeSide {
    Shop,
    Backpack,
}

pub open spec fn trade_hud_ok(hud: HudSize) -> bool {
    TRADE_PANEL_W <= hud.width <= 0x100000 && TRADE_PANEL_H <= hud.height <= 0x100000
}

/// The first `count` rows of a column have their pixel coordinates,
/// bottom edges included, inside `i32`.
pub open spec fn rows_fit(hud: HudSize, count: int) -> bool {
    (hud.height - TRADE_PANEL_H) / 2 + 60 + count * ROW_H <= i32::MAX
}

/// `(x, y, width, height)` of row `index` of a column: the shop column on
/// the left, the backpack column on the right, rows stacked from 60px
/// below the panel top.
pub open spec fn spec_row_rect(hud: HudSize, side: TradeSide, index: int) -> (int, int, int, int) {
    let panel_x = (hud.width - TRADE_PANEL_W) / 2;
    let panel_y = (hud.height - TRADE_PANEL_H) / 2;
    let left = panel_x + COLUMN_GAP;
    let x = match side {
        TradeSide::Shop => left,
        TradeSide::Backpack => left + COLUMN_W + COLUMN_GAP,
    };
    (x, panel_y + 60 + index * ROW_H, COLUMN_W as int, (ROW_H - ROW_GAP) as int)
}

pub fn row_rect(hud: HudSize, side: TradeSide, index: usize) -> (rect: (i32, i32, i32, i32))
    requires
        trade_hud_ok(hud),
        rows_fit(hud, index + 1),
    ensures
        (rect.0 as int, rect.1 as int, rect.2 as int, rect.3 as int) == spec_row_rect(hud, side, index as int),
{
    let panel_x = (hud.width - TRADE_PANEL_W) / 2;
    let panel_y = (hud.height - TRADE_PANEL_H) / 2;
    let column_w = (TRADE_PANEL_W - COLUMN_GAP * 3) / 2;
    let left = panel_x + COLUMN_GAP;
    let x = match side {
        TradeSide::Shop => left,
        TradeSide::Backpack => left + column_w + COLUMN_GAP,
    };
    let header_y = panel_y + 44;
    let rows_start = header_y + 16;
    (x, rows_start + index as i32 * ROW_H, column_w, ROW_H - ROW_GAP)
}

pub open spec fn in_row(hud: HudSize, side: TradeSide, index: int, px: int, py: int) -> bool {
    let (x, y, w, h) = spec_row_rect(hud, side, index);
    x <= px < x + w && y <= py < y + h
}

/// The row under HUD pixel `(x, y)`: shop rows first, then backpack rows.
pub fn hit_test(hud: HudSize, x: i32, y: i32, shop_count: usize, backpack_count: usize) -> (hit: Option<
    (TradeSide, usize),
>)
    requires
        trade_hud_ok(hud),
        rows_fit(hud, shop_count as int),
        rows_fit(hud, backpack_count as int),
    ensures
        match hit {
            Some((side, index)) => {
                &&& in_row(hud, side, index as int, x as int, y as int)
                &&& side == TradeSide::Shop ==> index < shop_count
                &&& side == TradeSide::Backpack ==> index < backpack_count && forall|j: int|
                    0 <= j < shop_count ==> !in_row(hud, TradeSide::Shop, j, x as int, y as int)
            },
            None => (forall|j: int| 0 <= j < shop_count ==> !in_row(hud, TradeSide::Shop, j, x as int, y as int))
                && (forall|j: int|
                0 <= j < backpack_count ==> !in_row(hud, TradeSide::Backpack, j, x as int, y as int)),
        },
{
    let mut index: usize = 0;
    while index < shop_count
        invariant
            index <= shop_count,
            rows_fit(hud, shop_count as int),
            trade_hud_ok(hud),
            forall|j: int| 0 <= j < index ==> !in_row(hud, TradeSide::Shop, j, x as int, y as int),
        decreases shop_count - index,
    {
        let (rx, ry, rw, rh) = row_rect(hud, TradeSide::Shop, index);
        if x >= rx && x < rx + rw && y >= ry && y < ry + rh {
            return Some((TradeSide::Shop, index));
        }
        index = index + 1;
    }
    let mut index: usize = 0;
    while index < backpack_count
        invariant
            index <= backpack_count,
            rows_fit(hud, backpack_count as int),
            trade_hud_ok(hud),
            forall|j: int| 0 <= j < shop_count ==> !in_row(hud, TradeSide::Shop, j, x as int, y as int),
            forall|j: int| 0 <= j < index ==> !in_row(hud, TradeSide::Backpack, j, x as int, y as int),
        decreases backpack_count - index,
    {
        let (rx, ry, rw, rh) = row_rect(hud, TradeSide::Backpack, index);
        if x >= rx && x < rx + rw && y >= ry && y < ry + rh {
            return Some((TradeSide::Backpack, index));
        }
        index = index + 1;
    }
    None
}

/// What a click on the open trading panel asks for.
#[derive(Clone, Copy, PartialEq, Eq, Structural, Debug)]
pub enum TradeClick {
    /// Buy the shop's stock entry at this index.
    Buy(usize),
    /// Sell the item in this backpack slot.
    Sell(u32),
}

/// One frame of the trading panel's input: Escape closes it; otherwise a
/// left click at HUD pixel `click` on a shop row buys that stock entry,
/// and on a backpack row sells the item in the slot that row lists.
pub fn trading_step(
    overlay: ActiveOverlay,
    escape: bool,
    click: Option<(i32, i32)>,
    hud: HudSize,
    shop_count: usize,
    occupied: &Vec<u32>,
) -> (result: (ActiveOverlay, Option<TradeClick>))
    requires
        trade_hud_ok(hud),
        rows_fit(hud, shop_count as int),
        rows_fit(hud, occupied@.len() as int),
    ensures
        overlay != ActiveOverlay::Trading ==> result == (overlay, None::<TradeClick>),
        overlay == ActiveOverlay::Trading && escape ==> result == (ActiveOverlay::NoOverlay, None::<TradeClick>),
        overlay == ActiveOverlay::Trading && !escape ==> result.0 == ActiveOverlay::Trading && match click {
            None => result.1 is None,
            Some((x, y)) => match result.1 {
                None => (forall|j: int| 0 <= j < shop_count ==> !in_row(hud, TradeSide::Shop, j, x as int, y as int))
                    && (forall|j: int|
                    0 <= j < occupied@.len() ==> !in_row(hud, TradeSide::Backpack, j, x as int, y as int)),
                Some(TradeClick::Buy(index)) => index < shop_count && in_row(
                    hud,
                    TradeSide::Shop,
                    index as int,
                    x as int,
                    y as int,
                ),
                Some(TradeClick::Sell(slot)) => exists|j: int|
                    0 <= j < occupied@.len() && occupied@[j] == slot && in_row(
                        hud,
                        TradeSide::Backpack,
                        j,
                        x as int,
                        y as int,
                    ) && forall|k: int| 0 <= k < shop_count ==> !in_row(hud, TradeSide::Shop, k, x as int, y as int),
            },
        },
{
    if overlay != ActiveOverlay::Trading {
        return (overlay, None);
    }
    if escape {
        return (ActiveOverlay::NoOverlay, None);
    }
    let (x, y) = match click {
        None => return (overlay, None),
        Some(point) => point,
    };
    match hit_test(hud, x, y, shop_count, occupied.len()) {
        None => (overlay, None),
        Some((TradeSide::Shop, index)) => (overlay, Some(TradeClick::Buy(index))),
        Some((TradeSide::Backpack, index)) => {
            let slot = occupied[index];
            proof {
                assert(occupied@[index as int] == slot);
            }
            (overlay, Some(TradeClick::Sell(slot)))
        },
    }
}

} // verus!
