use delve_game::inventory::{BackpackItem, HudSize, ItemInfo, EquipSlot};
use delve_game::trading::{
    buy_item, hit_test, occupied_backpack_slots, row_rect, sell_item, BuyDecision, BuyOutcome, SellOutcome,
    ShopOffer, TradeSide,
};
use delve_game::tooltip::ItemQuality;

fn potion() -> Option<BackpackItem> {
    Some(BackpackItem {
        instance_id: "potion".to_string(),
        info: Some(ItemInfo { consumable: true, is_ring: false, home_slot: EquipSlot::Weapon }),
    })
}

fn offer(price: i64) -> ShopOffer {
    ShopOffer {
        item_id: "health_potion_small".to_string(),
        name: "Health Potion".to_string(),
        price,
        quality: ItemQuality::Common,
        modifiers: Vec::new(),
    }
}

fn created_slot(decision: &BuyDecision) -> Option<u32> {
    decision.created.as_ref().map(|item| item.slot)
}

#[test]
fn buy_item_deducts_gold_and_creates_a_backpack_item() {
    let backpack = vec![None; 12];
    let decision = buy_item(100, Some(&offer(23)), &backpack);
    match &decision.outcome {
        BuyOutcome::Bought { name, price } => {
            assert_eq!(name, "Health Potion");
            assert_eq!(*price, 23);
        },
        _ => panic!("expected Bought"),
    }
    assert_eq!(decision.gold, 77);
    assert_eq!(created_slot(&decision), Some(0));
}

#[test]
fn buy_item_fills_the_first_free_slot() {
    let mut backpack = vec![None; 12];
    backpack[0] = potion();
    backpack[1] = potion();
    backpack[3] = potion();
    let decision = buy_item(50, Some(&offer(10)), &backpack);
    assert_eq!(created_slot(&decision), Some(2));
    assert_eq!(decision.gold, 40);
}

#[test]
fn buy_item_fails_when_gold_is_insufficient() {
    let backpack = vec![None; 12];
    let decision = buy_item(0, Some(&offer(23)), &backpack);
    assert!(matches!(decision.outcome, BuyOutcome::NotEnoughGold));
    assert_eq!(decision.gold, 0);
    assert_eq!(created_slot(&decision), None);
}

#[test]
fn buy_item_checks_backpack_full_before_gold() {
    let backpack = vec![potion(); 12];
    let decision = buy_item(10_000, Some(&offer(23)), &backpack);
    assert!(matches!(decision.outcome, BuyOutcome::BackpackFull));
    assert_eq!(decision.gold, 10_000);
    let broke = buy_item(0, Some(&offer(23)), &backpack);
    assert!(matches!(broke.outcome, BuyOutcome::BackpackFull));
}

#[test]
fn buying_an_unknown_item_changes_nothing() {
    let decision = buy_item(5, None, &vec![None; 12]);
    assert!(matches!(decision.outcome, BuyOutcome::UnknownItem));
    assert_eq!(decision.gold, 5);
}

#[test]
fn buying_at_exactly_the_price_leaves_no_gold() {
    let decision = buy_item(23, Some(&offer(23)), &vec![None; 12]);
    assert!(matches!(decision.outcome, BuyOutcome::Bought { .. }));
    assert_eq!(decision.gold, 0);
}

#[test]
fn sell_item_adds_gold_and_removes_the_item() {
    let decision = sell_item(0, Some(&offer(7)));
    match decision.outcome {
        SellOutcome::Sold { price, .. } => assert_eq!(price, 7),
        _ => panic!("expected Sold"),
    }
    assert_eq!(decision.gold, 7);
    assert!(decision.remove);
}

#[test]
fn a_worthless_item_cannot_be_sold() {
    let decision = sell_item(4, Some(&offer(0)));
    assert!(matches!(decision.outcome, SellOutcome::NotSellable));
    assert_eq!(decision.gold, 4);
    assert!(!decision.remove);
    assert!(matches!(sell_item(4, None).outcome, SellOutcome::UnknownItem));
}

#[test]
fn occupied_backpack_slots_lists_only_filled_slots_in_order() {
    let mut backpack = vec![None; 12];
    backpack[3] = potion();
    backpack[0] = potion();
    assert_eq!(occupied_backpack_slots(&backpack), vec![0, 3]);
}

#[test]
fn trade_rows_stack_in_two_columns() {
    let hud = HudSize { width: 640, height: 400 };
    // Panel at (30, 40); columns at x = 38 and x = 324, rows from y = 100.
    assert_eq!(row_rect(hud, TradeSide::Shop, 0), (38, 100, 278, 18));
    assert_eq!(row_rect(hud, TradeSide::Backpack, 2), (324, 140, 278, 18));
    assert_eq!(hit_test(hud, 40, 101, 3, 2), Some((TradeSide::Shop, 0)));
    assert_eq!(hit_test(hud, 330, 121, 3, 2), Some((TradeSide::Backpack, 1)));
    assert_eq!(hit_test(hud, 330, 141, 3, 2), None);
    assert_eq!(hit_test(hud, 40, 118, 3, 2), None);
}

use delve_game::overlay::ActiveOverlay;
use delve_game::trading::{trading_step, TradeClick};

#[test]
fn clicks_on_rows_buy_or_sell() {
    let hud = HudSize { width: 640, height: 400 };
    let occupied = vec![2u32, 7u32];
    assert_eq!(trading_step(ActiveOverlay::Trading, false, Some((40, 121)), hud, 3, &occupied), (ActiveOverlay::Trading, Some(TradeClick::Buy(1))));
    assert_eq!(trading_step(ActiveOverlay::Trading, false, Some((330, 121)), hud, 3, &occupied), (ActiveOverlay::Trading, Some(TradeClick::Sell(7))));
    assert_eq!(trading_step(ActiveOverlay::Trading, false, Some((0, 0)), hud, 3, &occupied), (ActiveOverlay::Trading, None));
    assert_eq!(trading_step(ActiveOverlay::Trading, false, None, hud, 3, &occupied), (ActiveOverlay::Trading, None));
    assert_eq!(trading_step(ActiveOverlay::Trading, true, Some((40, 121)), hud, 3, &occupied), (ActiveOverlay::NoOverlay, None));
    assert_eq!(trading_step(ActiveOverlay::Dialog, false, Some((40, 121)), hud, 3, &occupied), (ActiveOverlay::Dialog, None));
}

#[test]
fn buy_item_carries_the_item_defs_quality_and_modifiers() {
    // The shipped definition of "sword_flamebrand": an Enchanted sword with
    // the fire-damage modifier.
    let flamebrand = ShopOffer {
        item_id: "sword_flamebrand".to_string(),
        name: "Flamebrand".to_string(),
        price: 180,
        quality: ItemQuality::Enchanted,
        modifiers: vec!["fire_damage".to_string()],
    };
    let decision = buy_item(1000, Some(&flamebrand), &vec![None; 12]);
    let created = decision.created.expect("item landed in slot 0");
    assert_eq!(created.slot, 0);
    assert_eq!(created.item_id, "sword_flamebrand");
    assert_eq!(created.quality, ItemQuality::Enchanted);
    assert_eq!(created.modifiers, vec!["fire_damage".to_string()]);
}
