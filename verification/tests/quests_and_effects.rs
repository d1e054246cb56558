use delve_game::projectiles::{is_walkable_at, parse_status_effect_type, StatusEffectType};
use delve_game::quests::{compare_text, sorted_quest_ids};

#[test]
fn sorted_quest_ids_returns_alphabetical_order() {
    let ids = vec![
        "kill_spider_queen".to_string(),
        "collect_lore".to_string(),
        "fetch_amulet".to_string(),
    ];
    assert_eq!(
        sorted_quest_ids(ids),
        vec!["collect_lore".to_string(), "fetch_amulet".to_string(), "kill_spider_queen".to_string()]
    );
}

#[test]
fn sorting_keeps_duplicates_and_puts_prefixes_first() {
    let ids = vec!["b".to_string(), "ab".to_string(), "a".to_string(), "b".to_string(), "".to_string()];
    assert_eq!(sorted_quest_ids(ids), vec!["", "a", "ab", "b", "b"]);
    assert!(sorted_quest_ids(Vec::new()).is_empty());
}

#[test]
fn ids_compare_like_string_ordering() {
    for (a, b) in [("a", "b"), ("abc", "abd"), ("ab", "abc"), ("", "x"), ("Z", "a"), ("same", "same")] {
        assert_eq!(compare_text(a, b), a <= b, "{a:?} vs {b:?}");
        assert_eq!(compare_text(b, a), b <= a, "{b:?} vs {a:?}");
    }
}

#[test]
fn status_effect_names_parse_exactly() {
    assert_eq!(parse_status_effect_type("poison"), Some(StatusEffectType::Poison));
    assert_eq!(parse_status_effect_type("slow"), Some(StatusEffectType::Slow));
    assert_eq!(parse_status_effect_type("burning"), Some(StatusEffectType::Burning));
    assert_eq!(parse_status_effect_type("Poison"), None);
    assert_eq!(parse_status_effect_type(""), None);
}

#[test]
fn projectiles_pass_only_walkable_cells() {
    let grid = vec!["#.".to_string(), "..".to_string()];
    let walkable = vec!['.'];
    assert!(!is_walkable_at(&grid, &walkable, 0, 0));
    assert!(is_walkable_at(&grid, &walkable, 1, 0));
    assert!(!is_walkable_at(&grid, &walkable, -1, 0));
    assert!(!is_walkable_at(&grid, &walkable, 0, 2));
}
