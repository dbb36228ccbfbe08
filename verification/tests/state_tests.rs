use dota_localization_changer::config::Config;
use dota_localization_changer::dotatypes::{Hero, Item, LocalizableEntity, Skill};
use dota_localization_changer::state::{query_matches, AppData};

fn entity(name: &str, key: &str, username: Option<&str>) -> LocalizableEntity {
    LocalizableEntity { name: name.to_string(), key: key.to_string(), username: username.map(|u| u.to_string()) }
}

fn hero(name: &str, key: &str, user: Option<&str>, skills: &[(&str, &str)]) -> Hero {
    Hero {
        base: entity(name, key, user),
        gender: "m".to_string(),
        skills: skills.iter().map(|(n, k)| Skill { entity: entity(n, k, None) }).collect(),
    }
}

fn sample() -> AppData {
    let heroes = vec![
        hero("Axe", "npc_axe", None, &[("Berserker's Call", "axe_1"), ("Battle Hunger", "axe_2")]),
        hero("Lina", "npc_lina", Some("Огненная"), &[("Dragon Slave", "lina_1")]),
        hero("Anti-Mage", "npc_am", None, &[]),
    ];
    let items = vec![
        Item { entity: entity("Blink Dagger", "item_blink", None) },
        Item { entity: entity("Black King Bar", "item_bkb", Some("БКБ")) },
    ];
    AppData::new(heroes, items, Config::default())
}

fn names(hs: &[Hero]) -> Vec<String> {
    hs.iter().map(|h| h.base.name.clone()).collect()
}

#[test]
fn start_shows_everything() {
    let d = sample();
    assert_eq!(names(&d.visible_heroes()), vec!["Axe", "Lina", "Anti-Mage"]);
    assert_eq!(d.visible_items().len(), 2);
    assert_eq!(d.status_message(), "");
    assert_eq!(d.dota_path(), "");
}

#[test]
fn filter_ignores_case_and_searches_user_names() {
    let mut d = sample();
    d.filter_heroes("AXE");
    assert_eq!(names(&d.visible_heroes()), vec!["Axe"]);
    d.filter_heroes("а");
    assert_eq!(names(&d.visible_heroes()), vec!["Lina"]);
    d.filter_heroes("A");
    assert_eq!(names(&d.visible_heroes()), vec!["Axe", "Lina", "Anti-Mage"]);
    d.filter_heroes("zzz");
    assert!(d.visible_heroes().is_empty());
    d.filter_heroes("");
    assert_eq!(d.visible_heroes().len(), 3);
    d.filter_items("бкб");
    assert_eq!(d.visible_items()[0].entity.name, "Black King Bar");
    d.filter_items("DAGGER");
    assert_eq!(d.visible_items()[0].entity.name, "Blink Dagger");
}

#[test]
fn query_matches_name_or_user_name() {
    assert!(query_matches("axe", None, "x"));
    assert!(query_matches("axe", Some("топор"), "топ"));
    assert!(!query_matches("axe", Some("топор"), "lina"));
    assert!(!query_matches("axe", None, "y"));
}

#[test]
fn edit_hero_through_the_filter() {
    let mut d = sample();
    d.filter_heroes("lina");
    d.edit_hero(0, "Лина".to_string(), "[{\"custom\": \"Дракон\"}, {\"custom\": \"ignored\"}]");
    assert_eq!(d.status_message(), "Герой сохранён");
    let lina = &d.heroes()[1];
    assert_eq!(lina.base.username.as_deref(), Some("Лина"));
    assert_eq!(lina.skills[0].entity.username.as_deref(), Some("Дракон"));
    assert_eq!(d.change_overlay().get("npc_lina").unwrap(), "#|m|#Лина");
}

#[test]
fn edit_hero_clears_names_with_empty_or_na() {
    let mut d = sample();
    d.edit_hero(0, "Топор".to_string(), "[{\"custom\": \"N/A\"}, {\"custom\": \"Голод\"}]");
    d.edit_hero(0, String::new(), "[{\"custom\": \"\"}, {\"name\": \"x\"}]");
    let axe = &d.heroes()[0];
    assert!(axe.base.username.is_none());
    assert!(axe.skills[0].entity.username.is_none());
    assert_eq!(axe.skills[1].entity.username.as_deref(), Some("Голод"));
}

#[test]
fn edit_hero_with_unreadable_skills_sets_only_the_name() {
    let mut d = sample();
    d.edit_hero(0, "Топор".to_string(), "not json");
    let axe = &d.heroes()[0];
    assert_eq!(axe.base.username.as_deref(), Some("Топор"));
    assert!(axe.skills.iter().all(|s| s.entity.username.is_none()));
}

#[test]
fn edit_out_of_range_changes_nothing() {
    let mut d = sample();
    d.filter_heroes("axe");
    d.edit_hero(1, "x".to_string(), "[]");
    d.edit_hero(-1, "x".to_string(), "[]");
    d.edit_item(5, "x".to_string());
    assert_eq!(d.status_message(), "");
    assert!(d.heroes().iter().all(|h| h.base.name != "x" && h.base.username.as_deref() != Some("x")));
}

#[test]
fn edit_item_reads_back_in_the_overlay() {
    let mut d = sample();
    d.edit_item(0, "Блинк".to_string());
    assert_eq!(d.status_message(), "Предмет сохранён");
    assert_eq!(d.change_overlay().get("item_blink").unwrap(), "Блинк");
    d.edit_item(0, String::new());
    assert_eq!(d.change_overlay().get("item_blink").unwrap(), "Blink Dagger");
}

#[test]
fn overlay_holds_every_token() {
    let d = sample();
    let kv = d.change_overlay();
    assert_eq!(kv.len(), 8);
    assert_eq!(kv.get("npc_axe").unwrap(), "#|m|#Axe");
    assert_eq!(kv.get("npc_lina").unwrap(), "#|m|#Огненная");
    assert_eq!(kv.get("axe_2").unwrap(), "Battle Hunger");
    assert_eq!(kv.get("item_bkb").unwrap(), "БКБ");
}

#[test]
fn reset_removes_every_user_name() {
    let mut d = sample();
    d.edit_hero(0, "Топор".to_string(), "[{\"custom\": \"Зов\"}]");
    d.reset_all();
    assert_eq!(d.status_message(), "Все настройки сброшены");
    assert!(d.heroes().iter().all(|h| h.base.username.is_none() && h.skills.iter().all(|s| s.entity.username.is_none())));
    assert!(d.items().iter().all(|i| i.entity.username.is_none()));
    assert_eq!(d.change_overlay().get("npc_lina").unwrap(), "#|m|#Lina");
}

#[test]
fn save_then_load_preset_restores_names() {
    let mut d = sample();
    assert!(d.save_preset("").is_none());
    assert_eq!(d.status_message(), "");
    let p = d.save_preset("mine").unwrap();
    assert_eq!(d.status_message(), "Пресет 'mine' сохранён");
    assert_eq!(p.filename, "mine.json");
    d.reset_all();
    d.filter_heroes("axe");
    d.load_preset(p, "mine");
    assert_eq!(d.status_message(), "Пресет 'mine' загружен");
    assert_eq!(d.visible_heroes().len(), 3);
    assert_eq!(d.heroes()[1].base.username.as_deref(), Some("Огненная"));
    assert_eq!(d.items()[1].entity.username.as_deref(), Some("БКБ"));
}

#[test]
fn saving_needs_a_dota_path() {
    let mut d = sample();
    assert!(d.vpk_target().is_none());
    assert_eq!(d.status_message(), "Путь к Dota 2 не указан");
    d.set_dota_path("/dota".to_string());
    assert_eq!(d.status_message(), "Путь Dota 2 обновлён: /dota");
    assert_eq!(d.dota_path(), "/dota");
    assert_eq!(d.config().dota_directory.as_deref(), Some("/dota"));
    assert_eq!(d.vpk_target().unwrap(), "/dota/game/dota_russian/pak01_dir.vpk");
    d.finish_save(Ok(()));
    assert_eq!(d.status_message(), "Изменения сохранены в VPK");
    d.finish_save(Err("disk full".to_string()));
    assert_eq!(d.status_message(), "Ошибка сохранения VPK: disk full");
    d.set_status("x".to_string());
    assert_eq!(d.status_message(), "x");
}

#[test]
fn unreadable_localization_file_is_reported() {
    let mut d = sample();
    d.filter_heroes("lina");
    d.source_unreadable();
    assert_eq!(d.status_message(), "Не удалось прочитать abilities_russian.txt");
    assert_eq!(names(&d.visible_heroes()), vec!["Lina"]);
}

#[test]
fn a_longer_query_never_shows_more() {
    let mut d = sample();
    let mut shown = Vec::new();
    for q in ["", "A", "AN", "ANT", "anti-", "ANTI-MAGE!"] {
        d.filter_heroes(q);
        shown.push(names(&d.visible_heroes()));
    }
    for w in shown.windows(2) {
        assert!(w[1].iter().all(|n| w[0].contains(n)));
    }
    assert_eq!(shown[0].len(), 3);
    assert_eq!(shown[4], vec!["Anti-Mage"]);
    assert!(shown[5].is_empty());
    d.filter_items("");
    assert_eq!(d.visible_items().len(), 2);
}
