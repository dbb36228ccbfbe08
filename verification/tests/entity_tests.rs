use dota_localization_changer::config::{config_path_in, default_logger, log_path_in, logger_level, Config, LogLevel};
use dota_localization_changer::dotatypes::{default_gender, Hero, Item, LocalizableEntity, Skill};

fn entity(name: &str, key: &str, username: Option<&str>) -> LocalizableEntity {
    LocalizableEntity { name: name.to_string(), key: key.to_string(), username: username.map(|u| u.to_string()) }
}

fn hero(gender: &str, user: Option<&str>, skills: Vec<(&str, &str, Option<&str>)>) -> Hero {
    Hero {
        base: entity("Axe", "npc_dota_hero_axe", user),
        gender: gender.to_string(),
        skills: skills.into_iter().map(|(n, k, u)| Skill { entity: entity(n, k, u) }).collect(),
    }
}

#[test]
fn item_key_pair_prefers_the_users_name() {
    let plain = Item { entity: entity("Blink Dagger", "DOTA_Tooltip_ability_item_blink", None) };
    assert_eq!(plain.to_key_pair(), ("DOTA_Tooltip_ability_item_blink".to_string(), "Blink Dagger".to_string()));
    let named = Item { entity: entity("Blink Dagger", "k", Some("Блинк")) };
    assert_eq!(named.to_key_pair(), ("k".to_string(), "Блинк".to_string()));
}

#[test]
fn skill_key_pair_prefers_the_users_name() {
    let s = Skill { entity: entity("Berserker's Call", "s1", Some("Зов")) };
    assert_eq!(s.to_key_pair(), ("s1".to_string(), "Зов".to_string()));
    let t = Skill { entity: entity("Battle Hunger", "s2", None) };
    assert_eq!(t.to_key_pair(), ("s2".to_string(), "Battle Hunger".to_string()));
}

#[test]
fn hero_key_pairs_tag_the_gender() {
    let h = hero("f", Some("Топорница"), vec![("Call", "s1", None), ("Hunger", "s2", Some("Голод"))]);
    let kv = h.to_key_pairs();
    assert_eq!(kv.len(), 3);
    assert_eq!(kv.get("npc_dota_hero_axe").unwrap(), "#|f|#Топорница");
    assert_eq!(kv.get("s1").unwrap(), "Call");
    assert_eq!(kv.get("s2").unwrap(), "Голод");
    assert!(kv.get("missing").is_none());
}

#[test]
fn later_skill_wins_on_a_shared_key() {
    let h = hero("m", None, vec![("A", "npc_dota_hero_axe", None), ("B", "s", None), ("C", "s", None)]);
    let kv = h.to_key_pairs();
    assert_eq!(kv.len(), 2);
    assert_eq!(kv.get("npc_dota_hero_axe").unwrap(), "A");
    assert_eq!(kv.get("s").unwrap(), "C");
}

#[test]
fn hero_dict_writes_gender_only_when_female() {
    let m = hero("m", None, vec![("Call", "s1", None)]).to_dict();
    assert!(m.gender.is_none());
    assert_eq!(m.skills.len(), 1);
    assert_eq!(m.entity.name, "Axe");
    let f = hero("f", Some("u"), vec![]).to_dict();
    assert_eq!(f.gender.as_deref(), Some("f"));
    assert_eq!(f.entity.username.as_deref(), Some("u"));
    let other = hero("n", None, vec![]).to_dict();
    assert!(other.gender.is_none());
}

#[test]
fn clones_are_equal_in_every_field() {
    let h = hero("f", Some("x"), vec![("Call", "s1", Some("y"))]);
    let c = h.clone();
    assert_eq!(c.base.name, h.base.name);
    assert_eq!(c.base.username, h.base.username);
    assert_eq!(c.skills[0].entity.username, h.skills[0].entity.username);
    assert_eq!(c.gender, h.gender);
}

#[test]
fn defaults() {
    assert_eq!(default_gender(), "m");
    assert_eq!(default_logger(), "INFO");
    let c = Config::default();
    assert!(c.dota_directory.is_none());
    assert_eq!(c.logger_lvl, "INFO");
}

#[test]
fn vpk_path_appends_the_archive() {
    let mut c = Config::default();
    assert!(c.vpk_path().is_none());
    c.dota_directory = Some("/games/dota 2 beta".to_string());
    assert_eq!(c.vpk_path().unwrap(), "/games/dota 2 beta/game/dota_russian/pak01_dir.vpk");
}

#[test]
fn logger_level_parses_without_case_and_defaults_to_info() {
    assert_eq!(logger_level("debug"), LogLevel::Debug);
    assert_eq!(logger_level("TRACE"), LogLevel::Trace);
    assert_eq!(logger_level("Warn"), LogLevel::Warn);
    assert_eq!(logger_level("error"), LogLevel::Error);
    assert_eq!(logger_level("off"), LogLevel::Off);
    assert_eq!(logger_level("INFO"), LogLevel::Info);
    assert_eq!(logger_level("verbose"), LogLevel::Info);
    assert_eq!(logger_level(""), LogLevel::Info);
    assert_eq!(logger_level("debug "), LogLevel::Info);
}

#[test]
fn settings_and_log_paths_follow_the_config_directory() {
    assert_eq!(config_path_in(Some("/home/u/.config".to_string())), "/home/u/.config/dota-localization-changer/config.json");
    assert_eq!(log_path_in(Some("/home/u/.config/".to_string())), "/home/u/.config/dota-localization-changer/logs/app.log");
    assert_eq!(config_path_in(None), "./dota-localization-changer/config.json");
    assert_eq!(log_path_in(None), "./dota-localization-changer/logs/app.log");
    assert_eq!(config_path_in(Some(String::new())), "dota-localization-changer/config.json");
}

#[test]
fn joined_paths_agree_with_std() {
    for base in ["/a/b", "/a/b/", "", ".", "x"] {
        let expected = std::path::PathBuf::from(base).join("dota-localization-changer").join("logs").join("app.log");
        assert_eq!(log_path_in(Some(base.to_string())), expected.to_string_lossy());
    }
}
