use dota_localization_changer::dotatypes::{Hero, HeroDict, Item, LocalizableEntity, Skill};
use dota_localization_changer::presets::Preset;

fn item(name: &str) -> Item {
    Item { entity: LocalizableEntity { name: name.to_string(), key: format!("k_{}", name), username: None } }
}

fn hero(name: &str) -> Hero {
    Hero {
        base: LocalizableEntity { name: name.to_string(), key: format!("h_{}", name), username: None },
        gender: "m".to_string(),
        skills: Vec::new(),
    }
}

#[test]
fn new_preset_is_kept_in_a_json_file() {
    let p = Preset::new("mine", vec![hero("Axe")], vec![item("Blink")]);
    assert_eq!(p.filename, "mine.json");
    assert_eq!(p.heroes.len(), 1);
    assert_eq!(p.items[0].entity.name, "Blink");
}

#[test]
fn file_name_for_adds_the_extension_once() {
    assert_eq!(Preset::file_name_for("mine"), "mine.json");
    assert_eq!(Preset::file_name_for("mine.json"), "mine.json");
    assert_eq!(Preset::file_name_for(""), ".json");
    assert_eq!(Preset::file_name_for("a.jso"), "a.jso.json");
    assert_eq!(Preset::file_name_for(&Preset::file_name_for("x")), "x.json");
}

#[test]
fn loaded_preset_skips_unreadable_entries() {
    let p = Preset::load_parsed("mine", Some((vec![Some(hero("Axe").to_dict()), None, Some(hero("Lina").to_dict())], vec![None, Some(item("Blink"))])));
    assert_eq!(p.filename, "mine.json");
    assert_eq!(p.heroes.len(), 2);
    assert_eq!(p.heroes[1].base.name, "Lina");
    assert_eq!(p.items.len(), 1);
    assert_eq!(p.items[0].entity.name, "Blink");
}

#[test]
fn unreadable_preset_file_gives_an_empty_preset() {
    let p = Preset::load_parsed("gone.json", None);
    assert_eq!(p.filename, "gone.json");
    assert!(p.heroes.is_empty());
    assert!(p.items.is_empty());
}

#[test]
fn every_json_in_the_name_is_removed() {
    assert_eq!(Preset::load_parsed("a.jsonb", None).filename, "ab.json");
    assert_eq!(Preset::load_parsed("x.json.json", None).filename, "x.json");
}

#[test]
fn preset_names_are_stems_of_json_files() {
    let files: Vec<String> = ["a.json", "b.txt", ".json", "c.d.json", "json", "e.json.bak", "f.JSON", "g.json"]
        .iter()
        .map(|s| s.to_string())
        .collect();
    assert_eq!(Preset::names_from(&files), vec!["a".to_string(), "c.d".to_string(), "g".to_string()]);
}

#[test]
fn saved_preset_is_listed_and_loads_back_under_its_name() {
    let p = Preset::new("Heroes 1", vec![], vec![]);
    assert_eq!(Preset::names_from(&vec![p.filename.clone()]), vec!["Heroes 1".to_string()]);
    assert_eq!(Preset::load_parsed("Heroes 1", None).filename, p.filename);
}

fn gendered(name: &str, gender: &str) -> Hero {
    Hero {
        base: LocalizableEntity { name: name.to_string(), key: format!("h_{}", name), username: Some(format!("my {}", name)) },
        gender: gender.to_string(),
        skills: vec![Skill { entity: LocalizableEntity { name: "S".to_string(), key: "s1".to_string(), username: None } }],
    }
}

#[test]
fn preset_heroes_and_items_read_back_from_their_saved_form() {
    let heroes = vec![gendered("Lina", "f"), gendered("Axe", "m"), gendered("Io", "n")];
    let p = Preset::new("round", heroes, vec![item("Blink")]);
    let saved: Vec<Option<HeroDict>> = p.heroes.iter().map(|h| Some(h.to_dict())).collect();
    let saved_items: Vec<Option<Item>> = p.items.iter().map(|i| Some(i.clone())).collect();
    let q = Preset::load_parsed("round", Some((saved, saved_items)));
    assert_eq!(q.filename, p.filename);
    let genders: Vec<&str> = q.heroes.iter().map(|h| h.gender.as_str()).collect();
    assert_eq!(genders, vec!["f", "m", "m"]);
    assert_eq!(q.heroes[0].base.username.as_deref(), Some("my Lina"));
    assert_eq!(q.heroes[2].skills[0].entity.key, "s1");
    assert_eq!(q.items[0].entity.name, "Blink");
}

#[test]
fn from_dict_defaults_the_gender_to_m() {
    let d = HeroDict {
        entity: LocalizableEntity { name: "Axe".to_string(), key: "h".to_string(), username: None },
        gender: None,
        skills: vec![],
    };
    assert_eq!(Hero::from_dict(&d).gender, "m");
    let d2 = HeroDict { gender: Some("x".to_string()), ..d };
    assert_eq!(Hero::from_dict(&d2).gender, "x");
}
