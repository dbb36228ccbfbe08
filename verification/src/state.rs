//! The state behind the user interface: the heroes and items being edited,
//! the rows the search filters show, the settings and the status line, with
//! every operation the interface offers.
use vstd::prelude::*;
use vstd::string::*;
use crate::config::{Config, ConfigModel, vpk_path_of};
use crate::dotatypes::{
    display_name, EntityModel, Hero, HeroModel, Item, LocalizableEntity, Skill,
    gender_tag, hero_key_pairs, insert_pairs, opt_view,
};
use crate::kvmap::KeyValues;
use crate::presets::{Preset, PresetModel, heroes_view, items_view, json_ext};
use crate::text::{contains, contains_exec, to_chars};

verus! {

/// The lowercase form of a string, as `str::to_lowercase` computes it.
pub uninterp spec fn lowercase(s: Seq<char>) -> Seq<char>;

/// Lowercases `s` with `str::to_lowercase`. The contract names the result and
/// states only that it is empty exactly when `s` is, since every character
/// lowercases to at least one character.
#[verifier::external_body]
fn to_lowercase(s: &str) -> (r: String)
    ensures
        r@ == lowercase(s@),
        r@.len() == 0 <==> s@.len() == 0,
{
    s.to_lowercase()
}

/// What `serde_json` reads from a skills edit: `None` when the text is not a
/// JSON array, else for each element its `custom` member when that is a string.
pub uninterp spec fn skill_customs_of(json: Seq<char>) -> Option<Seq<Option<Seq<char>>>>;

/// The views of a list of optional strings.
pub open spec fn opts_view(v: Seq<Option<String>>) -> Seq<Option<Seq<char>>> {
    v.map_values(|o: Option<String>| opt_view(o))
}

/// Reads a skills edit with `serde_json::from_str` as an array of JSON values
/// and takes each element's `custom` string (`Value::get`, `Value::as_str`);
/// the contract only names the result.
#[verifier::external_body]
fn parse_skill_customs(json: &str) -> (r: Option<Vec<Option<String>>>)
    ensures
        match r {
            Some(v) => skill_customs_of(json@) == Some(opts_view(v@)),
            None => skill_customs_of(json@) is None,
        },
{
    match serde_json::from_str::<Vec<serde_json::Value>>(json) {
        Ok(vs) => Some(
            vs.iter().map(|v| v.get("custom").and_then(|c| c.as_str()).map(|c| c.to_string())).collect(),
        ),
        Err(_) => None,
    }
}

/// The model of the interface state.
pub struct AppModel {
    pub heroes: Seq<HeroModel>,
    pub items: Seq<EntityModel>,
    pub filtered_heroes: Seq<usize>,
    pub filtered_items: Seq<usize>,
    pub config: ConfigModel,
    pub hero_query: Seq<char>,
    pub item_query: Seq<char>,
    pub status: Seq<char>,
}

/// Indices into a list of `n` rows, strictly increasing.
pub open spec fn indices_valid(ix: Seq<usize>, n: int) -> bool {
    &&& forall|i: int| 0 <= i < ix.len() ==> #[trigger] ix[i] < n
    &&& forall|i: int, j: int| 0 <= i < j < ix.len() ==> ix[i] < ix[j]
}

/// The shown rows are rows of the lists they index.
pub open spec fn app_wf(m: AppModel) -> bool {
    &&& indices_valid(m.filtered_heroes, m.heroes.len() as int)
    &&& indices_valid(m.filtered_items, m.items.len() as int)
}

/// Every row of a list of `n`.
pub open spec fn all_indices(n: int) -> Seq<usize> {
    Seq::new(n as nat, |i: int| i as usize)
}

/// An entity whose lowercased name or user's name contains `q`.
pub open spec fn entity_matches(e: EntityModel, q: Seq<char>) -> bool {
    ||| contains(lowercase(e.name), q)
    ||| (e.username matches Some(u) && contains(lowercase(u), q))
}

/// The rows among the first `n` of `es` that match `q`, in order.
pub open spec fn matching_indices(es: Seq<EntityModel>, q: Seq<char>, n: int) -> Seq<usize>
    decreases n,
{
    if n <= 0 {
        Seq::empty()
    } else if entity_matches(es[n - 1], q) {
        matching_indices(es, q, n - 1).push((n - 1) as usize)
    } else {
        matching_indices(es, q, n - 1)
    }
}

/// The rows a lowercased query shows: all for an empty query.
pub open spec fn filter_rows(es: Seq<EntityModel>, q: Seq<char>) -> Seq<usize> {
    if q.len() == 0 {
        all_indices(es.len() as int)
    } else {
        matching_indices(es, q, es.len() as int)
    }
}

/// The base entities of heroes.
pub open spec fn hero_bases(hs: Seq<HeroModel>) -> Seq<EntityModel> {
    hs.map_values(|h: HeroModel| h.base)
}

/// A user's name as stored: none when empty.
pub open spec fn nonempty(u: Seq<char>) -> Option<Seq<char>> {
    if u.len() == 0 {
        None
    } else {
        Some(u)
    }
}

/// A skill's custom name as stored: none when empty or `N/A`.
pub open spec fn custom_name(c: Seq<char>) -> Option<Seq<char>> {
    if c.len() == 0 || c == seq!['N', '/', 'A'] {
        None
    } else {
        Some(c)
    }
}

/// `e` with its user's name set to `u`.
pub open spec fn with_username(e: EntityModel, u: Option<Seq<char>>) -> EntityModel {
    EntityModel { name: e.name, key: e.key, username: u }
}

/// Skills with the custom names of an edit applied, position by position;
/// positions the edit does not give a string for are left alone.
pub open spec fn apply_customs(skills: Seq<EntityModel>, customs: Seq<Option<Seq<char>>>) -> Seq<
    EntityModel,
> {
    Seq::new(
        skills.len(),
        |i: int|
            if i < customs.len() && customs[i] is Some {
                with_username(skills[i], custom_name(customs[i]->0))
            } else {
                skills[i]
            },
    )
}

/// A hero after an edit: its user's name set, and its skills' when the edit
/// could be read.
pub open spec fn edited_hero(
    h: HeroModel,
    username: Seq<char>,
    customs: Option<Seq<Option<Seq<char>>>>,
) -> HeroModel {
    HeroModel {
        base: with_username(h.base, nonempty(username)),
        gender: h.gender,
        skills: match customs {
            Some(c) => apply_customs(h.skills, c),
            None => h.skills,
        },
    }
}

/// A hero with every user's name removed.
pub open spec fn reset_hero(h: HeroModel) -> HeroModel {
    HeroModel {
        base: with_username(h.base, None),
        gender: h.gender,
        skills: h.skills.map_values(|e: EntityModel| with_username(e, None)),
    }
}

/// The tokens of the heroes, a later hero winning over an earlier one.
pub open spec fn heroes_overlay(hs: Seq<HeroModel>) -> Map<Seq<char>, Seq<char>>
    decreases hs.len(),
{
    if hs.len() == 0 {
        Map::empty()
    } else {
        heroes_overlay(hs.drop_last()).union_prefer_right(hero_key_pairs(hs.last()))
    }
}

/// The tokens written on saving: the heroes', then the items', a later entry
/// winning on a shared key.
pub open spec fn changes_overlay(hs: Seq<HeroModel>, is: Seq<EntityModel>) -> Map<
    Seq<char>,
    Seq<char>,
> {
    insert_pairs(heroes_overlay(hs), is)
}

/// Whether `index` picks one of `n` shown rows.
pub open spec fn in_range(index: i32, n: int) -> bool {
    0 <= index < n
}

/// The state of the editor.
pub struct AppData {
    heroes: Vec<Hero>,
    items: Vec<Item>,
    filtered_heroes: Vec<usize>,
    filtered_items: Vec<usize>,
    config: Config,
    filter_hero_query: String,
    filter_item_query: String,
    status_message: String,
}

impl View for AppData {
    type V = AppModel;

    closed spec fn view(&self) -> AppModel {
        AppModel {
            heroes: heroes_view(self.heroes@),
            items: items_view(self.items@),
            filtered_heroes: self.filtered_heroes@,
            filtered_items: self.filtered_items@,
            config: self.config@,
            hero_query: self.filter_hero_query@,
            item_query: self.filter_item_query@,
            status: self.status_message@,
        }
    }
}

impl AppData {
    /// Shown rows always index rows of the lists, in increasing order.
    #[verifier::type_invariant]
    spec fn wf(self) -> bool {
        &&& indices_valid(self.filtered_heroes@, self.heroes@.len() as int)
        &&& indices_valid(self.filtered_items@, self.items@.len() as int)
    }
}

/// `0, 1, ..., n - 1`.
fn index_list(n: usize) -> (r: Vec<usize>)
    ensures
        r@ == all_indices(n as int),
{
    let mut r: Vec<usize> = Vec::new();
    let mut i: usize = 0;
    while i < n
        invariant
            0 <= i <= n,
            r@ == all_indices(i as int),
        decreases n - i,
    {
        r.push(i);
        i = i + 1;
        assert(r@ =~= all_indices(i as int));
    }
    r
}

/// Whether an entity, given its lowercased name and user's name, matches a
/// lowercased query.
pub fn query_matches(name_lower: &str, username_lower: Option<&str>, query: &str) -> (r: bool)
    ensures
        r == (contains(name_lower@, query@) || (username_lower matches Some(u) && contains(
            u@,
            query@,
        ))),
{
    let q = to_chars(query);
    if contains_exec(&to_chars(name_lower), &q) {
        return true;
    }
    match username_lower {
        Some(u) => contains_exec(&to_chars(u), &q),
        None => false,
    }
}

/// Whether an entity matches a lowercased query.
fn entity_matches_exec(e: &LocalizableEntity, q: &str) -> (r: bool)
    ensures
        r == entity_matches(e@, q@),
{
    let n = to_lowercase(e.name.as_str());
    match &e.username {
        Some(u) => {
            let ul = to_lowercase(u.as_str());
            query_matches(n.as_str(), Some(ul.as_str()), q)
        },
        None => query_matches(n.as_str(), None, q),
    }
}

/// The rows of `es` that match the lowercased query `q`.
fn matching_rows(es: &Vec<&LocalizableEntity>, q: &str) -> (r: Vec<usize>)
    ensures
        r@ == matching_indices(es@.map_values(|e: &LocalizableEntity| e@), q@, es.len() as int),
        indices_valid(r@, es.len() as int),
{
    let ghost ms = es@.map_values(|e: &LocalizableEntity| e@);
    let mut r: Vec<usize> = Vec::new();
    let mut i: usize = 0;
    while i < es.len()
        invariant
            0 <= i <= es.len(),
            ms == es@.map_values(|e: &LocalizableEntity| e@),
            r@ == matching_indices(ms, q@, i as int),
            indices_valid(r@, i as int),
        decreases es.len() - i,
    {
        let b = entity_matches_exec(es[i], q);
        assert(ms[i as int] == es@[i as int]@);
        if b {
            r.push(i);
        }
        i = i + 1;
    }
    r
}

impl AppData {
    /// The state right after start-up: every row shown, no query, no status.
    pub fn new(heroes: Vec<Hero>, items: Vec<Item>, config: Config) -> (r: AppData)
        ensures
            r@ == (AppModel {
                heroes: heroes_view(heroes@),
                items: items_view(items@),
                filtered_heroes: all_indices(heroes@.len() as int),
                filtered_items: all_indices(items@.len() as int),
                config: config@,
                hero_query: Seq::empty(),
                item_query: Seq::empty(),
                status: Seq::empty(),
            }),
            app_wf(r@),
    {
        let fh = index_list(heroes.len());
        let fi = index_list(items.len());
        AppData {
            heroes,
            items,
            filtered_heroes: fh,
            filtered_items: fi,
            config,
            filter_hero_query: String::new(),
            filter_item_query: String::new(),
            status_message: String::new(),
        }
    }
}


impl AppData {
    /// All heroes, in the order they were loaded.
    pub fn heroes(&self) -> (r: &Vec<Hero>)
        ensures
            heroes_view(r@) == self@.heroes,
    {
        &self.heroes
    }

    /// All items, in the order they were loaded.
    pub fn items(&self) -> (r: &Vec<Item>)
        ensures
            items_view(r@) == self@.items,
    {
        &self.items
    }

    /// The settings.
    pub fn config(&self) -> (r: &Config)
        ensures
            r@ == self@.config,
    {
        &self.config
    }

    /// The status line.
    pub fn status_message(&self) -> (r: String)
        ensures
            r@ == self@.status,
    {
        self.status_message.clone()
    }

    /// The configured Dota 2 directory, or the empty string.
    pub fn dota_path(&self) -> (r: String)
        ensures
            r@ == match self@.config.dota_directory {
                Some(d) => d,
                None => Seq::empty(),
            },
    {
        match &self.config.dota_directory {
            Some(d) => d.clone(),
            None => String::new(),
        }
    }

    /// Shows the heroes whose name or user's name contains `query`, case
    /// aside; an empty query shows them all.
    pub fn filter_heroes(&mut self, query: &str)
        ensures
            final(self)@ == (AppModel {
                hero_query: lowercase(query@),
                filtered_heroes: filter_rows(hero_bases(old(self)@.heroes), lowercase(query@)),
                ..old(self)@
            }),
            query@.len() == 0 ==> final(self)@.filtered_heroes == all_indices(
                old(self)@.heroes.len() as int,
            ),
            app_wf(final(self)@),
    {
        proof {
            use_type_invariant(&*self);
        }
        let q = to_lowercase(query);
        let rows = if q.as_str().is_empty() {
            index_list(self.heroes.len())
        } else {
            let mut es: Vec<&LocalizableEntity> = Vec::new();
            let mut i: usize = 0;
            while i < self.heroes.len()
                invariant
                    0 <= i <= self.heroes.len(),
                    es@.map_values(|e: &LocalizableEntity| e@) == hero_bases(
                        heroes_view(self.heroes@),
                    ).take(i as int),
                decreases self.heroes.len() - i,
            {
                let ghost e0 = es@;
                es.push(&self.heroes[i].base);
                proof {
                    let a = es@.map_values(|e: &LocalizableEntity| e@);
                    let b = hero_bases(heroes_view(self.heroes@)).take(i + 1);
                    assert(e0.map_values(|e: &LocalizableEntity| e@).len() == e0.len());
                    assert forall|j: int| 0 <= j < i + 1 implies a[j] == b[j] by {
                        if j < i {
                            assert(e0.map_values(|e: &LocalizableEntity| e@)[j] == hero_bases(
                                heroes_view(self.heroes@),
                            ).take(i as int)[j]);
                        }
                    }
                    assert(a =~= b);
                }
                i = i + 1;
            }
            assert(hero_bases(heroes_view(self.heroes@)).take(i as int) =~= hero_bases(
                heroes_view(self.heroes@),
            ));
            assert(es@.len() == es@.map_values(|e: &LocalizableEntity| e@).len());
            matching_rows(&es, q.as_str())
        };
        assert(indices_valid(rows@, self.heroes@.len() as int));
        self.filtered_heroes = rows;
        self.filter_hero_query = q;
        proof {
            use_type_invariant(&*self);
        }
    }

    /// Shows the items whose name or user's name contains `query`, case
    /// aside; an empty query shows them all.
    pub fn filter_items(&mut self, query: &str)
        ensures
            final(self)@ == (AppModel {
                item_query: lowercase(query@),
                filtered_items: filter_rows(old(self)@.items, lowercase(query@)),
                ..old(self)@
            }),
            query@.len() == 0 ==> final(self)@.filtered_items == all_indices(
                old(self)@.items.len() as int,
            ),
            app_wf(final(self)@),
    {
        proof {
            use_type_invariant(&*self);
        }
        let q = to_lowercase(query);
        let rows = if q.as_str().is_empty() {
            index_list(self.items.len())
        } else {
            let mut es: Vec<&LocalizableEntity> = Vec::new();
            let mut i: usize = 0;
            while i < self.items.len()
                invariant
                    0 <= i <= self.items.len(),
                    es@.map_values(|e: &LocalizableEntity| e@) == items_view(self.items@).take(
                        i as int,
                    ),
                decreases self.items.len() - i,
            {
                let ghost e0 = es@;
                es.push(&self.items[i].entity);
                proof {
                    let a = es@.map_values(|e: &LocalizableEntity| e@);
                    let b = items_view(self.items@).take(i + 1);
                    assert(e0.map_values(|e: &LocalizableEntity| e@).len() == e0.len());
                    assert forall|j: int| 0 <= j < i + 1 implies a[j] == b[j] by {
                        if j < i {
                            assert(e0.map_values(|e: &LocalizableEntity| e@)[j] == items_view(
                                self.items@,
                            ).take(i as int)[j]);
                        }
                    }
                    assert(a =~= b);
                }
                i = i + 1;
            }
            assert(items_view(self.items@).take(i as int) =~= items_view(self.items@));
            assert(es@.len() == es@.map_values(|e: &LocalizableEntity| e@).len());
            matching_rows(&es, q.as_str())
        };
        assert(indices_valid(rows@, self.items@.len() as int));
        self.filtered_items = rows;
        self.filter_item_query = q;
        proof {
            use_type_invariant(&*self);
        }
    }
}


/// Whether `s` is `N/A`.
fn is_not_available(s: &String) -> (r: bool)
    ensures
        r == (s@ == seq!['N', '/', 'A']),
{
    let c = to_chars(s.as_str());
    let r = c.len() == 3 && c[0] == 'N' && c[1] == '/' && c[2] == 'A';
    proof {
        if c.len() == 3 {
            assert(c@ =~= seq![c@[0], c@[1], c@[2]]);
        }
    }
    r
}

/// A user's name as stored: none when empty.
fn stored_username(u: String) -> (r: Option<String>)
    ensures
        opt_view(r) == nonempty(u@),
{
    if u.as_str().is_empty() {
        None
    } else {
        Some(u)
    }
}

/// A skill's custom name as stored: none when empty or `N/A`.
fn stored_custom(c: &String) -> (r: Option<String>)
    ensures
        opt_view(r) == custom_name(c@),
{
    if c.as_str().is_empty() || is_not_available(c) {
        None
    } else {
        Some(c.clone())
    }
}

/// `e` with its user's name replaced.
fn entity_with_username(e: &LocalizableEntity, u: Option<String>) -> (r: LocalizableEntity)
    ensures
        r@ == with_username(e@, opt_view(u)),
{
    LocalizableEntity { name: e.name.clone(), key: e.key.clone(), username: u }
}

/// `skills` with the custom names of an edit applied.
fn apply_customs_exec(skills: &mut Vec<Skill>, customs: &Vec<Option<String>>)
    ensures
        crate::dotatypes::skills_view(final(skills)@) == apply_customs(
            crate::dotatypes::skills_view(old(skills)@),
            opts_view(customs@),
        ),
{
    let ghost s0 = crate::dotatypes::skills_view(skills@);
    let ghost cv = opts_view(customs@);
    let ghost ap = apply_customs(s0, cv);
    let mut i: usize = 0;
    while i < skills.len()
        invariant
            0 <= i <= skills.len(),
            skills@.len() == s0.len(),
            cv == opts_view(customs@),
            ap == apply_customs(s0, cv),
            forall|j: int| 0 <= j < i ==> #[trigger] skills@[j]@ == ap[j],
            forall|j: int| i <= j < skills@.len() ==> #[trigger] skills@[j]@ == s0[j],
        decreases skills.len() - i,
    {
        let ghost sk = skills@;
        assert(sk[i as int]@ == s0[i as int]);
        if i < customs.len() {
            match &customs[i] {
                Some(c) => {
                    assert(cv[i as int] == Some(c@));
                    let u = stored_custom(c);
                    let ns = Skill { entity: entity_with_username(&skills[i].entity, u) };
                    skills.set(i, ns);
                    assert(skills@[i as int]@ == ap[i as int]);
                },
                None => {
                    assert(cv[i as int] is None);
                    assert(skills@[i as int]@ == ap[i as int]);
                },
            }
        } else {
            assert(skills@[i as int]@ == ap[i as int]);
        }
        i = i + 1;
    }
    assert(crate::dotatypes::skills_view(skills@) =~= ap);
}

/// `e` with its user's name removed.
fn reset_entity(e: &LocalizableEntity) -> (r: LocalizableEntity)
    ensures
        r@ == with_username(e@, None),
{
    entity_with_username(e, None)
}

/// A hero with every user's name removed.
fn reset_hero_exec(h: &Hero) -> (r: Hero)
    ensures
        r@ == reset_hero(h@),
{
    let mut skills: Vec<Skill> = Vec::new();
    let mut i: usize = 0;
    while i < h.skills.len()
        invariant
            0 <= i <= h.skills.len(),
            skills@.len() == i,
            forall|j: int|
                0 <= j < i ==> #[trigger] skills@[j]@ == with_username(h.skills@[j]@, None),
        decreases h.skills.len() - i,
    {
        skills.push(Skill { entity: reset_entity(&h.skills[i].entity) });
        i = i + 1;
    }
    let r = Hero { base: reset_entity(&h.base), gender: h.gender.clone(), skills };
    assert(r@.skills =~= reset_hero(h@).skills);
    r
}


/// The views of optional strings read from a skills edit.
pub open spec fn customs_view(c: Option<Vec<Option<String>>>) -> Option<Seq<Option<Seq<char>>>> {
    match c {
        Some(v) => Some(opts_view(v@)),
        None => None,
    }
}

/// The shown rows of a list, as their models.
pub open spec fn shown<T>(rows: Seq<usize>, all: Seq<T>) -> Seq<T> {
    rows.map_values(|i: usize| all[i as int])
}

impl AppData {
    /// Edits the hero in shown row `index`: its user's name becomes
    /// `username` (none when empty) and, when `customs` could be read, each
    /// skill with a custom string gets it (none when empty or `N/A`). A row
    /// out of range changes nothing.
    pub fn edit_hero_with(
        &mut self,
        index: i32,
        username: String,
        customs: Option<Vec<Option<String>>>,
    )
        ensures
            if in_range(index, old(self)@.filtered_heroes.len() as int) {
                let row = old(self)@.filtered_heroes[index as int] as int;
                final(self)@ == (AppModel {
                    heroes: old(self)@.heroes.update(
                        row,
                        edited_hero(old(self)@.heroes[row], username@, customs_view(customs)),
                    ),
                    status: "Герой сохранён"@,
                    ..old(self)@
                })
            } else {
                final(self)@ == old(self)@
            },
            final(self)@.heroes.len() == old(self)@.heroes.len(),
            forall|j: int|
                0 <= j < old(self)@.heroes.len() ==> {
                    &&& (#[trigger] final(self)@.heroes[j]).base.name == old(self)@.heroes[j].base.name
                    &&& final(self)@.heroes[j].base.key == old(self)@.heroes[j].base.key
                    &&& final(self)@.heroes[j].gender == old(self)@.heroes[j].gender
                    &&& final(self)@.heroes[j].skills.len() == old(self)@.heroes[j].skills.len()
                    &&& forall|k: int|
                        0 <= k < old(self)@.heroes[j].skills.len() ==> {
                            &&& (#[trigger] final(self)@.heroes[j].skills[k]).name
                                == old(self)@.heroes[j].skills[k].name
                            &&& final(self)@.heroes[j].skills[k].key
                                == old(self)@.heroes[j].skills[k].key
                        }
                },
            app_wf(final(self)@),
    {
        proof {
            use_type_invariant(&*self);
        }
        if index < 0 || index as usize >= self.filtered_heroes.len() {
            return;
        }
        let row = self.filtered_heroes[index as usize];
        let mut h = self.heroes[row].clone();
        h.base = entity_with_username(&h.base, stored_username(username));
        match &customs {
            Some(c) => {
                apply_customs_exec(&mut h.skills, c);
            },
            None => {},
        }
        let ghost old_heroes = self.heroes@;
        self.heroes[row] = h;
        self.status_message = String::from_str("Герой сохранён");
        proof {
            assert(heroes_view(self.heroes@) =~= heroes_view(old_heroes).update(
                row as int,
                edited_hero(heroes_view(old_heroes)[row as int], username@, customs_view(customs)),
            ));
            law_edit_keeps_all_but_user_names(
                heroes_view(old_heroes)[row as int],
                username@,
                customs_view(customs),
            );
        }
    }

    /// Edits the hero in shown row `index` from the user's name and the JSON
    /// list of skill edits the interface sends.
    pub fn edit_hero(&mut self, index: i32, username: String, skills_json: &str)
        ensures
            if in_range(index, old(self)@.filtered_heroes.len() as int) {
                let row = old(self)@.filtered_heroes[index as int] as int;
                final(self)@ == (AppModel {
                    heroes: old(self)@.heroes.update(
                        row,
                        edited_hero(
                            old(self)@.heroes[row],
                            username@,
                            skill_customs_of(skills_json@),
                        ),
                    ),
                    status: "Герой сохранён"@,
                    ..old(self)@
                })
            } else {
                final(self)@ == old(self)@
            },
            final(self)@.heroes.len() == old(self)@.heroes.len(),
            forall|j: int|
                0 <= j < old(self)@.heroes.len() ==> {
                    &&& (#[trigger] final(self)@.heroes[j]).base.name == old(self)@.heroes[j].base.name
                    &&& final(self)@.heroes[j].base.key == old(self)@.heroes[j].base.key
                    &&& final(self)@.heroes[j].gender == old(self)@.heroes[j].gender
                    &&& final(self)@.heroes[j].skills.len() == old(self)@.heroes[j].skills.len()
                    &&& forall|k: int|
                        0 <= k < old(self)@.heroes[j].skills.len() ==> {
                            &&& (#[trigger] final(self)@.heroes[j].skills[k]).name
                                == old(self)@.heroes[j].skills[k].name
                            &&& final(self)@.heroes[j].skills[k].key
                                == old(self)@.heroes[j].skills[k].key
                        }
                },
            app_wf(final(self)@),
    {
        let customs = parse_skill_customs(skills_json);
        self.edit_hero_with(index, username, customs);
    }

    /// Sets the user's name of the item in shown row `index` (none when
    /// empty). A row out of range changes nothing.
    pub fn edit_item(&mut self, index: i32, username: String)
        ensures
            if in_range(index, old(self)@.filtered_items.len() as int) {
                let row = old(self)@.filtered_items[index as int] as int;
                final(self)@ == (AppModel {
                    items: old(self)@.items.update(
                        row,
                        with_username(old(self)@.items[row], nonempty(username@)),
                    ),
                    status: "Предмет сохранён"@,
                    ..old(self)@
                })
            } else {
                final(self)@ == old(self)@
            },
            final(self)@.items.len() == old(self)@.items.len(),
            forall|j: int|
                0 <= j < old(self)@.items.len() ==> {
                    &&& (#[trigger] final(self)@.items[j]).name == old(self)@.items[j].name
                    &&& final(self)@.items[j].key == old(self)@.items[j].key
                },
            app_wf(final(self)@),
    {
        proof {
            use_type_invariant(&*self);
        }
        if index < 0 || index as usize >= self.filtered_items.len() {
            return;
        }
        let row = self.filtered_items[index as usize];
        let e = entity_with_username(&self.items[row].entity, stored_username(username));
        let ghost old_items = self.items@;
        self.items[row] = Item { entity: e };
        self.status_message = String::from_str("Предмет сохранён");
        proof {
            assert(items_view(self.items@) =~= items_view(old_items).update(
                row as int,
                with_username(items_view(old_items)[row as int], nonempty(username@)),
            ));
        }
    }

    /// Removes every user's name of every hero, skill and item.
    pub fn reset_all(&mut self)
        ensures
            final(self)@ == (AppModel {
                heroes: old(self)@.heroes.map_values(|h: HeroModel| reset_hero(h)),
                items: old(self)@.items.map_values(|e: EntityModel| with_username(e, None)),
                status: "Все настройки сброшены"@,
                ..old(self)@
            }),
            final(self)@.heroes.len() == old(self)@.heroes.len(),
            forall|j: int|
                0 <= j < old(self)@.heroes.len() ==> {
                    &&& (#[trigger] final(self)@.heroes[j]).base.name == old(self)@.heroes[j].base.name
                    &&& final(self)@.heroes[j].base.key == old(self)@.heroes[j].base.key
                    &&& final(self)@.heroes[j].gender == old(self)@.heroes[j].gender
                    &&& final(self)@.heroes[j].skills.len() == old(self)@.heroes[j].skills.len()
                    &&& forall|k: int|
                        0 <= k < old(self)@.heroes[j].skills.len() ==> {
                            &&& (#[trigger] final(self)@.heroes[j].skills[k]).name
                                == old(self)@.heroes[j].skills[k].name
                            &&& final(self)@.heroes[j].skills[k].key
                                == old(self)@.heroes[j].skills[k].key
                        }
                },
            final(self)@.items.len() == old(self)@.items.len(),
            forall|j: int|
                0 <= j < old(self)@.items.len() ==> {
                    &&& (#[trigger] final(self)@.items[j]).name == old(self)@.items[j].name
                    &&& final(self)@.items[j].key == old(self)@.items[j].key
                },
            forall|j: int|
                0 <= j < old(self)@.heroes.len() ==> {
                    &&& (#[trigger] final(self)@.heroes[j]).base.username is None
                    &&& forall|k: int|
                        0 <= k < final(self)@.heroes[j].skills.len() ==> (
                        #[trigger] final(self)@.heroes[j].skills[k]).username is None
                },
            forall|j: int|
                0 <= j < old(self)@.items.len() ==> (#[trigger] final(self)@.items[j]).username is None,
            app_wf(final(self)@),
    {
        proof {
            use_type_invariant(&*self);
        }
        let ghost hv = heroes_view(self.heroes@);
        let ghost iv = items_view(self.items@);
        let ghost items0 = self.items@;
        let mut i: usize = 0;
        while i < self.heroes.len()
            invariant
                0 <= i <= self.heroes.len(),
                self.heroes@.len() == hv.len(),
                forall|j: int| 0 <= j < i ==> #[trigger] self.heroes@[j]@ == reset_hero(hv[j]),
                forall|j: int| i <= j < self.heroes@.len() ==> #[trigger] self.heroes@[j]@ == hv[j],
                self.items@ == items0,
                iv == items_view(items0),
                self.filtered_heroes@ == old(self).filtered_heroes@,
                self.filtered_items@ == old(self).filtered_items@,
                self.config@ == old(self).config@,
                self.filter_hero_query@ == old(self).filter_hero_query@,
                self.filter_item_query@ == old(self).filter_item_query@,
                indices_valid(self.filtered_heroes@, self.heroes@.len() as int),
                indices_valid(self.filtered_items@, self.items@.len() as int),
            decreases self.heroes.len() - i,
        {
            assert(self.heroes@[i as int]@ == hv[i as int]);
            assert(items_view(items0).len() == items0.len());
            let h = reset_hero_exec(&self.heroes[i]);
            self.heroes[i] = h;
            i = i + 1;
        }
        let mut k: usize = 0;
        while k < self.items.len()
            invariant
                0 <= k <= self.items.len(),
                self.items@.len() == iv.len(),
                forall|j: int| 0 <= j < k ==> #[trigger] self.items@[j]@ == with_username(iv[j], None),
                forall|j: int| k <= j < self.items@.len() ==> #[trigger] self.items@[j]@ == iv[j],
                self.heroes@.len() == hv.len(),
                forall|j: int| 0 <= j < hv.len() ==> #[trigger] self.heroes@[j]@ == reset_hero(hv[j]),
                self.filtered_heroes@ == old(self).filtered_heroes@,
                self.filtered_items@ == old(self).filtered_items@,
                self.config@ == old(self).config@,
                self.filter_hero_query@ == old(self).filter_hero_query@,
                self.filter_item_query@ == old(self).filter_item_query@,
                indices_valid(self.filtered_heroes@, self.heroes@.len() as int),
                indices_valid(self.filtered_items@, self.items@.len() as int),
            decreases self.items.len() - k,
        {
            assert(self.items@[k as int]@ == iv[k as int]);
            let e = reset_entity(&self.items[k].entity);
            self.items[k] = Item { entity: e };
            k = k + 1;
        }
        self.status_message = String::from_str("Все настройки сброшены");
        proof {
            assert(heroes_view(self.heroes@) =~= hv.map_values(|h: HeroModel| reset_hero(h)));
            assert(items_view(self.items@) =~= iv.map_values(
                |e: EntityModel| with_username(e, None),
            ));
        }
    }
}


/// `"` + `prefix` + `middle` + `suffix`, built by appending.
fn concat3(prefix: &str, middle: &str, suffix: &str) -> (r: String)
    ensures
        r@ == prefix@ + middle@ + suffix@,
{
    let mut r = String::from_str(prefix);
    r.append(middle);
    r.append(suffix);
    r
}

/// Copies of all heroes.
fn clone_heroes(v: &Vec<Hero>) -> (r: Vec<Hero>)
    ensures
        heroes_view(r@) == heroes_view(v@),
{
    let mut r: Vec<Hero> = Vec::new();
    let mut i: usize = 0;
    while i < v.len()
        invariant
            0 <= i <= v.len(),
            r@.len() == i,
            forall|j: int| 0 <= j < i ==> #[trigger] r@[j]@ == v@[j]@,
        decreases v.len() - i,
    {
        r.push(v[i].clone());
        i = i + 1;
    }
    assert(heroes_view(r@) =~= heroes_view(v@));
    r
}

/// Copies of all items.
fn clone_items(v: &Vec<Item>) -> (r: Vec<Item>)
    ensures
        items_view(r@) == items_view(v@),
{
    let mut r: Vec<Item> = Vec::new();
    let mut i: usize = 0;
    while i < v.len()
        invariant
            0 <= i <= v.len(),
            r@.len() == i,
            forall|j: int| 0 <= j < i ==> #[trigger] r@[j]@ == v@[j]@,
        decreases v.len() - i,
    {
        r.push(v[i].clone());
        i = i + 1;
    }
    assert(items_view(r@) =~= items_view(v@));
    r
}

impl AppData {
    /// Replaces all heroes and items by a loaded preset's, clears both
    /// queries, shows every row and reports the preset as loaded.
    pub fn load_preset(&mut self, preset: Preset, filename: &str)
        ensures
            final(self)@ == (AppModel {
                heroes: preset@.heroes,
                items: preset@.items,
                filtered_heroes: all_indices(preset@.heroes.len() as int),
                filtered_items: all_indices(preset@.items.len() as int),
                hero_query: Seq::empty(),
                item_query: Seq::empty(),
                status: "Пресет '"@ + filename@ + "' загружен"@,
                ..old(self)@
            }),
            app_wf(final(self)@),
    {
        proof {
            use_type_invariant(&*self);
        }
        self.filtered_heroes = Vec::new();
        self.filtered_items = Vec::new();
        let Preset { filename: _, heroes, items } = preset;
        let nh = heroes.len();
        let ni = items.len();
        self.heroes = heroes;
        self.items = items;
        self.filtered_heroes = index_list(nh);
        self.filtered_items = index_list(ni);
        self.filter_hero_query = String::new();
        self.filter_item_query = String::new();
        self.status_message = concat3("Пресет '", filename, "' загружен");
    }

    /// A preset named `name` holding copies of every hero and item, with the
    /// status reporting it saved; nothing for an empty name.
    pub fn save_preset(&mut self, name: &str) -> (r: Option<Preset>)
        ensures
            name@.len() == 0 ==> r is None && final(self)@ == old(self)@,
            name@.len() != 0 ==> (r matches Some(p) && p@ == (PresetModel {
                filename: name@ + json_ext(),
                heroes: old(self)@.heroes,
                items: old(self)@.items,
            })),
            name@.len() != 0 ==> final(self)@ == (AppModel {
                status: "Пресет '"@ + name@ + "' сохранён"@,
                ..old(self)@
            }),
            app_wf(final(self)@),
    {
        proof {
            use_type_invariant(&*self);
        }
        if name.is_empty() {
            return None;
        }
        let p = Preset::new(name, clone_heroes(&self.heroes), clone_items(&self.items));
        self.status_message = concat3("Пресет '", name, "' сохранён");
        Some(p)
    }

    /// The tokens that saving writes: each hero's, then each item's; a later
    /// entry wins over an earlier one with the same key. Saving rewrites the
    /// values of these keys in the localization file with `replace_kv_pairs`
    /// and leaves every other line as it is.
    pub fn change_overlay(&self) -> (r: KeyValues)
        ensures
            r@ == changes_overlay(self@.heroes, self@.items),
    {
        let ghost hv = heroes_view(self.heroes@);
        let ghost iv = items_view(self.items@);
        let mut kv = KeyValues::new();
        let mut i: usize = 0;
        while i < self.heroes.len()
            invariant
                0 <= i <= self.heroes.len(),
                hv == heroes_view(self.heroes@),
                kv@ == heroes_overlay(hv.take(i as int)),
            decreases self.heroes.len() - i,
        {
            kv.extend(self.heroes[i].to_key_pairs());
            i = i + 1;
            assert(hv.take(i as int).drop_last() =~= hv.take(i - 1));
        }
        assert(hv.take(i as int) =~= hv);
        let ghost base = kv@;
        let mut k: usize = 0;
        while k < self.items.len()
            invariant
                0 <= k <= self.items.len(),
                iv == items_view(self.items@),
                base == heroes_overlay(hv),
                hv == heroes_view(self.heroes@),
                kv@ == insert_pairs(base, iv.take(k as int)),
            decreases self.items.len() - k,
        {
            let (key, v) = self.items[k].to_key_pair();
            kv.insert(key, v);
            k = k + 1;
            assert(iv.take(k as int).drop_last() =~= iv.take(k - 1));
        }
        assert(iv.take(k as int) =~= iv);
        kv
    }

    /// The localization archive to write, when a Dota 2 directory is set;
    /// otherwise the status reports that none is.
    pub fn vpk_target(&mut self) -> (r: Option<String>)
        ensures
            opt_view(r) == match old(self)@.config.dota_directory {
                Some(d) => Some(vpk_path_of(d)),
                None => None,
            },
            r is Some ==> final(self)@ == old(self)@,
            r is None ==> final(self)@ == (AppModel {
                status: "Путь к Dota 2 не указан"@,
                ..old(self)@
            }),
            app_wf(final(self)@),
    {
        proof {
            use_type_invariant(&*self);
        }
        let r = self.config.vpk_path();
        if r.is_none() {
            self.status_message = String::from_str("Путь к Dota 2 не указан");
        }
        r
    }

    /// Reports that the localization file to rewrite could not be read.
    pub fn source_unreadable(&mut self)
        ensures
            final(self)@ == (AppModel {
                status: "Не удалось прочитать abilities_russian.txt"@,
                ..old(self)@
            }),
            app_wf(final(self)@),
    {
        proof {
            use_type_invariant(&*self);
        }
        self.status_message = String::from_str("Не удалось прочитать abilities_russian.txt");
    }

    /// Reports how writing the archive went.
    pub fn finish_save(&mut self, outcome: Result<(), String>)
        ensures
            final(self)@ == (AppModel {
                status: match outcome {
                    Ok(_) => "Изменения сохранены в VPK"@,
                    Err(e) => "Ошибка сохранения VPK: "@ + e@,
                },
                ..old(self)@
            }),
            app_wf(final(self)@),
    {
        proof {
            use_type_invariant(&*self);
        }
        match outcome {
            Ok(_) => {
                self.status_message = String::from_str("Изменения сохранены в VPK");
            },
            Err(e) => {
                self.status_message = concat3("Ошибка сохранения VPK: ", e.as_str(), "");
                proof {
                    reveal_strlit("");
                    assert(self.status_message@ =~= "Ошибка сохранения VPK: "@ + e@);
                }
            },
        }
    }

    /// Sets the status line.
    pub fn set_status(&mut self, msg: String)
        ensures
            final(self)@ == (AppModel { status: msg@, ..old(self)@ }),
            app_wf(final(self)@),
    {
        proof {
            use_type_invariant(&*self);
        }
        self.status_message = msg;
    }

    /// Sets the Dota 2 directory and reports it.
    pub fn set_dota_path(&mut self, path: String)
        ensures
            final(self)@ == (AppModel {
                config: ConfigModel { dota_directory: Some(path@), ..old(self)@.config },
                status: "Путь Dota 2 обновлён: "@ + path@,
                ..old(self)@
            }),
            app_wf(final(self)@),
    {
        proof {
            use_type_invariant(&*self);
        }
        self.status_message = concat3("Путь Dota 2 обновлён: ", path.as_str(), "");
        proof {
            reveal_strlit("");
            assert(self.status_message@ =~= "Путь Dota 2 обновлён: "@ + path@);
        }
        self.config.dota_directory = Some(path);
    }

    /// Copies of the shown heroes, in shown order.
    pub fn visible_heroes(&self) -> (r: Vec<Hero>)
        ensures
            heroes_view(r@) == shown(self@.filtered_heroes, self@.heroes),
    {
        proof {
            use_type_invariant(self);
        }
        let mut r: Vec<Hero> = Vec::new();
        let mut i: usize = 0;
        while i < self.filtered_heroes.len()
            invariant
                0 <= i <= self.filtered_heroes.len(),
                indices_valid(self.filtered_heroes@, self.heroes@.len() as int),
                r@.len() == i,
                forall|j: int|
                    0 <= j < i ==> #[trigger] r@[j]@ == self.heroes@[self.filtered_heroes@[j] as int]@,
            decreases self.filtered_heroes.len() - i,
        {
            let row = self.filtered_heroes[i];
            r.push(self.heroes[row].clone());
            i = i + 1;
        }
        assert(heroes_view(r@) =~= shown(self@.filtered_heroes, self@.heroes));
        r
    }

    /// Copies of the shown items, in shown order.
    pub fn visible_items(&self) -> (r: Vec<Item>)
        ensures
            items_view(r@) == shown(self@.filtered_items, self@.items),
    {
        proof {
            use_type_invariant(self);
        }
        let mut r: Vec<Item> = Vec::new();
        let mut i: usize = 0;
        while i < self.filtered_items.len()
            invariant
                0 <= i <= self.filtered_items.len(),
                indices_valid(self.filtered_items@, self.items@.len() as int),
                r@.len() == i,
                forall|j: int|
                    0 <= j < i ==> #[trigger] r@[j]@ == self.items@[self.filtered_items@[j] as int]@,
            decreases self.filtered_items.len() - i,
        {
            let row = self.filtered_items[i];
            r.push(self.items[row].clone());
            i = i + 1;
        }
        assert(items_view(r@) =~= shown(self@.filtered_items, self@.items));
        r
    }
}


/// Law of editing a hero: afterwards its key reads as its gender-tagged new
/// name, whatever the skill edits were, unless a skill shares the hero's key.
pub proof fn law_edited_hero_reads_back(
    h: HeroModel,
    username: Seq<char>,
    customs: Option<Seq<Option<Seq<char>>>>,
)
    requires
        username.len() > 0,
        forall|i: int| 0 <= i < h.skills.len() ==> #[trigger] h.skills[i].key != h.base.key,
    ensures
        hero_key_pairs(edited_hero(h, username, customs))[h.base.key] == gender_tag(
            h.gender,
            username,
        ),
{
    let e = edited_hero(h, username, customs);
    assert(e.skills.len() == h.skills.len());
    assert forall|i: int| 0 <= i < e.skills.len() implies #[trigger] e.skills[i].key != e.base.key by {
        assert(e.skills[i].key == h.skills[i].key);
    }
    crate::dotatypes::law_hero_key_pairs(e, e.base.key);
}

/// Law of editing an item: afterwards the tokens written on saving map its
/// key to the new name, unless a later item shares the key.
pub proof fn law_edited_item_reads_back(
    hs: Seq<HeroModel>,
    is: Seq<EntityModel>,
    row: int,
    username: Seq<char>,
)
    requires
        0 <= row < is.len(),
        username.len() > 0,
        forall|j: int| row < j < is.len() ==> #[trigger] is[j].key != is[row].key,
    ensures
        changes_overlay(hs, is.update(row, with_username(is[row], nonempty(username))))[is[row].key]
            == username,
{
    let is2 = is.update(row, with_username(is[row], nonempty(username)));
    let k = is[row].key;
    crate::dotatypes::lemma_insert_pairs_lookup(heroes_overlay(hs), is2, k);
    crate::dotatypes::lemma_last_with_key(is2, k);
    let l = crate::dotatypes::last_with_key(is2, k);
    assert(is2[row].key == k);
    if l != row {
        assert(l > row);
        assert(is2[l] == is[l]);
    }
}

/// Law of resetting: a reset hero shows its own names only, and resetting
/// twice is resetting once.
pub proof fn law_reset_hero(h: HeroModel)
    ensures
        display_name(reset_hero(h).base) == h.base.name,
        forall|i: int|
            0 <= i < h.skills.len() ==> display_name(#[trigger] reset_hero(h).skills[i])
                == h.skills[i].name,
        reset_hero(reset_hero(h)) == reset_hero(h),
{
    assert(reset_hero(reset_hero(h)).skills =~= reset_hero(h).skills);
}

/// Law of filtering: the shown rows are rows of the list, in increasing order,
/// and each shows an entity that matches; an empty query shows every row.
pub proof fn law_filter_rows(es: Seq<EntityModel>, q: Seq<char>)
    requires
        es.len() <= usize::MAX,
    ensures
        indices_valid(filter_rows(es, q), es.len() as int),
        q.len() == 0 ==> filter_rows(es, q) == all_indices(es.len() as int),
        q.len() > 0 ==> forall|i: int|
            0 <= i < filter_rows(es, q).len() ==> entity_matches(
                es[#[trigger] filter_rows(es, q)[i] as int],
                q,
            ),
        q.len() > 0 ==> forall|r: int|
            0 <= r < es.len() && entity_matches(es[r], q) ==> filter_rows(es, q).contains(
                r as usize,
            ),
{
    lemma_matching_indices(es, q, es.len() as int);
    law_all_indices(es.len() as int);
}

pub proof fn lemma_matching_indices(es: Seq<EntityModel>, q: Seq<char>, n: int)
    requires
        n <= es.len() <= usize::MAX,
    ensures
        indices_valid(matching_indices(es, q, n), if n < 0 { 0 } else { n }),
        forall|i: int|
            0 <= i < matching_indices(es, q, n).len() ==> entity_matches(
                es[#[trigger] matching_indices(es, q, n)[i] as int],
                q,
            ),
        forall|r: int|
            0 <= r < n && entity_matches(es[r], q) ==> matching_indices(es, q, n).contains(
                r as usize,
            ),
    decreases n,
{
    if n > 0 {
        lemma_matching_indices(es, q, n - 1);
        let prev = matching_indices(es, q, n - 1);
        if entity_matches(es[n - 1], q) {
            let cur = prev.push((n - 1) as usize);
            assert forall|r: int| 0 <= r < n && entity_matches(es[r], q) implies cur.contains(
                r as usize,
            ) by {
                if r < n - 1 {
                    let k = choose|k: int| 0 <= k < prev.len() && prev[k] == r as usize;
                    assert(cur[k] == r as usize);
                } else {
                    assert(cur[prev.len() as int] == r as usize);
                }
            }
        }
    }
}

/// Law of the all-rows list: every row once, in order.
pub proof fn law_all_indices(n: int)
    requires
        0 <= n <= usize::MAX,
    ensures
        indices_valid(all_indices(n), n),
        all_indices(n).len() == n,
{
}

/// `contains` is transitive: what occurs in something that occurs in `s`
/// occurs in `s`.
proof fn lemma_contains_trans(s: Seq<char>, t: Seq<char>, u: Seq<char>)
    requires
        contains(s, t),
        contains(t, u),
    ensures
        contains(s, u),
{
    let i = choose|i: int| crate::text::occurs_at(s, t, i);
    let j = choose|j: int| crate::text::occurs_at(t, u, j);
    assert(s.subrange(i + j, i + j + u.len()) =~= t.subrange(j, j + u.len()));
    assert(crate::text::occurs_at(s, u, i + j));
}

/// Law: a query whose lowercase form contains that of another never shows a
/// row the other hides: every row it shows, the shorter query shows too, and
/// both list their rows in increasing order.
pub proof fn law_filter_narrows(es: Seq<EntityModel>, a: Seq<char>, b: Seq<char>)
    requires
        es.len() <= usize::MAX,
        contains(lowercase(b), lowercase(a)),
    ensures
        forall|x: usize|
            filter_rows(es, lowercase(b)).contains(x) ==> filter_rows(es, lowercase(a)).contains(x),
        indices_valid(filter_rows(es, lowercase(a)), es.len() as int),
        indices_valid(filter_rows(es, lowercase(b)), es.len() as int),
{
    let qa = lowercase(a);
    let qb = lowercase(b);
    law_filter_rows(es, qa);
    law_filter_rows(es, qb);
    assert forall|x: usize| filter_rows(es, qb).contains(x) implies filter_rows(es, qa).contains(
        x,
    ) by {
        let k = choose|k: int| 0 <= k < filter_rows(es, qb).len() && filter_rows(es, qb)[k] == x;
        assert(x < es.len());
        if qa.len() == 0 {
            assert(all_indices(es.len() as int)[x as int] == x);
        } else {
            if qb.len() == 0 {
                let j = choose|j: int| crate::text::occurs_at(qb, qa, j);
                assert(false);
            }
            let e = es[x as int];
            assert(entity_matches(e, qb));
            if contains(lowercase(e.name), qb) {
                lemma_contains_trans(lowercase(e.name), qb, qa);
            } else {
                let u = e.username->0;
                lemma_contains_trans(lowercase(u), qb, qa);
            }
            assert(entity_matches(e, qa));
        }
    }
}

/// Law: editing a skill list changes only user's names: the list keeps its
/// length and order, every skill keeps its in-game name and key, and a skill
/// the edit gives no string for is left as it was.
pub proof fn law_apply_customs_keeps_names(
    skills: Seq<EntityModel>,
    customs: Seq<Option<Seq<char>>>,
)
    ensures
        apply_customs(skills, customs).len() == skills.len(),
        forall|i: int|
            0 <= i < skills.len() ==> {
                &&& (#[trigger] apply_customs(skills, customs)[i]).name == skills[i].name
                &&& apply_customs(skills, customs)[i].key == skills[i].key
            },
        forall|i: int|
            0 <= i < skills.len() && (i >= customs.len() || customs[i] is None) ==> (
            #[trigger] apply_customs(skills, customs)[i]) == skills[i],
{
}

/// Law: resetting a hero removes every user's name and nothing else: the
/// hero keeps its in-game name, key and gender, and its skills in number and
/// order, each with its in-game name and key.
pub proof fn law_reset_keeps_all_but_user_names(h: HeroModel)
    ensures
        reset_hero(h).base.name == h.base.name,
        reset_hero(h).base.key == h.base.key,
        reset_hero(h).base.username is None,
        reset_hero(h).gender == h.gender,
        reset_hero(h).skills.len() == h.skills.len(),
        forall|i: int|
            0 <= i < h.skills.len() ==> {
                &&& (#[trigger] reset_hero(h).skills[i]).name == h.skills[i].name
                &&& reset_hero(h).skills[i].key == h.skills[i].key
                &&& reset_hero(h).skills[i].username is None
            },
{
}

/// Law: editing a hero changes only user's names: its in-game name, key and
/// gender stay, its user's name is the one given (none when empty), its
/// skills keep their number, order, in-game names and keys; so resetting
/// after an edit gives exactly what resetting before it gives.
pub proof fn law_edit_keeps_all_but_user_names(
    h: HeroModel,
    username: Seq<char>,
    customs: Option<Seq<Option<Seq<char>>>>,
)
    ensures
        edited_hero(h, username, customs).base.name == h.base.name,
        edited_hero(h, username, customs).base.key == h.base.key,
        edited_hero(h, username, customs).base.username == (if username.len() == 0 {
            None
        } else {
            Some(username)
        }),
        edited_hero(h, username, customs).gender == h.gender,
        edited_hero(h, username, customs).skills.len() == h.skills.len(),
        forall|i: int|
            0 <= i < h.skills.len() ==> {
                &&& (#[trigger] edited_hero(h, username, customs).skills[i]).name == h.skills[i].name
                &&& edited_hero(h, username, customs).skills[i].key == h.skills[i].key
            },
        reset_hero(edited_hero(h, username, customs)) == reset_hero(h),
{
    let e = edited_hero(h, username, customs);
    match customs {
        Some(c) => {
            law_apply_customs_keeps_names(h.skills, c);
        },
        None => {},
    }
    assert(reset_hero(e).skills =~= reset_hero(h).skills);
}

/// Law of filtering by names: for a non-empty lowercased query, a row is
/// shown exactly when it is a row of the list and its lowercased in-game
/// name, or its lowercased user's name if it has one, contains the query;
/// for an empty query every row is shown.
pub proof fn law_filter_by_names(es: Seq<EntityModel>, q: Seq<char>)
    requires
        es.len() <= usize::MAX,
    ensures
        forall|r: int|
            #![trigger filter_rows(es, q).contains(r as usize)]
            0 <= r < es.len() ==> (filter_rows(es, q).contains(r as usize) <==> (q.len() == 0
                || contains(lowercase(es[r].name), q) || (es[r].username matches Some(u)
                && contains(lowercase(u), q)))),
        forall|x: usize| #[trigger] filter_rows(es, q).contains(x) ==> x < es.len(),
{
    law_filter_rows(es, q);
    let f = filter_rows(es, q);
    assert forall|x: usize| #[trigger] f.contains(x) implies x < es.len() by {
        let k = choose|k: int| 0 <= k < f.len() && f[k] == x;
        assert(f[k] < es.len());
    }
    assert forall|r: int| 0 <= r < es.len() implies (#[trigger] f.contains(r as usize) <==> (
    q.len() == 0 || contains(lowercase(es[r].name), q) || (es[r].username matches Some(u)
        && contains(lowercase(u), q)))) by {
        if q.len() == 0 {
            assert(all_indices(es.len() as int)[r] == r as usize);
        } else if f.contains(r as usize) {
            let k = choose|k: int| 0 <= k < f.len() && f[k] == r as usize;
            assert(entity_matches(es[f[k] as int], q));
        }
    }
}

/// Law: setting an entity's user's name changes nothing else: its in-game
/// name and key stay.
pub proof fn law_with_username_keeps_name(e: EntityModel, u: Option<Seq<char>>)
    ensures
        with_username(e, u).name == e.name,
        with_username(e, u).key == e.key,
        with_username(e, u).username == u,
{
}

} // verus!
