//! Heroes, their skills and items: the entities whose displayed names can be
//! changed, and the localization tokens they produce.
use vstd::prelude::*;
use vstd::string::*;
use crate::kvmap::KeyValues;

verus! {

/// The model of an entity: its in-game name, its localization key and the
/// name the user chose, if any.
pub struct EntityModel {
    pub name: Seq<char>,
    pub key: Seq<char>,
    pub username: Option<Seq<char>>,
}

/// The view of an optional string.
pub open spec fn opt_view(o: Option<String>) -> Option<Seq<char>> {
    match o {
        Some(s) => Some(s@),
        None => None,
    }
}

/// The name shown for an entity: the user's name if there is one, else the in-game name.
pub open spec fn display_name(e: EntityModel) -> Seq<char> {
    match e.username {
        Some(u) => u,
        None => e.name,
    }
}

/// A name, a localization key and an optional user-chosen name.
pub struct LocalizableEntity {
    pub name: String,
    pub key: String,
    pub username: Option<String>,
}

impl View for LocalizableEntity {
    type V = EntityModel;

    open spec fn view(&self) -> EntityModel {
        EntityModel { name: self.name@, key: self.key@, username: opt_view(self.username) }
    }
}

/// A copy of an optional string.
pub fn clone_opt(o: &Option<String>) -> (r: Option<String>)
    ensures
        opt_view(r) == opt_view(*o),
{
    match o {
        Some(s) => Some(s.clone()),
        None => None,
    }
}

impl Clone for LocalizableEntity {
    fn clone(&self) -> (r: Self)
        ensures
            r@ == self@,
    {
        LocalizableEntity {
            name: self.name.clone(),
            key: self.key.clone(),
            username: clone_opt(&self.username),
        }
    }
}

impl LocalizableEntity {
    /// The name shown for this entity.
    pub fn display_name(&self) -> (r: String)
        ensures
            r@ == display_name(self@),
    {
        match &self.username {
            Some(u) => u.clone(),
            None => self.name.clone(),
        }
    }

    /// The localization key and the name shown for this entity.
    pub fn key_pair(&self) -> (r: (String, String))
        ensures
            r.0@ == self@.key,
            r.1@ == display_name(self@),
    {
        (self.key.clone(), self.display_name())
    }
}

/// A hero's skill.
pub struct Skill {
    pub entity: LocalizableEntity,
}

impl View for Skill {
    type V = EntityModel;

    open spec fn view(&self) -> EntityModel {
        self.entity@
    }
}

impl Clone for Skill {
    fn clone(&self) -> (r: Self)
        ensures
            r@ == self@,
    {
        Skill { entity: self.entity.clone() }
    }
}

impl Skill {
    /// The skill's localization key and the name shown for it.
    pub fn to_key_pair(&self) -> (r: (String, String))
        ensures
            r.0@ == self@.key,
            r.1@ == display_name(self@),
    {
        self.entity.key_pair()
    }
}

/// An item.
pub struct Item {
    pub entity: LocalizableEntity,
}

impl View for Item {
    type V = EntityModel;

    open spec fn view(&self) -> EntityModel {
        self.entity@
    }
}

impl Clone for Item {
    fn clone(&self) -> (r: Self)
        ensures
            r@ == self@,
    {
        Item { entity: self.entity.clone() }
    }
}

impl Item {
    /// The item's localization key and the name shown for it.
    pub fn to_key_pair(&self) -> (r: (String, String))
        ensures
            r.0@ == self@.key,
            r.1@ == display_name(self@),
    {
        self.entity.key_pair()
    }
}

/// The gender a hero has when its data names none.
pub open spec fn default_gender_spec() -> Seq<char> {
    seq!['m']
}

/// The gender a hero has when its data names none: `m`.
pub fn default_gender() -> (r: String)
    ensures
        r@ == default_gender_spec(),
{
    let r = String::from_str("m");
    proof {
        reveal_strlit("m");
    }
    r
}

/// The model of a hero.
pub struct HeroModel {
    pub base: EntityModel,
    pub gender: Seq<char>,
    pub skills: Seq<EntityModel>,
}

/// A hero with its grammatical gender and its skills.
pub struct Hero {
    pub base: LocalizableEntity,
    pub gender: String,
    pub skills: Vec<Skill>,
}

/// The models of a list of skills.
pub open spec fn skills_view(s: Seq<Skill>) -> Seq<EntityModel> {
    s.map_values(|k: Skill| k@)
}

impl View for Hero {
    type V = HeroModel;

    open spec fn view(&self) -> HeroModel {
        HeroModel { base: self.base@, gender: self.gender@, skills: skills_view(self.skills@) }
    }
}

/// A copy of a list of skills.
pub fn clone_skills(v: &Vec<Skill>) -> (r: Vec<Skill>)
    ensures
        skills_view(r@) == skills_view(v@),
{
    let mut r: Vec<Skill> = Vec::new();
    let mut i: usize = 0;
    while i < v.len()
        invariant
            0 <= i <= v.len(),
            skills_view(r@) == skills_view(v@).take(i as int),
        decreases v.len() - i,
    {
        let c = v[i].clone();
        assert(c@ == v@[i as int]@);
        let ghost r0 = r@;
        assert(skills_view(r0).len() == r0.len());
        assert(r0.len() == i);
        r.push(c);
        assert(r@.len() == i + 1);
        assert(skills_view(r@).len() == i + 1);
        proof {
            assert forall|j: int| 0 <= j < i + 1 implies skills_view(r@)[j] == skills_view(v@)[j] by {
                if j < i {
                    assert(skills_view(r0)[j] == skills_view(v@).take(i as int)[j]);
                }
            }
        }
        i = i + 1;
        assert(skills_view(r@) =~= skills_view(v@).take(i as int));
    }
    assert(skills_view(v@).take(i as int) =~= skills_view(v@));
    r
}

impl Clone for Hero {
    fn clone(&self) -> (r: Self)
        ensures
            r@ == self@,
    {
        Hero { base: self.base.clone(), gender: self.gender.clone(), skills: clone_skills(&self.skills) }
    }
}

/// The text a hero's own key maps to: `#|`, the gender, `|#`, then the name shown.
pub open spec fn gender_tag(gender: Seq<char>, name: Seq<char>) -> Seq<char> {
    seq!['#', '|'] + gender + seq!['|', '#'] + name
}

/// `m` with the key and shown name of each entity of `es` set in turn, so
/// that a later entity wins over an earlier one with the same key.
pub open spec fn insert_pairs(m: Map<Seq<char>, Seq<char>>, es: Seq<EntityModel>) -> Map<
    Seq<char>,
    Seq<char>,
>
    decreases es.len(),
{
    if es.len() == 0 {
        m
    } else {
        insert_pairs(m, es.drop_last()).insert(es.last().key, display_name(es.last()))
    }
}

/// The tokens of a hero: its own key, then each skill's.
pub open spec fn hero_key_pairs(h: HeroModel) -> Map<Seq<char>, Seq<char>> {
    insert_pairs(
        Map::empty().insert(h.base.key, gender_tag(h.gender, display_name(h.base))),
        h.skills,
    )
}

/// The model of what a hero is saved as: gender written only when it is `f`.
pub struct HeroDictModel {
    pub entity: EntityModel,
    pub gender: Option<Seq<char>>,
    pub skills: Seq<EntityModel>,
}

/// What a hero is saved as: name, key, the user's name if any, the gender
/// only when it is `f`, and its skills.
pub struct HeroDict {
    pub entity: LocalizableEntity,
    pub gender: Option<String>,
    pub skills: Vec<LocalizableEntity>,
}

/// The models of a list of entities.
pub open spec fn entities_view(s: Seq<LocalizableEntity>) -> Seq<EntityModel> {
    s.map_values(|k: LocalizableEntity| k@)
}

impl View for HeroDict {
    type V = HeroDictModel;

    open spec fn view(&self) -> HeroDictModel {
        HeroDictModel {
            entity: self.entity@,
            gender: opt_view(self.gender),
            skills: entities_view(self.skills@),
        }
    }
}

/// The saved form of a hero.
pub open spec fn hero_dict(h: HeroModel) -> HeroDictModel {
    HeroDictModel {
        entity: h.base,
        gender: if h.gender == seq!['f'] {
            Some(seq!['f'])
        } else {
            None
        },
        skills: h.skills,
    }
}

impl Hero {
    /// The tokens this hero contributes: its key maps to the gender-tagged
    /// shown name, each skill's key to the skill's shown name; a later skill
    /// wins over an earlier one, and any skill over the hero, on a shared key.
    pub fn to_key_pairs(&self) -> (r: KeyValues)
        ensures
            r@ == hero_key_pairs(self@),
    {
        let mut r = KeyValues::new();
        let nv = self.base.display_name();
        let mut tag = String::from_str("#|");
        tag.append(self.gender.as_str());
        tag.append("|#");
        tag.append(nv.as_str());
        proof {
            reveal_strlit("#|");
            reveal_strlit("|#");
            assert(tag@ =~= gender_tag(self@.gender, display_name(self@.base)));
        }
        r.insert(self.base.key.clone(), tag);
        let ghost m0 = r@;
        let mut i: usize = 0;
        while i < self.skills.len()
            invariant
                0 <= i <= self.skills.len(),
                m0 == Map::<Seq<char>, Seq<char>>::empty().insert(
                    self@.base.key,
                    gender_tag(self@.gender, display_name(self@.base)),
                ),
                r@ == insert_pairs(m0, self@.skills.take(i as int)),
            decreases self.skills.len() - i,
        {
            let (k, v) = self.skills[i].to_key_pair();
            r.insert(k, v);
            i = i + 1;
            assert(self@.skills.take(i as int).drop_last() =~= self@.skills.take(i - 1));
        }
        assert(self@.skills.take(i as int) =~= self@.skills);
        r
    }

    /// The saved form of this hero.
    pub fn to_dict(&self) -> (r: HeroDict)
        ensures
            r@ == hero_dict(self@),
    {
        let f = String::from_str("f");
        proof {
            reveal_strlit("f");
            assert(f@ =~= seq!['f']);
        }
        let gender = if self.gender == f {
            Some(f)
        } else {
            None
        };
        let mut skills: Vec<LocalizableEntity> = Vec::new();
        let mut i: usize = 0;
        while i < self.skills.len()
            invariant
                0 <= i <= self.skills.len(),
                entities_view(skills@) == self@.skills.take(i as int),
            decreases self.skills.len() - i,
        {
            let c = self.skills[i].entity.clone();
            assert(c@ == self@.skills[i as int]);
            let ghost s0 = skills@;
            assert(entities_view(s0).len() == s0.len());
            assert(s0.len() == i);
            skills.push(c);
            assert(entities_view(skills@).len() == i + 1);
            proof {
                assert forall|j: int| 0 <= j < i + 1 implies entities_view(skills@)[j]
                    == self@.skills[j] by {
                    if j < i {
                        assert(entities_view(s0)[j] == self@.skills.take(i as int)[j]);
                    }
                }
            }
            i = i + 1;
            assert(entities_view(skills@) =~= self@.skills.take(i as int));
        }
        assert(self@.skills.take(i as int) =~= self@.skills);
        let r = HeroDict { entity: self.base.clone(), gender, skills };
        assert(r@.gender == hero_dict(self@).gender);
        assert(r@.skills =~= hero_dict(self@).skills);
        r
    }
}

/// The hero a saved form reads back as: the gender written, or `m` when none is.
pub open spec fn hero_of_dict(d: HeroDictModel) -> HeroModel {
    HeroModel {
        base: d.entity,
        gender: match d.gender {
            Some(g) => g,
            None => default_gender_spec(),
        },
        skills: d.skills,
    }
}

/// The gender a hero has after being saved and read back: `f` stays, any
/// other becomes `m`.
pub open spec fn saved_gender(g: Seq<char>) -> Seq<char> {
    if g == seq!['f'] {
        g
    } else {
        default_gender_spec()
    }
}

impl Hero {
    /// The hero a saved form reads back as.
    pub fn from_dict(d: &HeroDict) -> (r: Hero)
        ensures
            r@ == hero_of_dict(d@),
    {
        let gender = match &d.gender {
            Some(g) => g.clone(),
            None => default_gender(),
        };
        let mut skills: Vec<Skill> = Vec::new();
        let mut i: usize = 0;
        while i < d.skills.len()
            invariant
                0 <= i <= d.skills.len(),
                skills_view(skills@) == d@.skills.take(i as int),
            decreases d.skills.len() - i,
        {
            let c = Skill { entity: d.skills[i].clone() };
            assert(c@ == d@.skills[i as int]);
            let ghost s0 = skills@;
            assert(skills_view(s0).len() == s0.len());
            skills.push(c);
            assert(skills_view(skills@).len() == i + 1);
            proof {
                assert forall|j: int| 0 <= j < i + 1 implies skills_view(skills@)[j]
                    == d@.skills[j] by {
                    if j < i {
                        assert(skills_view(s0)[j] == d@.skills.take(i as int)[j]);
                    }
                }
            }
            i = i + 1;
            assert(skills_view(skills@) =~= d@.skills.take(i as int));
        }
        assert(d@.skills.take(i as int) =~= d@.skills);
        Hero { base: d.entity.clone(), gender, skills }
    }
}

/// Law: a hero saved and read back is the same hero, with its gender kept
/// when it is `f` and `m` otherwise.
pub proof fn law_hero_dict_round_trip(h: HeroModel)
    ensures
        hero_of_dict(hero_dict(h)) == (HeroModel { gender: saved_gender(h.gender), ..h }),
{
}


/// The index of the last entity of `es` with key `k`, or -1.
pub open spec fn last_with_key(es: Seq<EntityModel>, k: Seq<char>) -> int
    decreases es.len(),
{
    if es.len() == 0 {
        -1
    } else if es.last().key == k {
        es.len() - 1
    } else {
        last_with_key(es.drop_last(), k)
    }
}

pub proof fn lemma_last_with_key(es: Seq<EntityModel>, k: Seq<char>)
    ensures
        -1 <= last_with_key(es, k) < es.len(),
        last_with_key(es, k) >= 0 ==> es[last_with_key(es, k)].key == k,
        forall|j: int| last_with_key(es, k) < j < es.len() ==> #[trigger] es[j].key != k,
    decreases es.len(),
{
    if es.len() > 0 && es.last().key != k {
        lemma_last_with_key(es.drop_last(), k);
        assert forall|j: int| last_with_key(es, k) < j < es.len() implies #[trigger] es[j].key != k by {
            if j < es.len() - 1 {
                assert(es[j] == es.drop_last()[j]);
            }
        }
    }
}

/// Looking a key up after setting the pairs of `es`: the last entity with
/// that key decides, and keys no entity has keep their earlier text.
pub proof fn lemma_insert_pairs_lookup(m: Map<Seq<char>, Seq<char>>, es: Seq<EntityModel>, k: Seq<char>)
    ensures
        insert_pairs(m, es).contains_key(k) <==> (m.contains_key(k) || last_with_key(es, k) >= 0),
        last_with_key(es, k) >= 0 ==> insert_pairs(m, es)[k] == display_name(
            es[last_with_key(es, k)],
        ),
        last_with_key(es, k) < 0 && m.contains_key(k) ==> insert_pairs(m, es)[k] == m[k],
    decreases es.len(),
{
    if es.len() > 0 {
        lemma_insert_pairs_lookup(m, es.drop_last(), k);
        lemma_last_with_key(es.drop_last(), k);
        if es.last().key != k {
            let l = last_with_key(es.drop_last(), k);
            if l >= 0 {
                assert(es[l] == es.drop_last()[l]);
            }
        }
    }
}

/// Law of a hero's tokens: they hold exactly the hero's key and its skills'
/// keys; a skill key reads as the shown name of the last skill with that key;
/// the hero's key reads as its gender-tagged shown name unless a skill shares it.
pub proof fn law_hero_key_pairs(h: HeroModel, k: Seq<char>)
    ensures
        hero_key_pairs(h).contains_key(k) <==> (k == h.base.key || exists|i: int|
            0 <= i < h.skills.len() && #[trigger] h.skills[i].key == k),
        (forall|i: int| 0 <= i < h.skills.len() ==> #[trigger] h.skills[i].key != h.base.key)
            ==> hero_key_pairs(h)[h.base.key] == gender_tag(h.gender, display_name(h.base)),
        forall|i: int|
            0 <= i < h.skills.len() && #[trigger] h.skills[i].key == k && (forall|j: int|
                i < j < h.skills.len() ==> h.skills[j].key != k) ==> hero_key_pairs(h)[k]
                == display_name(h.skills[i]),
{
    let m = Map::<Seq<char>, Seq<char>>::empty().insert(
        h.base.key,
        gender_tag(h.gender, display_name(h.base)),
    );
    lemma_insert_pairs_lookup(m, h.skills, k);
    lemma_last_with_key(h.skills, k);
    lemma_insert_pairs_lookup(m, h.skills, h.base.key);
    lemma_last_with_key(h.skills, h.base.key);
    let l = last_with_key(h.skills, k);
    assert forall|i: int|
        0 <= i < h.skills.len() && #[trigger] h.skills[i].key == k && (forall|j: int|
            i < j < h.skills.len() ==> h.skills[j].key != k) implies hero_key_pairs(h)[k]
        == display_name(h.skills[i]) by {
        if l != i {
            if l < i {
            } else {
                assert(h.skills[l].key == k);
            }
        }
    }
    if exists|i: int| 0 <= i < h.skills.len() && #[trigger] h.skills[i].key == k {
        let i = choose|i: int| 0 <= i < h.skills.len() && #[trigger] h.skills[i].key == k;
        assert(l >= i);
    }
}

} // verus!
