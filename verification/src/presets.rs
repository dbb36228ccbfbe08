//! Presets: named snapshots of every hero's and item's chosen names.
use vstd::prelude::*;
use vstd::string::*;
use crate::dotatypes::{
    EntityModel, Hero, HeroDict, HeroDictModel, HeroModel, Item, hero_dict, hero_of_dict,
    saved_gender,
};
use crate::text::{ends_with, push_char, replace_all, replace_all_exec, to_chars};

verus! {

/// The extension of preset files.
pub open spec fn json_ext() -> Seq<char> {
    seq!['.', 'j', 's', 'o', 'n']
}

/// The models of a list of heroes.
pub open spec fn heroes_view(s: Seq<Hero>) -> Seq<HeroModel> {
    s.map_values(|h: Hero| h@)
}

/// The models of a list of items.
pub open spec fn items_view(s: Seq<Item>) -> Seq<EntityModel> {
    s.map_values(|i: Item| i@)
}

/// The model of a preset.
pub struct PresetModel {
    pub filename: Seq<char>,
    pub heroes: Seq<HeroModel>,
    pub items: Seq<EntityModel>,
}

/// A preset: the file it is kept in and the heroes and items it holds.
pub struct Preset {
    pub filename: String,
    pub heroes: Vec<Hero>,
    pub items: Vec<Item>,
}

impl View for Preset {
    type V = PresetModel;

    open spec fn view(&self) -> PresetModel {
        PresetModel {
            filename: self.filename@,
            heroes: heroes_view(self.heroes@),
            items: items_view(self.items@),
        }
    }
}

/// The file a preset named by the user is looked up in: the name with
/// `.json` appended unless it already ends so.
pub open spec fn preset_file_name(filename: Seq<char>) -> Seq<char> {
    if ends_with(filename, json_ext()) {
        filename
    } else {
        filename + json_ext()
    }
}

/// The name of a preset file: every `.json` in it removed.
pub open spec fn preset_name(fname: Seq<char>) -> Seq<char> {
    replace_all(fname, json_ext(), Seq::empty())
}

/// The file name a loaded preset carries.
pub open spec fn loaded_file_name(filename: Seq<char>) -> Seq<char> {
    preset_name(preset_file_name(filename)) + json_ext()
}

/// The models of a file's hero entries, `None` for one that could not be read.
pub open spec fn saved_heroes_view(s: Seq<Option<HeroDict>>) -> Seq<Option<HeroDictModel>> {
    s.map_values(
        |o: Option<HeroDict>|
            match o {
                Some(d) => Some(d@),
                None => None,
            },
    )
}

/// The models of a file's item entries, `None` for one that could not be read.
pub open spec fn saved_items_view(s: Seq<Option<Item>>) -> Seq<Option<EntityModel>> {
    s.map_values(
        |o: Option<Item>|
            match o {
                Some(i) => Some(i@),
                None => None,
            },
    )
}

/// The heroes that were read, in order, skipping those that could not be.
pub open spec fn read_heroes(s: Seq<Option<HeroDictModel>>) -> Seq<HeroModel>
    decreases s.len(),
{
    if s.len() == 0 {
        Seq::empty()
    } else {
        read_heroes(s.drop_last()) + match s.last() {
            Some(d) => seq![hero_of_dict(d)],
            None => Seq::empty(),
        }
    }
}

/// The items that were read, in order, skipping those that could not be.
pub open spec fn read_items(s: Seq<Option<EntityModel>>) -> Seq<EntityModel>
    decreases s.len(),
{
    if s.len() == 0 {
        Seq::empty()
    } else {
        read_items(s.drop_last()) + match s.last() {
            Some(i) => seq![i],
            None => Seq::empty(),
        }
    }
}

/// The index of the last `c` in `s`, or -1.
pub open spec fn last_index_of(s: Seq<char>, c: char) -> int
    decreases s.len(),
{
    if s.len() == 0 {
        -1
    } else if s.last() == c {
        s.len() - 1
    } else {
        last_index_of(s.drop_last(), c)
    }
}

/// The stem of a file name whose extension is `json`: the part before the
/// last dot, when that dot is not the first character.
pub open spec fn json_stem(name: Seq<char>) -> Option<Seq<char>> {
    let i = last_index_of(name, '.');
    if i > 0 && name.skip(i + 1) == seq!['j', 's', 'o', 'n'] {
        Some(name.take(i))
    } else {
        None
    }
}

/// The preset names among file names, in order.
pub open spec fn preset_names_of(names: Seq<Seq<char>>) -> Seq<Seq<char>>
    decreases names.len(),
{
    if names.len() == 0 {
        Seq::empty()
    } else {
        preset_names_of(names.drop_last()) + match json_stem(names.last()) {
            Some(n) => seq![n],
            None => Seq::empty(),
        }
    }
}

pub proof fn lemma_last_index_of(s: Seq<char>, c: char)
    ensures
        -1 <= last_index_of(s, c) < s.len(),
        last_index_of(s, c) >= 0 ==> s[last_index_of(s, c)] == c,
        forall|j: int| last_index_of(s, c) < j < s.len() ==> s[j] != c,
    decreases s.len(),
{
    if s.len() > 0 && s.last() != c {
        lemma_last_index_of(s.drop_last(), c);
        assert forall|j: int| last_index_of(s, c) < j < s.len() implies s[j] != c by {
            if j < s.len() - 1 {
                assert(s[j] == s.drop_last()[j]);
            }
        }
    }
}

/// The `.json` extension as characters.
fn json_ext_chars() -> (v: Vec<char>)
    ensures
        v@ == json_ext(),
{
    let v = vec!['.', 'j', 's', 'o', 'n'];
    assert(v@ =~= json_ext());
    v
}

impl Preset {
    /// A preset named `name`, kept in `name.json`.
    pub fn new(name: &str, heroes: Vec<Hero>, items: Vec<Item>) -> (r: Preset)
        ensures
            r@ == (PresetModel {
                filename: name@ + json_ext(),
                heroes: heroes_view(heroes@),
                items: items_view(items@),
            }),
    {
        let mut filename = String::from_str(name);
        filename.append(".json");
        proof {
            reveal_strlit(".json");
            assert(filename@ =~= name@ + json_ext());
        }
        Preset { filename, heroes, items }
    }

    /// The file a preset named `filename` is read from.
    pub fn file_name_for(filename: &str) -> (r: String)
        ensures
            r@ == preset_file_name(filename@),
    {
        let chars = to_chars(filename);
        let ext = json_ext_chars();
        let n = chars.len();
        let mut ends = n >= 5;
        let mut k: usize = 0;
        while ends && k < 5
            invariant
                chars@ == filename@,
                ext@ == json_ext(),
                n == chars.len(),
                0 <= k <= 5,
                ends ==> n >= 5 && forall|j: int| 0 <= j < k ==> chars@[n - 5 + j] == ext@[j],
                !ends ==> !ends_with(filename@, json_ext()),
            decreases 5 - k,
        {
            if chars[n - 5 + k] != ext[k] {
                assert(filename@.subrange(n - 5, n as int)[k as int] != json_ext()[k as int]);
                ends = false;
            }
            k = k + 1;
        }
        if ends {
            assert(filename@.subrange(n - 5, n as int) =~= json_ext());
            String::from_str(filename)
        } else {
            let mut r = String::from_str(filename);
            r.append(".json");
            proof {
                reveal_strlit(".json");
                assert(r@ =~= filename@ + json_ext());
            }
            r
        }
    }

    /// The preset read from the file for `filename`: `parsed` holds each hero's
    /// saved form and each item entry, `None` for one that could not be read,
    /// or is `None` when the file itself could not be read. Entries that could
    /// not be read are skipped; an unreadable file gives an empty preset.
    pub fn load_parsed(
        filename: &str,
        parsed: Option<(Vec<Option<HeroDict>>, Vec<Option<Item>>)>,
    ) -> (r: Preset)
        ensures
            r@.filename == loaded_file_name(filename@),
            r@.heroes == match parsed {
                Some((hs, _)) => read_heroes(saved_heroes_view(hs@)),
                None => Seq::empty(),
            },
            r@.items == match parsed {
                Some((_, is)) => read_items(saved_items_view(is@)),
                None => Seq::empty(),
            },
    {
        let fname = Self::file_name_for(filename);
        let fchars = to_chars(fname.as_str());
        let ext = json_ext_chars();
        let empty: Vec<char> = Vec::new();
        let mut name = replace_all_exec(&fchars, &ext, &empty);
        name.append(".json");
        proof {
            reveal_strlit(".json");
            assert(empty@ =~= Seq::<char>::empty());
            assert(name@ =~= loaded_file_name(filename@));
        }
        match parsed {
            Some((hs, is)) => {
                let heroes = keep_heroes(&hs);
                let items = keep_items(&is);
                Preset { filename: name, heroes, items }
            },
            None => {
                let r = Preset { filename: name, heroes: Vec::new(), items: Vec::new() };
                assert(r@.heroes =~= Seq::<HeroModel>::empty());
                assert(r@.items =~= Seq::<EntityModel>::empty());
                r
            },
        }
    }

    /// The names of the presets among the file names of the presets directory.
    pub fn names_from(file_names: &Vec<String>) -> (r: Vec<String>)
        ensures
            r@.map_values(|s: String| s@) == preset_names_of(file_names@.map_values(|s: String| s@)),
    {
        let ghost fv = file_names@.map_values(|s: String| s@);
        let mut r: Vec<String> = Vec::new();
        let mut i: usize = 0;
        while i < file_names.len()
            invariant
                0 <= i <= file_names.len(),
                fv == file_names@.map_values(|s: String| s@),
                r@.map_values(|s: String| s@) == preset_names_of(fv.take(i as int)),
            decreases file_names.len() - i,
        {
            let ghost r0 = r@;
            assert(fv.take(i + 1).drop_last() =~= fv.take(i as int));
            assert(fv.take(i + 1).last() == file_names@[i as int]@);
            match json_stem_exec(&file_names[i]) {
                Some(n) => {
                    r.push(n);
                    assert(r@.map_values(|s: String| s@) =~= r0.map_values(|s: String| s@)
                        + seq![r@.last()@]);
                },
                None => {},
            }
            i = i + 1;
        }
        assert(fv.take(i as int) =~= fv);
        r
    }
}

/// The stem of a file name whose extension is `json`.
fn json_stem_exec(name: &String) -> (r: Option<String>)
    ensures
        match r {
            Some(s) => json_stem(name@) == Some(s@),
            None => json_stem(name@) is None,
        },
{
    let c = to_chars(name.as_str());
    let mut i = c.len();
    assert(c@.take(i as int) =~= c@);
    while i > 0 && c[i - 1] != '.'
        invariant
            0 <= i <= c.len(),
            c@ == name@,
            last_index_of(c@.take(i as int), '.') == last_index_of(c@, '.'),
        decreases i,
    {
        assert(c@.take(i as int).drop_last() =~= c@.take(i - 1));
        i = i - 1;
    }
    if i == 0 {
        assert(c@.take(0).len() == 0);
        return None;
    }
    let d = i - 1;
    assert(c@.take(i as int).last() == '.');
    assert(last_index_of(c@, '.') == d);
    if d == 0 {
        return None;
    }
    let ok = c.len() - i == 4 && c[i] == 'j' && c[i + 1] == 's' && c[i + 2] == 'o' && c[i + 3]
        == 'n';
    proof {
        if c.len() - i == 4 {
            assert(c@.skip(i as int) =~= seq![c@[i as int], c@[i + 1], c@[i + 2], c@[i + 3]]);
        } else {
            assert(c@.skip(i as int).len() != seq!['j', 's', 'o', 'n'].len());
        }
        assert(ok == (c@.skip(i as int) == seq!['j', 's', 'o', 'n']));
    }
    if ok {
        let mut s = String::new();
        let mut k: usize = 0;
        while k < d
            invariant
                0 <= k <= d,
                d < c.len(),
                s@ == c@.take(k as int),
            decreases d - k,
        {
            push_char(&mut s, c[k]);
            k = k + 1;
            assert(s@ =~= c@.take(k as int));
        }
        Some(s)
    } else {
        None
    }
}

/// The heroes among `hs` that were read, in order.
fn keep_heroes(hs: &Vec<Option<HeroDict>>) -> (r: Vec<Hero>)
    ensures
        heroes_view(r@) == read_heroes(saved_heroes_view(hs@)),
{
    let ghost sv = saved_heroes_view(hs@);
    let mut r: Vec<Hero> = Vec::new();
    let mut i: usize = 0;
    while i < hs.len()
        invariant
            0 <= i <= hs.len(),
            sv == saved_heroes_view(hs@),
            heroes_view(r@) == read_heroes(sv.take(i as int)),
        decreases hs.len() - i,
    {
        let ghost r0 = r@;
        assert(sv.take(i + 1).drop_last() =~= sv.take(i as int));
        assert(sv.take(i + 1).last() == sv[i as int]);
        match &hs[i] {
            Some(d) => {
                let c = Hero::from_dict(d);
                r.push(c);
                assert(heroes_view(r0).len() == r0.len());
                assert(heroes_view(r@) =~= heroes_view(r0) + seq![c@]);
            },
            None => {},
        }
        i = i + 1;
    }
    assert(sv.take(i as int) =~= sv);
    r
}

/// The items among `is` that were read, in order.
fn keep_items(is: &Vec<Option<Item>>) -> (r: Vec<Item>)
    ensures
        items_view(r@) == read_items(saved_items_view(is@)),
{
    let ghost sv = saved_items_view(is@);
    let mut r: Vec<Item> = Vec::new();
    let mut i: usize = 0;
    while i < is.len()
        invariant
            0 <= i <= is.len(),
            sv == saved_items_view(is@),
            items_view(r@) == read_items(sv.take(i as int)),
        decreases is.len() - i,
    {
        let ghost r0 = r@;
        assert(sv.take(i + 1).drop_last() =~= sv.take(i as int));
        assert(sv.take(i + 1).last() == sv[i as int]);
        match &is[i] {
            Some(it) => {
                let c = it.clone();
                r.push(c);
                assert(items_view(r0).len() == r0.len());
                assert(items_view(r@) =~= items_view(r0) + seq![c@]);
            },
            None => {},
        }
        i = i + 1;
    }
    assert(sv.take(i as int) =~= sv);
    r
}


/// Law: looking a preset file name up a second time changes nothing.
pub proof fn law_file_name_idempotent(filename: Seq<char>)
    ensures
        preset_file_name(preset_file_name(filename)) == preset_file_name(filename),
{
    let f = preset_file_name(filename);
    if !ends_with(filename, json_ext()) {
        assert(f.subrange(f.len() - 5, f.len() as int) =~= json_ext());
    }
}

/// Law: a preset saved under a non-empty name is listed under that name.
pub proof fn law_saved_preset_listed(name: Seq<char>)
    requires
        name.len() > 0,
    ensures
        json_stem(name + json_ext()) == Some(name),
{
    let f = name + json_ext();
    let n = name.len() as int;
    lemma_last_index_of(f, '.');
    let l = last_index_of(f, '.');
    assert(f[n] == '.');
    if l > n {
        assert(f[l] == json_ext()[l - n]);
    }
    assert(l == n);
    assert(f.skip(n + 1) =~= seq!['j', 's', 'o', 'n']);
    assert(f.take(n) =~= name);
}

/// No `.json` starts before the end of `s` in `s` followed by `.json`.
proof fn lemma_no_early_ext(s: Seq<char>, i: int)
    requires
        !crate::text::contains(s, json_ext()),
        0 <= i < s.len(),
    ensures
        !crate::text::occurs_at(s + json_ext(), json_ext(), i),
{
    let f = s + json_ext();
    if crate::text::occurs_at(f, json_ext(), i) {
        if i + 5 <= s.len() {
            assert(s.subrange(i, i + 5) =~= f.subrange(i, i + 5));
            assert(crate::text::occurs_at(s, json_ext(), i));
        } else {
            let k = s.len() - i;
            assert(f.subrange(i, i + 5)[k] == f[s.len() as int]);
            assert(f[s.len() as int] == '.');
            assert(json_ext()[k] != '.');
        }
    }
}

proof fn lemma_strip_ext(s: Seq<char>, i: int)
    requires
        !crate::text::contains(s, json_ext()),
        0 <= i <= s.len(),
    ensures
        replace_all((s + json_ext()).skip(i), json_ext(), Seq::empty()) == s.skip(i),
    decreases s.len() - i,
{
    let f = s + json_ext();
    let r = f.skip(i);
    if i == s.len() {
        assert(r =~= json_ext());
        assert(crate::text::starts_with(r, json_ext())) by {
            assert(r.subrange(0, 5) =~= json_ext());
        }
        assert(r.skip(5).len() == 0);
        assert(replace_all(r.skip(5), json_ext(), Seq::empty()) =~= Seq::<char>::empty());
        assert(s.skip(i) =~= Seq::<char>::empty());
    } else {
        lemma_no_early_ext(s, i);
        if crate::text::starts_with(r, json_ext()) {
            assert(r.subrange(0, 5) =~= f.subrange(i, i + 5));
        }
        lemma_strip_ext(s, i + 1);
        assert(r.drop_first() =~= f.skip(i + 1));
        assert(s.skip(i) =~= seq![s[i]] + s.skip(i + 1));
    }
}

/// Law: a preset saved under a name without `.json` in it loads back under
/// the file name it was saved with.
pub proof fn law_load_after_save(name: Seq<char>)
    requires
        !crate::text::contains(name, json_ext()),
    ensures
        loaded_file_name(name) == name + json_ext(),
{
    if ends_with(name, json_ext()) {
        assert(crate::text::occurs_at(name, json_ext(), name.len() - 5));
    }
    assert(preset_file_name(name) == name + json_ext());
    lemma_strip_ext(name, 0);
    assert((name + json_ext()).skip(0) =~= name + json_ext());
    assert(name.skip(0) =~= name);
}

/// Reading back every hero of a list from its saved form.
proof fn lemma_read_saved_heroes(hs: Seq<HeroModel>)
    ensures
        read_heroes(hs.map_values(|h: HeroModel| Some(hero_dict(h)))) == hs.map_values(
            |h: HeroModel| HeroModel { gender: saved_gender(h.gender), ..h },
        ),
    decreases hs.len(),
{
    let s = hs.map_values(|h: HeroModel| Some(hero_dict(h)));
    let t = hs.map_values(|h: HeroModel| HeroModel { gender: saved_gender(h.gender), ..h });
    if hs.len() > 0 {
        lemma_read_saved_heroes(hs.drop_last());
        assert(s.drop_last() =~= hs.drop_last().map_values(|h: HeroModel| Some(hero_dict(h))));
        assert(t.drop_last() =~= hs.drop_last().map_values(
            |h: HeroModel| HeroModel { gender: saved_gender(h.gender), ..h },
        ));
        crate::dotatypes::law_hero_dict_round_trip(hs.last());
        assert(read_heroes(s) =~= t.drop_last() + seq![t.last()]);
        assert(t =~= t.drop_last() + seq![t.last()]);
    } else {
        assert(t =~= Seq::<HeroModel>::empty());
    }
}

/// Reading back every item of a list.
proof fn lemma_read_saved_items(is: Seq<EntityModel>)
    ensures
        read_items(is.map_values(|e: EntityModel| Some(e))) == is,
    decreases is.len(),
{
    let s = is.map_values(|e: EntityModel| Some(e));
    if is.len() > 0 {
        lemma_read_saved_items(is.drop_last());
        assert(s.drop_last() =~= is.drop_last().map_values(|e: EntityModel| Some(e)));
        assert(is =~= is.drop_last() + seq![is.last()]);
    }
}

/// Law: a preset saved under a name without `.json` in it, its heroes
/// written in their saved form and its items as they are, reads back under
/// the same file name with the same items in order and the same heroes in
/// order, each with its gender kept when it is `f` and `m` otherwise.
pub proof fn law_preset_round_trip(name: Seq<char>, hs: Seq<HeroModel>, is: Seq<EntityModel>)
    requires
        !crate::text::contains(name, json_ext()),
    ensures
        loaded_file_name(name) == name + json_ext(),
        read_heroes(hs.map_values(|h: HeroModel| Some(hero_dict(h)))) == hs.map_values(
            |h: HeroModel| HeroModel { gender: saved_gender(h.gender), ..h },
        ),
        read_items(is.map_values(|e: EntityModel| Some(e))) == is,
{
    law_load_after_save(name);
    lemma_read_saved_heroes(hs);
    lemma_read_saved_items(is);
}

} // verus!
