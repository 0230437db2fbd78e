//! A two-way table between class names and classes, with constant-time
//! lookup in both directions.

use crate::class::Class;
use crate::class::CLASS_COUNT;
use std::collections::HashMap;
use vstd::hash_map::StringHashMap;
use vstd::prelude::*;

verus! {

/// What a two-way table holds: for each name the class it stands for, and
/// for each class the name it is reported under.
pub struct BidirModel {
    pub first_second: Map<Seq<char>, Class>,
    pub second_first: Map<Class, Seq<char>>,
}

/// A two-way table between names and classes. Each `insert` records the
/// pair in both directions; a later pair replaces an earlier one with the
/// same name in the forward direction, and an earlier one with the same
/// class in the backward direction.
pub struct BidirMap {
    first_second: StringHashMap<Class>,
    second_first: HashMap<usize, String>,
}

impl View for BidirMap {
    type V = BidirModel;

    closed spec fn view(&self) -> BidirModel {
        BidirModel {
            first_second: self.first_second@,
            second_first: Map::new(
                |c: Class| self.second_first@.contains_key(c.rank() as usize),
                |c: Class| self.second_first@[c.rank() as usize]@,
            ),
        }
    }
}

impl BidirMap {
    /// An empty table with room for `capacity` names.
    pub fn with_capacity(capacity: usize) -> (r: Self)
        ensures
            r@.first_second == Map::<Seq<char>, Class>::empty(),
            r@.second_first == Map::<Class, Seq<char>>::empty(),
    {
        let r = BidirMap {
            first_second: StringHashMap::with_capacity(capacity),
            second_first: HashMap::with_capacity(capacity),
        };
        assert(r@.second_first =~= Map::<Class, Seq<char>>::empty());
        r
    }

    /// Records a pair in both directions.
    pub fn insert(&mut self, kv1: &str, kv2: Class)
        ensures
            final(self)@.first_second == old(self)@.first_second.insert(kv1@, kv2),
            final(self)@.second_first == old(self)@.second_first.insert(kv2, kv1@),
    {
        broadcast use vstd::std_specs::hash::group_hash_axioms;

        let i = kv2.index();
        self.second_first.insert(i, kv1.to_owned());
        self.first_second.insert(kv1.to_owned(), kv2);
        proof {
            crate::class::lemma_rank_at(kv2, 0);
            assert forall|c: Class| #[trigger]
                final(self)@.second_first.contains_key(c) == old(self)@.second_first.insert(
                    kv2,
                    kv1@,
                ).contains_key(c) by {
                crate::class::lemma_rank_at(c, 0);
            }
            assert(final(self)@.second_first =~= old(self)@.second_first.insert(kv2, kv1@));
        }
    }

    /// The class that a name stands for, if the table holds the name.
    pub fn get_by_first(&self, key: &str) -> (r: Option<&Class>)
        ensures
            match r {
                Some(c) => self@.first_second.contains_key(key@) && *c
                    == self@.first_second[key@],
                None => !self@.first_second.contains_key(key@),
            },
    {
        self.first_second.get(key)
    }

    /// The name that a class is reported under, if the table holds the class.
    pub fn get_by_second(&self, key: &Class) -> (r: Option<&String>)
        ensures
            match r {
                Some(name) => self@.second_first.contains_key(*key) && name@
                    == self@.second_first[*key],
                None => !self@.second_first.contains_key(*key),
            },
    {
        broadcast use vstd::std_specs::hash::group_hash_axioms;

        let i = key.index();
        self.second_first.get(&i)
    }

    /// The classes that the table holds, each once, in declaration order.
    pub fn iter_second_first(&self) -> (r: Vec<Class>)
        ensures
            forall|c: Class| r@.contains(c) <==> self@.second_first.contains_key(c),
            forall|i: int, j: int| 0 <= i < j < r@.len() ==> r@[i].rank() < r@[j].rank(),
    {
        broadcast use vstd::std_specs::hash::group_hash_axioms;

        let mut r: Vec<Class> = Vec::new();
        let mut i: usize = 0;
        while i < CLASS_COUNT
            invariant
                i <= CLASS_COUNT,
                forall|k: int| 0 <= k < r@.len() ==> r@[k].rank() < i,
                forall|c: Class|
                    r@.contains(c) <==> (c.rank() < i && self@.second_first.contains_key(c)),
                forall|a: int, b: int| 0 <= a < b < r@.len() ==> r@[a].rank() < r@[b].rank(),
            decreases CLASS_COUNT - i,
        {
            let ghost before = r@;
            if self.second_first.contains_key(&i) {
                match Class::from_index(i) {
                    Some(c) => {
                        r.push(c);
                        assert(r@.last() == c);
                    },
                    None => {},
                }
            }
            proof {
                assert forall|c: Class|
                    r@.contains(c) <==> (c.rank() < i + 1 && self@.second_first.contains_key(
                        c,
                    )) by {
                    crate::class::lemma_rank_at(c, i as int);
                    if r@.contains(c) {
                        let k = choose|k: int| 0 <= k < r@.len() && r@[k] == c;
                        if k < before.len() {
                            assert(before[k] == c);
                            assert(before.contains(c));
                        }
                    }
                    if c.rank() < i + 1 && self@.second_first.contains_key(c) {
                        if c.rank() < i {
                            assert(before.contains(c));
                            let k = choose|k: int| 0 <= k < before.len() && before[k] == c;
                            assert(r@[k] == c);
                        } else {
                            assert(r@[r@.len() - 1] == c);
                        }
                    }
                }
            }
            i += 1;
        }
        proof {
            assert forall|c: Class| r@.contains(c) <==> self@.second_first.contains_key(c) by {
                crate::class::lemma_rank_at(c, 0);
            }
        }
        r
    }
}

/// The name under which a class appears in records and reports.
pub open spec fn class_name(c: Class) -> Seq<char> {
    match c {
        Class::Archer => "Archer"@,
        Class::Berserker => "Berserker"@,
        Class::Brawler => "Brawler"@,
        Class::Gunner => "Gunner"@,
        Class::Lancer => "Lancer"@,
        Class::Mystic => "Mystic"@,
        Class::Ninja => "Ninja"@,
        Class::Priest => "Priest"@,
        Class::Reaper => "Reaper"@,
        Class::Slayer => "Slayer"@,
        Class::Sorcerer => "Sorcerer"@,
        Class::Valkyrie => "Valkyrie"@,
        Class::Warrior => "Warrior"@,
    }
}

/// Whether a table is the catalog of classes: every class is reported under
/// its own name, and a name stands for a class exactly when it is that
/// class's name.
pub open spec fn is_class_catalog(m: BidirModel) -> bool {
    &&& forall|c: Class| #[trigger]
        m.second_first.contains_key(c) && m.second_first[c] == class_name(c)
    &&& forall|c: Class| #[trigger]
        m.first_second.contains_key(class_name(c)) && m.first_second[class_name(c)] == c
    &&& forall|s: Seq<char>| #[trigger]
        m.first_second.contains_key(s) ==> class_name(m.first_second[s]) == s
}

/// No two classes share a name.
pub proof fn lemma_class_names_distinct(a: Class, b: Class)
    ensures
        class_name(a) == class_name(b) ==> a == b,
{
    reveal_strlit("Archer");
    reveal_strlit("Berserker");
    reveal_strlit("Brawler");
    reveal_strlit("Gunner");
    reveal_strlit("Lancer");
    reveal_strlit("Mystic");
    reveal_strlit("Ninja");
    reveal_strlit("Priest");
    reveal_strlit("Reaper");
    reveal_strlit("Slayer");
    reveal_strlit("Sorcerer");
    reveal_strlit("Valkyrie");
    reveal_strlit("Warrior");
    if a != b && class_name(a) == class_name(b) {
        let x = class_name(a);
        let y = class_name(b);
        assert(x.len() == y.len());
        assert(x[0] == y[0]);
        assert(x[1] == y[1]);
        assert(x[2] == y[2]);
    }
}

impl Class {
    /// The name under which the class appears in records and reports.
    pub fn name(self) -> (r: &'static str)
        ensures
            r@ == class_name(self),
    {
        match self {
            Class::Archer => "Archer",
            Class::Berserker => "Berserker",
            Class::Brawler => "Brawler",
            Class::Gunner => "Gunner",
            Class::Lancer => "Lancer",
            Class::Mystic => "Mystic",
            Class::Ninja => "Ninja",
            Class::Priest => "Priest",
            Class::Reaper => "Reaper",
            Class::Slayer => "Slayer",
            Class::Sorcerer => "Sorcerer",
            Class::Valkyrie => "Valkyrie",
            Class::Warrior => "Warrior",
        }
    }
}

/// The catalog of classes: each of the thirteen classes under its name.
pub fn class_catalog() -> (r: BidirMap)
    ensures
        is_class_catalog(r@),
{
    let mut r = BidirMap::with_capacity(CLASS_COUNT);
    let mut i: usize = 0;
    while i < CLASS_COUNT
        invariant
            i <= CLASS_COUNT,
            forall|c: Class|
                c.rank() < i ==> #[trigger] r@.second_first.contains_key(c)
                    && r@.second_first[c] == class_name(c),
            forall|c: Class|
                c.rank() < i ==> #[trigger] r@.first_second.contains_key(class_name(c))
                    && r@.first_second[class_name(c)] == c,
            forall|s: Seq<char>| #[trigger]
                r@.first_second.contains_key(s) ==> class_name(r@.first_second[s]) == s,
        decreases CLASS_COUNT - i,
    {
        match Class::from_index(i) {
            Some(k) => {
                let ghost before = r@;
                r.insert(k.name(), k);
                proof {
                    assert forall|c: Class| c.rank() < i + 1 implies #[trigger]
                        r@.first_second.contains_key(class_name(c))
                        && r@.first_second[class_name(c)] == c by {
                        lemma_class_names_distinct(c, k);
                        if c != k {
                            assert(before.first_second.contains_key(class_name(c)));
                        }
                    }
                    assert forall|c: Class| c.rank() < i + 1 implies #[trigger]
                        r@.second_first.contains_key(c) && r@.second_first[c] == class_name(
                        c,
                    ) by {
                        if c != k {
                            assert(before.second_first.contains_key(c));
                        }
                    }
                    assert forall|s: Seq<char>| #[trigger]
                        r@.first_second.contains_key(s) implies class_name(r@.first_second[s])
                        == s by {
                        if s != class_name(k) {
                            assert(before.first_second.contains_key(s));
                        }
                    }
                }
            },
            None => {},
        }
        i += 1;
    }
    proof {
        assert forall|c: Class| #[trigger]
            r@.second_first.contains_key(c) && r@.second_first[c] == class_name(c) by {
            crate::class::lemma_rank_at(c, 0);
        }
        assert forall|c: Class| #[trigger]
            r@.first_second.contains_key(class_name(c)) && r@.first_second[class_name(c)]
                == c by {
            crate::class::lemma_rank_at(c, 0);
        }
    }
    r
}

} // verus!
