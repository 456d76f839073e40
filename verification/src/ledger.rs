//! A map with texts for keys, which hands its entries out in the order of the
//! keys.
use vstd::prelude::*;

use crate::text::{chars_of, same_text};

verus! {

/// The order of texts: by the first character in which they differ, and a text
/// before all that it begins.
pub open spec fn before(a: Seq<char>, b: Seq<char>) -> bool
    decreases a.len(),
{
    if b.len() == 0 {
        false
    } else if a.len() == 0 {
        true
    } else {
        a[0] < b[0] || (a[0] == b[0] && before(a.drop_first(), b.drop_first()))
    }
}

pub proof fn lemma_before_is_strict(a: Seq<char>)
    ensures
        !before(a, a),
    decreases a.len(),
{
    if a.len() > 0 {
        lemma_before_is_strict(a.drop_first());
    }
}

pub proof fn lemma_before_is_transitive(a: Seq<char>, b: Seq<char>, c: Seq<char>)
    requires
        before(a, b),
        before(b, c),
    ensures
        before(a, c),
    decreases a.len(),
{
    if a.len() > 0 && a[0] == b[0] && b[0] == c[0] {
        lemma_before_is_transitive(a.drop_first(), b.drop_first(), c.drop_first());
    }
}

pub proof fn lemma_before_is_total(a: Seq<char>, b: Seq<char>)
    ensures
        before(a, b) || before(b, a) || a == b,
    decreases a.len(),
{
    if a.len() > 0 && b.len() > 0 {
        if a[0] == b[0] {
            lemma_before_is_total(a.drop_first(), b.drop_first());
            if a.drop_first() == b.drop_first() {
                assert(a == seq![a[0]] + a.drop_first());
                assert(b == seq![b[0]] + b.drop_first());
            }
        }
    } else if a.len() == 0 && b.len() == 0 {
        assert(a == b);
    }
}

/// Whether one text comes before another.
pub fn comes_before(a: &str, b: &str) -> (r: bool)
    ensures
        r == before(a@, b@),
{
    let x = chars_of(a);
    let y = chars_of(b);
    let mut i: usize = 0;
    assert(x@.skip(0) == x@);
    assert(y@.skip(0) == y@);
    while i < x.len() && i < y.len()
        invariant
            x@ == a@,
            y@ == b@,
            i <= x.len(),
            i <= y.len(),
            before(x@, y@) == before(x@.skip(i as int), y@.skip(i as int)),
        decreases x.len() - i,
    {
        assert(x@.skip(i as int).drop_first() == x@.skip(i + 1));
        assert(y@.skip(i as int).drop_first() == y@.skip(i + 1));
        if x[i] != y[i] {
            return x[i] < y[i];
        }
        i = i + 1;
    }
    i < y.len()
}

/// Whether the keys of entries are in order, which also says that none occurs
/// twice.
pub open spec fn in_order<T>(entries: Seq<(String, T)>) -> bool {
    forall|i: int, j: int|
        0 <= i < j < entries.len() ==> before(#[trigger] entries[i].0@, #[trigger] entries[j].0@)
}

/// Whether entries are those of a map, each once.
pub open spec fn lists<T>(entries: Seq<(String, T)>, map: Map<Seq<char>, T>) -> bool {
    &&& forall|i: int|
        0 <= i < entries.len() ==> #[trigger] map.contains_key(entries[i].0@)
            && map[entries[i].0@] == entries[i].1
    &&& forall|k: Seq<char>| #[trigger]
        map.contains_key(k) ==> exists|i: int|
            0 <= i < entries.len() && #[trigger] entries[i].0@ == k
}

/// The place of a key among entries.
pub open spec fn place_of<T>(entries: Seq<(String, T)>, k: Seq<char>) -> int {
    choose|i: int| 0 <= i < entries.len() && #[trigger] entries[i].0@ == k
}

/// The map that entries stand for.
pub open spec fn map_of<T>(entries: Seq<(String, T)>) -> Map<Seq<char>, T> {
    Map::new(
        |k: Seq<char>| exists|i: int| 0 <= i < entries.len() && #[trigger] entries[i].0@ == k,
        |k: Seq<char>| entries[place_of(entries, k)].1,
    )
}

proof fn lemma_place_is_unique<T>(entries: Seq<(String, T)>, i: int, j: int)
    requires
        in_order(entries),
        0 <= i < entries.len(),
        0 <= j < entries.len(),
        entries[i].0@ == entries[j].0@,
    ensures
        i == j,
{
    lemma_before_is_strict(entries[i].0@);
}

proof fn lemma_lists<T>(entries: Seq<(String, T)>)
    requires
        in_order(entries),
    ensures
        lists(entries, map_of(entries)),
{
    let map = map_of(entries);
    assert forall|i: int| 0 <= i < entries.len() implies #[trigger] map.contains_key(entries[i].0@)
        && map[entries[i].0@] == entries[i].1 by {
        lemma_place_is_unique(entries, i, place_of(entries, entries[i].0@));
    }
}

/// Two maps that list the same entries are the same.
proof fn lemma_listed_is_unique<T>(
    entries: Seq<(String, T)>,
    a: Map<Seq<char>, T>,
    b: Map<Seq<char>, T>,
)
    requires
        lists(entries, a),
        lists(entries, b),
    ensures
        a == b,
{
    assert forall|k: Seq<char>| a.contains_key(k) implies b.contains_key(k) && a[k] == b[k] by {
        let i = choose|i: int| 0 <= i < entries.len() && #[trigger] entries[i].0@ == k;
        assert(a.contains_key(entries[i].0@) && b.contains_key(entries[i].0@));
    }
    assert forall|k: Seq<char>| b.contains_key(k) implies a.contains_key(k) by {
        let i = choose|i: int| 0 <= i < entries.len() && #[trigger] entries[i].0@ == k;
        assert(a.contains_key(entries[i].0@) && b.contains_key(entries[i].0@));
    }
    assert(a =~= b);
}

/// A map from texts to values.
#[derive(Debug)]
pub struct Ledger<T> {
    entries: Vec<(String, T)>,
}

impl<T> View for Ledger<T> {
    type V = Map<Seq<char>, T>;

    closed spec fn view(&self) -> Map<Seq<char>, T> {
        map_of(self.entries@)
    }
}

impl<T> Ledger<T> {
    #[verifier::type_invariant]
    spec fn ordered(self) -> bool {
        in_order(self.entries@)
    }

    pub fn new() -> (r: Ledger<T>)
        ensures
            r@ == Map::<Seq<char>, T>::empty(),
    {
        let entries: Vec<(String, T)> = Vec::new();
        assert(map_of(entries@) =~= Map::<Seq<char>, T>::empty());
        Ledger { entries }
    }

    /// The entries, in the order of their keys.
    pub fn entries(&self) -> (r: &Vec<(String, T)>)
        ensures
            in_order(r@),
            lists(r@, self@),
    {
        proof {
            use_type_invariant(&*self);
            lemma_lists(self.entries@);
        }
        &self.entries
    }

    /// The first place whose key does not come before `key`.
    fn place(&self, key: &str) -> (r: usize)
        ensures
            r <= self.entries@.len(),
            forall|i: int| 0 <= i < r ==> before(#[trigger] self.entries@[i].0@, key@),
            forall|i: int|
                r <= i < self.entries@.len() ==> self.entries@[i].0@ == key@ || before(
                    key@,
                    #[trigger] self.entries@[i].0@,
                ),
            forall|i: int| r < i < self.entries@.len() ==> #[trigger] self.entries@[i].0@ != key@,
    {
        proof {
            use_type_invariant(&*self);
        }
        let mut i: usize = 0;
        while i < self.entries.len() && comes_before(self.entries[i].0.as_str(), key)
            invariant
                i <= self.entries@.len(),
                forall|j: int| 0 <= j < i ==> before(#[trigger] self.entries@[j].0@, key@),
            decreases self.entries@.len() - i,
        {
            i = i + 1;
        }
        proof {
            assert forall|j: int| i <= j < self.entries@.len() implies self.entries@[j].0@ == key@
                || before(key@, #[trigger] self.entries@[j].0@) by {
                lemma_before_is_total(self.entries@[i as int].0@, key@);
                if j > i {
                    assert(before(self.entries@[i as int].0@, self.entries@[j].0@));
                    if before(key@, self.entries@[i as int].0@) {
                        lemma_before_is_transitive(
                            key@,
                            self.entries@[i as int].0@,
                            self.entries@[j].0@,
                        );
                    }
                }
            }
            assert forall|j: int| i < j < self.entries@.len() implies #[trigger] self.entries@[j].0@
                != key@ by {
                assert(before(self.entries@[i as int].0@, self.entries@[j].0@));
                lemma_before_is_strict(key@);
                if self.entries@[j].0@ == key@ {
                    if before(key@, self.entries@[i as int].0@) {
                        lemma_before_is_transitive(
                            key@,
                            self.entries@[i as int].0@,
                            self.entries@[j].0@,
                        );
                    }
                }
            }
        }
        i
    }

    /// The value under a key.
    pub fn get(&self, key: &str) -> (r: Option<&T>)
        ensures
            match r {
                Some(value) => self@.contains_key(key@) && self@[key@] == *value,
                None => !self@.contains_key(key@),
            },
    {
        let i: usize = self.place(key);
        proof {
            use_type_invariant(&*self);
            lemma_lists(self.entries@);
            lemma_before_is_strict(key@);
        }
        if i < self.entries.len() && same_text(self.entries[i].0.as_str(), key) {
            assert(self@.contains_key(self.entries@[i as int].0@));
            return Some(&self.entries[i].1);
        }
        assert forall|j: int| 0 <= j < self.entries@.len() implies #[trigger] self.entries@[j].0@
            != key@ by {
            if j < i {
                assert(before(self.entries@[j].0@, key@));
            }
        }
        None
    }

    /// Puts a value under a key, in place of the one that was there.
    pub fn insert(&mut self, key: String, value: T)
        ensures
            final(self)@ == old(self)@.insert(key@, value),
    {
        let i: usize = self.place(key.as_str());
        proof {
            use_type_invariant(&*self);
            lemma_lists(self.entries@);
            lemma_before_is_strict(key@);
        }
        let ghost old_entries = self.entries@;
        let ghost map = self@.insert(key@, value);
        let mut entries: Vec<(String, T)> = Vec::new();
        assert(in_order(entries@));
        std::mem::swap(&mut entries, &mut self.entries);
        let there = i < entries.len() && same_text(entries[i].0.as_str(), key.as_str());
        if there {
            entries.remove(i);
        }
        let ghost kept = entries@;
        entries.insert(i, (key, value));
        proof {
            assert(forall|j: int|
                0 <= j < i ==> kept[j] == old_entries[j] && before(#[trigger] kept[j].0@, key@));
            assert forall|j: int| i <= j < kept.len() implies before(key@, #[trigger] kept[j].0@) by {
                if there {
                    assert(kept[j] == old_entries[j + 1]);
                } else {
                    assert(kept[j] == old_entries[j]);
                }
            }
            assert forall|j: int, l: int| 0 <= j < l < kept.len() implies before(
                #[trigger] kept[j].0@,
                #[trigger] kept[l].0@,
            ) by {
                let shift_j: int = if there && j >= i {
                    j + 1
                } else {
                    j
                };
                let shift_l: int = if there && l >= i {
                    l + 1
                } else {
                    l
                };
                assert(kept[j] == old_entries[shift_j] && kept[l] == old_entries[shift_l]);
            }
            assert forall|j: int, l: int| 0 <= j < l < entries@.len() implies before(
                #[trigger] entries@[j].0@,
                #[trigger] entries@[l].0@,
            ) by {
                let back_j: int = if j > i {
                    j - 1
                } else {
                    j
                };
                let back_l: int = if l > i {
                    l - 1
                } else {
                    l
                };
                if j != i {
                    assert(entries@[j] == kept[back_j]);
                }
                if l != i {
                    assert(entries@[l] == kept[back_l]);
                }
            }
            assert(lists(entries@, map)) by {
                assert forall|j: int| 0 <= j < entries@.len() implies #[trigger] map.contains_key(
                    entries@[j].0@,
                ) && map[entries@[j].0@] == entries@[j].1 by {
                    if j != i {
                        let o: int = if j < i {
                            j
                        } else if there {
                            j
                        } else {
                            j - 1
                        };
                        assert(entries@[j] == old_entries[o]);
                        assert(old(self)@.contains_key(old_entries[o].0@));
                        if j < i {
                            assert(before(entries@[j].0@, entries@[i as int].0@));
                        } else {
                            assert(before(entries@[i as int].0@, entries@[j].0@));
                        }
                    }
                }
                assert forall|k: Seq<char>| #[trigger] map.contains_key(k) implies exists|j: int|
                    0 <= j < entries@.len() && #[trigger] entries@[j].0@ == k by {
                    if k == key@ {
                        assert(entries@[i as int].0@ == k);
                    } else {
                        let o = choose|o: int|
                            0 <= o < old_entries.len() && #[trigger] old_entries[o].0@ == k;
                        let n: int = if o < i || there {
                            o
                        } else {
                            o + 1
                        };
                        assert(entries@[n] == old_entries[o]);
                    }
                }
            }
            lemma_lists(entries@);
            lemma_listed_is_unique(entries@, map, map_of(entries@));
        }
        self.entries = entries;
    }

    /// Takes a key out, with its value.
    pub fn remove(&mut self, key: &str)
        ensures
            final(self)@ == old(self)@.remove(key@),
    {
        let i: usize = self.place(key);
        proof {
            use_type_invariant(&*self);
            lemma_lists(self.entries@);
            lemma_before_is_strict(key@);
        }
        let ghost old_entries = self.entries@;
        let ghost map = self@.remove(key@);
        let mut entries: Vec<(String, T)> = Vec::new();
        assert(in_order(entries@));
        std::mem::swap(&mut entries, &mut self.entries);
        let there = i < entries.len() && same_text(entries[i].0.as_str(), key);
        if there {
            entries.remove(i);
        }
        proof {
            assert forall|j: int, l: int| 0 <= j < l < entries@.len() implies before(
                #[trigger] entries@[j].0@,
                #[trigger] entries@[l].0@,
            ) by {
                let shift_j: int = if there && j >= i {
                    j + 1
                } else {
                    j
                };
                let shift_l: int = if there && l >= i {
                    l + 1
                } else {
                    l
                };
                assert(entries@[j] == old_entries[shift_j] && entries@[l] == old_entries[shift_l]);
            }
            assert(lists(entries@, map)) by {
                assert forall|j: int| 0 <= j < entries@.len() implies #[trigger] map.contains_key(
                    entries@[j].0@,
                ) && map[entries@[j].0@] == entries@[j].1 by {
                    let o: int = if there && j >= i {
                        j + 1
                    } else {
                        j
                    };
                    assert(entries@[j] == old_entries[o]);
                    assert(old(self)@.contains_key(old_entries[o].0@));
                    if o < i {
                        assert(before(old_entries[o].0@, key@));
                    }
                }
                assert forall|k: Seq<char>| #[trigger] map.contains_key(k) implies exists|j: int|
                    0 <= j < entries@.len() && #[trigger] entries@[j].0@ == k by {
                    let o = choose|o: int|
                        0 <= o < old_entries.len() && #[trigger] old_entries[o].0@ == k;
                    let n: int = if there && o > i {
                        o - 1
                    } else {
                        o
                    };
                    assert(entries@[n] == old_entries[o]);
                }
            }
            lemma_lists(entries@);
            lemma_listed_is_unique(entries@, map, map_of(entries@));
        }
        self.entries = entries;
    }
}

/// The order of texts: what two texts begin with in common does not matter, a
/// text comes before what it begins, and otherwise the smaller character decides.
pub proof fn lemma_before_by_first_difference(
    common: Seq<char>,
    a: Seq<char>,
    b: Seq<char>,
)
    ensures
        before(common + a, common + b) == before(a, b),
        b.len() > 0 ==> before(common, common + b),
        !before(common + b, common),
        a.len() > 0 && b.len() > 0 && (a[0] as int) < b[0] as int ==> before(
            common + a,
            common + b,
        ) && !before(common + b, common + a),
    decreases common.len(),
{
    let none = Seq::<char>::empty();
    if common.len() == 0 {
        assert(common + a == a && common + b == b);
    } else {
        let rest = common.drop_first();
        lemma_before_by_first_difference(rest, a, b);
        assert((common + a).drop_first() == rest + a);
        assert((common + b).drop_first() == rest + b);
    }
}

}
