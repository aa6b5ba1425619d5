//! The symbol table: the address of every label.

use vstd::prelude::*;
use vstd::string::*;
use vstd::hash_map::StringHashMap;

verus! {

/// A mapping from label names to addresses. It remembers the order in which
/// the names were first defined.
pub struct SymbolTable {
    index: StringHashMap<u16>,
    names: Vec<String>,
}

impl View for SymbolTable {
    type V = Map<Seq<char>, u16>;

    closed spec fn view(&self) -> Map<Seq<char>, u16> {
        self.index@
    }
}

/// The place of `name` in `order`: the index at which it first occurs.
pub open spec fn rank(order: Seq<Seq<char>>, name: Seq<char>) -> int
    decreases order.len(),
{
    if order.len() == 0 || order[0] == name {
        0
    } else {
        1 + rank(order.drop_first(), name)
    }
}

/// Whether the entry `a` stands before the entry `b` in a listing: the lower
/// address comes first, and of two labels with one address the one that was
/// defined first.
pub open spec fn listed_before(
    order: Seq<Seq<char>>,
    a: (Seq<char>, u16),
    b: (Seq<char>, u16),
) -> bool {
    a.1 < b.1 || (a.1 == b.1 && rank(order, a.0) < rank(order, b.0))
}

/// Whether `name` is the label of one of `entries`.
pub open spec fn has_entry(entries: Seq<(Seq<char>, u16)>, name: Seq<char>) -> bool {
    exists|i: int| 0 <= i < entries.len() && (#[trigger] entries[i]).0 == name
}

/// Whether `entries` is the listing of the table with the addresses
/// `symbols` and the definition order `order`: every label of the table
/// has an entry, every entry is a label of the table with its address, and
/// the entries stand by ascending address, so that no label stands twice.
pub open spec fn is_listing(
    entries: Seq<(Seq<char>, u16)>,
    symbols: Map<Seq<char>, u16>,
    order: Seq<Seq<char>>,
) -> bool {
    &&& forall|name: Seq<char>| #[trigger] symbols.contains_key(name) ==> has_entry(entries, name)
    &&& entries.len() == order.len()
    &&& forall|i: int|
        0 <= i < entries.len() ==> symbols.contains_key((#[trigger] entries[i]).0)
            && symbols[entries[i].0] == entries[i].1 && 0 <= rank(order, entries[i].0)
            < order.len()
    &&& forall|i: int, j: int|
        0 <= i < j < entries.len() ==> listed_before(order, #[trigger] entries[i], #[trigger] entries[j])
}

/// The texts and addresses of a sequence of entries.
pub open spec fn entry_views(entries: Seq<(String, u16)>) -> Seq<(Seq<char>, u16)> {
    entries.map_values(|e: (String, u16)| (e.0@, e.1))
}

/// In an order without repetitions every name has the place at which it
/// stands.
proof fn lemma_rank(order: Seq<Seq<char>>, k: int)
    requires
        0 <= k < order.len(),
        forall|i: int, j: int| 0 <= i < j < order.len() ==> order[i] != order[j],
    ensures
        rank(order, order[k]) == k,
    decreases order.len(),
{
    if k > 0 {
        let rest = order.drop_first();
        assert(order[0] != order[k]);
        assert forall|i: int, j: int| 0 <= i < j < rest.len() implies rest[i] != rest[j] by {
            assert(rest[i] == order[i + 1] && rest[j] == order[j + 1]);
        }
        assert(rest[k - 1] == order[k]);
        lemma_rank(rest, k - 1);
    }
}

/// Whether `name` is the label of one of `entries`.
spec fn holds(entries: Seq<(String, u16)>, name: Seq<char>) -> bool {
    exists|i: int| 0 <= i < entries.len() && (#[trigger] entries[i]).0@ == name
}

/// Whether `name` is the text of one of `names`.
spec fn listed(names: Seq<String>, name: Seq<char>) -> bool {
    exists|i: int| 0 <= i < names.len() && (#[trigger] names[i])@ == name
}

impl SymbolTable {
    #[verifier::type_invariant]
    spec fn well_formed(self) -> bool {
        &&& forall|i: int|
            0 <= i < self.names@.len() ==> self.index@.contains_key((#[trigger] self.names@[i])@)
        &&& forall|k: Seq<char>| #[trigger] self.index@.contains_key(k) ==> listed(self.names@, k)
        &&& forall|i: int, j: int|
            0 <= i < j < self.names@.len() ==> (#[trigger] self.names@[i])@ != (
            #[trigger] self.names@[j])@
    }

    /// The defined names, each once, in the order of their first definition.
    pub closed spec fn order(&self) -> Seq<Seq<char>> {
        self.names@.map_values(|name: String| name@)
    }

    /// A table without labels.
    pub fn new() -> (table: Self)
        ensures
            table@ == Map::<Seq<char>, u16>::empty(),
            table.order() == Seq::<Seq<char>>::empty(),
    {
        let table = SymbolTable { index: StringHashMap::new(), names: Vec::new() };
        assert(table.names@.map_values(|name: String| name@) =~= Seq::<Seq<char>>::empty());
        table
    }

    /// Gives `name` the address `address`. A name that is already defined
    /// gets the new address and keeps its place in the order.
    pub fn insert(&mut self, name: String, address: u16)
        ensures
            final(self)@ == old(self)@.insert(name@, address),
            final(self).order() == if old(self)@.contains_key(name@) {
                old(self).order()
            } else {
                old(self).order().push(name@)
            },
    {
        proof {
            use_type_invariant(&*self);
        }
        let mut held = SymbolTable::new();
        core::mem::swap(self, &mut held);
        let SymbolTable { mut index, mut names } = held;
        let ghost before = names@;
        let ghost known = index@;
        if !index.contains_key(name.as_str()) {
            names.push(name.clone());
            assert(names@.map_values(|name: String| name@) =~= before.map_values(
                |name: String| name@,
            ).push(name@));
        }
        index.insert(name, address);
        proof {
            assert forall|i: int| 0 <= i < names@.len() implies index@.contains_key(
                (#[trigger] names@[i])@,
            ) by {
                if i < before.len() {
                    assert(known.contains_key(before[i]@));
                }
            }
            assert forall|i: int, j: int| 0 <= i < j < names@.len() implies (#[trigger] names@[i])@
                != (#[trigger] names@[j])@ by {
                if j < before.len() {
                    assert(before[i]@ != before[j]@);
                } else {
                    assert(known.contains_key(before[i]@));
                }
            }
            assert forall|k: Seq<char>| #[trigger] index@.contains_key(k) implies listed(
                names@,
                k,
            ) by {
                if k == name@ && !known.contains_key(name@) {
                    assert(names@[before.len() as int]@ == k);
                } else {
                    assert(known.contains_key(k));
                    assert(listed(before, k));
                    let i = choose|i: int| 0 <= i < before.len() && (#[trigger] before[i])@ == k;
                    assert(names@[i]@ == k);
                }
            }
        }
        *self = SymbolTable { index, names };
    }

    /// The address of `name`, if it is defined.
    pub fn get(&self, name: &str) -> (r: Option<u16>)
        ensures
            r == (if self@.contains_key(name@) {
                Some(self@[name@])
            } else {
                None::<u16>
            }),
    {
        match self.index.get(name) {
            Some(address) => Some(*address),
            None => None,
        }
    }

    /// The number of defined names. The order holds the labels of the
    /// table and nothing else, each once.
    pub fn len(&self) -> (n: usize)
        ensures
            n == self.order().len(),
            forall|name: Seq<char>|
                #[trigger] self@.contains_key(name) <==> self.order().contains(name),
            self.order().no_duplicates(),
    {
        proof {
            use_type_invariant(self);
            let order = self.order();
            assert forall|name: Seq<char>| #[trigger]
                self@.contains_key(name) <==> order.contains(name) by {
                if self@.contains_key(name) {
                    assert(listed(self.names@, name));
                    let i = choose|i: int|
                        0 <= i < self.names@.len() && (#[trigger] self.names@[i])@ == name;
                    assert(order[i] == name);
                }
                if order.contains(name) {
                    let i = choose|i: int| 0 <= i < order.len() && order[i] == name;
                    assert(self.names@[i]@ == name);
                }
            }
            assert forall|i: int, j: int|
                0 <= i < order.len() && 0 <= j < order.len() && i != j implies order[i]
                != order[j] by {
                assert(order[i] == self.names@[i]@ && order[j] == self.names@[j]@);
            }
        }
        self.names.len()
    }

    /// The labels with their addresses by ascending address; labels with the
    /// same address stand in the order of their definition.
    pub fn sorted(&self) -> (r: Vec<(String, u16)>)
        ensures
            is_listing(entry_views(r@), self@, self.order()),
    {
        proof {
            use_type_invariant(self);
        }
        let ghost order = self.order();
        assert forall|i: int, j: int| 0 <= i < j < order.len() implies order[i] != order[j] by {
            assert(order[i] == self.names@[i]@ && order[j] == self.names@[j]@);
        }
        let mut r: Vec<(String, u16)> = Vec::new();
        let mut k: usize = 0;
        while k < self.names.len()
            invariant
                k <= self.names@.len(),
                order == self.names@.map_values(|name: String| name@),
                order == self.order(),
                forall|i: int, j: int| 0 <= i < j < order.len() ==> order[i] != order[j],
                forall|i: int|
                    0 <= i < self.names@.len() ==> self.index@.contains_key(
                        (#[trigger] self.names@[i])@,
                    ),
                r@.len() == k,
                forall|j: int| 0 <= j < k ==> holds(r@, (#[trigger] self.names@[j])@),
                forall|i: int|
                    0 <= i < r@.len() ==> self.index@.contains_key((#[trigger] r@[i]).0@)
                        && self.index@[r@[i].0@] == r@[i].1 && 0 <= rank(order, r@[i].0@) < k,
                forall|i: int, j: int|
                    0 <= i < j < r@.len() ==> listed_before(
                        order,
                        ((#[trigger] r@[i]).0@, r@[i].1),
                        ((#[trigger] r@[j]).0@, r@[j].1),
                    ),
            decreases self.names@.len() - k,
        {
            let name = &self.names[k];
            assert(order[k as int] == name@);
            proof {
                lemma_rank(order, k as int);
            }
            let address = match self.index.get(name.as_str()) {
                Some(address) => *address,
                None => 0,
            };
            let mut p: usize = 0;
            while p < r.len() && r[p].1 <= address
                invariant
                    p <= r@.len(),
                    forall|i: int| 0 <= i < p ==> (#[trigger] r@[i]).1 <= address,
                decreases r@.len() - p,
            {
                p += 1;
            }
            let ghost before = r@;
            r.insert(p, (name.clone(), address));
            proof {
                assert forall|j: int| 0 <= j < k + 1 implies holds(
                    r@,
                    (#[trigger] self.names@[j])@,
                ) by {
                    if j < k {
                        let at = choose|i: int|
                            0 <= i < before.len() && (#[trigger] before[i]).0@ == self.names@[j]@;
                        if at < p {
                            assert(r@[at] == before[at]);
                        } else {
                            assert(r@[at + 1] == before[at]);
                        }
                    } else {
                        assert(r@[p as int].0@ == self.names@[j]@);
                    }
                }
                assert forall|i: int| 0 <= i < r@.len() implies self.index@.contains_key(
                    (#[trigger] r@[i]).0@,
                ) && self.index@[r@[i].0@] == r@[i].1 && 0 <= rank(order, r@[i].0@) < k + 1 by {
                    if i < p {
                        assert(r@[i] == before[i]);
                    } else if i > p {
                        assert(r@[i] == before[i - 1]);
                    }
                }
                assert forall|i: int, j: int| 0 <= i < j < r@.len() implies listed_before(
                    order,
                    ((#[trigger] r@[i]).0@, r@[i].1),
                    ((#[trigger] r@[j]).0@, r@[j].1),
                ) by {
                    if j < p {
                        assert(r@[i] == before[i] && r@[j] == before[j]);
                    } else if j == p {
                        assert(r@[i] == before[i]);
                    } else if i < p {
                        assert(r@[i] == before[i] && r@[j] == before[j - 1]);
                    } else if i == p {
                        assert(r@[j] == before[j - 1]);
                        if j - 1 > p {
                            assert(listed_before(
                                order,
                                (before[p as int].0@, before[p as int].1),
                                (before[j - 1].0@, before[j - 1].1),
                            ));
                        }
                    } else {
                        assert(r@[i] == before[i - 1] && r@[j] == before[j - 1]);
                    }
                }
            }
            k += 1;
        }
        proof {
            let entries = entry_views(r@);
            assert forall|name: Seq<char>| #[trigger] self@.contains_key(name) implies has_entry(
                entries,
                name,
            ) by {
                assert(listed(self.names@, name));
                let j = choose|j: int|
                    0 <= j < self.names@.len() && (#[trigger] self.names@[j])@ == name;
                assert(holds(r@, self.names@[j]@));
                let at = choose|i: int| 0 <= i < r@.len() && (#[trigger] r@[i]).0@ == name;
                assert(entries[at].0 == name);
            }
            assert forall|i: int| 0 <= i < entries.len() implies self@.contains_key(
                (#[trigger] entries[i]).0,
            ) && self@[entries[i].0] == entries[i].1 && 0 <= rank(order, entries[i].0)
                < order.len() by {
                assert(entries[i] == (r@[i].0@, r@[i].1));
            }
            assert forall|i: int, j: int| 0 <= i < j < entries.len() implies listed_before(
                order,
                #[trigger] entries[i],
                #[trigger] entries[j],
            ) by {
                assert(entries[i] == (r@[i].0@, r@[i].1));
                assert(entries[j] == (r@[j].0@, r@[j].1));
            }
        }
        r
    }
}

} // verus!
