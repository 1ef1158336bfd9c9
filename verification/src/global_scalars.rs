use vstd::prelude::*;
use std::collections::HashMap;
use crate::symbolizer::Symbol;

verus! {

broadcast use vstd::std_specs::hash::group_hash_axioms;

/// Numbers symbols in the order they are first inserted: the first symbol
/// gets 0, the next new one 1, and so on. A symbol is looked up by its id
/// and its name, so a symbol of another symbolizer that shares an id with
/// an inserted one is not taken for it.
pub struct SymbolMapping {
    first_with_id: HashMap<usize, usize>,
    symbols: Vec<Symbol>,
    numbers: Vec<i32>,
}

impl SymbolMapping {
    /// The keys (id and name) of the inserted symbols, in order of first
    /// insertion: a symbol's number is its position here.
    pub closed spec fn keys(&self) -> Seq<(nat, Seq<char>)> {
        self.symbols@.map_values(|s: Symbol| s.key())
    }

    pub closed spec fn wf(&self) -> bool {
        let m = self.first_with_id@;
        &&& self.symbols@.len() <= i32::MAX
        &&& self.numbers@.len() == self.symbols@.len()
        &&& forall|i: int| 0 <= i < self.numbers@.len() ==> #[trigger] self.numbers@[i] == i
        &&& m.dom().finite()
        &&& forall|i: int| 0 <= i < self.symbols@.len() ==>
            m.contains_key(#[trigger] self.symbols@[i].ident() as usize)
            && m[self.symbols@[i].ident() as usize] <= i
            && self.symbols@[i].ident() <= usize::MAX
        &&& forall|k: usize| #[trigger] m.contains_key(k) ==>
            m[k] < self.symbols@.len() && self.symbols@[m[k] as int].ident() == k
        &&& forall|i: int, j: int| 0 <= i < j < self.symbols@.len() ==>
            (#[trigger] self.symbols@[i]).key() != (#[trigger] self.symbols@[j]).key()
    }

    pub fn new() -> (m: SymbolMapping)
        ensures
            m.wf(),
            m.keys() == Seq::<(nat, Seq<char>)>::empty(),
    {
        let m = SymbolMapping { first_with_id: HashMap::new(), symbols: Vec::new(), numbers: Vec::new() };
        assert(m.keys() =~= Seq::<(nat, Seq<char>)>::empty());
        m
    }

    /// The position of `symbol` among the inserted symbols.
    fn position(&self, symbol: &Symbol) -> (r: Option<usize>)
        requires
            self.wf(),
        ensures
            r is None <==> !self.keys().contains(symbol.key()),
            r matches Some(i) ==> i < self.keys().len() && self.keys()[i as int] == symbol.key(),
    {
        let id = symbol.id_value();
        let first = match self.first_with_id.get(&id) {
            Some(f) => *f,
            None => {
                proof {
                    if self.keys().contains(symbol.key()) {
                        let j = choose|j: int| 0 <= j < self.keys().len() && self.keys()[j] == symbol.key();
                        assert(self.symbols@[j].key() == self.keys()[j]);
                    }
                }
                return None;
            }
        };
        let mut i = first;
        while i < self.symbols.len()
            invariant
                self.wf(),
                first <= i <= self.symbols@.len(),
                first == self.first_with_id@[id],
                self.first_with_id@.contains_key(id),
                id == symbol.ident(),
                forall|j: int| 0 <= j < i ==> #[trigger] self.keys()[j] != symbol.key(),
            decreases self.symbols@.len() - i,
        {
            if self.symbols[i].same(symbol) {
                proof {
                    assert(self.keys()[i as int] == self.symbols@[i as int].key());
                }
                return Some(i);
            }
            proof {
                assert(self.keys()[i as int] == self.symbols@[i as int].key());
            }
            i = i + 1;
        }
        proof {
            if self.keys().contains(symbol.key()) {
                let j = choose|j: int| 0 <= j < self.keys().len() && self.keys()[j] == symbol.key();
                assert(self.symbols@[j].key() == self.keys()[j]);
                assert(self.first_with_id@[self.symbols@[j].ident() as usize] <= j);
            }
        }
        None
    }

    /// Adds `symbol` with the next number unless it is already present.
    pub fn insert(&mut self, symbol: &Symbol)
        requires
            old(self).wf(),
            !old(self).keys().contains(symbol.key()) ==> old(self).keys().len() < i32::MAX,
        ensures
            final(self).wf(),
            old(self).keys().contains(symbol.key()) ==> final(self).keys() == old(self).keys(),
            !old(self).keys().contains(symbol.key()) ==> final(self).keys() == old(self).keys().push(symbol.key()),
    {
        if self.position(symbol).is_some() {
            return;
        }
        let id = symbol.id_value();
        let n = self.symbols.len();
        let ghost old_keys = self.keys();
        let ghost old_syms = self.symbols@;
        let ghost old_map = self.first_with_id@;
        if !self.first_with_id.contains_key(&id) {
            self.first_with_id.insert(id, n);
        }
        self.symbols.push(symbol.copy());
        self.numbers.push(n as i32);
        assert(self.keys() =~= old_keys.push(symbol.key()));
        proof {
            assert forall|i: int| 0 <= i < self.symbols@.len() implies
                self.first_with_id@.contains_key(#[trigger] self.symbols@[i].ident() as usize)
                && self.first_with_id@[self.symbols@[i].ident() as usize] <= i
                && self.symbols@[i].ident() <= usize::MAX by {
                if i < n {
                    assert(old_syms[i] == self.symbols@[i]);
                    assert(old_map.contains_key(self.symbols@[i].ident() as usize));
                }
            }
            assert forall|i: int, j: int| 0 <= i < j < self.symbols@.len() implies
                (#[trigger] self.symbols@[i]).key() != (#[trigger] self.symbols@[j]).key() by {
                if j == n {
                    assert(old_keys[i] == old_syms[i].key());
                    assert(!old_keys.contains(symbol.key()));
                } else {
                    assert(old_syms[i] == self.symbols@[i] && old_syms[j] == self.symbols@[j]);
                }
            }
        }
    }

    /// The number given to `symbol`, if it was inserted.
    pub fn get(&self, symbol: &Symbol) -> (r: Option<&i32>)
        requires
            self.wf(),
        ensures
            r is None <==> !self.keys().contains(symbol.key()),
            r matches Some(v) ==> 0 <= *v < self.keys().len() && self.keys()[*v as int] == symbol.key(),
    {
        match self.position(symbol) {
            Some(i) => Some(&self.numbers[i]),
            None => None,
        }
    }

    /// The numbering itself: each inserted symbol with its number, in the
    /// order of the numbers.
    pub fn mapping(&self) -> (m: Vec<(Symbol, i32)>)
        requires
            self.wf(),
        ensures
            m@.len() == self.keys().len(),
            forall|i: int| 0 <= i < m@.len() ==> (#[trigger] m@[i]).0.key() == self.keys()[i] && m@[i].1 == i,
    {
        let mut m: Vec<(Symbol, i32)> = Vec::new();
        let mut i: usize = 0;
        while i < self.symbols.len()
            invariant
                self.wf(),
                0 <= i <= self.symbols@.len(),
                m@.len() == i,
                forall|j: int| 0 <= j < i ==> (#[trigger] m@[j]).0.key() == self.keys()[j] && m@[j].1 == j,
            decreases self.symbols@.len() - i,
        {
            proof {
                assert(self.keys()[i as int] == self.symbols@[i as int].key());
            }
            m.push((self.symbols[i].copy(), self.numbers[i]));
            i = i + 1;
        }
        m
    }

    pub fn contains_key(&self, symbol: &Symbol) -> (r: bool)
        requires
            self.wf(),
        ensures
            r == self.keys().contains(symbol.key()),
    {
        self.position(symbol).is_some()
    }

    pub fn len(&self) -> (n: usize)
        requires
            self.wf(),
        ensures
            n == self.keys().len(),
    {
        self.symbols.len()
    }

    /// Every inserted symbol once, in the order of their numbers.
    pub fn all_symbols(&self) -> (v: Vec<Symbol>)
        ensures
            v@.map_values(|s: Symbol| s.key()) == self.keys(),
    {
        let mut v: Vec<Symbol> = Vec::new();
        let mut i: usize = 0;
        while i < self.symbols.len()
            invariant
                0 <= i <= self.symbols@.len(),
                v@.len() == i,
                forall|j: int| 0 <= j < i ==> (#[trigger] v@[j]).key() == self.symbols@[j].key(),
            decreases self.symbols@.len() - i,
        {
            v.push(self.symbols[i].copy());
            i = i + 1;
        }
        assert(v@.map_values(|s: Symbol| s.key()) =~= self.keys());
        v
    }
}

/// No symbol is numbered twice: the keys, in order of their numbers, are
/// distinct.
pub proof fn law_numbered_once(m: &SymbolMapping)
    requires
        m.wf(),
    ensures
        m.keys().no_duplicates(),
{
    assert forall|i: int, j: int| 0 <= i < m.keys().len() && 0 <= j < m.keys().len() && i != j
        implies m.keys()[i] != m.keys()[j] by {
        assert(m.keys()[i] == m.symbols@[i].key());
        assert(m.keys()[j] == m.symbols@[j].key());
        if i > j {
            assert(m.symbols@[j].key() != m.symbols@[i].key());
        }
    }
}

/// A symbol not yet present gets the next number, the count of symbols
/// before it, and no other symbol's number changes.
pub proof fn law_insert_numbers_next(before: &SymbolMapping, after: &SymbolMapping, s: Symbol)
    requires
        before.wf(),
        after.wf(),
        !before.keys().contains(s.key()),
        after.keys() == before.keys().push(s.key()),
    ensures
        after.keys().len() == before.keys().len() + 1,
        forall|v: int| 0 <= v < after.keys().len() && after.keys()[v] == s.key() ==> v == before.keys().len(),
        forall|i: int| 0 <= i < before.keys().len() ==> after.keys()[i] == before.keys()[i],
{
    law_numbered_once(after);
    assert(after.keys()[before.keys().len() as int] == s.key());
}

/// Inserting a symbol twice has the effect of inserting it once: after the
/// first `insert` it is present, so the second changes nothing.
pub proof fn law_insert_idempotent(start: &SymbolMapping, first: &SymbolMapping, second: &SymbolMapping, s: Symbol)
    requires
        start.keys().contains(s.key()) ==> first.keys() == start.keys(),
        !start.keys().contains(s.key()) ==> first.keys() == start.keys().push(s.key()),
        first.keys().contains(s.key()) ==> second.keys() == first.keys(),
        !first.keys().contains(s.key()) ==> second.keys() == first.keys().push(s.key()),
    ensures
        second.keys() == first.keys(),
{
    if !start.keys().contains(s.key()) {
        assert(first.keys()[start.keys().len() as int] == s.key());
    }
}

} // verus!
