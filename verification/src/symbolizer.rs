use vstd::prelude::*;
use std::rc::Rc;

verus! {

/// An interned name. Two symbols are equal (`==`) exactly when they share
/// one allocation of their name, as symbols handed out by one `Symbolizer`
/// for the same name do; symbols of two symbolizers are never equal.
#[derive(Debug, Clone, Hash, PartialOrd, Ord)]
pub struct Symbol {
    pub sym: Rc<String>,
    id: usize,
}

/// `std::rc::Rc::ptr_eq`: whether two handles point to one allocation.
/// Handles to one allocation see the same string. Which allocations are
/// shared is not stated: it depends on addresses.
#[verifier::external_body]
fn same_allocation(a: &Rc<String>, b: &Rc<String>) -> (r: bool)
    ensures
        r ==> a@ == b@,
{
    Rc::ptr_eq(a, b)
}

impl Symbol {
    /// The interning id of the symbol.
    pub closed spec fn ident(&self) -> nat {
        self.id as nat
    }

    /// The name of the symbol.
    pub closed spec fn name(&self) -> Seq<char> {
        self.sym@
    }

    /// What identifies a symbol among those of one symbolizer and sets
    /// symbols of different symbolizers apart: its id with its name.
    pub open spec fn key(&self) -> (nat, Seq<char>) {
        (self.ident(), self.name())
    }

    pub fn to_str(&self) -> (s: &str)
        ensures
            s@ == self.name(),
    {
        self.sym.as_str()
    }

    pub fn as_bytes(&self) -> (b: &[u8])
        ensures
            b@ == vstd::utf8::encode_utf8(self.name()),
    {
        self.sym.as_str().as_bytes()
    }

    /// The interning id as a number.
    pub fn id_value(&self) -> (n: usize)
        ensures
            n == self.ident(),
    {
        self.id
    }

    /// A second handle on the same symbol.
    pub fn copy(&self) -> (s: Symbol)
        ensures
            s.ident() == self.ident(),
            s.name() == self.name(),
    {
        Symbol { id: self.id, sym: Rc::clone(&self.sym) }
    }

    /// Whether two symbols have the same interning id and the same name.
    pub fn same(&self, other: &Symbol) -> (r: bool)
        ensures
            r == (self.key() == other.key()),
    {
        self.id == other.id && *self.sym == *other.sym
    }
}

impl PartialEq for Symbol {
    fn eq(&self, other: &Self) -> (r: bool) {
        same_allocation(&self.sym, &other.sym)
    }
}

impl vstd::std_specs::cmp::PartialEqSpecImpl for Symbol {
    /// Equality goes by allocation, which no specification here can state,
    /// so no contract speaks of `==` on symbols.
    open spec fn obeys_eq_spec() -> bool {
        false
    }

    open spec fn eq_spec(&self, other: &Self) -> bool {
        self.key() == other.key()
    }
}

impl Eq for Symbol {}


/// The interning table: every name handed out so far, with its id, in a
/// `hashbrown::HashMap`. The map is held in a struct of its own because its
/// type cannot be declared here: its allocator parameter is bounded by a
/// trait of `allocator_api2`, which this crate does not depend on.
#[verifier::external_body]
pub struct NameTable {
    map: hashbrown::HashMap<String, usize>,
}

/// What a `NameTable` holds: names (as characters) mapped to their ids.
pub uninterp spec fn name_table_contents(t: NameTable) -> Map<Seq<char>, usize>;

/// `hashbrown::HashMap::with_capacity`: an empty map.
#[verifier::external_body]
fn name_table_new() -> (table: NameTable)
    ensures
        name_table_contents(table).dom().len() == 0 && name_table_contents(table).dom().finite(),
{
    NameTable { map: hashbrown::HashMap::with_capacity(8) }
}

/// `hashbrown::HashMap::get`: the id stored under `name`, if any. String
/// keys hash and compare by their characters.
#[verifier::external_body]
fn name_table_get(t: &NameTable, name: &str) -> (r: Option<usize>)
    ensures
        r == (if name_table_contents(*t).dom().contains(name@) {
            Some(name_table_contents(*t)[name@])
        } else {
            None
        }),
{
    t.map.get(name).copied()
}

/// `hashbrown::HashMap::insert`: afterwards `name` maps to `id` and every
/// other entry is as before.
#[verifier::external_body]
fn name_table_insert(t: &mut NameTable, name: String, id: usize)
    ensures
        name_table_contents(*final(t)) == name_table_contents(*old(t)).insert(name@, id),
{
    t.map.insert(name, id);
}

/// `lru_cache::LruCache`, the cache of recently looked-up symbols.
#[verifier::external_type_specification]
#[verifier::external_body]
#[verifier::reject_recursive_types(K)]
#[verifier::reject_recursive_types(V)]
#[verifier::reject_recursive_types(S)]
pub struct ExLruCache<K: Eq + core::hash::Hash, V, S: core::hash::BuildHasher>(lru_cache::LruCache<K, V, S>);

/// What a cache of recent symbols holds: names mapped to their symbols.
pub uninterp spec fn recent_contents(c: lru_cache::LruCache<String, Symbol>) -> Map<Seq<char>, Symbol>;

/// The capacity a cache of recent symbols was made with.
pub uninterp spec fn recent_capacity(c: lru_cache::LruCache<String, Symbol>) -> nat;

/// `lru_cache::LruCache::new`: an empty cache holding at most `capacity` entries.
#[verifier::external_body]
fn recent_new(capacity: usize) -> (cache: lru_cache::LruCache<String, Symbol>)
    ensures
        recent_contents(cache).dom().len() == 0 && recent_contents(cache).dom().finite(),
        recent_capacity(cache) == capacity,
{
    lru_cache::LruCache::new(capacity)
}

/// `lru_cache::LruCache::get_mut`: the cached symbol under `name`, if any.
/// The lookup only refreshes the entry's recency; entries and capacity stay.
#[verifier::external_body]
fn recent_get(c: &mut lru_cache::LruCache<String, Symbol>, name: &str) -> (r: Option<Symbol>)
    ensures
        recent_contents(*final(c)) == recent_contents(*old(c)),
        recent_capacity(*final(c)) == recent_capacity(*old(c)),
        r is Some <==> recent_contents(*old(c)).dom().contains(name@),
        r matches Some(v) ==> v.ident() == recent_contents(*old(c))[name@].ident()
            && v.name() == recent_contents(*old(c))[name@].name(),
{
    c.get_mut(name).cloned()
}

/// `lru_cache::LruCache::insert`: `name` is stored under `sym`; when the
/// cache then holds more than its capacity the least recently used entry
/// leaves. No other entry changes and no new one appears.
#[verifier::external_body]
fn recent_insert(c: &mut lru_cache::LruCache<String, Symbol>, name: String, sym: Symbol)
    ensures
        recent_capacity(*final(c)) == recent_capacity(*old(c)),
        forall|k: Seq<char>| #[trigger] recent_contents(*final(c)).dom().contains(k) ==>
            recent_contents(*old(c)).insert(name@, sym).dom().contains(k)
            && recent_contents(*final(c))[k] == recent_contents(*old(c)).insert(name@, sym)[k],
        recent_capacity(*old(c)) > 0 ==> recent_contents(*final(c)).dom().contains(name@)
            && recent_contents(*final(c))[name@] == sym,
{
    c.insert(name, sym);
}

/// Interns names: every distinct name gets one id, handed out in order.
pub struct Symbolizer {
    known: NameTable,
    names: Vec<Rc<String>>,
    last: lru_cache::LruCache<String, Symbol>,
}

impl Symbolizer {
    /// The names interned so far, in the order of their ids.
    pub closed spec fn names(&self) -> Seq<Seq<char>> {
        self.names@.map_values(|r: Rc<String>| r@)
    }

    pub closed spec fn wf(&self) -> bool {
        let t = name_table_contents(self.known);
        let c = recent_contents(self.last);
        &&& recent_capacity(self.last) > 0
        &&& forall|i: int| 0 <= i < self.names@.len() ==>
            t.dom().contains(#[trigger] self.names@[i]@) && t[self.names@[i]@] == i
        &&& forall|k: Seq<char>| #[trigger] t.dom().contains(k) ==>
            t[k] < self.names@.len() && self.names@[t[k] as int]@ == k
        &&& forall|k: Seq<char>| #[trigger] c.dom().contains(k) ==>
            t.dom().contains(k) && c[k].ident() == t[k] && c[k].name() == k
    }

    /// `s` was handed out by this symbolizer.
    pub open spec fn issued(&self, s: Symbol) -> bool {
        s.ident() < self.names().len() && self.names()[s.ident() as int] == s.name()
    }

    pub fn new() -> (z: Symbolizer)
        ensures
            z.wf(),
            z.names() == Seq::<Seq<char>>::empty(),
    {
        let z = Symbolizer { known: name_table_new(), names: Vec::new(), last: recent_new(32) };
        assert(z.names() =~= Seq::<Seq<char>>::empty());
        z
    }

    /// The symbol for `name`: the one handed out before for the same name,
    /// else a new one with the next id.
    pub fn get(&mut self, name: &str) -> (s: Symbol)
        requires
            old(self).wf(),
        ensures
            final(self).wf(),
            s.name() == name@,
            final(self).issued(s),
            old(self).names().contains(name@) ==> final(self).names() == old(self).names(),
            !old(self).names().contains(name@) ==> final(self).names() == old(self).names().push(name@),
    {
        if let Some(cached) = recent_get(&mut self.last, name) {
            proof {
                let t = name_table_contents(self.known);
                let k = name@;
                assert(self.names@[t[k] as int]@ == k);
                assert(self.names()[t[k] as int] == k);
                assert(self.names().contains(name@));
            }
            return cached;
        }
        self.get_internal(name.to_string())
    }

    /// Like `get`, reusing an owned string.
    pub fn get_from_string(&mut self, name: String) -> (s: Symbol)
        requires
            old(self).wf(),
        ensures
            final(self).wf(),
            s.name() == name@,
            final(self).issued(s),
            old(self).names().contains(name@) ==> final(self).names() == old(self).names(),
            !old(self).names().contains(name@) ==> final(self).names() == old(self).names().push(name@),
    {
        if let Some(cached) = recent_get(&mut self.last, name.as_str()) {
            proof {
                let t = name_table_contents(self.known);
                let k = name@;
                assert(self.names@[t[k] as int]@ == k);
                assert(self.names()[t[k] as int] == k);
                assert(self.names().contains(name@));
            }
            return cached;
        }
        self.get_internal(name)
    }

    fn get_internal(&mut self, name: String) -> (s: Symbol)
        requires
            old(self).wf(),
        ensures
            final(self).wf(),
            s.name() == name@,
            final(self).issued(s),
            old(self).names().contains(name@) ==> final(self).names() == old(self).names(),
            !old(self).names().contains(name@) ==> final(self).names() == old(self).names().push(name@),
    {
        if let Some(id) = name_table_get(&self.known, name.as_str()) {
            let sym = Rc::clone(&self.names[id]);
            proof {
                assert(self.names()[id as int] == name@);
                assert(self.names().contains(name@));
            }
            return Symbol { id, sym };
        }
        proof {
            if self.names().contains(name@) {
                let i = choose|i: int| 0 <= i < self.names().len() && self.names()[i] == name@;
                assert(self.names@[i]@ == name@);
            }
        }
        let id = self.names.len();
        let rc = Rc::new(name.clone());
        let s = Symbol { id, sym: Rc::clone(&rc) };
        let ghost old_names = self.names();
        recent_insert(&mut self.last, name.clone(), s.copy());
        name_table_insert(&mut self.known, name, id);
        self.names.push(rc);
        assert(self.names() =~= old_names.push(s.name()));
        s
    }

    /// How many distinct names have been interned.
    pub fn len(&self) -> (n: usize)
        ensures
            n == self.names().len(),
    {
        self.names.len()
    }
}

/// Interning: of two symbols handed out by one symbolizer, the ids are equal
/// exactly when the names are equal.
pub proof fn law_interning(z: &Symbolizer, a: Symbol, b: Symbol)
    requires
        z.wf(),
        z.issued(a),
        z.issued(b),
    ensures
        (a.ident() == b.ident()) <==> (a.name() == b.name()),
{
    if a.name() == b.name() {
        let t = name_table_contents(z.known);
        assert(z.names@[a.ident() as int]@ == a.name());
        assert(z.names@[b.ident() as int]@ == b.name());
    }
}

/// What was handed out stays handed out: a later `get` keeps every earlier
/// name at its id.
pub proof fn law_issued_stays(before: Seq<Seq<char>>, after: Seq<Seq<char>>, name: Seq<char>, i: int)
    requires
        after == before || after == before.push(name),
        0 <= i < before.len(),
    ensures
        after[i] == before[i],
{
}

} // verus!
