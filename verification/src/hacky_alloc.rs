use vstd::prelude::*;
use std::rc::Rc;
use crate::awk_str::AwkStr;

verus! {

/// The most strings the pool keeps for reuse.
pub const POOL_LIMIT: usize = 128;

/// `Rc::strong_count`. Nothing is stated of the count: it depends on the
/// handles to the same string that are alive elsewhere.
#[verifier::external_body]
fn strong_count(rc: &Rc<AwkStr>) -> (n: usize) {
    Rc::strong_count(rc)
}

/// `Rc::weak_count`. Nothing is stated of the count, for the same reason.
#[verifier::external_body]
fn weak_count(rc: &Rc<AwkStr>) -> (n: usize) {
    Rc::weak_count(rc)
}

/// A pool of strings that were given back while nothing else held them, so
/// that their buffers can be filled again instead of allocated anew.
pub struct HackyAlloc {
    fast_alloc: Vec<Rc<AwkStr>>,
}

impl HackyAlloc {
    /// The pooled strings, the one handed out next last.
    pub closed spec fn pooled(&self) -> Seq<Rc<AwkStr>> {
        self.fast_alloc@
    }

    /// The pool never holds more than `POOL_LIMIT` strings.
    pub open spec fn wf(&self) -> bool {
        self.pooled().len() <= POOL_LIMIT
    }

    pub fn new() -> (a: HackyAlloc)
        ensures
            a.wf(),
            a.pooled() == Seq::<Rc<AwkStr>>::empty(),
    {
        HackyAlloc { fast_alloc: Vec::new() }
    }

    /// The most recently pooled string, taken out of the pool.
    pub fn take(&mut self) -> (r: Option<Rc<AwkStr>>)
        requires
            old(self).wf(),
        ensures
            final(self).wf(),
            old(self).pooled().len() == 0 ==> r is None && final(self).pooled() == old(self).pooled(),
            old(self).pooled().len() > 0 ==> r == Some(old(self).pooled().last())
                && final(self).pooled() == old(self).pooled().drop_last(),
    {
        self.fast_alloc.pop()
    }

    /// A string holding `bytes`, in the buffer of the most recently pooled
    /// string where there is one (which then leaves the pool).
    pub fn alloc_awkstr(&mut self, bytes: &[u8]) -> (r: Rc<AwkStr>)
        requires
            old(self).wf(),
        ensures
            final(self).wf(),
            r@ == bytes@,
            old(self).pooled().len() == 0 ==> final(self).pooled() == old(self).pooled(),
            old(self).pooled().len() > 0 ==> final(self).pooled() == old(self).pooled().drop_last(),
    {
        match self.fast_alloc.pop() {
            Some(current) => {
                match Rc::try_unwrap(current) {
                    Ok(mut s) => {
                        s.clear();
                        s.push_str(bytes);
                        Rc::new(s)
                    }
                    Err(_) => Rc::new(AwkStr::new(vstd::slice::slice_to_vec(bytes))),
                }
            }
            None => Rc::new(AwkStr::new(vstd::slice::slice_to_vec(bytes))),
        }
    }

    /// Gives `str` back: it is pooled when it was the only handle to its
    /// string (`strong` other handles counted with it, `weak` weak ones) and
    /// the pool has room.
    pub fn recycle(&mut self, str: Rc<AwkStr>, strong: usize, weak: usize)
        requires
            old(self).wf(),
        ensures
            final(self).wf(),
            final(self).pooled() == if strong == 1 && weak == 0 && old(self).pooled().len() < POOL_LIMIT {
                old(self).pooled().push(str)
            } else {
                old(self).pooled()
            },
    {
        if strong == 1 && weak == 0 && self.fast_alloc.len() < POOL_LIMIT {
            self.fast_alloc.push(str);
        }
    }

    /// Gives `str` back; it is pooled when nothing else holds its string and
    /// the pool has room.
    pub fn drop(&mut self, str: Rc<AwkStr>)
        requires
            old(self).wf(),
        ensures
            final(self).wf(),
            final(self).pooled() == old(self).pooled()
                || (old(self).pooled().len() < POOL_LIMIT && final(self).pooled() == old(self).pooled().push(str)),
    {
        let strong = strong_count(&str);
        let weak = weak_count(&str);
        self.recycle(str, strong, weak);
    }
}

/// A key of an awk array: a string, compared and hashed by its bytes.
#[derive(Hash, Clone, PartialEq, Eq)]
pub struct MapKey {
    key: Rc<AwkStr>,
}

impl MapKey {
    pub closed spec fn key(&self) -> Rc<AwkStr> {
        self.key
    }

    /// Takes `key` over as it is; its handle count is left alone.
    pub fn new(key: Rc<AwkStr>) -> (k: MapKey)
        ensures
            k.key() == key,
    {
        MapKey { key }
    }
}

/// Counts of the strings that crossed between compiled code and the runtime,
/// kept while debugging.
pub struct StringTracker {
    pub string_out: usize,
    pub strings_in: usize,
}

impl StringTracker {
    pub fn new() -> (t: StringTracker)
        ensures
            t.string_out == 0,
            t.strings_in == 0,
    {
        StringTracker { strings_in: 0, string_out: 0 }
    }

    /// Counts one string handed to compiled code.
    pub fn string_out(&mut self)
        requires
            old(self).string_out < usize::MAX,
        ensures
            final(self).string_out == old(self).string_out + 1,
            final(self).strings_in == old(self).strings_in,
    {
        self.string_out = self.string_out + 1;
    }

    /// Counts one string handed back by compiled code.
    pub fn string_in(&mut self)
        requires
            old(self).strings_in < usize::MAX,
        ensures
            final(self).strings_in == old(self).strings_in + 1,
            final(self).string_out == old(self).string_out,
    {
        self.strings_in = self.strings_in + 1;
    }
}

} // verus!
