use vstd::prelude::*;
use crate::byte_deque::ByteDeque;
use crate::index_of::{index_in_dq, first_occurrence, occurs_at, is_first_occurrence, never_occurs,
    lemma_found_as_first_occurrence, lemma_before_first_occurrence};
use crate::lazily_split_line::{LazilySplitLine, field_of};

verus! {

/// What the reader needs next while looking for a record.
#[derive(Debug, Clone, Copy, PartialEq, Eq, Structural)]
pub enum RecordStep {
    /// A record is ready; its fields can be read.
    Found,
    /// No record separator is buffered yet: more input is needed.
    NeedInput,
    /// The input is used up and no record is left.
    Exhausted,
}

/// Cuts input into records at the record separator and splits the current
/// record into fields. The input itself is read by the caller, which hands
/// the bytes over with `input`: `begin_record`, then `poll`, then, while the
/// answer is `NeedInput`, read and pass the bytes to `input` (an empty read
/// means end of input).
pub struct RecordReader {
    has_file: bool,
    slop: ByteDeque,
    rs: Vec<u8>,
    end_of_current_record: usize,
    line: LazilySplitLine,
}

impl RecordReader {
    pub closed spec fn wf(&self) -> bool {
        &&& self.slop.wf()
        &&& self.end_of_current_record <= self.slop@.len()
    }

    /// The buffered input: the current record first.
    pub closed spec fn buffered(&self) -> Seq<u8> {
        self.slop@
    }

    /// Where the current record ends in the buffered input.
    pub closed spec fn record_end(&self) -> nat {
        self.end_of_current_record as nat
    }

    /// The current record.
    pub open spec fn record(&self) -> Seq<u8> {
        self.buffered().subrange(0, self.record_end() as int)
    }

    pub closed spec fn rs(&self) -> Seq<u8> {
        self.rs@
    }

    pub closed spec fn has_file(&self) -> bool {
        self.has_file
    }

    pub closed spec fn field_sep(&self) -> Seq<u8> {
        self.line.fs()
    }

    pub closed spec fn pending_field_sep(&self) -> Option<Seq<u8>> {
        self.line.pending_fs()
    }

    /// A reader with no input yet, a new line as record separator and a
    /// space as field separator.
    pub fn new() -> (r: Self)
        ensures
            r.wf(),
            !r.has_file(),
            r.buffered() == Seq::<u8>::empty(),
            r.record_end() == 0,
            r.rs() == seq![10u8],
            r.field_sep() == seq![32u8],
            r.pending_field_sep() is None,
    {
        let r = Self {
            has_file: false,
            slop: ByteDeque::with_capacity(16 * 1024),
            rs: vec![10u8],
            end_of_current_record: 0,
            line: LazilySplitLine::new(),
        };
        assert(r.rs() =~= seq![10u8]);
        r
    }

    /// Input from a new file follows.
    pub fn next_file(&mut self)
        ensures
            final(self).has_file(),
            final(self).buffered() == old(self).buffered(),
            final(self).record_end() == old(self).record_end(),
            final(self).rs() == old(self).rs(),
            final(self).field_sep() == old(self).field_sep(),
            final(self).pending_field_sep() == old(self).pending_field_sep(),
            old(self).wf() ==> final(self).wf(),
    {
        self.has_file = true;
    }

    pub fn set_rs(&mut self, rs: Vec<u8>)
        ensures
            final(self).rs() == rs@,
            final(self).has_file() == old(self).has_file(),
            final(self).buffered() == old(self).buffered(),
            final(self).record_end() == old(self).record_end(),
            final(self).field_sep() == old(self).field_sep(),
            final(self).pending_field_sep() == old(self).pending_field_sep(),
            old(self).wf() ==> final(self).wf(),
    {
        self.rs = rs;
    }

    /// How many bytes are buffered.
    pub fn buffered_len(&self) -> (n: usize)
        requires
            self.wf(),
        ensures
            n == self.buffered().len(),
    {
        self.slop.len()
    }

    pub fn record_sep(&self) -> (s: &[u8])
        ensures
            s@ == self.rs(),
    {
        self.rs.as_slice()
    }

    /// Sets the field separator; it takes effect with the next record.
    pub fn set_fs(&mut self, fs: Vec<u8>)
        ensures
            final(self).pending_field_sep() == Some(fs@),
            final(self).field_sep() == old(self).field_sep(),
            final(self).rs() == old(self).rs(),
            final(self).has_file() == old(self).has_file(),
            final(self).buffered() == old(self).buffered(),
            final(self).record_end() == old(self).record_end(),
            old(self).wf() ==> final(self).wf(),
    {
        self.line.set_fs(fs);
    }

    /// Leaves the current record: drops it, and the record separator after
    /// it when that follows right away, and lets a pending field separator
    /// take effect. Without a file there is nothing to read: `false`, and
    /// nothing changes.
    pub fn begin_record(&mut self) -> (started: bool)
        requires
            old(self).wf(),
        ensures
            final(self).wf(),
            started == old(self).has_file(),
            !started ==> *final(self) == *old(self),
            started ==> {
                let rest = old(self).buffered().subrange(old(self).record_end() as int, old(self).buffered().len() as int);
                &&& final(self).buffered() == (if occurs_at(rest, old(self).rs(), 0) {
                    rest.subrange(old(self).rs().len() as int, rest.len() as int)
                } else {
                    rest
                })
                &&& final(self).record_end() == 0
                &&& final(self).rs() == old(self).rs()
                &&& final(self).has_file()
                &&& final(self).pending_field_sep() is None
                &&& final(self).field_sep() == (match old(self).pending_field_sep() {
                    Some(f) => f,
                    None => old(self).field_sep(),
                })
            },
    {
        if !self.has_file {
            return false;
        }
        self.line.next_record();
        self.slop.drop_front(self.end_of_current_record);
        self.end_of_current_record = 0;
        let len = self.slop.len();
        let rs_idx = index_in_dq(&self.rs, &self.slop, 0, len);
        let ghost rest = self.slop@;
        assert(self.slop@.subrange(0, len as int) =~= rest);
        proof {
            lemma_found_as_first_occurrence(rest, self.rs@, 0, rs_idx);
        }
        if rs_idx == Some(0usize) {
            self.slop.drop_front(self.rs.len());
        } else {
            proof {
                if occurs_at(rest, self.rs@, 0) {
                    assert(rs_idx matches Some(p) && p == 0) by {
                        if let Some(p) = rs_idx {
                            assert(!(0 < p)) by {
                                if 0 < p {
                                    assert(!occurs_at(rest, self.rs@, 0));
                                }
                            }
                        }
                    }
                }
            }
        }
        true
    }

    /// Looks for the end of the current record in what is buffered: the
    /// leftmost record separator.
    pub fn poll(&mut self) -> (step: RecordStep)
        requires
            old(self).wf(),
        ensures
            final(self).wf(),
            final(self).buffered() == old(self).buffered(),
            final(self).rs() == old(self).rs(),
            final(self).has_file() == old(self).has_file(),
            final(self).field_sep() == old(self).field_sep(),
            final(self).pending_field_sep() == old(self).pending_field_sep(),
            match first_occurrence(old(self).buffered(), old(self).rs()) {
                Some(i) => step == RecordStep::Found && final(self).record_end() == i,
                None => step == RecordStep::NeedInput && final(self).record_end() == old(self).record_end(),
            },
    {
        let len = self.slop.len();
        let r = index_in_dq(&self.rs, &self.slop, 0, len);
        assert(self.slop@.subrange(0, len as int) =~= self.slop@);
        proof {
            lemma_found_as_first_occurrence(self.slop@, self.rs@, 0, r);
        }
        match r {
            Some(idx) => {
                self.end_of_current_record = idx;
                RecordStep::Found
            }
            None => RecordStep::NeedInput,
        }
    }

    /// Takes input read by the caller. An empty read means the input has
    /// ended: what is buffered is then the last record, if anything is.
    pub fn input(&mut self, bytes: &[u8]) -> (step: RecordStep)
        requires
            old(self).wf(),
            old(self).buffered().len() + bytes@.len() <= usize::MAX,
        ensures
            final(self).wf(),
            final(self).rs() == old(self).rs(),
            final(self).has_file() == old(self).has_file(),
            final(self).field_sep() == old(self).field_sep(),
            final(self).pending_field_sep() == old(self).pending_field_sep(),
            bytes@.len() == 0 ==> final(self).buffered() == old(self).buffered()
                && final(self).record_end() == old(self).buffered().len()
                && step == (if old(self).buffered().len() > 0 { RecordStep::Found } else { RecordStep::Exhausted }),
            bytes@.len() > 0 ==> final(self).buffered() == old(self).buffered() + bytes@
                && match first_occurrence(old(self).buffered() + bytes@, old(self).rs()) {
                    Some(i) => step == RecordStep::Found && final(self).record_end() == i,
                    None => step == RecordStep::NeedInput && final(self).record_end() == old(self).record_end(),
                },
    {
        if bytes.len() == 0 {
            let len = self.slop.len();
            self.end_of_current_record = len;
            if len != 0 {
                return RecordStep::Found;
            } else {
                return RecordStep::Exhausted;
            }
        }
        self.slop.extend_from_slice(bytes);
        self.poll()
    }

    /// Field `idx` of the current record (0 is the whole record).
    pub fn get_into_buf(&mut self, idx: usize, result: &mut Vec<u8>)
        requires
            old(self).wf(),
        ensures
            *final(self) == *old(self),
            final(result)@ == field_of(old(self).record(), old(self).field_sep(), idx as int),
    {
        self.line.get_into(&self.slop, idx, self.end_of_current_record, result);
    }

    /// Field `idx` of the current record, or nothing when the current
    /// record is empty.
    pub fn get(&mut self, idx: usize) -> (r: Option<Vec<u8>>)
        requires
            old(self).wf(),
        ensures
            *final(self) == *old(self),
            r is None <==> old(self).record_end() == 0,
            r matches Some(v) ==> v@ == field_of(old(self).record(), old(self).field_sep(), idx as int),
    {
        if self.end_of_current_record == 0 {
            return None;
        }
        let mut result: Vec<u8> = Vec::with_capacity(self.end_of_current_record);
        self.get_into_buf(idx, &mut result);
        Some(result)
    }
}

/// A record found in the buffered input (where `poll` or `input` answered
/// `Found` on a separator) holds no record separator, and the separator
/// follows it right away.
pub proof fn law_record_ends_at_separator(r: RecordReader)
    requires
        r.rs().len() > 0,
        first_occurrence(r.buffered(), r.rs()) == Some(r.record_end() as int),
    ensures
        never_occurs(r.record(), r.rs()),
        r.buffered().subrange(r.record_end() as int, (r.record_end() + r.rs().len()) as int) == r.rs(),
{
    let b = r.buffered();
    let rs = r.rs();
    let i = r.record_end() as int;
    assert(exists|k: int| is_first_occurrence(b, rs, k));
    assert(is_first_occurrence(b, rs, i));
    lemma_before_first_occurrence(b, rs, i);
}

/// Moving on from a record found at a separator loses nothing else: the
/// buffered input was the record, the separator, and what stays buffered.
pub proof fn law_next_record_loses_nothing(before: RecordReader, after: RecordReader)
    requires
        before.rs().len() > 0,
        first_occurrence(before.buffered(), before.rs()) == Some(before.record_end() as int),
        after.buffered() == ({
            let rest = before.buffered().subrange(before.record_end() as int, before.buffered().len() as int);
            if occurs_at(rest, before.rs(), 0) {
                rest.subrange(before.rs().len() as int, rest.len() as int)
            } else {
                rest
            }
        }),
    ensures
        before.buffered() == before.record() + before.rs() + after.buffered(),
{
    let b = before.buffered();
    let rs = before.rs();
    let i = before.record_end() as int;
    assert(exists|k: int| is_first_occurrence(b, rs, k));
    assert(is_first_occurrence(b, rs, i));
    let rest = b.subrange(i, b.len() as int);
    assert(rest.subrange(0, rs.len() as int) =~= b.subrange(i, i + rs.len()));
    assert(occurs_at(rest, rs, 0));
    assert(b =~= b.subrange(0, i) + rs + rest.subrange(rs.len() as int, rest.len() as int));
}

} // verus!
