use vstd::prelude::*;
use crate::byte_deque::ByteDeque;
use crate::index_of::{index_in_dq, subslices, first_occurrence, occurs_at, is_first_occurrence, never_occurs,
    lemma_found_as_first_occurrence, lemma_before_first_occurrence, lemma_occurs_has_first};

verus! {

/// The fields of `rec` cut at the leftmost non-overlapping occurrences of
/// the separator `fs`; empty fields are kept.
pub open spec fn split_fields(rec: Seq<u8>, fs: Seq<u8>) -> Seq<Seq<u8>>
    decreases rec.len(),
{
    if fs.len() == 0 {
        seq![rec]
    } else {
        match first_occurrence(rec, fs) {
            None => seq![rec],
            Some(i) => if 0 <= i && i + fs.len() <= rec.len() {
                seq![rec.subrange(0, i)] + split_fields(rec.subrange(i + fs.len(), rec.len() as int), fs)
            } else {
                seq![rec]
            },
        }
    }
}

/// Field `k` of a record: 0 is the whole record, 1 the first field, and a
/// field past the last one is empty. An empty separator is found at once
/// wherever it is looked for, so then every field but the record is empty.
pub open spec fn field_of(rec: Seq<u8>, fs: Seq<u8>, k: int) -> Seq<u8> {
    if k == 0 {
        rec
    } else if fs.len() == 0 {
        Seq::empty()
    } else if 1 <= k <= split_fields(rec, fs).len() {
        split_fields(rec, fs)[k - 1]
    } else {
        Seq::empty()
    }
}

/// The number of fields of a record; an empty last field is not counted.
pub open spec fn field_count(rec: Seq<u8>, fs: Seq<u8>) -> int {
    let f = split_fields(rec, fs);
    if f.last().len() == 0 { f.len() - 1 } else { f.len() as int }
}

proof fn lemma_split_step(rec: Seq<u8>, fs: Seq<u8>, r: Option<usize>, start: int)
    requires
        fs.len() > 0,
        crate::index_of::found_as(rec, fs, start, r),
    ensures
        r matches Some(p) ==> start <= p && p - start + fs.len() <= rec.len()
            && split_fields(rec, fs) == seq![rec.subrange(0, p - start)]
                + split_fields(rec.subrange(p - start + fs.len(), rec.len() as int), fs),
        r is None ==> split_fields(rec, fs) == seq![rec],
{
    lemma_found_as_first_occurrence(rec, fs, start, r);
}

/// The fields joined again with the separator between them.
pub open spec fn join_fields(fields: Seq<Seq<u8>>, fs: Seq<u8>) -> Seq<u8>
    decreases fields.len(),
{
    if fields.len() == 0 {
        Seq::empty()
    } else if fields.len() == 1 {
        fields[0]
    } else {
        fields[0] + fs + join_fields(fields.drop_first(), fs)
    }
}

/// A record always has at least one field.
pub proof fn lemma_split_fields_nonempty(rec: Seq<u8>, fs: Seq<u8>)
    ensures
        split_fields(rec, fs).len() >= 1,
    decreases rec.len(),
{
    if fs.len() > 0 {
        if let Some(i) = first_occurrence(rec, fs) {
            if 0 <= i && i + fs.len() <= rec.len() {
                lemma_split_fields_nonempty(rec.subrange(i + fs.len(), rec.len() as int), fs);
            }
        }
    }
}

/// Splitting a record into fields loses nothing: joined again with the
/// separator, the fields give back the record; and no field holds the
/// separator.
pub proof fn law_fields_rejoin(rec: Seq<u8>, fs: Seq<u8>)
    requires
        fs.len() > 0,
    ensures
        join_fields(split_fields(rec, fs), fs) == rec,
        forall|k: int| 0 <= k < split_fields(rec, fs).len() ==> never_occurs(#[trigger] split_fields(rec, fs)[k], fs),
    decreases rec.len(),
{
    let f = split_fields(rec, fs);
    match first_occurrence(rec, fs) {
        None => {
            assert(f == seq![rec]);
            assert forall|m: int| !occurs_at(rec, fs, m) by {
                if occurs_at(rec, fs, m) {
                    lemma_occurs_has_first(rec, fs, m);
                }
            }
        }
        Some(i) => {
            assert(is_first_occurrence(rec, fs, i));
            let rest = rec.subrange(i + fs.len(), rec.len() as int);
            law_fields_rejoin(rest, fs);
            lemma_split_fields_nonempty(rest, fs);
            lemma_before_first_occurrence(rec, fs, i);
            let tail = split_fields(rest, fs);
            assert(f == seq![rec.subrange(0, i)] + tail);
            assert(f.drop_first() =~= tail);
            assert(rec.subrange(i, i + fs.len()) == fs);
            assert(rec =~= rec.subrange(0, i) + fs + rest);
            assert forall|k: int| 0 <= k < f.len() implies never_occurs(#[trigger] f[k], fs) by {
                if k > 0 {
                    assert(f[k] == tail[k - 1]);
                }
            }
        }
    }
}

/// Splits the current record into fields on demand. A new field separator
/// takes effect from the next record on.
pub struct LazilySplitLine {
    fs: Vec<u8>,
    next_fs: Option<Vec<u8>>,
}

impl LazilySplitLine {
    /// The field separator in effect.
    pub closed spec fn fs(&self) -> Seq<u8> {
        self.fs@
    }

    /// The separator that takes effect with the next record, if one was set.
    pub closed spec fn pending_fs(&self) -> Option<Seq<u8>> {
        match self.next_fs {
            Some(v) => Some(v@),
            None => None,
        }
    }

    /// Starts with a single space as separator.
    pub fn new() -> (l: Self)
        ensures
            l.fs() == seq![32u8],
            l.pending_fs() is None,
    {
        let l = Self { fs: vec![32u8], next_fs: None };
        assert(l.fs() =~= seq![32u8]);
        l
    }

    pub fn set_fs(&mut self, fs: Vec<u8>)
        ensures
            final(self).fs() == old(self).fs(),
            final(self).pending_fs() == Some(fs@),
    {
        self.next_fs = Some(fs);
    }

    pub fn next_record(&mut self)
        ensures
            final(self).pending_fs() is None,
            final(self).fs() == (match old(self).pending_fs() {
                Some(f) => f,
                None => old(self).fs(),
            }),
    {
        if let Some(next_fs) = self.next_fs.take() {
            self.fs = next_fs;
        }
    }

    fn move_into_buf(dq: &ByteDeque, result: &mut Vec<u8>, start: usize, end: usize)
        requires
            dq.wf(),
            start <= end <= dq@.len(),
        ensures
            final(result)@ == old(result)@ + dq@.subrange(start as int, end as int),
    {
        let (left, right) = subslices(dq, start, end);
        result.extend_from_slice(left);
        result.extend_from_slice(right);
        assert(result@ =~= old(result)@ + dq@.subrange(start as int, end as int));
    }

    /// Field `field_idx` of the record made of the first `end_of_record_idx`
    /// bytes of `dq`.
    pub fn get(&mut self, dq: &ByteDeque, field_idx: usize, end_of_record_idx: usize) -> (v: Vec<u8>)
        requires
            dq.wf(),
            end_of_record_idx <= dq@.len(),
        ensures
            *final(self) == *old(self),
            v@ == field_of(dq@.subrange(0, end_of_record_idx as int), old(self).fs(), field_idx as int),
    {
        let mut vec = Vec::new();
        self.get_into(dq, field_idx, end_of_record_idx, &mut vec);
        vec
    }

    /// Puts field `field_idx` of the record made of the first
    /// `end_of_record_idx` bytes of `dq` into `result`.
    pub fn get_into(&mut self, dq: &ByteDeque, field_idx: usize, end_of_record_idx: usize, result: &mut Vec<u8>)
        requires
            dq.wf(),
            end_of_record_idx <= dq@.len(),
        ensures
            *final(self) == *old(self),
            final(result)@ == field_of(dq@.subrange(0, end_of_record_idx as int), old(self).fs(), field_idx as int),
    {
        let ghost rec = dq@.subrange(0, end_of_record_idx as int);
        let ghost fs = self.fs@;
        result.clear();
        if field_idx == 0 {
            LazilySplitLine::move_into_buf(dq, result, 0, end_of_record_idx);
            assert(result@ =~= rec);
            return;
        }
        if self.fs.len() == 0 {
            return;
        }
        let mut start_of_field: usize = 0;
        let mut fields_found: usize = 0;
        let ghost mut found: Seq<Seq<u8>> = Seq::empty();
        assert(rec.subrange(0, rec.len() as int) =~= rec);
        assert(found + split_fields(rec, fs) =~= split_fields(rec, fs));
        loop
            invariant
                dq.wf(),
                end_of_record_idx <= dq@.len(),
                rec == dq@.subrange(0, end_of_record_idx as int),
                fs == self.fs@,
                fs.len() > 0,
                field_idx > 0,
                result@.len() == 0,
                start_of_field <= end_of_record_idx,
                fields_found == found.len(),
                fields_found <= start_of_field,
                fields_found < field_idx,
                split_fields(rec, fs) == found + split_fields(rec.subrange(start_of_field as int, rec.len() as int), fs),
            decreases end_of_record_idx - start_of_field,
        {
            let r = index_in_dq(&self.fs, dq, start_of_field, end_of_record_idx);
            let ghost tail = rec.subrange(start_of_field as int, rec.len() as int);
            assert(dq@.subrange(start_of_field as int, end_of_record_idx as int) =~= tail);
            proof {
                lemma_split_step(tail, fs, r, start_of_field as int);
            }
            match r {
                None => {
                    if fields_found + 1 == field_idx {
                        LazilySplitLine::move_into_buf(dq, result, start_of_field, end_of_record_idx);
                        assert(result@ =~= tail);
                    } else {
                        assert(result@ =~= Seq::<u8>::empty());
                    }
                    return;
                }
                Some(found_at) => {
                    let ghost piece = tail.subrange(0, found_at - start_of_field);
                    let ghost next = found_at + fs.len();
                    assert(rec.subrange(next, rec.len() as int) =~= tail.subrange(found_at - start_of_field + fs.len(), tail.len() as int));
                    fields_found = fields_found + 1;
                    if fields_found == field_idx {
                        LazilySplitLine::move_into_buf(dq, result, start_of_field, found_at);
                        assert(result@ =~= piece);
                        assert(split_fields(rec, fs)[field_idx - 1] == piece);
                        return;
                    }
                    proof {
                        assert(found + (seq![piece] + split_fields(rec.subrange(next, rec.len() as int), fs))
                            =~= found.push(piece) + split_fields(rec.subrange(next, rec.len() as int), fs));
                        found = found.push(piece);
                    }
                    start_of_field = found_at + self.fs.len();
                }
            }
        }
    }

    /// How many fields the record made of the first `end_of_record_idx`
    /// bytes of `dq` has; an empty last field is not counted.
    pub fn nf(&mut self, dq: &ByteDeque, end_of_record_idx: usize) -> (n: usize)
        requires
            dq.wf(),
            end_of_record_idx <= dq@.len(),
            old(self).fs().len() > 0,
        ensures
            *final(self) == *old(self),
            n == field_count(dq@.subrange(0, end_of_record_idx as int), old(self).fs()),
    {
        let ghost rec = dq@.subrange(0, end_of_record_idx as int);
        let ghost fs = self.fs@;
        let mut start_of_record: usize = 0;
        let mut records_found: usize = 0;
        let ghost mut found: Seq<Seq<u8>> = Seq::empty();
        assert(rec.subrange(0, rec.len() as int) =~= rec);
        assert(found + split_fields(rec, fs) =~= split_fields(rec, fs));
        loop
            invariant
                dq.wf(),
                end_of_record_idx <= dq@.len(),
                rec == dq@.subrange(0, end_of_record_idx as int),
                fs == self.fs@,
                fs.len() > 0,
                start_of_record <= end_of_record_idx,
                records_found == found.len(),
                records_found <= start_of_record,
                split_fields(rec, fs) == found + split_fields(rec.subrange(start_of_record as int, rec.len() as int), fs),
            decreases end_of_record_idx - start_of_record,
        {
            let r = index_in_dq(&self.fs, dq, start_of_record, end_of_record_idx);
            let ghost tail = rec.subrange(start_of_record as int, rec.len() as int);
            assert(dq@.subrange(start_of_record as int, end_of_record_idx as int) =~= tail);
            proof {
                lemma_split_step(tail, fs, r, start_of_record as int);
            }
            match r {
                None => {
                    assert(split_fields(rec, fs) == found.push(tail));
                    if start_of_record != end_of_record_idx {
                        records_found = records_found + 1;
                    }
                    return records_found;
                }
                Some(found_at) => {
                    let ghost piece = tail.subrange(0, found_at - start_of_record);
                    let ghost next = found_at + fs.len();
                    assert(rec.subrange(next, rec.len() as int) =~= tail.subrange(found_at - start_of_record + fs.len(), tail.len() as int));
                    records_found = records_found + 1;
                    proof {
                        assert(found + (seq![piece] + split_fields(rec.subrange(next, rec.len() as int), fs))
                            =~= found.push(piece) + split_fields(rec.subrange(next, rec.len() as int), fs));
                        found = found.push(piece);
                    }
                    start_of_record = found_at + self.fs.len();
                }
            }
        }
    }
}

} // verus!
