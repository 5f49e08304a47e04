use vstd::prelude::*;
use crate::text::{split, split_bytes, bytes_of, slice_range};
use vstd::utf8::encode_utf8;

verus! {

/// The byte views of a sequence of byte vectors.
pub open spec fn views(v: Seq<Vec<u8>>) -> Seq<Seq<u8>> {
    v.map_values(|p: Vec<u8>| p@)
}

/// The records of one input: its text cut at every record separator, where
/// a separator at the very end (or an empty input) closes no further record.
pub open spec fn file_records(content: Seq<u8>, rs: Seq<u8>) -> Seq<Seq<u8>> {
    let pieces = split(content, rs);
    if pieces.len() > 0 && pieces.last().len() == 0 {
        pieces.drop_last()
    } else {
        pieces
    }
}

/// The records of the inputs in `files`, the last input first (it is the
/// next one to be opened).
pub open spec fn pending_records(files: Seq<Seq<u8>>, rs: Seq<u8>) -> Seq<Seq<u8>>
    decreases files.len(),
{
    if files.len() == 0 {
        Seq::empty()
    } else {
        file_records(files.last(), rs) + pending_records(files.drop_last(), rs)
    }
}

/// The records of `files` in the order given.
pub open spec fn all_records(files: Seq<Seq<u8>>, rs: Seq<u8>) -> Seq<Seq<u8>>
    decreases files.len(),
{
    if files.len() == 0 {
        Seq::empty()
    } else {
        file_records(files[0], rs) + all_records(files.drop_first(), rs)
    }
}

/// The value of an assignment to `column` among `assigned`, the latest
/// assignment winning.
pub open spec fn assigned_value(assigned: Seq<(usize, Vec<u8>)>, column: usize) -> Option<Seq<u8>>
    decreases assigned.len(),
{
    if assigned.len() == 0 {
        None
    } else if assigned.last().0 == column {
        Some(assigned.last().1@)
    } else {
        assigned_value(assigned.drop_last(), column)
    }
}

/// Field `column` of `record`: 0 is the whole record, `i > 0` is the `i`-th
/// piece between field separators, and a field past the last is empty.
pub open spec fn record_field(record: Seq<u8>, fs: Seq<u8>, column: int) -> Seq<u8> {
    if column == 0 {
        record
    } else if 1 <= column <= split(record, fs).len() {
        split(record, fs)[column - 1]
    } else {
        Seq::empty()
    }
}

/// The input cursor of a run: the inputs, the current record and its fields.
pub struct Columns {
    rs: Vec<u8>,
    fs: Vec<u8>,
    files: Vec<Vec<u8>>,
    opened: bool,
    records: Vec<Vec<u8>>,
    next: usize,
    current: Option<Vec<u8>>,
    assigned: Vec<(usize, Vec<u8>)>,
}

impl Columns {
    /// The cursor's own bookkeeping is consistent.
    pub closed spec fn wf(&self) -> bool {
        &&& self.next <= self.records.len()
        &&& self.next < self.records.len() ==> self.opened
        &&& !self.opened ==> self.records.len() == 0
    }

    /// The inputs not opened yet, in order.
    pub closed spec fn inputs(&self) -> Seq<Seq<u8>> {
        views(self.files@).reverse()
    }

    /// The record separator.
    pub closed spec fn record_sep(&self) -> Seq<u8> {
        self.rs@
    }

    /// The field separator.
    pub closed spec fn field_sep(&self) -> Seq<u8> {
        self.fs@
    }

    /// Whether reading has begun (an input has been opened).
    pub closed spec fn started(&self) -> bool {
        self.opened
    }

    /// The records still to come, in order, over every remaining input.
    pub closed spec fn stream(&self) -> Seq<Seq<u8>> {
        views(self.records@).subrange(self.next as int, self.records.len() as int) + pending_records(
            views(self.files@),
            self.rs@,
        )
    }

    /// The current record, if one has been read and input is not exhausted.
    pub closed spec fn record(&self) -> Option<Seq<u8>> {
        match self.current {
            Some(r) => Some(r@),
            None => None,
        }
    }

    /// What reading field `column` gives now.
    pub closed spec fn field(&self, column: usize) -> Seq<u8> {
        match assigned_value(self.assigned@, column) {
            Some(v) => v,
            None => match self.current {
                Some(r) => record_field(r@, self.fs@, column as int),
                None => Seq::empty(),
            },
        }
    }

    /// A cursor over the given inputs (their full text, in order), before
    /// the first record; records are cut at newlines, fields at spaces.
    pub fn new(files: Vec<Vec<u8>>) -> (r: Columns)
        ensures
            r.wf(),
            !r.started(),
            r.record() is None,
            r.stream() == all_records(views(files@), seq![10u8]),
            r.inputs() == views(files@),
            r.record_sep() == seq![10u8],
            r.field_sep() == seq![32u8],
            forall|c: usize| r.field(c) == Seq::<u8>::empty(),
    {
        let mut files = files;
        let mut reversed: Vec<Vec<u8>> = Vec::new();
        let ghost all = views(files@);
        while files.len() > 0
            invariant
                all == views(files@) + views(reversed@).reverse(),
            decreases files.len(),
        {
            let ghost before = files@;
            let f = files.pop().unwrap();
            proof {
                assert(views(before) =~= views(files@).push(f@));
                assert(views(reversed@.push(f)).reverse() =~= seq![f@] + views(reversed@).reverse());
            }
            reversed.push(f);
        }
        let c = Columns {
            rs: vec![10u8],
            fs: vec![32u8],
            files: reversed,
            opened: false,
            records: Vec::new(),
            next: 0,
            current: None,
            assigned: Vec::new(),
        };
        proof {
            assert(views(files@) =~= Seq::empty());
            assert(c.rs@ =~= seq![10u8]);
            assert(c.fs@ =~= seq![32u8]);
            lemma_pending_all(views(c.files@), c.rs@);
            assert(views(c.files@).reverse() =~= all);
            assert(views(c.records@).subrange(0, 0) =~= Seq::<Seq<u8>>::empty());
            assert(c.stream() =~= all_records(all, c.rs@));
        }
        c
    }

    /// `c1` is `c0` advanced by one record, `r` telling whether there was one.
    pub open spec fn advanced(c0: Columns, c1: Columns, r: bool) -> bool {
        &&& c1.wf()
        &&& r == (c0.stream().len() > 0)
        &&& r ==> c1.record() == Some(c0.stream()[0]) && c1.stream() == c0.stream().drop_first()
        &&& !r ==> c1.record() is None && c1.stream() == Seq::<Seq<u8>>::empty()
        &&& forall|c: usize|
            #[trigger] c1.field(c) == match c1.record() {
                Some(rec) => record_field(rec, c1.field_sep(), c as int),
                None => Seq::<u8>::empty(),
            }
        &&& c1.record_sep() == c0.record_sep()
        &&& c1.field_sep() == c0.field_sep()
        &&& c0.started() ==> c1.started()
        &&& r ==> c1.started()
    }

    /// Advances to the next record, opening the next input when the open
    /// one is exhausted. Returns whether there is a current record; once the
    /// last record of the last input has been passed, input stays exhausted.
    pub fn next_line(&mut self) -> (r: bool)
        requires
            old(self).wf(),
        ensures
            Columns::advanced(*old(self), *final(self), r),
    {
        let ghost s0 = self.stream();
        self.assigned = Vec::new();
        loop
            invariant
                self.wf(),
                self.stream() == s0,
                s0 == old(self).stream(),
                self.assigned@.len() == 0,
                self.rs@ == old(self).rs@,
                self.fs@ == old(self).fs@,
                old(self).opened ==> self.opened,
            decreases self.files.len(),
        {
            if self.next < self.records.len() {
                let rec = slice_range(&self.records[self.next], 0, self.records[self.next].len());
                proof {
                    assert(rec@ =~= self.records@[self.next as int]@);
                    assert(views(self.records@).subrange(self.next as int, self.records.len() as int)[0] == rec@);
                    assert(s0.len() > 0);
                    assert(s0[0] == rec@);
                    assert(s0.drop_first() =~= views(self.records@).subrange(self.next + 1, self.records.len() as int)
                        + pending_records(views(self.files@), self.rs@));
                }
                self.current = Some(rec);
                self.next = self.next + 1;
                return true;
            }
            let ghost before = self.files@;
            match self.files.pop() {
                Some(f) => {
                    proof {
                        assert(views(before).last() == f@);
                        assert(views(before).drop_last() =~= views(self.files@));
                    }
                    self.records = records_of(&f, &self.rs);
                    self.next = 0;
                    self.opened = true;
                    proof {
                        assert(views(self.records@).subrange(0, self.records.len() as int) =~= views(self.records@));
                    }
                },
                None => {
                    self.current = None;
                    proof {
                        assert(views(self.files@) =~= Seq::<Seq<u8>>::empty());
                        assert(views(self.records@).subrange(self.next as int, self.records.len() as int)
                            =~= Seq::<Seq<u8>>::empty());
                        assert(self.stream() =~= Seq::<Seq<u8>>::empty());
                        assert(s0.len() == 0);
                    }
                    return false;
                },
            }
        }
    }

    /// Reads field `column` of the current record: 0 is the whole record,
    /// a field past the last one (or any field with no current record) is
    /// empty.
    pub fn get(&mut self, column: usize) -> (r: Vec<u8>)
        ensures
            *final(self) == *old(self),
            r@ == old(self).field(column),
    {
        let mut k: usize = self.assigned.len();
        proof {
            assert(self.assigned@.subrange(0, k as int) =~= self.assigned@);
        }
        while k > 0
            invariant
                k <= self.assigned.len(),
                assigned_value(self.assigned@, column) == assigned_value(self.assigned@.subrange(0, k as int), column),
            decreases k,
        {
            proof {
                assert(self.assigned@.subrange(0, k as int).drop_last() =~= self.assigned@.subrange(0, k - 1));
            }
            if self.assigned[k - 1].0 == column {
                return slice_range(&self.assigned[k - 1].1, 0, self.assigned[k - 1].1.len());
            }
            k = k - 1;
        }
        match &self.current {
            None => Vec::new(),
            Some(rec) => {
                if column == 0 {
                    slice_range(rec, 0, rec.len())
                } else {
                    let fields = split_bytes(rec, &self.fs);
                    proof {
                        assert(fields@.len() == split(rec@, self.fs@).len());
                    }
                    if column - 1 < fields.len() {
                        proof {
                            assert(views(fields@)[column - 1] == fields@[column - 1]@);
                        }
                        slice_range(&fields[column - 1], 0, fields[column - 1].len())
                    } else {
                        Vec::new()
                    }
                }
            },
        }
    }

    /// Assigns field `column` of the current record; reading it gives `data`
    /// until the next record.
    pub fn set(&mut self, column: usize, data: Vec<u8>)
        requires
            old(self).wf(),
        ensures
            final(self).wf(),
            final(self).field(column) == data@,
            forall|c: usize| c != column ==> #[trigger] final(self).field(c) == old(self).field(c),
            final(self).record() == old(self).record(),
            final(self).stream() == old(self).stream(),
            final(self).record_sep() == old(self).record_sep(),
            final(self).field_sep() == old(self).field_sep(),
            final(self).started() == old(self).started(),
    {
        self.assigned.push((column, data));
        proof {
            assert(self.assigned@.drop_last() =~= old(self).assigned@);
        }
    }

    /// Sets the record separator; only before reading has begun.
    pub fn set_record_sep(&mut self, value: String)
        requires
            old(self).wf(),
            !old(self).started(),
        ensures
            final(self).wf(),
            final(self).record_sep() == encode_utf8(value@),
            final(self).field_sep() == old(self).field_sep(),
            !final(self).started(),
            final(self).inputs() == old(self).inputs(),
            final(self).stream() == all_records(old(self).inputs(), encode_utf8(value@)),
            final(self).record() == old(self).record(),
            forall|c: usize| #[trigger] final(self).field(c) == old(self).field(c),
    {
        self.rs = bytes_of(value.as_str());
        proof {
            lemma_pending_all(views(self.files@), self.rs@);
            assert(views(self.records@).subrange(self.next as int, self.records.len() as int)
                =~= Seq::<Seq<u8>>::empty());
            assert(self.stream() =~= all_records(self.inputs(), self.rs@));
        }
    }

    /// Sets the field separator; only before reading has begun.
    pub fn set_field_sep(&mut self, value: String)
        requires
            old(self).wf(),
            !old(self).started(),
        ensures
            final(self).wf(),
            final(self).field_sep() == encode_utf8(value@),
            final(self).record_sep() == old(self).record_sep(),
            !final(self).started(),
            final(self).record() == old(self).record(),
            final(self).stream() == old(self).stream(),
            final(self).inputs() == old(self).inputs(),
    {
        self.fs = bytes_of(value.as_str());
    }
}

/// Cuts one input into its records.
fn records_of(content: &Vec<u8>, rs: &Vec<u8>) -> (r: Vec<Vec<u8>>)
    ensures
        views(r@) == file_records(content@, rs@),
{
    let mut pieces = split_bytes(content, rs);
    if pieces.len() > 0 && pieces[pieces.len() - 1].len() == 0 {
        let ghost before = pieces@;
        pieces.pop();
        proof {
            assert(views(pieces@) =~= views(before).drop_last());
        }
    }
    pieces
}


/// Field 0 of a record is the record itself, verbatim; asking for a field
/// past the last one gives the empty string, never an error.
pub proof fn lemma_field_zero_and_beyond(record: Seq<u8>, fs: Seq<u8>, column: int)
    ensures
        record_field(record, fs, 0) == record,
        column > split(record, fs).len() ==> record_field(record, fs, column) == Seq::<u8>::empty(),
{
}

/// Exhaustion is permanent: once advancing has found no record, advancing
/// again finds none either (there is no rewind).
pub proof fn lemma_exhaustion_permanent(c0: Columns, c1: Columns, c2: Columns, r: bool)
    requires
        Columns::advanced(c0, c1, false),
        Columns::advanced(c1, c2, r),
    ensures
        !r,
        c2.record() is None,
        c2.stream() == Seq::<Seq<u8>>::empty(),
{
}

/// The records pending in reverse storage are the records of the inputs in
/// their given order.
pub proof fn lemma_pending_all(files: Seq<Seq<u8>>, rs: Seq<u8>)
    ensures
        pending_records(files, rs) == all_records(files.reverse(), rs),
    decreases files.len(),
{
    if files.len() > 0 {
        lemma_pending_all(files.drop_last(), rs);
        assert(files.reverse().drop_first() =~= files.drop_last().reverse());
        assert(files.reverse()[0] == files.last());
    }
}

} // verus!
