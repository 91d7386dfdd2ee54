//! The todo store: the records kept in the backing file, the next-sequence
//! counter, and the add / remove / list operations.
//!
//! The store never touches the file itself. Every operation takes the file's
//! current bytes and hands back the bytes to append or to write in full; the
//! unverified front end does the reading and writing.

use vstd::prelude::*;
use crate::digits::{parse_usize, spec_parse_usize};
use crate::lines::{lines_view, spec_split_lines, split_lines, LF};
use crate::record::{records_view, spec_encode_record, spec_parse_record, Record, RecordV};
use vstd::string::StringSliceAdditionalSpecFns;

verus! {

/// The records that a list of lines holds: each line that parses contributes
/// its record, in order; any other line is skipped.
pub open spec fn spec_parse_records(lines: Seq<Seq<u8>>) -> Seq<RecordV>
    decreases lines.len(),
{
    if lines.len() == 0 {
        Seq::empty()
    } else {
        match spec_parse_record(lines[0]) {
            Option::Some(r) => seq![r] + spec_parse_records(lines.drop_first()),
            Option::None => spec_parse_records(lines.drop_first()),
        }
    }
}

/// The records that the backing file's bytes hold.
pub open spec fn spec_query(data: Seq<u8>) -> Seq<RecordV> {
    spec_parse_records(spec_split_lines(data))
}

/// The backing file's bytes for a list of records: each record's line,
/// terminated by a line feed.
pub open spec fn spec_encode_records(records: Seq<RecordV>) -> Seq<u8>
    decreases records.len(),
{
    if records.len() == 0 {
        Seq::empty()
    } else {
        spec_encode_record(records[0]) + seq![LF] + spec_encode_records(records.drop_first())
    }
}

/// One more than the largest sequence number present; zero when there is
/// none.
pub open spec fn spec_next_index(records: Seq<RecordV>) -> nat
    decreases records.len(),
{
    if records.len() == 0 {
        0
    } else {
        let rest = spec_next_index(records.drop_last());
        if records.last().sequence + 1 > rest {
            records.last().sequence + 1
        } else {
            rest
        }
    }
}

/// Some record carries the sequence number `v`.
pub open spec fn spec_has_sequence(records: Seq<RecordV>, v: nat) -> bool {
    exists|i: int| 0 <= i < records.len() && #[trigger] records[i].sequence == v
}

/// The records with the first one whose sequence number is `v` taken out.
pub open spec fn spec_remove_first(records: Seq<RecordV>, v: nat) -> Seq<RecordV>
    decreases records.len(),
{
    if records.len() == 0 {
        records
    } else if records[0].sequence == v {
        records.drop_first()
    } else {
        seq![records[0]] + spec_remove_first(records.drop_first(), v)
    }
}

/// The line appended for a new record.
pub open spec fn spec_add_line(sequence: nat, content: Seq<u8>) -> Seq<u8> {
    spec_encode_record(RecordV { sequence, content }) + seq![LF]
}

/// Why an operation on the store was refused.
#[derive(Debug)]
pub enum RodoError {
    /// The sequence argument is not a number.
    Parse,
    /// No record carries the requested sequence number.
    NotFound,
    /// The command line asked for nothing the store offers.
    Invalid(String),
}

impl RodoError {
    /// The message reported for the error.
    pub fn message(&self) -> (r: String)
        ensures
            match self {
                RodoError::Parse => r@ == "invalid sequence number"@,
                RodoError::NotFound => r@ == "not valid sequence"@,
                RodoError::Invalid(m) => r@ == m@,
            },
    {
        match self {
            RodoError::Parse => "invalid sequence number".to_owned(),
            RodoError::NotFound => "not valid sequence".to_owned(),
            RodoError::Invalid(m) => m.clone(),
        }
    }
}

/// The store handle: where the backing file lives, and the sequence number
/// the next record will get.
pub struct TodoDB {
    pub file_path: String,
    pub file_index: usize,
}

/// All records the file holds, in file order.
#[verifier::loop_isolation(false)]
pub fn query(data: &[u8]) -> (records: Vec<Record>)
    ensures
        records_view(records@) == spec_query(data@),
{
    let lines = split_lines(data);
    let ghost lv = lines_view(lines@);
    let mut records: Vec<Record> = Vec::new();
    let mut i: usize = 0;
    proof {
        assert(lv.skip(0) =~= lv);
        assert(records_view(records@) =~= Seq::<RecordV>::empty());
        assert(Seq::<RecordV>::empty() + spec_parse_records(lv) =~= spec_parse_records(lv));
    }
    while i < lines.len()
        invariant
            0 <= i <= lines@.len(),
            records_view(records@) + spec_parse_records(lv.skip(i as int)) == spec_parse_records(
                lv,
            ),
        decreases lines@.len() - i,
    {
        proof {
            assert(lv.skip(i as int)[0] == lv[i as int]);
            assert(lv.skip(i as int).drop_first() =~= lv.skip(i + 1));
        }
        let ghost rv0 = records_view(records@);
        match Record::from_bytes(lines[i].as_slice()) {
            Option::Some(r) => {
                let ghost rva = r@;
                records.push(r);
                proof {
                    assert(records_view(records@) =~= rv0.push(rva));
                    assert(rv0.push(rva) + spec_parse_records(lv.skip(i + 1)) =~= rv0 + (seq![rva]
                        + spec_parse_records(lv.skip(i + 1))));
                }
            },
            Option::None => {},
        }
        i = i + 1;
    }
    proof {
        assert(lv.skip(i as int) =~= Seq::<Seq<u8>>::empty());
        assert(records_view(records@) + Seq::<RecordV>::empty() =~= records_view(records@));
    }
    records
}

/// The full file contents for a list of records.
#[verifier::loop_isolation(false)]
pub fn write_record(rds: &Vec<Record>) -> (out: Vec<u8>)
    ensures
        out@ == spec_encode_records(records_view(rds@)),
{
    let ghost rv = records_view(rds@);
    let mut out: Vec<u8> = Vec::new();
    let mut i: usize = 0;
    proof {
        assert(rv.skip(0) =~= rv);
        assert(Seq::<u8>::empty() + spec_encode_records(rv) =~= spec_encode_records(rv));
    }
    while i < rds.len()
        invariant
            0 <= i <= rds@.len(),
            out@ + spec_encode_records(rv.skip(i as int)) == spec_encode_records(rv),
        decreases rds@.len() - i,
    {
        proof {
            assert(rv.skip(i as int)[0] == rv[i as int]);
            assert(rv.skip(i as int).drop_first() =~= rv.skip(i + 1));
        }
        let ghost out0 = out@;
        let mut enc = rds[i].encode();
        out.append(&mut enc);
        out.push(LF);
        proof {
            assert(out@ =~= out0 + spec_encode_record(rv[i as int]) + seq![LF]);
            assert(out0 + spec_encode_record(rv[i as int]) + seq![LF] + spec_encode_records(
                rv.skip(i + 1),
            ) =~= out0 + (spec_encode_record(rv[i as int]) + seq![LF] + spec_encode_records(
                rv.skip(i + 1),
            )));
        }
        i = i + 1;
    }
    proof {
        assert(rv.skip(i as int) =~= Seq::<RecordV>::empty());
        assert(out@ + Seq::<u8>::empty() =~= out@);
    }
    out
}

impl TodoDB {
    /// Opens the store over the file's current bytes: the next sequence
    /// number is one past the largest one present, or zero for a fresh file.
    #[verifier::loop_isolation(false)]
    pub fn new(path: String, data: &[u8]) -> (db: TodoDB)
        requires
            forall|i: int|
                0 <= i < spec_query(data@).len() ==> #[trigger] spec_query(
                    data@,
                )[i].sequence < usize::MAX,
        ensures
            db.file_path == path,
            db.file_index as nat == spec_next_index(spec_query(data@)),
    {
        let records = query(data);
        let ghost rv = records_view(records@);
        let mut idx: usize = 0;
        let mut j: usize = 0;
        proof {
            assert(rv.take(0) =~= Seq::<RecordV>::empty());
        }
        while j < records.len()
            invariant
                0 <= j <= records@.len(),
                idx as nat == spec_next_index(rv.take(j as int)),
            decreases records@.len() - j,
        {
            proof {
                assert(rv.take(j + 1).drop_last() =~= rv.take(j as int));
                assert(rv.take(j + 1).last() == rv[j as int]);
                assert(rv[j as int].sequence < usize::MAX);
            }
            let s = records[j].sequence;
            if s + 1 > idx {
                idx = s + 1;
            }
            j = j + 1;
        }
        proof {
            assert(rv.take(j as int) =~= rv);
        }
        TodoDB { file_path: path, file_index: idx }
    }

    /// Makes the record for the next sequence number and steps the counter;
    /// the result is the line to append to the backing file.
    pub fn add_record(&mut self, content: &str) -> (line: Vec<u8>)
        requires
            old(self).file_index < usize::MAX,
        ensures
            final(self).file_path == old(self).file_path,
            final(self).file_index == old(self).file_index + 1,
            line@ == spec_add_line(old(self).file_index as nat, content.spec_bytes()),
    {
        let r = Record::new(self.file_index, content);
        self.file_index = self.file_index + 1;
        let mut line = r.encode();
        line.push(LF);
        proof {
            assert(line@ =~= spec_add_line(old(self).file_index as nat, content.spec_bytes()));
        }
        line
    }

    /// Finds the record whose sequence number is `sequence` and builds the
    /// file contents that remain without it. Refuses a sequence argument
    /// that is not a number, and a number that no record carries.
    #[verifier::loop_isolation(false)]
    pub fn del_record(&self, data: &[u8], sequence: &str) -> (r: Result<Vec<u8>, RodoError>)
        ensures
            ({
                let rs = spec_query(data@);
                match spec_parse_usize(sequence.spec_bytes()) {
                    Option::None => r matches Err(e) && e is Parse,
                    Option::Some(v) => {
                        if spec_has_sequence(rs, v as nat) {
                            &&& r is Ok
                            &&& r->Ok_0@ == spec_encode_records(spec_remove_first(rs, v as nat))
                        } else {
                            r matches Err(e) && e is NotFound
                        }
                    },
                }
            }),
    {
        let ghost rs = spec_query(data@);
        let seq_no = match parse_usize(sequence.as_bytes()) {
            Option::Some(v) => v,
            Option::None => {
                return Result::Err(RodoError::Parse);
            },
        };
        let mut records = query(data);
        let ghost rv = records_view(records@);
        let mut i: usize = 0;
        while i < records.len()
            invariant
                0 <= i <= records@.len(),
                records_view(records@) == rv,
                rv == rs,
                forall|k: int| 0 <= k < i ==> #[trigger] rv[k].sequence != seq_no as nat,
            decreases records@.len() - i,
        {
            if records[i].sequence == seq_no {
                proof {
                    assert(rv[i as int].sequence == seq_no as nat);
                }
                records.remove(i);
                proof {
                    lemma_remove_first_at(rs, seq_no as nat, i as int);
                    assert(records_view(records@) =~= rv.remove(i as int));
                }
                let out = write_record(&records);
                return Result::Ok(out);
            }
            i = i + 1;
        }
        proof {
            assert(!spec_has_sequence(rs, seq_no as nat));
        }
        Result::Err(RodoError::NotFound)
    }
}

/// Taking out the record at the first position that carries `v` is what
/// `spec_remove_first` does.
pub proof fn lemma_remove_first_at(records: Seq<RecordV>, v: nat, i: int)
    requires
        0 <= i < records.len(),
        records[i].sequence == v,
        forall|k: int| 0 <= k < i ==> #[trigger] records[k].sequence != v,
    ensures
        spec_remove_first(records, v) == records.remove(i),
    decreases i,
{
    if i == 0 {
        assert(records.remove(0) =~= records.drop_first());
    } else {
        assert(records[0].sequence != v);
        lemma_remove_first_at(records.drop_first(), v, i - 1);
        assert(records.drop_first().remove(i - 1) =~= records.remove(i).drop_first());
        assert(seq![records[0]] + records.remove(i).drop_first() =~= records.remove(i));
    }
}

} // verus!

