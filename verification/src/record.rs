//! A todo record: a sequence number and a single-token content, kept on one
//! line of the backing file as `"<sequence> <content>"`.

use vstd::prelude::*;
use crate::digits::{
    is_digit, lemma_spec_digits_value, parse_usize, push_digits, spec_digits, spec_parse_usize,
    PLUS, SPACE,
};
use crate::lines::{CR, LF};
use vstd::string::StringSliceAdditionalSpecFns;

verus! {

/// One todo entry.
pub struct Record {
    pub sequence: usize,
    pub content: Vec<u8>,
}

/// The mathematical value of a record.
#[verifier::ext_equal]
pub struct RecordV {
    pub sequence: nat,
    pub content: Seq<u8>,
}

impl View for Record {
    type V = RecordV;

    open spec fn view(&self) -> RecordV {
        RecordV { sequence: self.sequence as nat, content: self.content@ }
    }
}

/// The views of a vector of records.
pub open spec fn records_view(records: Seq<Record>) -> Seq<RecordV> {
    Seq::new(records.len(), |i: int| records[i]@)
}

/// A record that the line encoding keeps intact: its content is a single
/// token, with no space and no line break.
pub open spec fn valid_record(r: RecordV) -> bool {
    &&& r.sequence <= usize::MAX
    &&& forall|i: int|
        0 <= i < r.content.len() ==> #[trigger] r.content[i] != SPACE && r.content[i] != LF
            && r.content[i] != CR
}

/// `i` is the position of the one and only space of `line`.
pub open spec fn only_space_at(line: Seq<u8>, i: int) -> bool {
    &&& 0 <= i < line.len()
    &&& line[i] == SPACE
    &&& forall|j: int| 0 <= j < line.len() && j != i ==> line[j] != SPACE
}

/// What one line of the backing file stands for: a record when the line is
/// exactly a sequence number, one space, and the rest as content; nothing
/// otherwise.
pub open spec fn spec_parse_record(line: Seq<u8>) -> Option<RecordV> {
    if exists|i: int| only_space_at(line, i) {
        let i = choose|i: int| only_space_at(line, i);
        match spec_parse_usize(line.take(i)) {
            Option::Some(v) => Option::Some(
                RecordV { sequence: v as nat, content: line.skip(i + 1) },
            ),
            Option::None => Option::None,
        }
    } else {
        Option::None
    }
}

/// The line that keeps a record: its sequence number in decimal, one space,
/// then the content.
pub open spec fn spec_encode_record(r: RecordV) -> Seq<u8> {
    spec_digits(r.sequence) + seq![SPACE] + r.content
}

impl Record {
    /// A fresh record with the given sequence number and content.
    pub fn new(seq: usize, msg: &str) -> (r: Record)
        ensures
            r.sequence == seq,
            r.content@ == msg.spec_bytes(),
    {
        Record { sequence: seq, content: vstd::slice::slice_to_vec(msg.as_bytes()) }
    }

    /// Reads a record back from one line of text.
    pub fn from(field: &str) -> (r: Option<Record>)
        ensures
            match r {
                Option::Some(rec) => spec_parse_record(field.spec_bytes()) == Option::Some(rec@),
                Option::None => spec_parse_record(field.spec_bytes()) is None,
            },
    {
        Record::from_bytes(field.as_bytes())
    }

    /// Reads a record back from one line of the backing file.
    #[verifier::loop_isolation(false)]
    pub fn from_bytes(line: &[u8]) -> (r: Option<Record>)
        ensures
            match r {
                Option::Some(rec) => spec_parse_record(line@) == Option::Some(rec@),
                Option::None => spec_parse_record(line@) is None,
            },
    {
        let mut space_at: usize = 0;
        let mut found = false;
        let mut j: usize = 0;
        while j < line.len()
            invariant
                0 <= j <= line@.len(),
                found ==> 0 <= space_at < j && line@[space_at as int] == SPACE,
                found ==> forall|k: int|
                    0 <= k < j && k != space_at ==> line@[k] != SPACE,
                !found ==> forall|k: int| 0 <= k < j ==> line@[k] != SPACE,
            decreases line@.len() - j,
        {
            if line[j] == SPACE {
                if found {
                    proof {
                        assert forall|i: int| !only_space_at(line@, i) by {
                            if only_space_at(line@, i) {
                                if i != space_at {
                                    assert(line@[space_at as int] != SPACE);
                                } else {
                                    assert(line@[j as int] != SPACE);
                                }
                            }
                        }
                    }
                    return Option::None;
                }
                found = true;
                space_at = j;
            }
            j = j + 1;
        }
        if !found {
            proof {
                assert forall|i: int| !only_space_at(line@, i) by {
                    if only_space_at(line@, i) {
                        assert(line@[i] != SPACE);
                    }
                }
            }
            return Option::None;
        }
        proof {
            assert(only_space_at(line@, space_at as int));
            let c = choose|i: int| only_space_at(line@, i);
            assert(c == space_at as int) by {
                if c != space_at as int {
                    assert(line@[space_at as int] != SPACE);
                }
            }
        }
        let num = vstd::slice::slice_subrange(line, 0, space_at);
        proof {
            assert(line@.subrange(0, space_at as int) =~= line@.take(space_at as int));
        }
        match parse_usize(num) {
            Option::Some(v) => {
                let content = vstd::slice::slice_to_vec(
                    vstd::slice::slice_subrange(line, space_at + 1, line.len()),
                );
                let rec = Record { sequence: v, content };
                proof {
                    assert(line@.subrange(space_at + 1, line@.len() as int) =~= line@.skip(
                        space_at + 1,
                    ));
                    assert(spec_parse_record(line@) == Option::Some(rec@)) by {
                        assert(rec@ =~= RecordV {
                            sequence: v as nat,
                            content: line@.skip(space_at + 1),
                        });
                    }
                }
                Option::Some(rec)
            },
            Option::None => Option::None,
        }
    }

    /// Writes the record out as its line, without the terminator.
    pub fn encode(&self) -> (out: Vec<u8>)
        ensures
            out@ == spec_encode_record(self@),
    {
        let mut out: Vec<u8> = Vec::new();
        push_digits(self.sequence, &mut out);
        out.push(SPACE);
        out.extend_from_slice(self.content.as_slice());
        proof {
            assert(out@ =~= spec_digits(self.sequence as nat) + seq![SPACE] + self.content@);
        }
        out
    }
}

/// A record's line reads back as exactly that record.
pub proof fn lemma_parse_encode_record(r: RecordV)
    requires
        valid_record(r),
    ensures
        spec_parse_record(spec_encode_record(r)) == Option::<RecordV>::Some(r),
{
    let enc = spec_encode_record(r);
    let d = spec_digits(r.sequence);
    lemma_spec_digits_value(r.sequence);
    let n = d.len() as int;
    assert(enc.len() == n + 1 + r.content.len());
    assert(forall|i: int| 0 <= i < n ==> enc[i] == d[i]);
    assert(enc[n] == SPACE);
    assert(forall|i: int| n + 1 <= i < enc.len() ==> enc[i] == r.content[i - n - 1]);
    assert(only_space_at(enc, n)) by {
        assert forall|j: int| 0 <= j < enc.len() && j != n implies enc[j] != SPACE by {
            if j < n {
                assert(is_digit(d[j]));
            }
        }
    }
    let c = choose|i: int| only_space_at(enc, i);
    assert(c == n) by {
        if c != n {
            assert(enc[n] != SPACE);
        }
    }
    assert(enc.take(n) =~= d);
    assert(spec_parse_usize(d) == Option::<int>::Some(r.sequence as int)) by {
        assert(is_digit(d[0]));
        assert(d[0] != PLUS);
    }
    assert(enc.skip(n + 1) =~= r.content);
    assert(spec_parse_record(enc) == Option::<RecordV>::Some(r)) by {
        assert(RecordV { sequence: (r.sequence as int) as nat, content: enc.skip(n + 1) } =~= r);
    }
}

} // verus!
