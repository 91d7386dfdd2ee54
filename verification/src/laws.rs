//! The store's standing guarantees, proved once and for all: what a file
//! written from records reads back as, what appending a record's line does,
//! and why a sequence number handed out once never comes back.

use vstd::prelude::*;
use crate::digits::{is_digit, lemma_spec_digits_value, SPACE};
use crate::lines::{split_lines_from, spec_split_lines, strip_cr, CR, LF};
use crate::record::{
    lemma_parse_encode_record, spec_encode_record, spec_parse_record, valid_record, RecordV,
};
use crate::store::{
    spec_add_line, spec_encode_records, spec_has_sequence, spec_next_index, spec_parse_records,
    spec_query, spec_remove_first,
};

verus! {

/// Every record of a list encodes without a space, line feed or carriage
/// return outside its separator.
pub open spec fn valid_records(records: Seq<RecordV>) -> bool {
    forall|i: int| 0 <= i < records.len() ==> valid_record(#[trigger] records[i])
}

/// A record's line holds no line feed, and no carriage return at its end.
proof fn lemma_encoded_line_bytes(r: RecordV)
    requires
        valid_record(r),
    ensures
        forall|i: int|
            0 <= i < spec_encode_record(r).len() ==> #[trigger] spec_encode_record(r)[i] != LF
                && spec_encode_record(r)[i] != CR,
{
    let enc = spec_encode_record(r);
    let d = crate::digits::spec_digits(r.sequence);
    lemma_spec_digits_value(r.sequence);
    assert forall|i: int| 0 <= i < enc.len() implies enc[i] != LF && enc[i] != CR by {
        if i < d.len() {
            assert(enc[i] == d[i]);
            assert(is_digit(d[i]));
        } else if i == d.len() {
            assert(enc[i] == SPACE);
        } else {
            assert(enc[i] == r.content[i - d.len() - 1]);
        }
    }
}

/// Reading a line that holds no line feed only lengthens the line being
/// gathered.
proof fn lemma_split_from_no_lf(line: Seq<u8>, tail: Seq<u8>, cur: Seq<u8>)
    requires
        forall|i: int| 0 <= i < line.len() ==> #[trigger] line[i] != LF,
    ensures
        split_lines_from(line + tail, cur) == split_lines_from(tail, cur + line),
    decreases line.len(),
{
    if line.len() == 0 {
        assert(line + tail =~= tail);
        assert(cur + line =~= cur);
    } else {
        assert((line + tail)[0] == line[0]);
        assert((line + tail).drop_first() =~= line.drop_first() + tail);
        lemma_split_from_no_lf(line.drop_first(), tail, cur.push(line[0]));
        assert(cur.push(line[0]) + line.drop_first() =~= cur + line);
    }
}

/// A terminated line at the front of a stream is the first line of its
/// split.
proof fn lemma_split_terminated_line(line: Seq<u8>, tail: Seq<u8>)
    requires
        forall|i: int| 0 <= i < line.len() ==> #[trigger] line[i] != LF && line[i] != CR,
    ensures
        spec_split_lines(line + seq![LF] + tail) == seq![line] + spec_split_lines(tail),
{
    assert(line + seq![LF] + tail =~= line + (seq![LF] + tail));
    lemma_split_from_no_lf(line, seq![LF] + tail, Seq::empty());
    assert(Seq::<u8>::empty() + line =~= line);
    assert((seq![LF] + tail)[0] == LF);
    assert((seq![LF] + tail).drop_first() =~= tail);
    assert(strip_cr(line) == line);
}

/// Parsing lines goes piece by piece: the records of two line lists joined
/// are the records of each, joined.
proof fn lemma_parse_records_append(a: Seq<Seq<u8>>, b: Seq<Seq<u8>>)
    ensures
        spec_parse_records(a + b) == spec_parse_records(a) + spec_parse_records(b),
    decreases a.len(),
{
    if a.len() == 0 {
        assert(a + b =~= b);
        assert(spec_parse_records(a) + spec_parse_records(b) =~= spec_parse_records(b));
    } else {
        assert((a + b)[0] == a[0]);
        assert((a + b).drop_first() =~= a.drop_first() + b);
        lemma_parse_records_append(a.drop_first(), b);
        match spec_parse_record(a[0]) {
            Option::Some(r) => {
                assert(seq![r] + (spec_parse_records(a.drop_first()) + spec_parse_records(b)) =~= (
                seq![r] + spec_parse_records(a.drop_first())) + spec_parse_records(b));
            },
            Option::None => {},
        }
    }
}

/// A file written from records reads back as exactly those records.
pub proof fn lemma_store_round_trip(records: Seq<RecordV>)
    requires
        valid_records(records),
    ensures
        spec_query(spec_encode_records(records)) == records,
    decreases records.len(),
{
    if records.len() == 0 {
        assert(spec_split_lines(spec_encode_records(records)) == Seq::<Seq<u8>>::empty());
        assert(spec_parse_records(Seq::<Seq<u8>>::empty()) =~= records);
    } else {
        let r = records[0];
        let enc = spec_encode_record(r);
        let tail = spec_encode_records(records.drop_first());
        assert(spec_encode_records(records) == enc + seq![LF] + tail);
        lemma_encoded_line_bytes(r);
        lemma_split_terminated_line(enc, tail);
        let lines = seq![enc] + spec_split_lines(tail);
        assert(lines[0] == enc);
        assert(lines.drop_first() =~= spec_split_lines(tail));
        lemma_parse_encode_record(r);
        lemma_store_round_trip(records.drop_first());
        assert(seq![r] + records.drop_first() =~= records);
    }
}

/// Appending a record's terminated line to a terminated file adds exactly
/// that record at the end of what the file holds.
pub proof fn lemma_append_record(data: Seq<u8>, r: RecordV)
    requires
        valid_record(r),
        data.len() == 0 || data.last() == LF,
    ensures
        spec_query(data + spec_add_line(r.sequence, r.content)) == spec_query(data).push(r),
{
    let line = spec_add_line(r.sequence, r.content);
    let enc = spec_encode_record(r);
    assert(RecordV { sequence: r.sequence, content: r.content } =~= r);
    lemma_encoded_line_bytes(r);
    if data.len() == 0 {
        assert(data + line =~= enc + seq![LF] + Seq::<u8>::empty());
        lemma_split_terminated_line(enc, Seq::empty());
        assert(spec_split_lines(Seq::<u8>::empty()) == Seq::<Seq<u8>>::empty());
        let lines = seq![enc] + Seq::<Seq<u8>>::empty();
        assert(lines[0] == enc);
        assert(lines.drop_first() =~= Seq::<Seq<u8>>::empty());
        lemma_parse_encode_record(r);
        assert(spec_query(data) =~= Seq::<RecordV>::empty());
        assert(seq![r] + Seq::<RecordV>::empty() =~= spec_query(data).push(r));
    } else {
        lemma_split_from_terminated(data, line, Seq::empty());
        lemma_parse_records_append(spec_split_lines(data), spec_split_lines(line));
        assert(line =~= enc + seq![LF] + Seq::<u8>::empty());
        lemma_split_terminated_line(enc, Seq::empty());
        assert(spec_split_lines(Seq::<u8>::empty()) == Seq::<Seq<u8>>::empty());
        let lines = seq![enc] + Seq::<Seq<u8>>::empty();
        assert(spec_split_lines(line) == lines);
        assert(lines[0] == enc);
        assert(lines.drop_first() =~= Seq::<Seq<u8>>::empty());
        lemma_parse_encode_record(r);
        assert(spec_parse_records(lines) == seq![r] + spec_parse_records(
            Seq::<Seq<u8>>::empty(),
        ));
        assert(seq![r] + Seq::<RecordV>::empty() =~= seq![r]);
        assert(spec_parse_records(spec_split_lines(line)) =~= seq![r]);
        assert(spec_query(data) + seq![r] =~= spec_query(data).push(r));
    }
}

/// Splitting stops cleanly at a terminating line feed: what follows splits
/// on its own.
proof fn lemma_split_from_terminated(data: Seq<u8>, suffix: Seq<u8>, cur: Seq<u8>)
    requires
        data.len() > 0,
        data.last() == LF,
    ensures
        split_lines_from(data + suffix, cur) == split_lines_from(data, cur) + split_lines_from(
            suffix,
            Seq::empty(),
        ),
    decreases data.len(),
{
    assert((data + suffix)[0] == data[0]);
    assert((data + suffix).drop_first() =~= data.drop_first() + suffix);
    if data.len() == 1 {
        assert(data[0] == LF);
        assert(data.drop_first() =~= Seq::<u8>::empty());
        assert(data.drop_first() + suffix =~= suffix);
        assert(split_lines_from(data, cur) =~= seq![strip_cr(cur)]);
        assert(seq![strip_cr(cur)] + split_lines_from(suffix, Seq::empty()) =~= split_lines_from(
            data + suffix,
            cur,
        ));
    } else {
        assert(data.drop_first().last() == data.last());
        if data[0] == LF {
            lemma_split_from_terminated(data.drop_first(), suffix, Seq::empty());
            assert(seq![strip_cr(cur)] + (split_lines_from(data.drop_first(), Seq::empty())
                + split_lines_from(suffix, Seq::empty())) =~= (seq![strip_cr(cur)]
                + split_lines_from(data.drop_first(), Seq::empty())) + split_lines_from(
                suffix,
                Seq::empty(),
            ));
        } else {
            lemma_split_from_terminated(data.drop_first(), suffix, cur.push(data[0]));
        }
    }
}

/// The next sequence number is strictly past every one already present.
pub proof fn lemma_next_index_fresh(records: Seq<RecordV>)
    ensures
        forall|i: int|
            0 <= i < records.len() ==> #[trigger] records[i].sequence < spec_next_index(records),
    decreases records.len(),
{
    if records.len() > 0 {
        lemma_next_index_fresh(records.drop_last());
        assert forall|i: int|
            0 <= i < records.len() implies #[trigger] records[i].sequence < spec_next_index(
            records,
        ) by {
            if i < records.len() - 1 {
                assert(records.drop_last()[i] == records[i]);
            }
        }
    }
}

/// Removing a record does not raise any sequence number: a bound on all of
/// them still stands.
pub proof fn lemma_remove_first_bounded(records: Seq<RecordV>, v: nat, bound: nat)
    requires
        forall|i: int| 0 <= i < records.len() ==> #[trigger] records[i].sequence < bound,
    ensures
        forall|i: int|
            0 <= i < spec_remove_first(records, v).len() ==> #[trigger] spec_remove_first(
                records,
                v,
            )[i].sequence < bound,
    decreases records.len(),
{
    if records.len() > 0 {
        let rest = records.drop_first();
        assert(forall|i: int| 0 <= i < rest.len() ==> #[trigger] rest[i].sequence < bound) by {
            assert(forall|i: int| 0 <= i < rest.len() ==> rest[i] == records[i + 1]);
        }
        if records[0].sequence != v {
            lemma_remove_first_bounded(rest, v, bound);
            let out = seq![records[0]] + spec_remove_first(rest, v);
            assert forall|i: int| 0 <= i < out.len() implies #[trigger] out[i].sequence
                < bound by {
                if i == 0 {
                    assert(out[0] == records[0]);
                    assert(records[0].sequence < bound);
                } else {
                    assert(out[i] == spec_remove_first(rest, v)[i - 1]);
                }
            }
        }
    }
}

/// An add never reuses a number. While the counter stays past every
/// sequence number in the file, the record an add appends carries a number
/// the file does not hold, and the stepped counter is past every number
/// again — so a number handed out once never comes back.
pub proof fn lemma_add_is_fresh(data: Seq<u8>, idx: nat, content: Seq<u8>)
    requires
        idx <= usize::MAX,
        data.len() == 0 || data.last() == LF,
        forall|i: int|
            0 <= i < spec_query(data).len() ==> #[trigger] spec_query(data)[i].sequence < idx,
        forall|i: int|
            0 <= i < content.len() ==> #[trigger] content[i] != SPACE && content[i] != LF
                && content[i] != CR,
    ensures
        !spec_has_sequence(spec_query(data), idx),
        spec_query(data + spec_add_line(idx, content)) == spec_query(data).push(
            (RecordV { sequence: idx, content }),
        ),
        forall|i: int|
            0 <= i < spec_query(data + spec_add_line(idx, content)).len()
                ==> #[trigger] spec_query(data + spec_add_line(idx, content))[i].sequence < idx
                + 1,
{
    let r = RecordV { sequence: idx, content };
    lemma_append_record(data, r);
    let out = spec_query(data).push(r);
    assert forall|i: int| 0 <= i < out.len() implies #[trigger] out[i].sequence < idx + 1 by {
        if i < out.len() - 1 {
            assert(out[i] == spec_query(data)[i]);
        } else {
            assert(out[i] == r);
        }
    }
}

/// Once removed, a sequence number is gone: when no two records share a
/// sequence number, the removed one no longer appears.
pub proof fn lemma_removed_sequence_gone(records: Seq<RecordV>, v: nat)
    requires
        forall|i: int, j: int|
            0 <= i < j < records.len() ==> #[trigger] records[i].sequence
                != #[trigger] records[j].sequence,
    ensures
        !spec_has_sequence(spec_remove_first(records, v), v),
    decreases records.len(),
{
    if records.len() == 0 {
    } else if records[0].sequence == v {
        let rest = records.drop_first();
        if spec_has_sequence(rest, v) {
            let k = choose|k: int| 0 <= k < rest.len() && #[trigger] rest[k].sequence == v;
            assert(records[k + 1].sequence == records[0].sequence);
        }
    } else {
        let rest = records.drop_first();
        assert(forall|i: int, j: int|
            0 <= i < j < rest.len() ==> #[trigger] rest[i].sequence
                != #[trigger] rest[j].sequence) by {
            assert(forall|i: int| 0 <= i < rest.len() ==> rest[i] == records[i + 1]);
        }
        lemma_removed_sequence_gone(rest, v);
        let out = seq![records[0]] + spec_remove_first(rest, v);
        if spec_has_sequence(out, v) {
            let k = choose|k: int| 0 <= k < out.len() && #[trigger] out[k].sequence == v;
            if k == 0 {
                assert(records[0].sequence == v);
            } else {
                assert(out[k] == spec_remove_first(rest, v)[k - 1]);
                assert(spec_has_sequence(spec_remove_first(rest, v), v));
            }
        }
    }
}

} // verus!
