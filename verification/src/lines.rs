//! Splitting a byte stream into lines and joining lines back together.
//!
//! A line ends at a line feed; a carriage return directly before the line
//! feed is dropped, as a text-mode line reader does. A final fragment with
//! no terminator still counts as a line.

use vstd::prelude::*;

verus! {

pub const LF: u8 = 10;

pub const CR: u8 = 13;

/// A line with one trailing carriage return removed, if it has one.
pub open spec fn strip_cr(line: Seq<u8>) -> Seq<u8> {
    if line.len() > 0 && line.last() == CR {
        line.drop_last()
    } else {
        line
    }
}

/// The lines of `data`, continuing a line already begun in `cur`.
pub open spec fn split_lines_from(data: Seq<u8>, cur: Seq<u8>) -> Seq<Seq<u8>>
    decreases data.len(),
{
    if data.len() == 0 {
        if cur.len() > 0 {
            seq![cur]
        } else {
            Seq::empty()
        }
    } else if data[0] == LF {
        seq![strip_cr(cur)] + split_lines_from(data.drop_first(), Seq::empty())
    } else {
        split_lines_from(data.drop_first(), cur.push(data[0]))
    }
}

/// The lines of `data`.
pub open spec fn spec_split_lines(data: Seq<u8>) -> Seq<Seq<u8>> {
    split_lines_from(data, Seq::empty())
}

/// The lines joined back together, each terminated by a line feed.
pub open spec fn spec_render_lines(lines: Seq<Seq<u8>>) -> Seq<u8>
    decreases lines.len(),
{
    if lines.len() == 0 {
        Seq::empty()
    } else {
        lines[0] + seq![LF] + spec_render_lines(lines.drop_first())
    }
}

/// The views of a vector of byte lines.
pub open spec fn lines_view(lines: Seq<Vec<u8>>) -> Seq<Seq<u8>> {
    Seq::new(lines.len(), |i: int| lines[i]@)
}

pub fn split_lines(data: &[u8]) -> (lines: Vec<Vec<u8>>)
    ensures
        lines_view(lines@) == spec_split_lines(data@),
{
    let mut lines: Vec<Vec<u8>> = Vec::new();
    let mut cur: Vec<u8> = Vec::new();
    let mut i: usize = 0;
    proof {
        assert(data@.skip(0) =~= data@);
        assert(lines_view(lines@) =~= Seq::<Seq<u8>>::empty());
        assert(Seq::<Seq<u8>>::empty() + split_lines_from(data@, cur@) =~= split_lines_from(
            data@,
            cur@,
        ));
    }
    while i < data.len()
        invariant
            0 <= i <= data@.len(),
            lines_view(lines@) + split_lines_from(data@.skip(i as int), cur@) == spec_split_lines(
                data@,
            ),
        decreases data@.len() - i,
    {
        let b = data[i];
        proof {
            assert(data@.skip(i as int)[0] == data@[i as int]);
            assert(data@.skip(i as int).drop_first() =~= data@.skip(i + 1));
        }
        if b == LF {
            let ghost cur0 = cur@;
            if cur.len() > 0 && cur[cur.len() - 1] == CR {
                cur.pop();
            }
            assert(cur@ == strip_cr(cur0));
            let ghost lv0 = lines_view(lines@);
            lines.push(cur);
            cur = Vec::new();
            proof {
                assert(lines_view(lines@) =~= lv0.push(strip_cr(cur0)));
                assert(lv0.push(strip_cr(cur0)) + split_lines_from(data@.skip(i + 1), cur@) =~= lv0
                    + (seq![strip_cr(cur0)] + split_lines_from(data@.skip(i + 1), Seq::empty())));
            }
        } else {
            cur.push(b);
        }
        i = i + 1;
    }
    proof {
        assert(data@.skip(i as int) =~= Seq::<u8>::empty());
    }
    if cur.len() > 0 {
        let ghost lv0 = lines_view(lines@);
        let ghost cur0 = cur@;
        lines.push(cur);
        proof {
            assert(lines_view(lines@) =~= lv0.push(cur0));
            assert(lv0.push(cur0) =~= lv0 + seq![cur0]);
        }
    } else {
        assert(lines_view(lines@) + Seq::<Seq<u8>>::empty() =~= lines_view(lines@));
    }
    lines
}

proof fn lemma_render_split_from(data: Seq<u8>, cur: Seq<u8>)
    requires
        data.len() > 0,
        data.last() == LF,
        forall|i: int| 0 <= i < data.len() ==> #[trigger] data[i] != CR,
        forall|i: int| 0 <= i < cur.len() ==> #[trigger] cur[i] != CR,
    ensures
        spec_render_lines(split_lines_from(data, cur)) == cur + data,
    decreases data.len(),
{
    if data[0] == LF {
        assert(strip_cr(cur) == cur);
        let rest = split_lines_from(data.drop_first(), Seq::empty());
        assert((seq![cur] + rest)[0] == cur);
        assert((seq![cur] + rest).drop_first() =~= rest);
        if data.len() == 1 {
            assert(data.drop_first() =~= Seq::<u8>::empty());
            assert(rest == Seq::<Seq<u8>>::empty());
            assert(spec_render_lines(seq![cur] + rest) == cur + seq![LF] + spec_render_lines(
                Seq::empty(),
            ));
            assert(cur + seq![LF] + Seq::<u8>::empty() =~= cur + data);
        } else {
            assert(data.drop_first().last() == data.last());
            lemma_render_split_from(data.drop_first(), Seq::empty());
            assert(Seq::<u8>::empty() + data.drop_first() =~= data.drop_first());
            assert(cur + seq![LF] + data.drop_first() =~= cur + data);
        }
    } else {
        assert(data.drop_first().last() == data.last());
        lemma_render_split_from(data.drop_first(), cur.push(data[0]));
        assert(cur.push(data[0]) + data.drop_first() =~= cur + data);
    }
}

/// Joining the lines of a byte stream restores it exactly, as long as the
/// stream holds no carriage return and ends with a line feed (or is empty).
pub proof fn lemma_render_split_round_trip(data: Seq<u8>)
    requires
        forall|i: int| 0 <= i < data.len() ==> #[trigger] data[i] != CR,
        data.len() == 0 || data.last() == LF,
    ensures
        spec_render_lines(spec_split_lines(data)) == data,
{
    if data.len() == 0 {
        assert(spec_split_lines(data) == Seq::<Seq<u8>>::empty());
        assert(spec_render_lines(Seq::<Seq<u8>>::empty()) =~= data);
    } else {
        lemma_render_split_from(data, Seq::empty());
        assert(Seq::<u8>::empty() + data =~= data);
    }
}

pub fn render_lines(lines: &Vec<Vec<u8>>) -> (out: Vec<u8>)
    ensures
        out@ == spec_render_lines(lines_view(lines@)),
{
    let ghost lv = lines_view(lines@);
    let mut out: Vec<u8> = Vec::new();
    let mut i: usize = 0;
    proof {
        assert(lv.skip(0) =~= lv);
        assert(Seq::<u8>::empty() + spec_render_lines(lv) =~= spec_render_lines(lv));
    }
    while i < lines.len()
        invariant
            0 <= i <= lines@.len(),
            lv == lines_view(lines@),
            out@ + spec_render_lines(lv.skip(i as int)) == spec_render_lines(lv),
        decreases lines@.len() - i,
    {
        proof {
            assert(lv.skip(i as int)[0] == lv[i as int]);
            assert(lv.skip(i as int).drop_first() =~= lv.skip(i + 1));
        }
        let ghost out0 = out@;
        out.extend_from_slice(lines[i].as_slice());
        out.push(LF);
        proof {
            assert(out@ =~= out0 + lv[i as int] + seq![LF]);
            assert(out0 + lv[i as int] + seq![LF] + spec_render_lines(lv.skip(i + 1)) =~= out0 + (
            lv[i as int] + seq![LF] + spec_render_lines(lv.skip(i + 1))));
        }
        i = i + 1;
    }
    proof {
        assert(lv.skip(i as int) =~= Seq::<Seq<u8>>::empty());
        assert(out@ + Seq::<u8>::empty() =~= out@);
    }
    out
}

} // verus!
