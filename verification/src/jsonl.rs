//! The `points.jsonl` file format: one serialized point per line.
//!
//! Writing puts each record on a line of its own, followed by `\n`. Reading
//! splits the text into lines as `str::lines` does (at `\n`, dropping a `\r`
//! just before it), numbers the lines from 1, and keeps the non-empty ones
//! together with their line numbers, for error messages.
use crate::bm25::string_views;
use crate::text::{push_char, push_str, str_chars, string_from_chars};
use vstd::prelude::*;

verus! {

/// The file body for a list of records: each record followed by `\n`.
pub open spec fn jsonl_body(records: Seq<Seq<char>>) -> Seq<char>
    decreases records.len(),
{
    if records.len() == 0 {
        Seq::empty()
    } else {
        jsonl_body(records.drop_last()) + records.last() + seq!['\n']
    }
}

/// A completed line without the `\r` of a `\r\n` line ending.
pub open spec fn strip_cr(line: Seq<char>) -> Seq<char> {
    if line.len() > 0 && line.last() == '\r' {
        line.drop_last()
    } else {
        line
    }
}

/// Appends `(number, line)` where the line is not empty.
pub open spec fn keep_line(
    done: Seq<(nat, Seq<char>)>,
    number: nat,
    line: Seq<char>,
) -> Seq<(nat, Seq<char>)> {
    if line.len() > 0 {
        done.push((number, line))
    } else {
        done
    }
}

/// Reading `text` from the start: the non-empty completed lines with their
/// numbers, how many lines were completed, and the text of the line still
/// open.
pub open spec fn line_scan(text: Seq<char>) -> (Seq<(nat, Seq<char>)>, nat, Seq<char>)
    decreases text.len(),
{
    if text.len() == 0 {
        (Seq::empty(), 0, Seq::empty())
    } else {
        let (done, n, cur) = line_scan(text.drop_last());
        if text.last() == '\n' {
            (keep_line(done, n + 1, strip_cr(cur)), n + 1, Seq::empty())
        } else {
            (done, n, cur.push(text.last()))
        }
    }
}

/// The non-empty lines of `text`, each with its 1-based line number.
pub open spec fn numbered_records(text: Seq<char>) -> Seq<(nat, Seq<char>)> {
    let (done, n, cur) = line_scan(text);
    keep_line(done, n + 1, cur)
}

/// A record that survives a write and a read unchanged: not empty, no line
/// break in it, and no `\r` at its end.
pub open spec fn plain_record(r: Seq<char>) -> bool {
    &&& r.len() > 0
    &&& !r.contains('\n')
    &&& r.last() != '\r'
}

/// The file body for `records`: each record followed by `\n`.
pub fn encode_jsonl(records: &Vec<String>) -> (body: String)
    ensures
        body@ == jsonl_body(string_views(records@)),
{
    let ghost rv = string_views(records@);
    let mut body = String::new();
    let mut i: usize = 0;
    while i < records.len()
        invariant
            i <= records.len(),
            rv == string_views(records@),
            body@ == jsonl_body(rv.take(i as int)),
        decreases records.len() - i,
    {
        push_str(&mut body, records[i].as_str());
        push_char(&mut body, '\n');
        proof {
            assert(rv.take(i + 1).drop_last() =~= rv.take(i as int));
            assert(rv.take(i + 1).last() == records@[i as int]@);
        }
        i += 1;
    }
    proof {
        assert(rv.take(records.len() as int) =~= rv);
    }
    body
}

/// The view of numbered lines held as `(usize, String)` pairs.
pub open spec fn numbered_views(v: Seq<(usize, String)>) -> Seq<(nat, Seq<char>)> {
    v.map_values(|p: (usize, String)| (p.0 as nat, p.1@))
}

/// Pushes `(number, line)` where the line is not empty.
fn push_line(out: &mut Vec<(usize, String)>, number: usize, line: &Vec<char>)
    ensures
        numbered_views(final(out)@) == keep_line(numbered_views(old(out)@), number as nat, line@),
{
    if line.len() > 0 {
        let s = string_from_chars(line);
        out.push((number, s));
        proof {
            assert(numbered_views(final(out)@) =~= numbered_views(old(out)@).push(
                (number as nat, line@),
            ));
        }
    }
}

/// The non-empty lines of `text` with their 1-based line numbers.
pub fn jsonl_records(text: &str) -> (records: Vec<(usize, String)>)
    ensures
        numbered_views(records@) == numbered_records(text@),
{
    let cs = str_chars(text);
    let mut out: Vec<(usize, String)> = Vec::new();
    let mut cur: Vec<char> = Vec::new();
    let mut n: usize = 0;
    let mut i: usize = 0;
    while i < cs.len()
        invariant
            i <= cs.len(),
            cs@ == text@,
            n as int + cur@.len() <= i,
            line_scan(cs@.take(i as int)) == (numbered_views(out@), n as nat, cur@),
        decreases cs.len() - i,
    {
        let c = cs[i];
        proof {
            assert(cs@.take(i + 1).drop_last() =~= cs@.take(i as int));
        }
        if c == '\n' {
            if cur.len() > 0 && cur[cur.len() - 1] == '\r' {
                cur.pop();
            }
            push_line(&mut out, n + 1, &cur);
            n = n + 1;
            cur = Vec::new();
        } else {
            cur.push(c);
        }
        i += 1;
    }
    proof {
        assert(cs@.take(cs.len() as int) =~= cs@);
    }
    if cur.len() > 0 {
        push_line(&mut out, n + 1, &cur);
    }
    out
}

/// Adding text without a line break only extends the open line.
proof fn lemma_scan_extend(p: Seq<char>, r: Seq<char>)
    requires
        !r.contains('\n'),
    ensures
        line_scan(p + r) == (line_scan(p).0, line_scan(p).1, line_scan(p).2 + r),
    decreases r.len(),
{
    if r.len() == 0 {
        assert(p + r =~= p);
        assert(line_scan(p).2 + r =~= line_scan(p).2);
    } else {
        let q = r.drop_last();
        assert(!q.contains('\n')) by {
            if q.contains('\n') {
                let k = choose|k: int| 0 <= k < q.len() && q[k] == '\n';
                assert(r[k] == '\n');
            }
        }
        assert(r.last() != '\n') by {
            assert(r[r.len() - 1] == r.last());
        }
        lemma_scan_extend(p, q);
        assert((p + r).drop_last() =~= p + q);
        assert((p + r).last() == r.last());
        assert(line_scan(p).2 + q + seq![r.last()] =~= line_scan(p).2 + r);
        assert((line_scan(p).2 + q).push(r.last()) =~= line_scan(p).2 + r);
    }
}

/// Reading the body written for `records` completes one line per record,
/// keeps each of them, and leaves no open line.
proof fn lemma_scan_body(records: Seq<Seq<char>>)
    requires
        forall|i: int| 0 <= i < records.len() ==> plain_record(#[trigger] records[i]),
    ensures
        line_scan(jsonl_body(records)).1 == records.len(),
        line_scan(jsonl_body(records)).2 == Seq::<char>::empty(),
        line_scan(jsonl_body(records)).0 == Seq::new(
            records.len(),
            |i: int| ((i + 1) as nat, records[i]),
        ),
    decreases records.len(),
{
    if records.len() > 0 {
        let prev = records.drop_last();
        let r = records.last();
        assert(plain_record(records[records.len() - 1]));
        lemma_scan_body(prev);
        let pb = jsonl_body(prev);
        lemma_scan_extend(pb, r);
        let body = jsonl_body(records);
        assert(body =~= (pb + r).push('\n'));
        assert(body.drop_last() =~= pb + r);
        assert(line_scan(pb).2 + r =~= r);
        assert(strip_cr(r) == r);
        assert(line_scan(body).0 =~= Seq::new(
            records.len(),
            |i: int| ((i + 1) as nat, records[i]),
        ));
    }
}

/// Records written with `encode_jsonl` are read back by `jsonl_records`
/// unchanged and in order, on lines 1, 2, 3, ..., provided no record is
/// empty, holds a line break or ends with `\r` (which serialized JSON never
/// does).
pub proof fn law_jsonl_roundtrip(records: Seq<Seq<char>>)
    requires
        forall|i: int| 0 <= i < records.len() ==> plain_record(#[trigger] records[i]),
    ensures
        numbered_records(jsonl_body(records)) == Seq::new(
            records.len(),
            |i: int| ((i + 1) as nat, records[i]),
        ),
{
    lemma_scan_body(records);
}

} // verus!
