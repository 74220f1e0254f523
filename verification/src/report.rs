//! Number formatting for reports, and model facts for the benchmark.
use crate::text::push_char;
use vstd::prelude::*;

verus! {

/// The decimal digit character of `d` (0 ≤ d < 10).
pub open spec fn digit_char(d: nat) -> char {
    (48 + d) as char
}

/// The decimal representation of `n`, without leading zeros.
pub open spec fn decimal(n: nat) -> Seq<char>
    decreases n,
{
    if n < 10 {
        seq![digit_char(n)]
    } else {
        decimal(n / 10).push(digit_char(n % 10))
    }
}

/// `ds` with a comma between each group of three digits, counted from the
/// right.
pub open spec fn group_thousands(ds: Seq<char>) -> Seq<char>
    decreases ds.len(),
{
    if ds.len() <= 3 {
        ds
    } else {
        group_thousands(ds.take(ds.len() - 3)) + seq![','] + ds.skip(ds.len() - 3)
    }
}

fn push_decimal(n: u64, out: &mut Vec<char>)
    ensures
        final(out)@ == old(out)@ + decimal(n as nat),
    decreases n,
{
    if n >= 10 {
        push_decimal(n / 10, out);
    }
    let d = (n % 10) as u8;
    out.push((48 + d) as char);
    proof {
        if n >= 10 {
            assert(decimal(n as nat) == decimal((n / 10) as nat).push(digit_char((n % 10) as nat)));
        }
    }
}

fn push_grouped(ds: &Vec<char>, end: usize, out: &mut Vec<char>)
    requires
        end <= ds.len(),
    ensures
        final(out)@ == old(out)@ + group_thousands(ds@.take(end as int)),
    decreases end,
{
    if end <= 3 {
        let mut i: usize = 0;
        while i < end
            invariant
                i <= end,
                end <= ds.len(),
                out@ == old(out)@ + ds@.take(i as int),
            decreases end - i,
        {
            out.push(ds[i]);
            proof {
                assert(ds@.take(i + 1) =~= ds@.take(i as int).push(ds@[i as int]));
            }
            i += 1;
        }
    } else {
        let ghost t = ds@.take(end as int);
        push_grouped(ds, end - 3, out);
        out.push(',');
        let mut i: usize = end - 3;
        let ghost mid = out@;
        while i < end
            invariant
                end > 3,
                end - 3 <= i <= end,
                end <= ds.len(),
                out@ == mid + ds@.subrange(end - 3, i as int),
            decreases end - i,
        {
            out.push(ds[i]);
            proof {
                assert(ds@.subrange(end - 3, i + 1) =~= ds@.subrange(end - 3, i as int).push(ds@[i as int]));
            }
            i += 1;
        }
        proof {
            assert(t.take(t.len() - 3) =~= ds@.take(end - 3));
            assert(t.skip(t.len() - 3) =~= ds@.subrange(end - 3, end as int));
        }
    }
}

/// Formats `n` in decimal with thousands separators (e.g. 1,234,567).
pub fn format_num(n: u64) -> (s: String)
    ensures
        s@ == group_thousands(decimal(n as nat)),
{
    let mut ds: Vec<char> = Vec::new();
    push_decimal(n, &mut ds);
    let mut out: Vec<char> = Vec::new();
    push_grouped(&ds, ds.len(), &mut out);
    proof {
        assert(ds@ =~= decimal(n as nat));
        assert(ds@.take(ds.len() as int) =~= ds@);
        assert(out@ =~= group_thousands(decimal(n as nat)));
    }
    crate::text::string_from_chars(&out)
}

/// `n` in decimal.
pub fn decimal_string(n: u64) -> (s: String)
    ensures
        s@ == decimal(n as nat),
{
    let mut ds: Vec<char> = Vec::new();
    push_decimal(n, &mut ds);
    proof {
        assert(ds@ =~= decimal(n as nat));
    }
    crate::text::string_from_chars(&ds)
}

/// Embedding dimension of an OpenAI embedding model: 3072 for
/// `text-embedding-3-large`, 1536 for the others.
pub fn embedding_dimension_for_model(model: &str) -> (d: u32)
    ensures
        d == (if model@ == "text-embedding-3-large"@ {
            3072u32
        } else {
            1536u32
        }),
{
    let m = model.to_owned();
    if m == "text-embedding-3-small".to_owned() || m == "text-embedding-ada-002".to_owned() {
        proof {
            reveal_strlit("text-embedding-3-small");
            reveal_strlit("text-embedding-ada-002");
            reveal_strlit("text-embedding-3-large");
            assert(m@ != "text-embedding-3-large"@) by {
                if m@ == "text-embedding-3-small"@ {
                    assert(m@[17] != "text-embedding-3-large"@[17]);
                } else {
                    assert(m@[15] != "text-embedding-3-large"@[15]);
                }
            }
        }
        1536
    } else if m == "text-embedding-3-large".to_owned() {
        3072
    } else {
        1536
    }
}

} // verus!
