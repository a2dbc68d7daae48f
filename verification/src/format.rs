use vstd::prelude::*;

use crate::model::names_view;

verus! {

// ---------------------------------------------------------------------------
// Source normalization for comparisons: each line trimmed, empty terminator
// dropped, the whole trimmed.
// ---------------------------------------------------------------------------

/// The blank bytes a trim removes.
pub open spec fn is_space(b: u8) -> bool {
    b == 9 || b == 10 || b == 11 || b == 12 || b == 13 || b == 32
}

/// The text without its leading blanks.
pub open spec fn trim_front(s: Seq<u8>) -> Seq<u8>
    decreases s.len(),
{
    if s.len() > 0 && is_space(s[0]) {
        trim_front(s.drop_first())
    } else {
        s
    }
}

/// The text without its trailing blanks.
pub open spec fn trim_back(s: Seq<u8>) -> Seq<u8>
    decreases s.len(),
{
    if s.len() > 0 && is_space(s.last()) {
        trim_back(s.drop_last())
    } else {
        s
    }
}

/// The text without leading and trailing blanks.
pub open spec fn trim_spec(s: Seq<u8>) -> Seq<u8> {
    trim_back(trim_front(s))
}

/// The pieces between newlines, the piece after the last newline included
/// even when it is empty.
pub open spec fn split_all(s: Seq<u8>) -> Seq<Seq<u8>>
    decreases s,
{
    if s.len() == 0 {
        seq![Seq::<u8>::empty()]
    } else if s.last() == 10 {
        split_all(s.drop_last()).push(Seq::<u8>::empty())
    } else {
        let r = split_all(s.drop_last());
        r.update(r.len() - 1, r.last().push(s.last()))
    }
}

/// The lines of the text: a final newline terminates the last line rather
/// than opening an empty one.
pub open spec fn split_lines(s: Seq<u8>) -> Seq<Seq<u8>> {
    let a = split_all(s);
    if a.last() == Seq::<u8>::empty() {
        a.drop_last()
    } else {
        a
    }
}

/// Each line trimmed.
pub open spec fn trim_all(ls: Seq<Seq<u8>>) -> Seq<Seq<u8>>
    decreases ls,
{
    if ls.len() == 0 {
        seq![]
    } else {
        trim_all(ls.drop_last()).push(trim_spec(ls.last()))
    }
}

/// The lines joined with newlines.
pub open spec fn join_lines(ls: Seq<Seq<u8>>) -> Seq<u8>
    decreases ls,
{
    if ls.len() == 0 {
        seq![]
    } else if ls.len() == 1 {
        ls[0]
    } else {
        join_lines(ls.drop_last()) + seq![10u8] + ls.last()
    }
}

/// The normal form of a source text: every line trimmed, the lines joined
/// with single newlines, and the whole trimmed.
pub open spec fn format_spec(s: Seq<u8>) -> Seq<u8> {
    trim_spec(join_lines(trim_all(split_lines(s))))
}

/// Whether a byte is a blank.
fn is_space_exec(b: u8) -> (r: bool)
    ensures
        r == is_space(b),
{
    b == 9 || b == 10 || b == 11 || b == 12 || b == 13 || b == 32
}

/// Trims leading and trailing blanks.
pub fn trim_bytes(v: &Vec<u8>) -> (r: Vec<u8>)
    ensures
        r@ == trim_spec(v@),
{
    let mut lo: usize = 0;
    proof {
        assert(v@.skip(0int) =~= v@);
    }
    while lo < v.len() && is_space_exec(v[lo])
        invariant
            lo <= v@.len(),
            trim_front(v@) == trim_front(v@.skip(lo as int)),
        decreases v@.len() - lo,
    {
        lo = lo + 1;
        proof {
            assert(v@.skip(lo - 1).drop_first() =~= v@.skip(lo as int));
        }
    }
    proof {
        assert(trim_front(v@) == v@.skip(lo as int));
    }
    let mut hi: usize = v.len();
    proof {
        assert(v@.subrange(lo as int, hi as int) =~= v@.skip(lo as int));
    }
    while hi > lo && is_space_exec(v[hi - 1])
        invariant
            lo <= hi <= v@.len(),
            trim_back(v@.skip(lo as int)) == trim_back(v@.subrange(lo as int, hi as int)),
        decreases hi,
    {
        hi = hi - 1;
        proof {
            assert(v@.subrange(lo as int, hi + 1).drop_last() =~= v@.subrange(
                lo as int,
                hi as int,
            ));
        }
    }
    proof {
        assert(trim_back(v@.subrange(lo as int, hi as int)) == v@.subrange(lo as int, hi as int));
    }
    let mut r: Vec<u8> = Vec::new();
    let mut i: usize = lo;
    while i < hi
        invariant
            lo <= i <= hi <= v@.len(),
            r@ == v@.subrange(lo as int, i as int),
        decreases hi - i,
    {
        r.push(v[i]);
        i = i + 1;
        proof {
            assert(r@ =~= v@.subrange(lo as int, i as int));
        }
    }
    proof {
        assert(r@ == trim_spec(v@));
    }
    r
}

/// Normalizes a source text for comparison: trims every line, joins them
/// with single newlines, and trims the whole.
pub fn format_code(code: &Vec<u8>) -> (r: Vec<u8>)
    ensures
        r@ == format_spec(code@),
{
    // Split into pieces.
    let mut lines: Vec<Vec<u8>> = Vec::new();
    let mut cur: Vec<u8> = Vec::new();
    let mut i: usize = 0;
    proof {
        assert(split_all(code@.take(0int)) =~= names_view(lines@).push(cur@));
    }
    while i < code.len()
        invariant
            i <= code@.len(),
            split_all(code@.take(i as int)) == names_view(lines@).push(cur@),
        decreases code@.len() - i,
    {
        let b = code[i];
        if b == 10 {
            let ghost l0 = lines@;
            lines.push(cur);
            cur = Vec::new();
            proof {
                assert(lines@.drop_last() =~= l0);
            }
        } else {
            cur.push(b);
        }
        i = i + 1;
        proof {
            assert(code@.take(i as int).drop_last() =~= code@.take(i - 1));
            assert(code@.take(i as int).last() == code@[i - 1]);
            let prev = split_all(code@.take(i - 1));
            assert(prev.len() >= 1) by {
                lemma_split_all_len(code@.take(i - 1));
            }
            if code@[i - 1] == 10 {
                assert(split_all(code@.take(i as int)) =~= names_view(lines@).push(cur@));
            } else {
                assert(split_all(code@.take(i as int)) =~= prev.update(
                    prev.len() - 1,
                    prev.last().push(code@[i - 1]),
                ));
                assert(split_all(code@.take(i as int)) =~= names_view(lines@).push(cur@));
            }
        }
    }
    proof {
        assert(code@.take(code@.len() as int) =~= code@);
    }
    // Drop an empty terminator piece.
    if cur.len() > 0 {
        let ghost l0 = lines@;
        lines.push(cur);
        proof {
            assert(lines@.drop_last() =~= l0);
            assert(names_view(lines@) =~= split_lines(code@)) by {
                assert(split_all(code@).last() == names_view(lines@).last());
            }
        }
    } else {
        proof {
            assert(split_all(code@).last() =~= Seq::<u8>::empty());
            assert(split_all(code@).drop_last() =~= names_view(lines@));
            assert(names_view(lines@) =~= split_lines(code@));
        }
    }
    // Trim every line.
    let ghost pieces = names_view(lines@);
    let mut trimmed: Vec<Vec<u8>> = Vec::new();
    let mut j: usize = 0;
    proof {
        assert(names_view(trimmed@) =~= trim_all(pieces.take(0int)));
        crate::model::lemma_names_view_index(lines@);
    }
    while j < lines.len()
        invariant
            j <= lines@.len(),
            pieces == names_view(lines@),
            names_view(trimmed@) == trim_all(pieces.take(j as int)),
        decreases lines@.len() - j,
    {
        let ghost t0 = trimmed@;
        let t = trim_bytes(&lines[j]);
        trimmed.push(t);
        j = j + 1;
        proof {
            assert(trimmed@.drop_last() =~= t0);
            assert(pieces.take(j as int).drop_last() =~= pieces.take(j - 1));
            assert(pieces.take(j as int).last() == pieces[j - 1]);
            crate::model::lemma_names_view_index(lines@);
            assert(names_view(trimmed@) =~= trim_all(pieces.take(j as int)));
        }
    }
    proof {
        assert(pieces.take(pieces.len() as int) =~= pieces);
    }
    // Join with newlines.
    let ghost tl = trim_all(pieces);
    let mut out: Vec<u8> = Vec::new();
    let mut k: usize = 0;
    proof {
        assert(out@ =~= join_lines(tl.take(0int)));
        crate::model::lemma_names_view_index(trimmed@);
    }
    while k < trimmed.len()
        invariant
            k <= trimmed@.len(),
            tl == names_view(trimmed@),
            out@ == join_lines(tl.take(k as int)),
        decreases trimmed@.len() - k,
    {
        let ghost o0 = out@;
        if k > 0 {
            out.push(10u8);
        }
        let line = &trimmed[k];
        let mut b: usize = 0;
        let ghost o1 = out@;
        while b < line.len()
            invariant
                b <= line@.len(),
                out@ == o1 + line@.take(b as int),
            decreases line@.len() - b,
        {
            out.push(line[b]);
            b = b + 1;
            proof {
                assert(out@ =~= o1 + line@.take(b as int));
            }
        }
        k = k + 1;
        proof {
            assert(line@.take(line@.len() as int) =~= line@);
            assert(tl.take(k as int).drop_last() =~= tl.take(k - 1));
            assert(tl.take(k as int).last() == tl[k - 1]);
            crate::model::lemma_names_view_index(trimmed@);
            assert(tl[k - 1] == trimmed@[k - 1]@);
            if k == 1 {
                assert(out@ =~= join_lines(tl.take(1int)));
            } else {
                assert(out@ =~= join_lines(tl.take(k - 1)) + seq![10u8] + tl[k - 1]);
            }
        }
    }
    proof {
        assert(tl.take(tl.len() as int) =~= tl);
    }
    // Trim the whole.
    let r = trim_bytes(&out);
    r
}

/// A split always yields at least one piece.
proof fn lemma_split_all_len(s: Seq<u8>)
    ensures
        split_all(s).len() >= 1,
    decreases s,
{
    if s.len() > 0 {
        lemma_split_all_len(s.drop_last());
    }
}

} // verus!
