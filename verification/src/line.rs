//! The directional collapse of a single line (row or column).
//!
//! A move first compacts the non-empty tiles toward the target edge, then
//! merges adjacent equal pairs scanning from the edge inward (each tile
//! merging at most once), then compacts again. This module implements that
//! collapse for a line oriented so that the target edge is the front, and
//! proves it against the mathematical description below. The mirrored
//! orientation is obtained by reversing the line around the same collapse.
//!
//! A merge is declined when the doubled value would not be representable in
//! `u32`; verified code never overflows and never panics, so a pair of tiles
//! already holding the largest power of two simply stays in place.

use vstd::prelude::*;

verus! {

/// Total value held by a line.
pub open spec fn seq_sum(s: Seq<u32>) -> int
    decreases s.len(),
{
    if s.len() == 0 {
        0
    } else {
        s[0] + seq_sum(s.skip(1))
    }
}

/// The non-empty tiles of a line, in order: what the compact pass keeps.
pub open spec fn nonzeros(s: Seq<u32>) -> Seq<u32>
    decreases s.len(),
{
    if s.len() == 0 {
        Seq::empty()
    } else {
        let rest = nonzeros(s.drop_last());
        if s.last() != 0 {
            rest.push(s.last())
        } else {
            rest
        }
    }
}

/// Whether the two tiles at the front of a compacted line merge: equal,
/// non-empty, and the doubled value representable.
pub open spec fn front_pair_merges(s: Seq<u32>) -> bool {
    s.len() >= 2 && s[0] == s[1] && s[0] != 0 && s[0] + s[1] <= u32::MAX
}

/// The merge pass over a compacted line, scanning from the target edge
/// inward; each tile takes part in at most one merge.
pub open spec fn merged(s: Seq<u32>) -> Seq<u32>
    decreases s.len(),
{
    if s.len() == 0 {
        Seq::empty()
    } else if front_pair_merges(s) {
        seq![(s[0] + s[1]) as u32] + merged(s.skip(2))
    } else {
        seq![s[0]] + merged(s.skip(1))
    }
}

/// The doubled values created by the merge pass, in merge order. Their sum
/// is exactly the score awarded for the line.
pub open spec fn merge_values(s: Seq<u32>) -> Seq<u32>
    decreases s.len(),
{
    if s.len() == 0 {
        Seq::empty()
    } else if front_pair_merges(s) {
        seq![(s[0] + s[1]) as u32] + merge_values(s.skip(2))
    } else {
        merge_values(s.skip(1))
    }
}

/// A line padded with empty tiles up to its original length.
pub open spec fn pad_zeros(s: Seq<u32>, n: int) -> Seq<u32> {
    if s.len() <= n {
        s + Seq::new((n - s.len()) as nat, |i: int| 0u32)
    } else {
        s
    }
}

/// The full collapse of a line whose target edge is the front: compact,
/// merge, compact again.
pub open spec fn collapsed(s: Seq<u32>) -> Seq<u32> {
    pad_zeros(merged(nonzeros(s)), s.len() as int)
}

/// The full collapse of a line whose target edge is the back.
pub open spec fn rcollapsed(s: Seq<u32>) -> Seq<u32> {
    collapsed(s.reverse()).reverse()
}

/// The merge pass keeps at most as many tiles as it is given.
pub proof fn lemma_merged_len(s: Seq<u32>)
    ensures
        merged(s).len() <= s.len(),
        merged(s).len() + merge_values(s).len() == s.len(),
    decreases s.len(),
{
    if s.len() == 0 {
    } else if front_pair_merges(s) {
        lemma_merged_len(s.skip(2));
    } else {
        lemma_merged_len(s.skip(1));
    }
}

/// The compact pass keeps at most as many tiles as it is given.
pub proof fn lemma_nonzeros_len(s: Seq<u32>)
    ensures
        nonzeros(s).len() <= s.len(),
    decreases s.len(),
{
    if s.len() > 0 {
        lemma_nonzeros_len(s.drop_last());
    }
}

/// A collapsed line has the length of the original line.
pub proof fn lemma_collapsed_len(s: Seq<u32>)
    ensures
        collapsed(s).len() == s.len(),
        rcollapsed(s).len() == s.len(),
{
    lemma_nonzeros_len(s);
    lemma_merged_len(nonzeros(s));
    lemma_nonzeros_len(s.reverse());
    lemma_merged_len(nonzeros(s.reverse()));
}

/// Summing distributes over concatenation.
pub proof fn lemma_seq_sum_add(a: Seq<u32>, b: Seq<u32>)
    ensures
        seq_sum(a + b) == seq_sum(a) + seq_sum(b),
    decreases a.len(),
{
    if a.len() == 0 {
        assert(a + b =~= b);
    } else {
        assert((a + b).skip(1) =~= a.skip(1) + b);
        lemma_seq_sum_add(a.skip(1), b);
    }
}

/// Summing after appending one tile.
pub proof fn lemma_seq_sum_push(s: Seq<u32>, x: u32)
    ensures
        seq_sum(s.push(x)) == seq_sum(s) + x,
{
    assert(s.push(x) =~= s + seq![x]);
    lemma_seq_sum_add(s, seq![x]);
    assert(seq_sum(seq![x]) == x) by {
        assert(seq![x].skip(1) =~= Seq::<u32>::empty());
        assert(seq_sum(Seq::<u32>::empty()) == 0);
        assert(seq![x][0] == x);
    }
}

/// Empty tiles contribute nothing to the total.
pub proof fn lemma_sum_nonzeros(s: Seq<u32>)
    ensures
        seq_sum(nonzeros(s)) == seq_sum(s),
    decreases s.len(),
{
    if s.len() > 0 {
        lemma_sum_nonzeros(s.drop_last());
        assert(s =~= s.drop_last().push(s.last()));
        lemma_seq_sum_push(s.drop_last(), s.last());
        if s.last() != 0 {
            lemma_seq_sum_push(nonzeros(s.drop_last()), s.last());
        }
    }
}

/// The merge pass conserves the total value: two merging tiles are replaced
/// by one tile holding their sum.
pub proof fn lemma_sum_merged(s: Seq<u32>)
    ensures
        seq_sum(merged(s)) == seq_sum(s),
    decreases s.len(),
{
    if s.len() == 0 {
    } else if front_pair_merges(s) {
        let d = (s[0] + s[1]) as u32;
        lemma_sum_merged(s.skip(2));
        lemma_seq_sum_add(seq![d], merged(s.skip(2)));
        assert(seq_sum(seq![d]) == d) by {
            assert(seq![d].skip(1) =~= Seq::<u32>::empty());
            assert(seq_sum(Seq::<u32>::empty()) == 0);
            assert(seq![d][0] == d);
        }
        assert(s.skip(1).skip(1) =~= s.skip(2));
        assert(seq_sum(s.skip(1)) == s.skip(1)[0] + seq_sum(s.skip(1).skip(1)));
        assert(seq_sum(s) == s[0] + seq_sum(s.skip(1)));
    } else {
        lemma_sum_merged(s.skip(1));
        lemma_seq_sum_add(seq![s[0]], merged(s.skip(1)));
        assert(seq_sum(seq![s[0]]) == s[0]) by {
            assert(seq![s[0]].skip(1) =~= Seq::<u32>::empty());
            assert(seq_sum(Seq::<u32>::empty()) == 0);
            assert(seq![s[0]][0] == s[0]);
        }
    }
}

/// A run of empty tiles sums to zero.
pub proof fn lemma_sum_zeros(n: nat)
    ensures
        seq_sum(Seq::new(n, |i: int| 0u32)) == 0,
    decreases n,
{
    if n > 0 {
        assert(Seq::new(n, |i: int| 0u32).skip(1) =~= Seq::new((n - 1) as nat, |i: int| 0u32));
        lemma_sum_zeros((n - 1) as nat);
    }
}

/// Merge conservation: the collapse passes neither create nor destroy value.
/// The total held by a line after compaction, merging and re-compaction
/// equals the total before; the points awarded for the line are exactly the
/// sum of the doubled values created by its merges (`merge_values`).
pub proof fn lemma_collapse_conserves_sum(line: Seq<u32>)
    ensures
        seq_sum(collapsed(line)) == seq_sum(line),
{
    lemma_nonzeros_len(line);
    lemma_merged_len(nonzeros(line));
    lemma_sum_nonzeros(line);
    lemma_sum_merged(nonzeros(line));
    let m = merged(nonzeros(line));
    lemma_seq_sum_add(m, Seq::new((line.len() - m.len()) as nat, |i: int| 0u32));
    lemma_sum_zeros((line.len() - m.len()) as nat);
}

/// At most one merge per tile: a run of `k` equal tiles collapses to
/// `k / 2` doubled tiles followed by one leftover when `k` is odd — never a
/// chained triple merge.
pub proof fn lemma_uniform_run_merges_once(v: u32, k: nat)
    requires
        v != 0,
        v + v <= u32::MAX,
    ensures
        merged(Seq::new(k, |i: int| v)) == Seq::new(k / 2, |i: int| (v + v) as u32) + Seq::new(
            k % 2,
            |i: int| v,
        ),
        merge_values(Seq::new(k, |i: int| v)) == Seq::new(k / 2, |i: int| (v + v) as u32),
    decreases k,
{
    let run = Seq::new(k, |i: int| v);
    if k == 0 {
        assert(merged(run) =~= Seq::new(0nat, |i: int| (v + v) as u32) + Seq::new(0nat, |i: int| v));
        assert(merge_values(run) =~= Seq::new(0nat, |i: int| (v + v) as u32));
    } else if k == 1 {
        assert(!front_pair_merges(run));
        assert(run.skip(1) =~= Seq::<u32>::empty());
        assert(merged(run) == seq![run[0]] + merged(run.skip(1)));
        assert(merged(Seq::<u32>::empty()) =~= Seq::<u32>::empty());
        assert(merge_values(Seq::<u32>::empty()) =~= Seq::<u32>::empty());
        assert(merged(run) =~= Seq::new(0nat, |i: int| (v + v) as u32) + Seq::new(1nat, |i: int| v));
        assert(merge_values(run) =~= Seq::new(0nat, |i: int| (v + v) as u32));
    } else {
        assert(front_pair_merges(run));
        assert(run.skip(2) =~= Seq::new((k - 2) as nat, |i: int| v));
        lemma_uniform_run_merges_once(v, (k - 2) as nat);
        assert((k - 2) as nat / 2 == k / 2 - 1);
        assert((k - 2) as nat % 2 == k % 2);
        assert(merged(run) =~= Seq::new(k / 2, |i: int| (v + v) as u32) + Seq::new(
            k % 2,
            |i: int| v,
        ));
        assert(merge_values(run) =~= Seq::new(k / 2, |i: int| (v + v) as u32));
    }
}

/// A line's total is never negative.
pub proof fn lemma_seq_sum_nonneg(s: Seq<u32>)
    ensures
        seq_sum(s) >= 0,
    decreases s.len(),
{
    if s.len() > 0 {
        lemma_seq_sum_nonneg(s.skip(1));
    }
}

/// Every tile kept by the compact pass is non-empty.
pub proof fn lemma_nonzeros_elems(s: Seq<u32>)
    ensures
        forall|i: int| 0 <= i < nonzeros(s).len() ==> nonzeros(s)[i] != 0,
    decreases s.len(),
{
    if s.len() > 0 {
        lemma_nonzeros_elems(s.drop_last());
        let rest = nonzeros(s.drop_last());
        assert forall|i: int| 0 <= i < nonzeros(s).len() implies nonzeros(s)[i] != 0 by {
            if s.last() != 0 && i == rest.len() {
                assert(nonzeros(s)[i] == s.last());
            } else {
                assert(nonzeros(s)[i] == rest[i]);
            }
        }
    }
}

/// The merge pass of a line without empty tiles produces no empty tiles.
pub proof fn lemma_merged_elems(s: Seq<u32>)
    requires
        forall|i: int| 0 <= i < s.len() ==> s[i] != 0,
    ensures
        forall|i: int| 0 <= i < merged(s).len() ==> merged(s)[i] != 0,
    decreases s.len(),
{
    if s.len() == 0 {
    } else if front_pair_merges(s) {
        assert(forall|i: int| 0 <= i < s.skip(2).len() ==> s.skip(2)[i] != 0);
        lemma_merged_elems(s.skip(2));
        assert forall|i: int| 0 <= i < merged(s).len() implies merged(s)[i] != 0 by {
            if i == 0 {
                assert(merged(s)[0] == (s[0] + s[1]) as u32);
            } else {
                assert(merged(s)[i] == merged(s.skip(2))[i - 1]);
            }
        }
    } else {
        assert(forall|i: int| 0 <= i < s.skip(1).len() ==> s.skip(1)[i] != 0);
        lemma_merged_elems(s.skip(1));
        assert forall|i: int| 0 <= i < merged(s).len() implies merged(s)[i] != 0 by {
            if i == 0 {
                assert(merged(s)[0] == s[0]);
            } else {
                assert(merged(s)[i] == merged(s.skip(1))[i - 1]);
            }
        }
    }
}

/// Compacting a line without empty tiles changes nothing.
pub proof fn lemma_nonzeros_id(s: Seq<u32>)
    requires
        forall|i: int| 0 <= i < s.len() ==> s[i] != 0,
    ensures
        nonzeros(s) == s,
    decreases s.len(),
{
    if s.len() > 0 {
        assert(forall|i: int| 0 <= i < s.drop_last().len() ==> s.drop_last()[i] != 0);
        lemma_nonzeros_id(s.drop_last());
        assert(nonzeros(s) =~= s);
    }
}

/// Padding with empty tiles adds nothing the compact pass would keep.
pub proof fn lemma_nonzeros_pad(m: Seq<u32>, n: int)
    requires
        m.len() <= n,
    ensures
        nonzeros(pad_zeros(m, n)) == nonzeros(m),
    decreases n - m.len(),
{
    if n == m.len() {
        assert(pad_zeros(m, n) =~= m);
    } else {
        assert(pad_zeros(m, n).last() == 0);
        assert(pad_zeros(m, n).drop_last() =~= pad_zeros(m, n - 1));
        lemma_nonzeros_pad(m, n - 1);
    }
}

/// A line the collapse leaves unchanged awarded no points: no merge
/// happened on it.
pub proof fn lemma_no_change_no_gains(l: Seq<u32>)
    requires
        collapsed(l) == l,
    ensures
        merge_values(nonzeros(l)).len() == 0,
{
    let nz = nonzeros(l);
    let m = merged(nz);
    lemma_nonzeros_len(l);
    lemma_merged_len(nz);
    lemma_nonzeros_elems(l);
    lemma_merged_elems(nz);
    lemma_nonzeros_pad(m, l.len() as int);
    lemma_nonzeros_id(m);
    assert(nonzeros(collapsed(l)) == m);
}

/// Compare two lines for equality of contents.
pub(crate) fn lines_equal(a: &Vec<u32>, b: &Vec<u32>) -> (r: bool)
    ensures
        r == (a@ == b@),
{
    if a.len() != b.len() {
        proof {
            assert(a@ != b@);
        }
        return false;
    }
    let mut k: usize = 0;
    let mut eq: bool = true;
    proof {
        assert(a@.take(0) =~= b@.take(0));
    }
    while k < a.len()
        invariant
            k <= a.len(),
            a@.len() == b@.len(),
            eq == (a@.take(k as int) == b@.take(k as int)),
        decreases a.len() - k,
    {
        if a[k] != b[k] {
            proof {
                assert(a@.take(k as int + 1)[k as int] != b@.take(k as int + 1)[k as int]);
            }
            eq = false;
        } else {
            proof {
                if eq {
                    assert(a@.take(k as int + 1) =~= a@.take(k as int).push(a@[k as int]));
                    assert(b@.take(k as int + 1) =~= b@.take(k as int).push(b@[k as int]));
                } else {
                    assert(a@.take(k as int + 1).take(k as int) =~= a@.take(k as int));
                    assert(b@.take(k as int + 1).take(k as int) =~= b@.take(k as int));
                }
            }
        }
        k += 1;
    }
    proof {
        assert(a@.take(a@.len() as int) =~= a@);
        assert(b@.take(b@.len() as int) =~= b@);
    }
    eq
}

/// A copy of a line with the order of the tiles reversed.
pub(crate) fn reversed_line(v: &Vec<u32>) -> (r: Vec<u32>)
    ensures
        r@ == v@.reverse(),
{
    let mut r: Vec<u32> = Vec::new();
    let mut i: usize = 0;
    while i < v.len()
        invariant
            i <= v.len(),
            r@.len() == i,
            forall|k: int| 0 <= k < i ==> r@[k] == v@[v@.len() - 1 - k],
        decreases v.len() - i,
    {
        r.push(v[v.len() - 1 - i]);
        i += 1;
    }
    proof {
        assert(r@ =~= v@.reverse());
    }
    r
}

/// Collapse one line toward its front. Returns the collapsed line, the
/// doubled values created by merges in edge-inward order, and whether the
/// line changed at all.
pub(crate) fn collapse_line(line: &Vec<u32>) -> (r: (Vec<u32>, Vec<u32>, bool))
    ensures
        r.0@ == collapsed(line@),
        r.1@ == merge_values(nonzeros(line@)),
        r.2 == (r.0@ != line@),
        r.0@.len() == line@.len(),
{
    // Compact pass: gather the non-empty tiles in order.
    let mut nz: Vec<u32> = Vec::new();
    let mut i: usize = 0;
    while i < line.len()
        invariant
            i <= line.len(),
            nz@ == nonzeros(line@.take(i as int)),
        decreases line.len() - i,
    {
        let v = line[i];
        proof {
            assert(line@.take(i as int + 1).drop_last() =~= line@.take(i as int));
            assert(line@.take(i as int + 1).last() == line@[i as int]);
        }
        if v != 0 {
            nz.push(v);
        }
        i += 1;
    }
    proof {
        assert(line@.take(line@.len() as int) =~= line@);
    }

    // Merge pass: scan from the edge, merging each tile at most once.
    let mut out: Vec<u32> = Vec::new();
    let mut merges: Vec<u32> = Vec::new();
    let mut j: usize = 0;
    proof {
        assert(nz@.skip(0) =~= nz@);
        assert(out@ + merged(nz@) =~= merged(nz@));
        assert(merges@ + merge_values(nz@) =~= merge_values(nz@));
    }
    while j < nz.len()
        invariant
            j <= nz.len(),
            merged(nz@) == out@ + merged(nz@.skip(j as int)),
            merge_values(nz@) == merges@ + merge_values(nz@.skip(j as int)),
            out@.len() <= j,
        decreases nz.len() - j,
    {
        let ghost t = nz@.skip(j as int);
        if j + 1 < nz.len() && nz[j] == nz[j + 1] && nz[j] != 0 && nz[j] <= u32::MAX / 2 {
            let d = nz[j] * 2;
            proof {
                assert(t[0] == nz@[j as int] && t[1] == nz@[j as int + 1]);
                assert(front_pair_merges(t));
                assert(t.skip(2) =~= nz@.skip(j as int + 2));
                assert(merged(t) == seq![d] + merged(nz@.skip(j as int + 2)));
                assert(merge_values(t) == seq![d] + merge_values(nz@.skip(j as int + 2)));
                assert(out@.push(d) + merged(nz@.skip(j as int + 2)) =~= out@ + merged(t));
                assert(merges@.push(d) + merge_values(nz@.skip(j as int + 2)) =~= merges@
                    + merge_values(t));
            }
            out.push(d);
            merges.push(d);
            j += 2;
        } else {
            let v = nz[j];
            proof {
                assert(t[0] == nz@[j as int]);
                if t.len() >= 2 {
                    assert(t[1] == nz@[j as int + 1]);
                }
                assert(!front_pair_merges(t));
                assert(t.skip(1) =~= nz@.skip(j as int + 1));
                assert(merged(t) == seq![v] + merged(nz@.skip(j as int + 1)));
                assert(merge_values(t) == merge_values(nz@.skip(j as int + 1)));
                assert(out@.push(v) + merged(nz@.skip(j as int + 1)) =~= out@ + merged(t));
            }
            out.push(v);
            j += 1;
        }
    }
    proof {
        assert(nz@.skip(nz@.len() as int) =~= Seq::<u32>::empty());
        assert(out@ + merged(Seq::<u32>::empty()) =~= out@);
        assert(merges@ + merge_values(Seq::<u32>::empty()) =~= merges@);
        assert(out@ == merged(nz@));
        assert(merges@ == merge_values(nz@));
        lemma_nonzeros_len(line@);
        lemma_merged_len(nz@);
    }

    // Re-compact pass: pad with empty tiles back to the line length.
    let ghost m = out@;
    while out.len() < line.len()
        invariant
            m.len() <= out@.len() <= line@.len(),
            out@ == m + Seq::new((out@.len() - m.len()) as nat, |q: int| 0u32),
        decreases line.len() - out.len(),
    {
        proof {
            let k = (out@.len() - m.len()) as nat;
            assert(m + Seq::new((k + 1) as nat, |q: int| 0u32) =~= (m + Seq::new(
                k,
                |q: int| 0u32,
            )).push(0u32));
        }
        out.push(0);
    }
    proof {
        assert(out@ == pad_zeros(m, line@.len() as int));
    }

    let moved = !lines_equal(&out, line);
    (out, merges, moved)
}

/// Collapse one line toward its back, by collapsing the reversed line.
pub(crate) fn collapse_line_rev(line: &Vec<u32>) -> (r: (Vec<u32>, Vec<u32>, bool))
    ensures
        r.0@ == rcollapsed(line@),
        r.1@ == merge_values(nonzeros(line@.reverse())),
        r.2 == (r.0@ != line@),
        r.0@.len() == line@.len(),
{
    let rev = reversed_line(line);
    let (o, merges, _) = collapse_line(&rev);
    let out = reversed_line(&o);
    let moved = !lines_equal(&out, line);
    proof {
        lemma_collapsed_len(line@);
        assert(out@ =~= rcollapsed(line@));
    }
    (out, merges, moved)
}

} // verus!

