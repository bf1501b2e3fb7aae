//! Inclusive integer ranges and the interval merger: turns any collection of
//! possibly-overlapping ranges into the minimal sorted sequence of disjoint
//! ranges with the same union, merging ranges that overlap or touch.

use vstd::prelude::*;

use crate::text;

verus! {

/// The largest value accepted in a range token, leaving the headroom the
/// merge's half-open widening needs.
pub const MAX_RANGE_VALUE: u32 = u32::MAX - 1;

/// An inclusive interval `[start, end]` of episode or season numbers.
#[derive(Clone, Copy, Debug, PartialEq, Eq, Structural)]
pub struct Range {
    pub start: u32,
    pub end: u32,
}

/// A well-formed range: non-empty and with headroom for the half-open
/// widening (`end + 1`) used while merging.
pub open spec fn range_wf(r: Range) -> bool {
    r.start <= r.end && r.end < u32::MAX
}

/// `x` lies inside the inclusive range `r`.
pub open spec fn covers(r: Range, x: int) -> bool {
    r.start <= x <= r.end
}

/// Every range of `rs` is well-formed.
pub open spec fn ranges_wf(rs: Seq<Range>) -> bool {
    forall|i: int| 0 <= i < rs.len() ==> range_wf(#[trigger] rs[i])
}

/// `x` lies in the union of the ranges of `rs`.
pub open spec fn in_ranges(rs: Seq<Range>, x: int) -> bool {
    exists|i: int| 0 <= i < rs.len() && covers(#[trigger] rs[i], x)
}

/// Consecutive ranges are separated by a gap of at least one value, so no
/// two ranges overlap or even touch.
pub open spec fn separated(rs: Seq<Range>) -> bool {
    forall|i: int| 0 <= i < rs.len() - 1 ==> (#[trigger] rs[i]).end + 1 < rs[i + 1].start
}

/// A fully merged sequence: well-formed, ascending, pairwise disjoint and
/// non-touching.
pub open spec fn merged(rs: Seq<Range>) -> bool {
    ranges_wf(rs) && separated(rs)
}

/// `output` is the merged form of `input`: fully merged and with exactly the
/// same union of covered values.
pub open spec fn is_merge_of(input: Seq<Range>, output: Seq<Range>) -> bool {
    merged(output) && (forall|x: int|
        #![trigger in_ranges(input, x)]
        #![trigger in_ranges(output, x)]
        in_ranges(input, x) <==> in_ranges(output, x))
}

/// In a merged sequence every later range lies strictly beyond every earlier
/// one, with a gap of at least one value between them.
pub proof fn lemma_merged_gap(rs: Seq<Range>, i: int, j: int)
    requires
        merged(rs),
        0 <= i < j < rs.len(),
    ensures
        rs[i].end + 1 < rs[j].start,
    decreases j - i,
{
    if j > i + 1 {
        lemma_merged_gap(rs, i, j - 1);
        assert(range_wf(rs[j - 1]));
    }
}

proof fn lemma_in_ranges_push(rs: Seq<Range>, v: Range, x: int)
    ensures
        in_ranges(rs.push(v), x) <==> (in_ranges(rs, x) || covers(v, x)),
{
    let s = rs.push(v);
    if in_ranges(s, x) {
        let i = choose|i: int| 0 <= i < s.len() && covers(#[trigger] s[i], x);
        if i < rs.len() {
            assert(s[i] == rs[i]);
        } else {
            assert(s[i] == v);
        }
    }
    if in_ranges(rs, x) {
        let i = choose|i: int| 0 <= i < rs.len() && covers(#[trigger] rs[i], x);
        assert(s[i] == rs[i]);
        assert(in_ranges(s, x));
    }
    if covers(v, x) {
        assert(s[rs.len() as int] == v);
        assert(in_ranges(s, x));
    }
}

proof fn lemma_in_ranges_insert(rs: Seq<Range>, pos: int, v: Range, x: int)
    requires
        0 <= pos <= rs.len(),
    ensures
        in_ranges(rs.insert(pos, v), x) <==> (in_ranges(rs, x) || covers(v, x)),
{
    let s = rs.insert(pos, v);
    rs.insert_ensures(pos, v);
    if in_ranges(s, x) {
        let i = choose|i: int| 0 <= i < s.len() && covers(#[trigger] s[i], x);
        if i < pos {
            assert(s[i] == rs[i]);
            assert(in_ranges(rs, x));
        } else if i == pos {
            assert(s[i] == v);
        } else {
            assert(s[i] == rs[i - 1]);
            assert(in_ranges(rs, x));
        }
    }
    if in_ranges(rs, x) {
        let i = choose|i: int| 0 <= i < rs.len() && covers(#[trigger] rs[i], x);
        if i < pos {
            assert(s[i] == rs[i]);
            assert(in_ranges(s, x));
        } else {
            assert(s[i + 1] == rs[i]);
            assert(in_ranges(s, x));
        }
    }
    if covers(v, x) {
        assert(s[pos] == v);
        assert(in_ranges(s, x));
    }
}

proof fn lemma_in_ranges_unsnoc(rs: Seq<Range>, x: int)
    requires
        rs.len() > 0,
    ensures
        in_ranges(rs, x) <==> (in_ranges(rs.drop_last(), x) || covers(rs.last(), x)),
{
    assert(rs.drop_last().push(rs.last()) =~= rs);
    lemma_in_ranges_push(rs.drop_last(), rs.last(), x);
}

/// The ranges of `rs` appear in ascending order of their start value.
pub open spec fn sorted_by_start(rs: Seq<Range>) -> bool {
    forall|i: int, j: int|
        #![trigger rs[i], rs[j]]
        0 <= i < j < rs.len() ==> rs[i].start <= rs[j].start
}

fn sort_by_start(input: &Vec<Range>) -> (out: Vec<Range>)
    ensures
        sorted_by_start(out@),
        out@.len() == input@.len(),
        forall|k: int| 0 <= k < out@.len() ==> input@.contains(#[trigger] out@[k]),
        forall|x: int|
            #![trigger in_ranges(out@, x)]
            in_ranges(out@, x) <==> in_ranges(input@, x),
{
    let n = input.len();
    let mut out: Vec<Range> = Vec::new();
    let mut idx: usize = 0;
    while idx < n
        invariant
            n == input@.len(),
            idx <= n,
            out@.len() == idx,
            sorted_by_start(out@),
            forall|k: int| 0 <= k < out@.len() ==> input@.contains(#[trigger] out@[k]),
            forall|x: int|
                #![trigger in_ranges(out@, x)]
                in_ranges(out@, x) <==> in_ranges(input@.subrange(0, idx as int), x),
        decreases n - idx,
    {
        let v = input[idx];
        let mut pos: usize = 0;
        while pos < out.len() && out[pos].start <= v.start
            invariant
                pos <= out@.len(),
                forall|j: int| 0 <= j < pos ==> (#[trigger] out@[j]).start <= v.start,
            decreases out@.len() - pos,
        {
            pos += 1;
        }
        let ghost old_out = out@;
        out.insert(pos, v);
        proof {
            old_out.insert_ensures(pos as int, v);
            assert(sorted_by_start(out@)) by {
                assert forall|i: int, j: int|
                    #![trigger out@[i], out@[j]]
                    0 <= i < j < out@.len() implies out@[i].start <= out@[j].start by {
                    if j < pos {
                        assert(out@[i] == old_out[i] && out@[j] == old_out[j]);
                    } else if j == pos {
                        if i < pos {
                            assert(out@[i] == old_out[i]);
                        }
                    } else {
                        assert(out@[j] == old_out[j - 1]);
                        assert(old_out[j - 1].start > v.start || (pos as int) == old_out.len());
                        if (pos as int) < old_out.len() {
                            assert(old_out[pos as int].start > v.start);
                        }
                        if i < pos {
                            assert(out@[i] == old_out[i]);
                        } else if i == pos {
                            assert(out@[i] == v);
                        } else {
                            assert(out@[i] == old_out[i - 1]);
                        }
                    }
                }
            }
            assert(input@.contains(v)) by {
                assert(input@[idx as int] == v);
            }
            assert forall|k: int| 0 <= k < out@.len() implies input@.contains(
                #[trigger] out@[k],
            ) by {
                if k < pos {
                    assert(out@[k] == old_out[k]);
                } else if k == pos {
                    assert(out@[k] == v);
                } else {
                    assert(out@[k] == old_out[k - 1]);
                }
            }
            assert(input@.subrange(0, idx as int + 1).drop_last() =~= input@.subrange(
                0,
                idx as int,
            ));
            assert forall|x: int| #![trigger in_ranges(out@, x)]
                in_ranges(out@, x) <==> in_ranges(
                input@.subrange(0, idx as int + 1),
                x,
            ) by {
                lemma_in_ranges_insert(old_out, pos as int, v, x);
                lemma_in_ranges_unsnoc(input@.subrange(0, idx as int + 1), x);
                assert(input@.subrange(0, idx as int + 1).last() == v);
            }
        }
        idx += 1;
    }
    proof {
        assert(input@.subrange(0, n as int) =~= input@);
    }
    out
}

/// Merges a collection of well-formed inclusive ranges into the minimal
/// ascending sequence of disjoint, non-touching ranges covering exactly the
/// same values. Ranges that overlap or merely touch are fused; the empty
/// input yields the empty output.
pub fn merge_ranges(input: &Vec<Range>) -> (out: Vec<Range>)
    requires
        ranges_wf(input@),
    ensures
        is_merge_of(input@, out@),
{
    let sorted = sort_by_start(input);
    proof {
        assert forall|k: int| 0 <= k < sorted@.len() implies range_wf(#[trigger] sorted@[k]) by {
            let m = choose|m: int| 0 <= m < input@.len() && input@[m] == sorted@[k];
        }
    }
    let n = sorted.len();
    let mut out: Vec<Range> = Vec::new();
    let mut idx: usize = 0;
    while idx < n
        invariant
            n == sorted@.len(),
            idx <= n,
            sorted_by_start(sorted@),
            ranges_wf(sorted@),
            merged(out@),
            out@.len() > 0 ==> idx > 0,
            out@.len() > 0 && idx < n ==> out@.last().start <= sorted@[idx as int].start,
            forall|x: int|
                #![trigger in_ranges(out@, x)]
                in_ranges(out@, x) <==> in_ranges(sorted@.subrange(0, idx as int), x),
        decreases n - idx,
    {
        let r = sorted[idx];
        let ghost pre = out@;
        proof {
            assert(sorted@.subrange(0, idx as int + 1).drop_last() =~= sorted@.subrange(
                0,
                idx as int,
            ));
            assert(sorted@.subrange(0, idx as int + 1).last() == sorted@[idx as int]);
        }
        if out.len() == 0 {
            out.push(r);
            proof {
                assert forall|x: int| #![trigger in_ranges(out@, x)]
                    in_ranges(out@, x) <==> in_ranges(
                    sorted@.subrange(0, idx as int + 1),
                    x,
                ) by {
                    lemma_in_ranges_push(pre, r, x);
                    lemma_in_ranges_unsnoc(sorted@.subrange(0, idx as int + 1), x);
                }
            }
        } else {
            let last = out[out.len() - 1];
            proof {
                assert(last == pre.last());
                assert(range_wf(last));
            }
            if r.start <= last.end || r.start == last.end + 1 {
                // Overlapping or touching: widen the previous range.
                let fused = Range {
                    start: last.start,
                    end: if r.end > last.end {
                        r.end
                    } else {
                        last.end
                    },
                };
                out.pop();
                out.push(fused);
                proof {
                    assert(out@ =~= pre.drop_last().push(fused));
                    assert(merged(out@)) by {
                        assert forall|i: int|
                            0 <= i < out@.len() - 1 implies (#[trigger] out@[i]).end + 1
                            < out@[i + 1].start by {
                            assert(out@[i] == pre[i]);
                            assert(pre[i].end + 1 < pre[i + 1].start);
                            if i + 1 < out@.len() - 1 {
                                assert(out@[i + 1] == pre[i + 1]);
                            } else {
                                assert(out@[i + 1] == fused);
                            }
                        }
                        assert forall|i: int| 0 <= i < out@.len() implies range_wf(
                            #[trigger] out@[i],
                        ) by {
                            if i < out@.len() - 1 {
                                assert(out@[i] == pre[i]);
                            }
                        }
                    }
                    assert forall|x: int| #![trigger in_ranges(out@, x)]
                        in_ranges(out@, x) <==> in_ranges(
                        sorted@.subrange(0, idx as int + 1),
                        x,
                    ) by {
                        lemma_in_ranges_push(pre.drop_last(), fused, x);
                        lemma_in_ranges_unsnoc(pre, x);
                        lemma_in_ranges_unsnoc(sorted@.subrange(0, idx as int + 1), x);
                        assert(covers(fused, x) <==> (covers(last, x) || covers(r, x)));
                    }
                }
            } else {
                // A strict gap: start a new output range.
                out.push(r);
                proof {
                    assert(merged(out@)) by {
                        assert forall|i: int|
                            0 <= i < out@.len() - 1 implies (#[trigger] out@[i]).end + 1
                            < out@[i + 1].start by {
                            assert(out@[i] == pre[i]);
                            if i < out@.len() - 2 {
                                assert(out@[i + 1] == pre[i + 1]);
                            } else {
                                assert(out@[i + 1] == r);
                                if i < pre.len() - 1 {
                                    lemma_merged_gap(pre, i, pre.len() - 1);
                                }
                            }
                        }
                        assert forall|i: int| 0 <= i < out@.len() implies range_wf(
                            #[trigger] out@[i],
                        ) by {
                            if i < out@.len() - 1 {
                                assert(out@[i] == pre[i]);
                            }
                        }
                    }
                    assert forall|x: int| #![trigger in_ranges(out@, x)]
                        in_ranges(out@, x) <==> in_ranges(
                        sorted@.subrange(0, idx as int + 1),
                        x,
                    ) by {
                        lemma_in_ranges_push(pre, r, x);
                        lemma_in_ranges_unsnoc(sorted@.subrange(0, idx as int + 1), x);
                    }
                }
            }
        }
        idx += 1;
    }
    proof {
        assert(sorted@.subrange(0, n as int) =~= sorted@);
    }
    out
}

/// Two fully merged sequences covering the same values are the same
/// sequence: the merged form of a union is unique.
#[verifier::rlimit(30)]
pub proof fn lemma_merged_unique(a: Seq<Range>, b: Seq<Range>)
    requires
        merged(a),
        merged(b),
        forall|x: int|
            #![trigger in_ranges(a, x)]
            #![trigger in_ranges(b, x)]
            in_ranges(a, x) <==> in_ranges(b, x),
    ensures
        a == b,
    decreases a.len(),
{
    if a.len() == 0 {
        if b.len() > 0 {
            assert(covers(b[0], b[0].start as int));
            assert(in_ranges(b, b[0].start as int));
            assert(false);
        }
        assert(a =~= b);
    } else if b.len() == 0 {
        assert(covers(a[0], a[0].start as int));
        assert(in_ranges(a, a[0].start as int));
        assert(false);
    } else {
        lemma_merged_head_start(a, b);
        lemma_merged_head_start(b, a);
        lemma_merged_head_end(a, b);
        lemma_merged_head_end(b, a);
        assert(a[0] == b[0]);
        let at = a.drop_first();
        let bt = b.drop_first();
        lemma_merged_tail(a);
        lemma_merged_tail(b);
        lemma_tail_same_union(a, b);
        lemma_merged_unique(at, bt);
        assert forall|i: int| 0 <= i < a.len() implies a[i] == b[i] by {
            if i > 0 {
                assert(at[i - 1] == a[i]);
                assert(bt[i - 1] == b[i]);
            }
        }
        assert(a =~= b);
    }
}

/// With equal heads and equal unions, the unions of the tails agree: any
/// value covered by a tail lies strictly beyond the shared first range.
proof fn lemma_tail_same_union(a: Seq<Range>, b: Seq<Range>)
    requires
        merged(a),
        merged(b),
        a.len() > 0,
        b.len() > 0,
        a[0] == b[0],
        forall|x: int|
            #![trigger in_ranges(a, x)]
            #![trigger in_ranges(b, x)]
            in_ranges(a, x) <==> in_ranges(b, x),
    ensures
        forall|x: int|
            #![trigger in_ranges(a.drop_first(), x)]
            #![trigger in_ranges(b.drop_first(), x)]
            in_ranges(a.drop_first(), x) <==> in_ranges(b.drop_first(), x),
{
    let at = a.drop_first();
    let bt = b.drop_first();
    assert forall|x: int|
        #![trigger in_ranges(at, x)]
        #![trigger in_ranges(bt, x)]
        in_ranges(at, x) <==> in_ranges(bt, x) by {
        if in_ranges(at, x) {
            lemma_tail_beyond_head(a, b, x);
        }
        if in_ranges(bt, x) {
            lemma_tail_beyond_head(b, a, x);
        }
    }
}

/// A value in the union of `a`'s tail lies in the union of `b`'s tail.
proof fn lemma_tail_beyond_head(a: Seq<Range>, b: Seq<Range>, x: int)
    requires
        merged(a),
        merged(b),
        a.len() > 0,
        b.len() > 0,
        a[0] == b[0],
        in_ranges(a.drop_first(), x),
        forall|y: int|
            #![trigger in_ranges(a, y)]
            #![trigger in_ranges(b, y)]
            in_ranges(a, y) <==> in_ranges(b, y),
    ensures
        in_ranges(b.drop_first(), x),
{
    let at = a.drop_first();
    let i = choose|i: int| 0 <= i < at.len() && covers(#[trigger] at[i], x);
    assert(at[i] == a[i + 1]);
    lemma_merged_gap(a, 0, i + 1);
    assert(x > a[0].end);
    lemma_tail_union(a, x);
    assert(in_ranges(a, x));
    assert(in_ranges(b, x));
    lemma_tail_union(b, x);
    assert(!covers(b[0], x));
}

proof fn lemma_merged_tail(a: Seq<Range>)
    requires
        merged(a),
        a.len() > 0,
    ensures
        merged(a.drop_first()),
{
    let t = a.drop_first();
    assert forall|i: int| 0 <= i < t.len() implies range_wf(#[trigger] t[i]) by {
        assert(t[i] == a[i + 1]);
    }
    assert forall|i: int| 0 <= i < t.len() - 1 implies (#[trigger] t[i]).end + 1 < t[i
        + 1].start by {
        assert(t[i] == a[i + 1]);
        assert(t[i + 1] == a[i + 2]);
    }
}

/// Membership in the union of a merged sequence splits between the first
/// range and the rest.
proof fn lemma_tail_union(a: Seq<Range>, x: int)
    requires
        a.len() > 0,
    ensures
        in_ranges(a, x) <==> (covers(a[0], x) || in_ranges(a.drop_first(), x)),
{
    let t = a.drop_first();
    if in_ranges(a, x) {
        let i = choose|i: int| 0 <= i < a.len() && covers(#[trigger] a[i], x);
        if i > 0 {
            assert(t[i - 1] == a[i]);
            assert(in_ranges(t, x));
        }
    }
    if covers(a[0], x) {
        assert(in_ranges(a, x));
    }
    if in_ranges(t, x) {
        let i = choose|i: int| 0 <= i < t.len() && covers(#[trigger] t[i], x);
        assert(t[i] == a[i + 1]);
        assert(in_ranges(a, x));
    }
}

/// With equal unions, `b`'s first range starts no earlier than `a`'s: its
/// start lies in `a`'s union, and that union has no value below `a[0].start`.
proof fn lemma_merged_head_start(a: Seq<Range>, b: Seq<Range>)
    requires
        merged(a),
        merged(b),
        a.len() > 0,
        b.len() > 0,
        forall|x: int|
            #![trigger in_ranges(a, x)]
            #![trigger in_ranges(b, x)]
            in_ranges(a, x) <==> in_ranges(b, x),
    ensures
        b[0].start >= a[0].start,
{
    assert(covers(b[0], b[0].start as int));
    assert(in_ranges(b, b[0].start as int));
    assert(in_ranges(a, b[0].start as int));
    let i = choose|i: int| 0 <= i < a.len() && covers(#[trigger] a[i], b[0].start as int);
    if i > 0 {
        lemma_merged_gap(a, 0, i);
    }
}

/// With equal unions and equal first starts, `b`'s first range ends no later
/// than `a`'s: otherwise the value just past `a[0]` would lie in `b`'s union
/// but fall into the gap after `a[0]`.
proof fn lemma_merged_head_end(a: Seq<Range>, b: Seq<Range>)
    requires
        merged(a),
        merged(b),
        a.len() > 0,
        b.len() > 0,
        a[0].start == b[0].start,
        forall|x: int|
            #![trigger in_ranges(a, x)]
            #![trigger in_ranges(b, x)]
            in_ranges(a, x) <==> in_ranges(b, x),
    ensures
        b[0].end <= a[0].end,
{
    if b[0].end > a[0].end {
        let y = a[0].end + 1;
        assert(range_wf(a[0]));
        assert(covers(b[0], y));
        assert(in_ranges(b, y));
        assert(in_ranges(a, y));
        let j = choose|j: int| 0 <= j < a.len() && covers(#[trigger] a[j], y);
        if j > 0 {
            lemma_merged_gap(a, 0, j);
        }
        assert(false);
    }
}

/// Merging is idempotent: merging an already-merged sequence changes
/// nothing, so the merged form of the merged form of any input is the
/// merged form itself.
pub proof fn lemma_merge_idempotent(input: Seq<Range>, once: Seq<Range>, twice: Seq<Range>)
    requires
        is_merge_of(input, once),
        is_merge_of(once, twice),
    ensures
        twice == once,
{
    lemma_merged_unique(once, twice);
}

/// A range selector as it arrives from the command line: left open, the
/// explicit request for everything, or a custom merged list of ranges.
#[derive(Debug, Clone, PartialEq, Eq)]
pub enum SimpleRanges {
    Unspecified,
    All,
    Custom(Vec<Range>),
}

impl SimpleRanges {
    /// The selector's name, as shown in help output.
    pub fn label(&self) -> (r: &'static str)
        ensures
            self is Unspecified ==> r@ == "Unspecified"@,
            self is All ==> r@ == "All"@,
            self is Custom ==> r@ == "Custom"@,
    {
        match self {
            SimpleRanges::Unspecified => "Unspecified",
            SimpleRanges::All => "All",
            SimpleRanges::Custom(_) => "Custom",
        }
    }
}

/// Why a range list failed to parse; each variant carries the offending
/// text.
#[derive(Debug, Clone, PartialEq, Eq)]
pub enum RangeParseError {
    /// A lone token that is not a plain integer within bounds.
    BadInteger { token: String },
    /// The part before the dash is not a plain integer within bounds.
    BadRangeStart { number: String, token: String },
    /// The part after the dash is not a plain integer within bounds.
    BadRangeEnd { number: String, token: String },
    /// Both bounds parse but the start exceeds the end.
    StartAfterEnd { token: String },
}

impl RangeParseError {
    /// Renders the error, naming the offending substring.
    pub fn message(&self) -> (r: String)
        ensures
            match self {
                RangeParseError::BadInteger { token } => r@ == "failed to parse \""@ + token@
                    + "\" as integer"@,
                RangeParseError::BadRangeStart { number, token } => r@ == "failed to parse \""@
                    + number@ + "\" as integer in range \""@ + token@ + "\""@,
                RangeParseError::BadRangeEnd { number, token } => r@ == "failed to parse \""@
                    + number@ + "\" as integer in range \""@ + token@ + "\""@,
                RangeParseError::StartAfterEnd { token } => r@
                    == "range start cannot be bigger than range end: \""@ + token@ + "\""@,
            },
    {
        let mut m = String::new();
        match self {
            RangeParseError::BadInteger { token } => {
                m.append("failed to parse \"");
                m.append(token.as_str());
                m.append("\" as integer");
            },
            RangeParseError::BadRangeStart { number, token } => {
                m.append("failed to parse \"");
                m.append(number.as_str());
                m.append("\" as integer in range \"");
                m.append(token.as_str());
                m.append("\"");
            },
            RangeParseError::BadRangeEnd { number, token } => {
                m.append("failed to parse \"");
                m.append(number.as_str());
                m.append("\" as integer in range \"");
                m.append(token.as_str());
                m.append("\"");
            },
            RangeParseError::StartAfterEnd { token } => {
                m.append("range start cannot be bigger than range end: \"");
                m.append(token.as_str());
                m.append("\"");
            },
        }
        m
    }
}

/// `s` split at every comma; the empty text yields one empty token.
pub open spec fn split_commas(s: Seq<char>) -> Seq<Seq<char>>
    decreases s.len(),
{
    if s.len() == 0 {
        seq![Seq::<char>::empty()]
    } else if s.last() == ',' {
        split_commas(s.drop_last()).push(Seq::<char>::empty())
    } else {
        let t = split_commas(s.drop_last());
        t.update(t.len() - 1, t.last().push(s.last()))
    }
}

proof fn lemma_split_commas_len(s: Seq<char>)
    ensures
        split_commas(s).len() >= 1,
    decreases s.len(),
{
    if s.len() > 0 {
        lemma_split_commas_len(s.drop_last());
    }
}

/// Tokens completed before a comma are untouched by whatever follows it.
proof fn lemma_split_commas_prefix(s: Seq<char>, i: int)
    requires
        0 <= i < s.len(),
        s[i] == ',',
    ensures
        split_commas(s).len() > split_commas(s.subrange(0, i)).len(),
        forall|j: int|
            0 <= j <= split_commas(s.subrange(0, i)).len() - 1 ==> #[trigger] split_commas(s)[j]
                == split_commas(s.subrange(0, i)).push(Seq::<char>::empty())[j],
    decreases s.len(),
{
    let p = s.subrange(0, i);
    let t = split_commas(p);
    lemma_split_commas_len(p);
    if i == s.len() - 1 {
        assert(s.drop_last() =~= p);
    } else {
        let d = s.drop_last();
        assert(d.subrange(0, i) =~= p);
        lemma_split_commas_prefix(d, i);
        let f = split_commas(d);
        lemma_split_commas_len(d);
        if s.last() == ',' {
            assert forall|j: int| 0 <= j <= t.len() - 1 implies #[trigger] split_commas(s)[j]
                == t.push(Seq::<char>::empty())[j] by {
                assert(split_commas(s)[j] == f[j]);
            }
        } else {
            assert(split_commas(s) == f.update(f.len() - 1, f.last().push(s.last())));
            assert forall|j: int| 0 <= j <= t.len() - 1 implies #[trigger] split_commas(s)[j]
                == t.push(Seq::<char>::empty())[j] by {
                assert(j < f.len() - 1);
                assert(split_commas(s)[j] == f[j]);
            }
        }
    }
}

/// The range a single token denotes: a lone bounded integer `n` denotes
/// `[n, n]`, and `a-b` with `a <= b` denotes `[a, b]`; anything else is
/// rejected.
pub open spec fn token_range(t: Seq<char>) -> Option<Range> {
    let d = text::find_char(t, '-');
    if d < 0 {
        if text::valid_number(t, MAX_RANGE_VALUE as int) {
            Some(
                Range {
                    start: text::digits_val(t) as u32,
                    end: text::digits_val(t) as u32,
                },
            )
        } else {
            None
        }
    } else {
        let a = t.subrange(0, d);
        let b = t.subrange(d + 1, t.len() as int);
        if text::valid_number(a, MAX_RANGE_VALUE as int) && text::valid_number(
            b,
            MAX_RANGE_VALUE as int,
        ) && text::digits_val(a) <= text::digits_val(b) {
            Some(Range { start: text::digits_val(a) as u32, end: text::digits_val(b) as u32 })
        } else {
            None
        }
    }
}

/// The error reported for a token that `token_range` rejects names the
/// offending substring and distinguishes the failing part.
pub open spec fn error_for_token(e: RangeParseError, t: Seq<char>) -> bool {
    let d = text::find_char(t, '-');
    if d < 0 {
        e matches RangeParseError::BadInteger { token } && token@ == t
    } else {
        let a = t.subrange(0, d);
        let b = t.subrange(d + 1, t.len() as int);
        if !text::valid_number(a, MAX_RANGE_VALUE as int) {
            e matches RangeParseError::BadRangeStart { number, token } && number@ == a && token@
                == t
        } else if !text::valid_number(b, MAX_RANGE_VALUE as int) {
            e matches RangeParseError::BadRangeEnd { number, token } && number@ == b && token@ == t
        } else {
            e matches RangeParseError::StartAfterEnd { token } && token@ == t
        }
    }
}

fn parse_range_token(tok: &str) -> (r: Result<Range, RangeParseError>)
    ensures
        match r {
            Ok(rg) => token_range(tok@) == Some(rg),
            Err(e) => token_range(tok@) is None && error_for_token(e, tok@),
        },
{
    match text::find_char_in(tok, '-') {
        None => {
            match text::parse_decimal(tok, MAX_RANGE_VALUE) {
                Some(v) => Ok(Range { start: v, end: v }),
                None => Err(RangeParseError::BadInteger { token: tok.to_owned() }),
            }
        },
        Some(d) => {
            proof {
                text::lemma_find_char(tok@, '-');
            }
            let len = tok.unicode_len();
            let a = tok.substring_char(0, d);
            let b = tok.substring_char(d + 1, len);
            match text::parse_decimal(a, MAX_RANGE_VALUE) {
                None => Err(
                    RangeParseError::BadRangeStart { number: a.to_owned(), token: tok.to_owned() },
                ),
                Some(av) => {
                    match text::parse_decimal(b, MAX_RANGE_VALUE) {
                        None => Err(
                            RangeParseError::BadRangeEnd {
                                number: b.to_owned(),
                                token: tok.to_owned(),
                            },
                        ),
                        Some(bv) => {
                            if av > bv {
                                Err(RangeParseError::StartAfterEnd { token: tok.to_owned() })
                            } else {
                                Ok(Range { start: av, end: bv })
                            }
                        },
                    }
                },
            }
        },
    }
}

/// Every token of `ts` denotes a range.
pub open spec fn all_tokens_ok(ts: Seq<Seq<char>>) -> bool {
    forall|i: int| 0 <= i < ts.len() ==> token_range(#[trigger] ts[i]) is Some
}

/// The ranges denoted by the tokens of `ts`, in order.
pub open spec fn raw_ranges(ts: Seq<Seq<char>>) -> Seq<Range> {
    Seq::new(ts.len(), |i: int| token_range(ts[i]).unwrap())
}

/// Parses a range-selector text: the keywords `unspecified` and `all`
/// (ASCII-case-insensitively) map to the matching selector; anything else
/// is read, after removing spaces, as a comma-separated list of integers
/// and `a-b` ranges, which is merged into a custom selector. Parsing stops
/// at the first malformed token, whose text the error names.
pub fn parse_ranges(input: &str) -> (r: Result<SimpleRanges, RangeParseError>)
    ensures
        ({
            let toks = split_commas(text::drop_spaces(input@));
            &&& text::eq_nocase(input@, "unspecified"@) ==> r == Ok::<
                SimpleRanges,
                RangeParseError,
            >(SimpleRanges::Unspecified)
            &&& !text::eq_nocase(input@, "unspecified"@) && text::eq_nocase(input@, "all"@) ==> r
                == Ok::<SimpleRanges, RangeParseError>(SimpleRanges::All)
            &&& !text::eq_nocase(input@, "unspecified"@) && !text::eq_nocase(input@, "all"@)
                ==> match r {
                Ok(SimpleRanges::Custom(v)) => all_tokens_ok(toks) && is_merge_of(
                    raw_ranges(toks),
                    v@,
                ),
                Ok(_) => false,
                Err(e) => exists|k: int|
                    0 <= k < toks.len() && token_range(#[trigger] toks[k]) is None && (forall|
                        j: int,
                    |
                        0 <= j < k ==> token_range(#[trigger] toks[j]) is Some) && error_for_token(
                        e,
                        toks[k],
                    ),
            }
        }),
{
    if text::eq_ignore_ascii_case(input, "unspecified") {
        return Ok(SimpleRanges::Unspecified);
    }
    if text::eq_ignore_ascii_case(input, "all") {
        return Ok(SimpleRanges::All);
    }
    let stripped = text::remove_spaces(input);
    let sref = stripped.as_str();
    let n = sref.unicode_len();
    let ghost full = sref@;
    let ghost toks = split_commas(full);
    let mut raw: Vec<Range> = Vec::new();
    let mut tok_start: usize = 0;
    let ghost mut done: Seq<Seq<char>> = Seq::empty();
    let mut i: usize = 0;
    proof {
        assert(full.subrange(0, 0) =~= Seq::<char>::empty());
        assert(Seq::<Seq<char>>::empty().push(Seq::<char>::empty()) =~= seq![
            Seq::<char>::empty(),
        ]);
        assert(split_commas(full.subrange(0, 0)) == done.push(full.subrange(0, 0)));
    }
    while i < n
        invariant
            n == full.len(),
            full == sref@,
            sref@ == stripped@,
            stripped@ == text::drop_spaces(input@),
            !text::eq_nocase(input@, "unspecified"@),
            !text::eq_nocase(input@, "all"@),
            toks == split_commas(full),
            tok_start <= i <= n,
            split_commas(full.subrange(0, i as int)) == done.push(
                full.subrange(tok_start as int, i as int),
            ),
            raw@.len() == done.len(),
            forall|j: int| 0 <= j < done.len() ==> token_range(#[trigger] done[j]) == Some(
                raw@[j],
            ),
        decreases n - i,
    {
        let c = sref.get_char(i);
        proof {
            assert(full.subrange(0, i as int + 1).drop_last() =~= full.subrange(0, i as int));
        }
        if c == ',' {
            let tok = sref.substring_char(tok_start, i);
            let ghost cur = full.subrange(tok_start as int, i as int);
            match parse_range_token(tok) {
                Ok(rg) => {
                    raw.push(rg);
                    proof {
                        done = done.push(cur);
                        assert(full.subrange(0, i as int + 1).last() == ',');
                        assert(split_commas(full.subrange(0, i as int + 1)) == done.push(
                            Seq::<char>::empty(),
                        ));
                        assert(full.subrange(i as int + 1, i as int + 1) =~= Seq::<char>::empty());
                    }
                },
                Err(e) => {
                    proof {
                        lemma_split_commas_prefix(full, i as int);
                        let p = split_commas(full.subrange(0, i as int));
                        assert(toks[done.len() as int] == p.push(Seq::<char>::empty())[done.len() as int]);
                        assert(toks[done.len() as int] == cur);
                        assert forall|j: int| 0 <= j < done.len() implies token_range(
                            #[trigger] toks[j],
                        ) is Some by {
                            assert(toks[j] == p.push(Seq::<char>::empty())[j]);
                            assert(toks[j] == done[j]);
                        }
                        let k = done.len() as int;
                        assert(token_range(toks[k]) is None);
                        assert(error_for_token(e, toks[k]));
                        assert(exists|k: int|
                            0 <= k < toks.len() && token_range(#[trigger] toks[k]) is None && (
                            forall|j: int| 0 <= j < k ==> token_range(#[trigger] toks[j]) is Some)
                                && error_for_token(e, toks[k]));
                    }
                    return Err(e);
                },
            }
            tok_start = i + 1;
        } else {
            proof {
                let t = split_commas(full.subrange(0, i as int));
                let cur0 = full.subrange(tok_start as int, i as int);
                assert(t == done.push(cur0));
                assert(t.last() == cur0);
                assert(full.subrange(0, i as int + 1).last() == full[i as int]);
                assert(t.update(t.len() - 1, cur0.push(full[i as int])) =~= done.push(
                    cur0.push(full[i as int]),
                ));
                assert(cur0.push(full[i as int]) =~= full.subrange(
                    tok_start as int,
                    i as int + 1,
                ));
                assert(split_commas(full.subrange(0, i as int + 1)) == done.push(
                    full.subrange(tok_start as int, i as int + 1),
                ));
            }
        }
        i += 1;
    }
    proof {
        assert(full.subrange(0, n as int) =~= full);
    }
    let tok = sref.substring_char(tok_start, n);
    let ghost cur = full.subrange(tok_start as int, n as int);
    match parse_range_token(tok) {
        Ok(rg) => {
            raw.push(rg);
            proof {
                done = done.push(cur);
                assert(toks == done);
            }
        },
        Err(e) => {
            proof {
                assert(toks == done.push(cur));
                assert(toks[done.len() as int] == cur);
                assert forall|j: int| 0 <= j < done.len() implies token_range(
                    #[trigger] toks[j],
                ) is Some by {
                    assert(toks[j] == done[j]);
                }
                let k = done.len() as int;
                assert(token_range(toks[k]) is None);
                assert(error_for_token(e, toks[k]));
                assert(exists|k: int|
                    0 <= k < toks.len() && token_range(#[trigger] toks[k]) is None && (forall|
                        j: int,
                    |
                        0 <= j < k ==> token_range(#[trigger] toks[j]) is Some) && error_for_token(
                        e,
                        toks[k],
                    ));
            }
            return Err(e);
        },
    }
    proof {
        assert forall|j: int| 0 <= j < raw@.len() implies range_wf(#[trigger] raw@[j]) by {
            assert(token_range(done[j]) == Some(raw@[j]));
            let t = done[j];
            let d = text::find_char(t, '-');
            if d < 0 {
                text::lemma_digits_val_nonneg(t);
            } else {
                text::lemma_digits_val_nonneg(t.subrange(0, d));
                text::lemma_digits_val_nonneg(t.subrange(d + 1, t.len() as int));
            }
        }
        assert(raw_ranges(toks) =~= raw@) by {
            assert forall|j: int| 0 <= j < toks.len() implies raw_ranges(toks)[j] == raw@[j] by {
                assert(token_range(done[j]) == Some(raw@[j]));
            }
        }
        assert(all_tokens_ok(toks)) by {
            assert forall|j: int| 0 <= j < toks.len() implies token_range(
                #[trigger] toks[j],
            ) is Some by {
                assert(toks[j] == done[j]);
            }
        }
    }
    let out = merge_ranges(&raw);
    Ok(SimpleRanges::Custom(out))
}

} // verus!
