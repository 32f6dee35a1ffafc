//! A minimum-cost, syllable-bound edit script between a canonical
//! sequence of source syllables and an arbitrary input string.
//!
//! Every operation but `Delete` is bound to exactly one whole source
//! syllable, so the alignment can never match part of a syllable.  The
//! cost of an operation is one plus the number of characters it
//! touches; `Same` is free.  Ties are broken in favour of `Change`,
//! then `Delete`, then `Insert`, and among equal-cost spans the
//! shortest one wins.

use vstd::prelude::*;

use crate::chars::chars_of;
use crate::chars::is_prefix_from;
use crate::chars::string_from_chars;
use crate::chars::sub_chars;
use crate::split::entries_view;

verus! {

/// An element in a diff between a source and an input, where the
/// source is canonical and the diff transforms the input into the
/// source.
#[derive(Debug, Clone, PartialEq)]
pub enum Diff {
    /// Text common to input and source: advance both.
    Same(String),
    /// Input text with no correspondence in the source: delete it.
    Delete(String),
    /// A source syllable missing from the input: insert it.
    Insert(String),
    /// Input text (first) standing in the place of a source syllable
    /// (second): delete the first and insert the second.
    Change(String, String),
}

/// The specification-level value of a [`Diff`] entry.
pub enum DiffV {
    Same(Seq<char>),
    Delete(Seq<char>),
    Insert(Seq<char>),
    Change(Seq<char>, Seq<char>),
}

impl View for Diff {
    type V = DiffV;

    open spec fn view(&self) -> DiffV {
        match self {
            Diff::Same(t) => DiffV::Same(t@),
            Diff::Delete(t) => DiffV::Delete(t@),
            Diff::Insert(t) => DiffV::Insert(t@),
            Diff::Change(t, s) => DiffV::Change(t@, s@),
        }
    }
}

impl DeepView for Diff {
    type V = DiffV;

    open spec fn deep_view(&self) -> DiffV {
        self.view()
    }
}

/// The decision recorded for one state of the alignment search.
pub enum Choice {
    /// Source and input both exhausted.
    End,
    /// The current syllable is a literal prefix of the leftover input.
    Same,
    /// Insert the current syllable.
    Ins,
    /// Delete this many input characters.
    Del(int),
    /// Replace this many input characters by the current syllable.
    Rep(int),
}

/// The total number of characters of a syllable sequence.
pub open spec fn sum_lens(s: Seq<Seq<char>>) -> nat
    decreases s.len(),
{
    if s.len() == 0 {
        0
    } else {
        s[0].len() + sum_lens(s.drop_first())
    }
}

/// Whether the syllable stands literally at position `b` of the input.
pub open spec fn is_lit_at(syl: Seq<char>, inp: Seq<char>, b: int) -> bool {
    b + syl.len() <= inp.len() && inp.subrange(b, b + syl.len()) == syl
}

/// The optimal decision and its cost for the state with `a` source
/// syllables and `b` input characters consumed.
///
/// The recurrence follows the cost model exactly: a forced `Same` on a
/// literal prefix match, otherwise the minimum over inserting the
/// syllable, deleting `k` characters, or changing `k` characters into
/// the syllable, with `Change` preferred over `Delete` over `Insert`
/// on equal cost, and the shortest span preferred among equal spans.
pub open spec fn d_state(src: Seq<Seq<char>>, inp: Seq<char>, a: int, b: int) -> (Choice, int)
    decreases src.len() - a + inp.len() - b, inp.len() - b + 2, 0int,
        when 0 <= a <= src.len() && 0 <= b <= inp.len()
    via d_state_decreases
{
    if a >= src.len() && b >= inp.len() {
        (Choice::End, 0)
    } else if a >= src.len() {
        (Choice::Del(inp.len() - b), inp.len() - b + 1)
    } else if b >= inp.len() {
        (Choice::Ins, sum_lens(src.skip(a)) + src.len() - a)
    } else if is_lit_at(src[a], inp, b) {
        (Choice::Same, d_cost(src, inp, a + 1, b + src[a].len()))
    } else {
        let a_len = src[a].len() as int;
        let ins = d_cost(src, inp, a + 1, b) + a_len + 1;
        let del = del_pre(src, inp, a, b, inp.len() - b);
        let rep = rep_pre(src, inp, a, b, inp.len() - b);
        let delc = del.1 + 1;
        let repc = rep.1 + a_len + 1;
        if ins < delc {
            if ins < repc {
                (Choice::Ins, ins)
            } else {
                (Choice::Rep(rep.0), repc)
            }
        } else {
            if delc < repc {
                (Choice::Del(del.0), delc)
            } else {
                (Choice::Rep(rep.0), repc)
            }
        }
    }
}

/// The cost of the optimal alignment from state `(a, b)` on.
pub open spec fn d_cost(src: Seq<Seq<char>>, inp: Seq<char>, a: int, b: int) -> int
    decreases src.len() - a + inp.len() - b, inp.len() - b + 3, 0int,
        when 0 <= a <= src.len() && 0 <= b <= inp.len()
{
    d_state(src, inp, a, b).1
}

/// The best deletion over spans `1..=k`: the span deleted and the cost
/// of the remaining alignment plus the span, shortest span first on
/// ties.
pub open spec fn del_pre(src: Seq<Seq<char>>, inp: Seq<char>, a: int, b: int, k: int) -> (
    int,
    int,
)
    decreases src.len() - a + inp.len() - b, k, 1int,
        when 0 <= a <= src.len() && 0 <= b && 1 <= k && b + k <= inp.len()
{
    if k <= 1 {
        (1, d_cost(src, inp, a, b + 1) + 1)
    } else {
        let prev = del_pre(src, inp, a, b, k - 1);
        let cur = d_cost(src, inp, a, b + k) + k;
        if cur < prev.1 {
            (k, cur)
        } else {
            prev
        }
    }
}

/// The best change over spans `1..=k`: the span replaced and the cost
/// of the remaining alignment plus the span, shortest span first on
/// ties.  The constant cost of the inserted syllable is added by the
/// caller.
pub open spec fn rep_pre(src: Seq<Seq<char>>, inp: Seq<char>, a: int, b: int, k: int) -> (
    int,
    int,
)
    decreases src.len() - a + inp.len() - b, k, 1int,
        when 0 <= a < src.len() && 0 <= b && 1 <= k && b + k <= inp.len()
{
    if k <= 1 {
        (1, d_cost(src, inp, a + 1, b + 1) + 1)
    } else {
        let prev = rep_pre(src, inp, a, b, k - 1);
        let cur = d_cost(src, inp, a + 1, b + k) + k;
        if cur < prev.1 {
            (k, cur)
        } else {
            prev
        }
    }
}

#[via_fn]
proof fn d_state_decreases(src: Seq<Seq<char>>, inp: Seq<char>, a: int, b: int) {
}

/// The span chosen by [`del_pre`] lies in `1..=k`.
proof fn lemma_del_pre_span(src: Seq<Seq<char>>, inp: Seq<char>, a: int, b: int, k: int)
    requires
        0 <= a <= src.len(),
        0 <= b,
        1 <= k,
        b + k <= inp.len(),
    ensures
        1 <= del_pre(src, inp, a, b, k).0 <= k,
    decreases k,
{
    if k > 1 {
        lemma_del_pre_span(src, inp, a, b, k - 1);
    }
}

/// The span chosen by [`rep_pre`] lies in `1..=k`.
proof fn lemma_rep_pre_span(src: Seq<Seq<char>>, inp: Seq<char>, a: int, b: int, k: int)
    requires
        0 <= a < src.len(),
        0 <= b,
        1 <= k,
        b + k <= inp.len(),
    ensures
        1 <= rep_pre(src, inp, a, b, k).0 <= k,
    decreases k,
{
    if k > 1 {
        lemma_rep_pre_span(src, inp, a, b, k - 1);
    }
}

/// What each decision implies about the state it was taken in: `End`
/// only at the very end, `Same` only on a literal match, and spans
/// that stay inside the leftover input.
pub proof fn lemma_choice_wf(src: Seq<Seq<char>>, inp: Seq<char>, a: int, b: int)
    requires
        0 <= a <= src.len(),
        0 <= b <= inp.len(),
    ensures
        match d_state(src, inp, a, b).0 {
            Choice::End => a == src.len() && b == inp.len(),
            Choice::Same => a < src.len() && is_lit_at(src[a], inp, b),
            Choice::Ins => a < src.len(),
            Choice::Del(n) => 1 <= n && b + n <= inp.len(),
            Choice::Rep(n) => a < src.len() && 1 <= n && b + n <= inp.len(),
        },
{
    if a < src.len() && b < inp.len() && !is_lit_at(src[a], inp, b) {
        lemma_del_pre_span(src, inp, a, b, inp.len() - b);
        lemma_rep_pre_span(src, inp, a, b, inp.len() - b);
    }
}

/// The operation sequence reconstructed by walking the recorded
/// decisions from state `(a, b)` to the end.
pub open spec fn spec_ops(src: Seq<Seq<char>>, inp: Seq<char>, a: int, b: int) -> Seq<DiffV>
    decreases src.len() - a + inp.len() - b,
        when 0 <= a <= src.len() && 0 <= b <= inp.len()
    via spec_ops_decreases
{
    match d_state(src, inp, a, b).0 {
        Choice::End => Seq::empty(),
        Choice::Same => seq![DiffV::Same(src[a])] + spec_ops(
            src,
            inp,
            a + 1,
            b + src[a].len(),
        ),
        Choice::Ins => seq![DiffV::Insert(src[a])] + spec_ops(src, inp, a + 1, b),
        Choice::Del(n) => seq![DiffV::Delete(inp.subrange(b, b + n))] + spec_ops(
            src,
            inp,
            a,
            b + n,
        ),
        Choice::Rep(n) => seq![DiffV::Change(inp.subrange(b, b + n), src[a])] + spec_ops(
            src,
            inp,
            a + 1,
            b + n,
        ),
    }
}

#[via_fn]
proof fn spec_ops_decreases(src: Seq<Seq<char>>, inp: Seq<char>, a: int, b: int) {
    lemma_choice_wf(src, inp, a, b);
}

/// The full diff between a source syllable sequence and an input.
pub open spec fn spec_diff(src: Seq<Seq<char>>, inp: Seq<char>) -> Seq<DiffV> {
    spec_ops(src, inp, 0, 0)
}

/// An upper bound for the cost of any state reached from `(a, b)`.
pub open spec fn rem_bound(src: Seq<Seq<char>>, inp: Seq<char>, a: int, b: int) -> int {
    sum_lens(src.skip(a)) + (src.len() - a) + (inp.len() - b) + 1
}

/// Dropping leading syllables never increases the total length.
proof fn lemma_sum_lens_skip(src: Seq<Seq<char>>, a: int)
    requires
        0 <= a <= src.len(),
    ensures
        sum_lens(src.skip(a)) <= sum_lens(src),
    decreases a,
{
    if a > 0 {
        lemma_sum_lens_skip(src.drop_first(), a - 1);
        assert(src.skip(a) =~= src.drop_first().skip(a - 1));
    } else {
        assert(src.skip(0) =~= src);
    }
}

/// Splitting off the first remaining syllable of the tail.
proof fn lemma_sum_lens_step(src: Seq<Seq<char>>, a: int)
    requires
        0 <= a < src.len(),
    ensures
        sum_lens(src.skip(a)) == src[a].len() + sum_lens(src.skip(a + 1)),
{
    assert(src.skip(a).drop_first() =~= src.skip(a + 1));
    assert(src.skip(a)[0] == src[a]);
}

/// Every state's cost is non-negative and at most [`rem_bound`].
pub proof fn lemma_cost_range(src: Seq<Seq<char>>, inp: Seq<char>, a: int, b: int)
    requires
        0 <= a <= src.len(),
        0 <= b <= inp.len(),
    ensures
        0 <= d_cost(src, inp, a, b) <= rem_bound(src, inp, a, b),
    decreases src.len() - a + inp.len() - b, inp.len() - b + 3, 0int,
{
    if a >= src.len() && b >= inp.len() {
    } else if a >= src.len() {
        assert(sum_lens(src.skip(a)) >= 0);
    } else if b >= inp.len() {
        lemma_sum_lens_step(src, a);
    } else if is_lit_at(src[a], inp, b) {
        lemma_cost_range(src, inp, a + 1, b + src[a].len());
        lemma_sum_lens_step(src, a);
    } else {
        lemma_cost_range(src, inp, a + 1, b);
        lemma_sum_lens_step(src, a);
        lemma_del_pre_cost(src, inp, a, b, inp.len() - b);
        lemma_rep_pre_cost(src, inp, a, b, inp.len() - b);
    }
}

/// The running deletion minimum is at least one and its recursion is
/// well-bounded below.
proof fn lemma_del_pre_cost(src: Seq<Seq<char>>, inp: Seq<char>, a: int, b: int, k: int)
    requires
        0 <= a <= src.len(),
        0 <= b,
        1 <= k,
        b + k <= inp.len(),
    ensures
        1 <= del_pre(src, inp, a, b, k).1,
    decreases src.len() - a + inp.len() - b, k, 1int,
{
    lemma_cost_range(src, inp, a, b + 1);
    if k > 1 {
        lemma_del_pre_cost(src, inp, a, b, k - 1);
        lemma_cost_range(src, inp, a, b + k);
    }
}

/// The running change minimum is at least one and its recursion is
/// well-bounded below.
proof fn lemma_rep_pre_cost(src: Seq<Seq<char>>, inp: Seq<char>, a: int, b: int, k: int)
    requires
        0 <= a < src.len(),
        0 <= b,
        1 <= k,
        b + k <= inp.len(),
    ensures
        1 <= rep_pre(src, inp, a, b, k).1,
    decreases src.len() - a + inp.len() - b, k, 1int,
{
    lemma_cost_range(src, inp, a + 1, b + 1);
    if k > 1 {
        lemma_rep_pre_cost(src, inp, a, b, k - 1);
        lemma_cost_range(src, inp, a + 1, b + k);
    }
}

/// The input-side text an operation consumes: what it reads from the
/// input string (`Insert` reads nothing).
pub open spec fn op_input(op: DiffV) -> Seq<char> {
    match op {
        DiffV::Same(t) => t,
        DiffV::Delete(t) => t,
        DiffV::Insert(_) => Seq::empty(),
        DiffV::Change(t, _) => t,
    }
}

/// The source syllables an operation accounts for: exactly one for
/// `Same`, `Insert` and `Change`, none for `Delete`.
pub open spec fn op_sources(op: DiffV) -> Seq<Seq<char>> {
    match op {
        DiffV::Same(t) => seq![t],
        DiffV::Delete(_) => Seq::empty(),
        DiffV::Insert(t) => seq![t],
        DiffV::Change(_, s) => seq![s],
    }
}

/// The concatenation of the input text consumed by a script.
pub open spec fn ops_input(ops: Seq<DiffV>) -> Seq<char>
    decreases ops.len(),
{
    if ops.len() == 0 {
        Seq::empty()
    } else {
        op_input(ops[0]) + ops_input(ops.drop_first())
    }
}

/// The source syllables enumerated by a script, in order.
pub open spec fn ops_sources(ops: Seq<DiffV>) -> Seq<Seq<char>>
    decreases ops.len(),
{
    if ops.len() == 0 {
        Seq::empty()
    } else {
        op_sources(ops[0]) + ops_sources(ops.drop_first())
    }
}

/// The diff always replays: walking the script from state `(a, b)`
/// consumes exactly the leftover input and enumerates exactly the
/// leftover source syllables, each once and in order.
proof fn lemma_ops_replay(src: Seq<Seq<char>>, inp: Seq<char>, a: int, b: int)
    requires
        0 <= a <= src.len(),
        0 <= b <= inp.len(),
    ensures
        ops_input(spec_ops(src, inp, a, b)) == inp.skip(b),
        ops_sources(spec_ops(src, inp, a, b)) == src.skip(a),
    decreases src.len() - a + inp.len() - b,
{
    lemma_choice_wf(src, inp, a, b);
    let ops = spec_ops(src, inp, a, b);
    match d_state(src, inp, a, b).0 {
        Choice::End => {
            assert(inp.skip(b) =~= Seq::<char>::empty());
            assert(src.skip(a) =~~= Seq::<Seq<char>>::empty());
        },
        Choice::Same => {
            let l = src[a].len() as int;
            let rest = spec_ops(src, inp, a + 1, b + l);
            lemma_ops_replay(src, inp, a + 1, b + l);
            assert(ops[0] == DiffV::Same(src[a]));
            assert(ops.drop_first() =~~= rest);
            assert(ops_input(ops) =~= inp.skip(b));
            assert(ops_sources(ops) =~~= src.skip(a));
        },
        Choice::Ins => {
            let rest = spec_ops(src, inp, a + 1, b);
            lemma_ops_replay(src, inp, a + 1, b);
            assert(ops[0] == DiffV::Insert(src[a]));
            assert(ops.drop_first() =~~= rest);
            assert(ops_input(ops) =~= inp.skip(b));
            assert(ops_sources(ops) =~~= src.skip(a));
        },
        Choice::Del(n) => {
            let rest = spec_ops(src, inp, a, b + n);
            lemma_ops_replay(src, inp, a, b + n);
            assert(ops[0] == DiffV::Delete(inp.subrange(b, b + n)));
            assert(ops.drop_first() =~~= rest);
            assert(ops_input(ops) =~= inp.skip(b));
            assert(ops_sources(ops) =~~= src.skip(a));
        },
        Choice::Rep(n) => {
            let rest = spec_ops(src, inp, a + 1, b + n);
            lemma_ops_replay(src, inp, a + 1, b + n);
            assert(ops[0] == DiffV::Change(inp.subrange(b, b + n), src[a]));
            assert(ops.drop_first() =~~= rest);
            assert(ops_input(ops) =~= inp.skip(b));
            assert(ops_sources(ops) =~~= src.skip(a));
        },
    }
}

/// A diff always consumes the whole input string and enumerates every
/// source syllable exactly once, in order, as `Same`, `Insert` or
/// `Change`.
pub proof fn lemma_diff_replay(src: Seq<Seq<char>>, inp: Seq<char>)
    ensures
        ops_input(spec_diff(src, inp)) == inp,
        ops_sources(spec_diff(src, inp)) == src,
{
    lemma_ops_replay(src, inp, 0, 0);
    assert(inp.skip(0) =~= inp);
    assert(src.skip(0) =~~= src);
}

/// From any state whose leftover input is exactly the concatenation of
/// the leftover syllables, the diff is all `Same` at cost zero.  The
/// last syllable must be non-empty: an empty syllable standing after
/// the end of the input can only be inserted, never matched.
proof fn lemma_ops_self(src: Seq<Seq<char>>, inp: Seq<char>, a: int, b: int)
    requires
        0 <= a <= src.len(),
        0 <= b <= inp.len(),
        inp.skip(b) == src.skip(a).flatten(),
        src.len() == 0 || src.last().len() > 0,
    ensures
        spec_ops(src, inp, a, b) == src.skip(a).map_values(|s: Seq<char>| DiffV::Same(s)),
        d_cost(src, inp, a, b) == 0,
    decreases src.len() - a + inp.len() - b,
{
    if a == src.len() {
        assert(src.skip(a) =~~= Seq::<Seq<char>>::empty());
        assert(src.skip(a).flatten() =~= Seq::<char>::empty());
        assert(inp.skip(b).len() == inp.len() - b);
        assert(b == inp.len());
        assert(spec_ops(src, inp, a, b) =~~= src.skip(a).map_values(
            |s: Seq<char>| DiffV::Same(s),
        ));
    } else {
        let l = src[a].len() as int;
        assert(src.skip(a).drop_first() =~~= src.skip(a + 1));
        assert(src.skip(a)[0] == src[a]);
        assert(src.skip(a).flatten() == src[a] + src.skip(a + 1).flatten());
        assert(b < inp.len()) by {
            let tail = src.skip(a);
            tail.lemma_flatten_length_ge_single_element_length(tail.len() - 1);
            tail.lemma_flatten_and_flatten_alt_are_equivalent();
            assert(tail[tail.len() - 1] == src.last());
            assert(inp.skip(b).len() >= src.last().len());
        }
        assert(inp.skip(b).len() == inp.len() - b);
        assert(b + l <= inp.len());
        assert(inp.subrange(b, b + l) =~= src[a]) by {
            assert forall|t: int| 0 <= t < l implies inp.subrange(b, b + l)[t] == src[a][t] by {
                assert(inp.subrange(b, b + l)[t] == inp.skip(b)[t]);
            }
        }
        assert(is_lit_at(src[a], inp, b));
        assert(inp.skip(b + l) =~= src.skip(a + 1).flatten()) by {
            assert forall|t: int| 0 <= t < inp.len() - b - l implies #[trigger] inp.skip(b + l)[t]
                == src.skip(a + 1).flatten()[t] by {
                assert(inp.skip(b + l)[t] == inp.skip(b)[t + l]);
                assert((src[a] + src.skip(a + 1).flatten())[t + l] == src.skip(a + 1).flatten()[t]);
            }
        }
        lemma_ops_self(src, inp, a + 1, b + l);
        assert(spec_ops(src, inp, a, b) =~~= src.skip(a).map_values(
            |s: Seq<char>| DiffV::Same(s),
        ));
    }
}

/// Diffing a syllable sequence against exactly its own concatenation
/// yields one `Same` entry per syllable and nothing else, at total
/// cost zero.  The last syllable must be non-empty; segmentations
/// never end with an empty entry.
pub proof fn lemma_diff_self(src: Seq<Seq<char>>)
    requires
        src.len() == 0 || src.last().len() > 0,
    ensures
        spec_diff(src, src.flatten()) == src.map_values(|s: Seq<char>| DiffV::Same(s)),
        d_cost(src, src.flatten(), 0, 0) == 0,
{
    let inp = src.flatten();
    assert(inp.skip(0) =~= inp);
    assert(src.skip(0) =~~= src);
    lemma_ops_self(src, inp, 0, 0);
    assert(src.skip(0).map_values(|s: Seq<char>| DiffV::Same(s)) =~~= src.map_values(
        |s: Seq<char>| DiffV::Same(s),
    ));
}

/// The decision stored for one memoized state of the search.
#[derive(Debug, Clone, Copy)]
enum Step {
    End,
    Same,
    Ins,
    Del(usize),
    Rep(usize),
}

/// Whether a stored decision records the given specification choice.
spec fn step_matches(s: Step, c: Choice) -> bool {
    match s {
        Step::End => c is End,
        Step::Same => c is Same,
        Step::Ins => c is Ins,
        Step::Del(n) => c matches Choice::Del(m) && n as int == m,
        Step::Rep(n) => c matches Choice::Rep(m) && n as int == m,
    }
}

/// Whether a memo entry records the decision and cost of state
/// `(a, b)`.
spec fn memo_ok(src: Seq<Seq<char>>, inp: Seq<char>, a: int, b: int, e: (Step, usize)) -> bool {
    step_matches(e.0, d_state(src, inp, a, b).0) && e.1 as int == d_cost(src, inp, a, b)
}

/// Computes one interior memo entry, for a state that still has both
/// a syllable and input left: a forced `Same` on a literal match,
/// otherwise the minimum over insert, delete and change spans.
#[verifier::loop_isolation(false)]
fn compute_entry(
    srcv: &Vec<Vec<char>>,
    inpv: &Vec<char>,
    prev_row: &Vec<(Step, usize)>,
    row: &Vec<(Step, usize)>,
    a: usize,
    b: usize,
) -> (e: (Step, usize))
    requires
        sum_lens(entries_view(srcv@)) + srcv@.len() + inpv@.len() + 2 <= usize::MAX,
        a < srcv@.len(),
        b < inpv@.len(),
        row@.len() == inpv@.len() + 1,
        prev_row@.len() == inpv@.len() + 1,
        forall|j: int|
            0 <= j <= inpv@.len() ==> memo_ok(
                entries_view(srcv@),
                inpv@,
                a as int + 1,
                j,
                #[trigger] prev_row@[j],
            ),
        forall|j: int|
            b < j <= inpv@.len() ==> memo_ok(
                entries_view(srcv@),
                inpv@,
                a as int,
                j,
                #[trigger] row@[j],
            ),
    ensures
        memo_ok(entries_view(srcv@), inpv@, a as int, b as int, e),
{
    let ghost s_all = entries_view(srcv@);
    let ghost i_all = inpv@;
    let ilen = inpv.len();
    proof {
        assert(srcv@[a as int]@ == s_all[a as int]);
        lemma_sum_lens_skip(s_all, a as int);
        lemma_sum_lens_step(s_all, a as int);
        lemma_sum_lens_skip(s_all, a as int + 1);
    }
    if is_prefix_from(&srcv[a], inpv, b) {
        proof {
            assert(is_lit_at(s_all[a as int], i_all, b as int));
        }
        let l = srcv[a].len();
        let c = prev_row[b + l].1;
        (Step::Same, c)
    } else {
        proof {
            assert(!is_lit_at(s_all[a as int], i_all, b as int));
            lemma_cost_range(s_all, i_all, a as int + 1, b as int);
        }
        let a_len = srcv[a].len();
        let ins = prev_row[b].1 + a_len + 1;
        let rem = ilen - b;
        proof {
            lemma_cost_range(s_all, i_all, a as int, b as int + 1);
        }
        let mut kd: usize = 1;
        let mut cd: usize = row[b + 1].1 + 1;
        let mut k: usize = 2;
        while k <= rem
            invariant
                2 <= k <= rem + 1,
                kd as int == del_pre(s_all, i_all, a as int, b as int, k - 1).0,
                cd as int == del_pre(s_all, i_all, a as int, b as int, k - 1).1,
                cd as int <= rem_bound(s_all, i_all, a as int, b as int),
            decreases rem + 1 - k,
        {
            proof {
                lemma_cost_range(s_all, i_all, a as int, b as int + k);
            }
            let cand = row[b + k].1 + k;
            if cand < cd {
                kd = k;
                cd = cand;
            }
            k = k + 1;
        }
        proof {
            lemma_cost_range(s_all, i_all, a as int + 1, b as int + 1);
        }
        let mut kr: usize = 1;
        let mut cr: usize = prev_row[b + 1].1 + 1;
        let mut k2: usize = 2;
        while k2 <= rem
            invariant
                2 <= k2 <= rem + 1,
                kr as int == rep_pre(s_all, i_all, a as int, b as int, k2 - 1).0,
                cr as int == rep_pre(s_all, i_all, a as int, b as int, k2 - 1).1,
                cr as int <= rem_bound(s_all, i_all, a as int + 1, b as int),
            decreases rem + 1 - k2,
        {
            proof {
                lemma_cost_range(s_all, i_all, a as int + 1, b as int + k2);
            }
            let cand = prev_row[b + k2].1 + k2;
            if cand < cr {
                kr = k2;
                cr = cand;
            }
            k2 = k2 + 1;
        }
        let delc = cd + 1;
        let repc = cr + a_len + 1;
        if ins < delc {
            if ins < repc {
                (Step::Ins, ins)
            } else {
                (Step::Rep(kr), repc)
            }
        } else {
            if delc < repc {
                (Step::Del(kd), delc)
            } else {
                (Step::Rep(kr), repc)
            }
        }
    }
}

/// Fills the whole alignment table bottom-up.  Row `q` holds the
/// decisions and costs for the state with `srcv.len() - q` syllables
/// consumed, so the last-filled row `srcv.len()` belongs to the start
/// state.
#[verifier::loop_isolation(false)]
fn compute_table(srcv: &Vec<Vec<char>>, inpv: &Vec<char>) -> (rows: Vec<Vec<(Step, usize)>>)
    requires
        sum_lens(entries_view(srcv@)) + srcv@.len() + inpv@.len() + 2 <= usize::MAX,
    ensures
        rows@.len() == srcv@.len() + 1,
        forall|q: int| 0 <= q <= srcv@.len() ==> (#[trigger] rows@[q])@.len() == inpv@.len() + 1,
        forall|q: int, j: int|
            0 <= q <= srcv@.len() && 0 <= j <= inpv@.len() ==> memo_ok(
                entries_view(srcv@),
                inpv@,
                srcv@.len() - q,
                j,
                #[trigger] rows@[q]@[j],
            ),
{
    let ghost s_all = entries_view(srcv@);
    let ghost i_all = inpv@;
    let slen = srcv.len();
    let ilen = inpv.len();
    let mut rows: Vec<Vec<(Step, usize)>> = Vec::new();
    let mut ra: usize = 0;
    while ra <= slen
        invariant
            ra <= slen + 1,
            rows@.len() == ra,
            forall|q: int| 0 <= q < ra ==> (#[trigger] rows@[q])@.len() == ilen + 1,
            forall|q: int, j: int|
                0 <= q < ra && 0 <= j <= ilen ==> memo_ok(
                    s_all,
                    i_all,
                    slen - q,
                    j,
                    #[trigger] rows@[q]@[j],
                ),
        decreases slen + 1 - ra,
    {
        let a = slen - ra;
        let mut row: Vec<(Step, usize)> = vec![(Step::End, 0usize); ilen + 1];
        let mut b = ilen + 1;
        while b > 0
            invariant
                b <= ilen + 1,
                row@.len() == ilen + 1,
                forall|j: int|
                    b <= j <= ilen ==> memo_ok(s_all, i_all, a as int, j, #[trigger] row@[j]),
            decreases b,
        {
            b = b - 1;
            let e: (Step, usize) = if a == slen && b == ilen {
                (Step::End, 0)
            } else if a == slen {
                let n = ilen - b;
                (Step::Del(n), n + 1)
            } else if b == ilen {
                proof {
                    lemma_sum_lens_skip(s_all, a as int);
                    lemma_sum_lens_step(s_all, a as int);
                    lemma_cost_range(s_all, i_all, a as int + 1, ilen as int);
                    if a + 1 == slen {
                        assert(s_all.skip(slen as int) =~~= Seq::<Seq<char>>::empty());
                    }
                    assert(srcv@[a as int]@ == s_all[a as int]);
                }
                let c = rows[ra - 1][ilen].1 + srcv[a].len() + 1;
                (Step::Ins, c)
            } else {
                let e2 = compute_entry(srcv, inpv, &rows[ra - 1], &row, a, b);
                e2
            };
            row[b] = e;
            proof {
                assert(memo_ok(s_all, i_all, a as int, b as int, row@[b as int]));
            }
        }
        rows.push(row);
        ra = ra + 1;
    }
    rows
}

/// Returns the minimum-cost, syllable-bound diff between the syllables
/// in `source` and the text in `input`.
///
/// `Same`, `Change` and `Insert` entries correspond one to one to the
/// syllables of `source`; `Delete` entries hold extraneous input text
/// with no correspondence in the source.  The size precondition is far
/// beyond any text a machine can hold; it only keeps the cost
/// arithmetic inside `usize`.
#[verifier::loop_isolation(false)]
pub fn diff(source: &Vec<String>, input: &str) -> (r: Vec<Diff>)
    requires
        sum_lens(source.deep_view()) + source@.len() + input@.len() + 2 <= usize::MAX,
    ensures
        r.deep_view() == spec_diff(source.deep_view(), input@),
{
    let ghost s_all = source.deep_view();
    let inpv = chars_of(input);
    let ghost i_all = input@;
    let mut srcv: Vec<Vec<char>> = Vec::new();
    let mut i: usize = 0;
    while i < source.len()
        invariant
            i <= source@.len(),
            srcv@.len() == i,
            forall|j: int| 0 <= j < i ==> srcv@[j]@ == source@[j]@,
        decreases source@.len() - i,
    {
        let v = chars_of(source[i].as_str());
        srcv.push(v);
        i = i + 1;
    }
    proof {
        assert(entries_view(srcv@) =~~= s_all);
    }
    let rows = compute_table(&srcv, &inpv);
    let slen = srcv.len();
    let ilen = inpv.len();
    let mut r: Vec<Diff> = Vec::new();
    let mut a: usize = 0;
    let mut b: usize = 0;
    #[verifier::loop_isolation(true)]
    loop
        invariant
            a <= slen,
            b <= ilen,
            slen == s_all.len(),
            ilen == i_all.len(),
            inpv@ == i_all,
            source.deep_view() == s_all,
            source@.len() == slen,
            srcv@.len() == slen,
            forall|j: int| 0 <= j < slen ==> srcv@[j]@ == s_all[j],
            rows@.len() == slen + 1,
            forall|q: int| 0 <= q <= slen ==> (#[trigger] rows@[q])@.len() == ilen + 1,
            forall|q: int, j: int|
                0 <= q <= slen && 0 <= j <= ilen ==> memo_ok(
                    s_all,
                    i_all,
                    slen - q,
                    j,
                    #[trigger] rows@[q]@[j],
                ),
            r.deep_view() + spec_ops(s_all, i_all, a as int, b as int) == spec_ops(
                s_all,
                i_all,
                0,
                0,
            ),
        ensures
            r.deep_view() == spec_ops(s_all, i_all, 0, 0),
        decreases slen - a + ilen - b,
    {
        proof {
            lemma_choice_wf(s_all, i_all, a as int, b as int);
        }
        let ghost r0 = r.deep_view();
        let (st, _cost) = rows[slen - a][b];
        proof {
            assert(memo_ok(s_all, i_all, a as int, b as int, rows@[slen - a]@[b as int]));
        }
        match st {
            Step::End => {
                proof {
                    assert(spec_ops(s_all, i_all, a as int, b as int) =~~= Seq::<DiffV>::empty());
                    assert(r.deep_view() =~~= spec_ops(s_all, i_all, 0, 0));
                }
                break ;
            },
            Step::Same => {
                let s = source[a].clone();
                r.push(Diff::Same(s));
                let l = srcv[a].len();
                proof {
                    assert(srcv@[a as int]@ == s_all[a as int]);
                    assert(r.deep_view() =~~= r0.push(DiffV::Same(s_all[a as int])));
                    assert(r.deep_view() + spec_ops(s_all, i_all, a + 1, b + l) =~~= spec_ops(
                        s_all,
                        i_all,
                        0,
                        0,
                    ));
                }
                b = b + l;
                a = a + 1;
            },
            Step::Ins => {
                let s = source[a].clone();
                r.push(Diff::Insert(s));
                proof {
                    assert(r.deep_view() =~~= r0.push(DiffV::Insert(s_all[a as int])));
                    assert(r.deep_view() + spec_ops(s_all, i_all, a + 1, b as int) =~~= spec_ops(
                        s_all,
                        i_all,
                        0,
                        0,
                    ));
                }
                a = a + 1;
            },
            Step::Del(n) => {
                let sub = sub_chars(&inpv, b, b + n);
                let s = string_from_chars(&sub);
                r.push(Diff::Delete(s));
                proof {
                    assert(r.deep_view() =~~= r0.push(
                        DiffV::Delete(i_all.subrange(b as int, b as int + n)),
                    ));
                    assert(r.deep_view() + spec_ops(s_all, i_all, a as int, b + n) =~~= spec_ops(
                        s_all,
                        i_all,
                        0,
                        0,
                    ));
                }
                b = b + n;
            },
            Step::Rep(n) => {
                let sub = sub_chars(&inpv, b, b + n);
                let s_in = string_from_chars(&sub);
                let s_src = source[a].clone();
                r.push(Diff::Change(s_in, s_src));
                proof {
                    assert(r.deep_view() =~~= r0.push(
                        DiffV::Change(i_all.subrange(b as int, b as int + n), s_all[a as int]),
                    ));
                    assert(r.deep_view() + spec_ops(s_all, i_all, a + 1, b + n) =~~= spec_ops(
                        s_all,
                        i_all,
                        0,
                        0,
                    ));
                }
                a = a + 1;
                b = b + n;
            },
        }
    }
    r
}

} // verus!

