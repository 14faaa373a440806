//! What a run of slots is, and that the resolver scan finds the first longest.

use crate::api::iat_scanner::{
    as_scan, closed_run, resolver_scan, runs, thunk_at, window, window_slots, RunState,
};
use crate::api::resolver::ImportResolver;
use crate::bytes::low;
use crate::domain::document::DocModel;
use crate::domain::iat::{IatEntry, ScanOptions};
use crate::domain::section::SectionModel;
use crate::domain::types::{pointer_size, Rva};
use vstd::prelude::*;

verus! {

/// What a slot is to the scan: an entry whose value resolves, a zero, or
/// neither.
pub enum Mark {
    Entry(IatEntry),
    Zero,
    Other,
}

/// The mark of slot `k`.
pub open spec fn mark<R: ImportResolver>(
    sections: Seq<SectionModel>,
    ps: nat,
    start: u32,
    res: &R,
    k: int,
) -> Mark {
    let r = (start + low((k * ps) as nat)) as u32;
    match thunk_at(sections, r, ps) {
        Some(v) => if res.target(v) is Some {
            Mark::Entry(IatEntry { rva: Rva(r), value: v })
        } else if v == 0 {
            Mark::Zero
        } else {
            Mark::Other
        },
        None => Mark::Other,
    }
}

/// How many of the first `n` slots come before the end of the address space.
pub open spec fn reach(start: u32, ps: nat, n: nat) -> nat
    decreases n,
{
    if n == 0 {
        0
    } else {
        let m = reach(start, ps, (n - 1) as nat);
        if m == n - 1 && start + low(((n - 1) * ps) as nat) <= u32::MAX {
            n
        } else {
            m
        }
    }
}

/// The marks of the slots of a window of `n` slots.
pub open spec fn marks<R: ImportResolver>(
    sections: Seq<SectionModel>,
    ps: nat,
    start: u32,
    res: &R,
    n: nat,
) -> Seq<Mark> {
    Seq::new(reach(start, ps, n), |k: int| mark(sections, ps, start, res, k))
}

/// Whether the slots from `a` up to `b` are a run: it begins and ends with an
/// entry, every slot is an entry or a zero, and no more than `gap` zeros stand
/// in a row.
pub open spec fn is_run(w: Seq<Mark>, gap: nat, a: int, b: int) -> bool {
    &&& 0 <= a < b <= w.len()
    &&& w[a] is Entry
    &&& w[b - 1] is Entry
    &&& forall|k: int| a <= k < b ==> !(#[trigger] w[k] is Other)
    &&& forall|i: int, j: int|
        a <= i <= j <= b && #[trigger] all_zero(w, i, j) ==> j - i <= gap
}

/// Whether every slot from `i` up to `j` is a zero.
pub open spec fn all_zero(w: Seq<Mark>, i: int, j: int) -> bool {
    forall|k: int| i <= k < j ==> #[trigger] w[k] is Zero
}

/// The entries among the slots from `a` up to `b`.
pub open spec fn run_entries(w: Seq<Mark>, a: int, b: int) -> Seq<IatEntry>
    decreases b - a,
{
    if b <= a {
        Seq::empty()
    } else {
        match w[b - 1] {
            Mark::Entry(e) => run_entries(w, a, b - 1).push(e),
            _ => run_entries(w, a, b - 1),
        }
    }
}

/// Whether the run from `a` up to `b` has at least `min` entries, no run has
/// more, and none before it has as many.
pub open spec fn first_longest(w: Seq<Mark>, gap: nat, min: nat, a: int, b: int) -> bool {
    &&& is_run(w, gap, a, b)
    &&& run_entries(w, a, b).len() >= min
    &&& forall|x: int, y: int| #[trigger]
        is_run(w, gap, x, y) ==> run_entries(w, x, y).len() <= run_entries(w, a, b).len()
    &&& forall|x: int, y: int| #[trigger]
        is_run(w, gap, x, y) && x < a ==> run_entries(w, x, y).len() < run_entries(w, a, b).len()
}

/// One slot, by its mark.
spec fn mark_step(s: RunState, m: Mark, gap: nat, min: nat) -> RunState {
    match m {
        Mark::Entry(e) => {
            let before = match s.current {
                Some(run) => run,
                None => Seq::empty(),
            };
            RunState { current: Some(before.push(e)), gap: 0, ..s }
        },
        Mark::Zero => if s.gap + 1 > gap {
            RunState { current: None, best: closed_run(s, min), gap: s.gap + 1, ..s }
        } else {
            RunState { gap: s.gap + 1, ..s }
        },
        Mark::Other => RunState { current: None, best: closed_run(s, min), gap: 0, ..s },
    }
}

/// The state after the first `n` marks.
spec fn walked(w: Seq<Mark>, gap: nat, min: nat, n: nat) -> RunState
    decreases n,
{
    if n == 0 {
        RunState { current: None, best: None, gap: 0, ended: false }
    } else {
        mark_step(walked(w, gap, min, (n - 1) as nat), w[n - 1], gap, min)
    }
}

/// The scan of the slots goes by their marks alone.
proof fn lemma_walked<R: ImportResolver>(
    sections: Seq<SectionModel>,
    ps: nat,
    start: u32,
    res: &R,
    o: ScanOptions,
    n: nat,
    whole: nat,
)
    requires
        n <= whole,
    ensures
        ({
            let w = marks(sections, ps, start, res, whole);
            let s = runs(sections, ps, start, res, o, n);
            let m = reach(start, ps, n);
            let t = walked(w, o.max_null_gap as nat, o.min_entries as nat, m);
            &&& m <= w.len()
            &&& m <= n
            &&& s == (RunState { ended: s.ended, ..t })
            &&& s.ended == (m < n)
        }),
    decreases n,
{
    lemma_reach(start, ps, n, whole);
    if n > 0 {
        lemma_walked(sections, ps, start, res, o, (n - 1) as nat, whole);
        let w = marks(sections, ps, start, res, whole);
        let m = reach(start, ps, n);
        if m == n {
            assert(w[n - 1] == mark(sections, ps, start, res, n - 1));
        }
    }
}

proof fn lemma_reach(start: u32, ps: nat, n: nat, whole: nat)
    requires
        n <= whole,
    ensures
        reach(start, ps, n) <= reach(start, ps, whole),
        reach(start, ps, n) <= n,
    decreases whole,
{
    if n < whole {
        lemma_reach(start, ps, n, (whole - 1) as nat);
    }
    if n > 0 && n == whole {
        lemma_reach(start, ps, (n - 1) as nat, (n - 1) as nat);
    }
}

/// A shorter stretch has no more entries.
proof fn lemma_fewer(w: Seq<Mark>, a: int, b: int, x: int, y: int)
    requires
        a <= x,
        y <= b,
    ensures
        run_entries(w, x, y).len() <= run_entries(w, a, b).len(),
    decreases b - a,
{
    if b > a {
        if y == b {
            if x < y {
                lemma_fewer(w, a, b - 1, x, y - 1);
            }
        } else {
            lemma_fewer(w, a, b - 1, x, y);
        }
    }
}

/// Zeros add no entries.
proof fn lemma_zeros_add_nothing(w: Seq<Mark>, a: int, b: int, n: int)
    requires
        a <= b <= n,
        all_zero(w, b, n),
    ensures
        run_entries(w, a, n) == run_entries(w, a, b),
    decreases n - b,
{
    if b < n {
        assert(w[n - 1] is Zero);
        lemma_zeros_add_nothing(w, a, b, n - 1);
    }
}

/// Whether no run goes on across `n`.
spec fn parts(w: Seq<Mark>, gap: nat, n: int) -> bool {
    forall|x: int, y: int| x < n < y ==> !#[trigger] is_run(w, gap, x, y)
}

/// Whether `best` is the first longest of the runs that begin before `n` and end
/// by `end`.
spec fn best_before(
    w: Seq<Mark>,
    gap: nat,
    min: nat,
    best: Option<Seq<IatEntry>>,
    n: int,
    end: int,
) -> bool {
    &&& best is None ==> forall|x: int, y: int|
        x < n && y <= end && #[trigger] is_run(w, gap, x, y) ==> run_entries(w, x, y).len() < min
    &&& best matches Some(e) ==> exists|a: int, b: int| #[trigger]
        best_is(w, gap, min, e, n, end, a, b)
}

spec fn best_is(
    w: Seq<Mark>,
    gap: nat,
    min: nat,
    e: Seq<IatEntry>,
    n: int,
    end: int,
    a: int,
    b: int,
) -> bool {
    &&& a < n
    &&& b <= end
    &&& is_run(w, gap, a, b)
    &&& e == run_entries(w, a, b)
    &&& e.len() >= min
    &&& forall|x: int, y: int|
        x < n && y <= end && #[trigger] is_run(w, gap, x, y) ==> run_entries(w, x, y).len()
            <= e.len()
    &&& forall|x: int, y: int|
        x < a && y <= end && #[trigger] is_run(w, gap, x, y) ==> run_entries(w, x, y).len()
            < e.len()
}

/// What holds while a run is open that began at `a` and has its last entry
/// before `b`.
spec fn open_run(w: Seq<Mark>, gap: nat, min: nat, s: RunState, n: int, a: int, b: int) -> bool {
    &&& is_run(w, gap, a, b)
    &&& b <= n
    &&& s.current == Some(run_entries(w, a, b))
    &&& s.gap == n - b
    &&& s.gap <= gap
    &&& all_zero(w, b, n)
    &&& parts(w, gap, a)
    &&& best_before(w, gap, min, s.best, a, a)
}

/// What holds of the state after `n` marks.
spec fn kept(w: Seq<Mark>, gap: nat, min: nat, s: RunState, n: int) -> bool {
    &&& s.current is None ==> parts(w, gap, n) && best_before(w, gap, min, s.best, n, n)
    &&& s.current is Some ==> exists|a: int, b: int| #[trigger] open_run(w, gap, min, s, n, a, b)
}

/// Closing an open run leaves the best of all runs so far.
proof fn lemma_close(w: Seq<Mark>, gap: nat, min: nat, s: RunState, n: int, a: int, b: int)
    requires
        n <= w.len(),
        open_run(w, gap, min, s, n, a, b),
    ensures
        best_before(w, gap, min, closed_run(s, min), n, n),
{
    let run = run_entries(w, a, b);
    assert forall|x: int, y: int| x < n && y <= n && #[trigger] is_run(w, gap, x, y) implies (x < a
        && y <= a) || run_entries(w, x, y).len() <= run.len() by {
        assert(w[y - 1] is Entry);
        if x >= a {
            if y > b {
                assert(w[y - 1] is Zero);
            }
            lemma_fewer(w, a, b, x, y);
        }
    }
    match s.best {
        None => {
            if run.len() >= min {
                assert(best_is(w, gap, min, run, n, n, a, b));
            }
        },
        Some(e) => {
            let (p, q) = choose|p: int, q: int| best_is(w, gap, min, e, a, a, p, q);
            if run.len() >= min && run.len() > e.len() {
                assert(best_is(w, gap, min, run, n, n, a, b));
            } else {
                assert(best_is(w, gap, min, e, n, n, p, q));
            }
        },
    }
}

/// A slot that is no entry ends no run.
proof fn lemma_best_kept(w: Seq<Mark>, gap: nat, min: nat, best: Option<Seq<IatEntry>>, n: int)
    requires
        0 <= n < w.len(),
        !(w[n] is Entry),
        best_before(w, gap, min, best, n, n),
    ensures
        best_before(w, gap, min, best, n + 1, n + 1),
{
    assert forall|x: int, y: int|
        x < n + 1 && y <= n + 1 && #[trigger] is_run(w, gap, x, y) implies x < n && y <= n by {
        assert(w[y - 1] is Entry);
        assert(w[x] is Entry);
    }
    if let Some(e) = best {
        let (p, q) = choose|p: int, q: int| best_is(w, gap, min, e, n, n, p, q);
        assert(best_is(w, gap, min, e, n + 1, n + 1, p, q));
    }
}

/// An entry extends the open run, or begins one.
proof fn lemma_entry_kept(w: Seq<Mark>, gap: nat, min: nat, s: RunState, n: int)
    requires
        0 <= n < w.len(),
        w[n] is Entry,
        kept(w, gap, min, s, n),
    ensures
        kept(w, gap, min, mark_step(s, w[n], gap, min), n + 1),
{
    let t = mark_step(s, w[n], gap, min);
    match s.current {
        None => {
            assert(run_entries(w, n, n) =~= Seq::empty());
            assert(run_entries(w, n, n + 1) == t.current->0);
            assert forall|i: int, j: int|
                n <= i <= j <= n + 1 && #[trigger] all_zero(w, i, j) implies j - i <= gap by {
                if i < j {
                    assert(w[i] is Zero);
                }
            }
            assert(is_run(w, gap, n, n + 1));
            assert(open_run(w, gap, min, t, n + 1, n, n + 1));
        },
        Some(_) => {
            let (a, b) = choose|a: int, b: int| open_run(w, gap, min, s, n, a, b);
            lemma_zeros_add_nothing(w, a, b, n);
            assert forall|i: int, j: int|
                a <= i <= j <= n + 1 && #[trigger] all_zero(w, i, j) implies j - i <= gap by {
                if i < j {
                    if i < b && b < j {
                        assert(w[b - 1] is Zero);
                    } else if j == n + 1 {
                        assert(w[n] is Zero);
                    }
                }
            }
            assert forall|k: int| a <= k < n + 1 implies !(#[trigger] w[k] is Other) by {
                if b <= k < n {
                    assert(w[k] is Zero);
                }
            }
            assert(is_run(w, gap, a, n + 1));
            assert(open_run(w, gap, min, t, n + 1, a, n + 1));
        },
    }
}

/// A slot that is no entry closes the open run or leaves it open.
proof fn lemma_other_kept(w: Seq<Mark>, gap: nat, min: nat, s: RunState, n: int)
    requires
        0 <= n < w.len(),
        !(w[n] is Entry),
        kept(w, gap, min, s, n),
    ensures
        kept(w, gap, min, mark_step(s, w[n], gap, min), n + 1),
{
    let t = mark_step(s, w[n], gap, min);
    match s.current {
        None => {
            lemma_best_kept(w, gap, min, s.best, n);
            assert forall|x: int, y: int| x < n + 1 < y implies !#[trigger] is_run(
                w,
                gap,
                x,
                y,
            ) by {
                if x < n {
                    assert(!is_run(w, gap, x, y));
                }
            }
        },
        Some(_) => {
            let (a, b) = choose|a: int, b: int| open_run(w, gap, min, s, n, a, b);
            if t.current is Some {
                assert(all_zero(w, b, n + 1));
                assert(open_run(w, gap, min, t, n + 1, a, b));
            } else {
                lemma_close(w, gap, min, s, n, a, b);
                lemma_best_kept(w, gap, min, closed_run(s, min), n);
                assert forall|x: int, y: int| x < n + 1 < y implies !#[trigger] is_run(
                    w,
                    gap,
                    x,
                    y,
                ) by {
                    if is_run(w, gap, x, y) {
                        assert(!(w[n] is Other));
                        assert(all_zero(w, b, n + 1));
                        assert(w[x] is Entry);
                    }
                }
            }
        },
    }
}

proof fn lemma_kept(w: Seq<Mark>, gap: nat, min: nat, n: nat)
    requires
        n <= w.len(),
    ensures
        kept(w, gap, min, walked(w, gap, min, n), n as int),
    decreases n,
{
    if n == 0 {
    } else {
        let s = walked(w, gap, min, (n - 1) as nat);
        lemma_kept(w, gap, min, (n - 1) as nat);
        if w[n - 1] is Entry {
            lemma_entry_kept(w, gap, min, s, n - 1);
        } else {
            lemma_other_kept(w, gap, min, s, n - 1);
        }
    }
}

/// The resolver scan finds the first longest run of slots that resolve: at least
/// `min_entries` of them, with no more than `max_null_gap` zeros in a row
/// between them and nothing else. It fails only where no run is that long.
pub proof fn resolver_scan_finds_the_first_longest_run<R: ImportResolver>(
    d: DocModel,
    res: &R,
    o: ScanOptions,
)
    requires
        window(d, o) is Ok,
    ensures
        ({
            let ps = pointer_size(d.arch);
            let (start, len) = window(d, o)->Ok_0;
            let w = marks(d.sections, ps, start, res, window_slots(len, ps));
            let gap = o.max_null_gap as nat;
            let min = o.min_entries as nat;
            match resolver_scan(d, res, o) {
                Ok(s) => exists|a: int, b: int| #[trigger]
                    first_longest(w, gap, min, a, b) && s == as_scan(run_entries(w, a, b)),
                Err(_) => forall|x: int, y: int| #[trigger]
                    is_run(w, gap, x, y) ==> run_entries(w, x, y).len() < min,
            }
        }),
{
    let ps = pointer_size(d.arch);
    let (start, len) = window(d, o)->Ok_0;
    let n = window_slots(len, ps);
    let w = marks(d.sections, ps, start, res, n);
    let gap = o.max_null_gap as nat;
    let min = o.min_entries as nat;
    let s = runs(d.sections, ps, start, res, o, n);
    let t = walked(w, gap, min, w.len());
    let end = w.len() as int;
    lemma_walked(d.sections, ps, start, res, o, n, n);
    lemma_kept(w, gap, min, w.len());
    assert(closed_run(s, min) == closed_run(t, min));
    assert(best_before(w, gap, min, closed_run(t, min), end, end)) by {
        if t.current is Some {
            let (a, b) = choose|a: int, b: int| open_run(w, gap, min, t, end, a, b);
            lemma_close(w, gap, min, t, end, a, b);
        }
    }
    if let Some(e) = closed_run(t, min) {
        let (a, b) = choose|a: int, b: int| best_is(w, gap, min, e, end, end, a, b);
        assert(first_longest(w, gap, min, a, b));
    }
}

} // verus!
