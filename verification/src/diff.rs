//! Difference highlighting: which character positions of the current output differ
//! from an earlier output.
use vstd::prelude::*;

use crate::text::{lines_of, lines_view, spec_lines};

verus! {

/// A character position (line, column) that has changed. Columns count characters.
#[derive(Clone, Copy, Debug, PartialEq, Eq, Hash, Structural)]
pub struct ChangedPosition {
    pub line: usize,
    pub col: usize,
}

/// `a` comes strictly before `b` in reading order (by line, then by column).
pub open spec fn pos_lt(a: ChangedPosition, b: ChangedPosition) -> bool {
    a.line < b.line || (a.line == b.line && a.col < b.col)
}

/// Every position in `s` comes strictly before `q`.
pub open spec fn all_before(s: Set<ChangedPosition>, q: ChangedPosition) -> bool {
    forall|x: ChangedPosition| s.contains(x) ==> #[trigger] pos_lt(x, q)
}

/// The positions are in strictly increasing reading order.
pub open spec fn strictly_sorted(s: Seq<ChangedPosition>) -> bool {
    forall|i: int, j: int| 0 <= i < j < s.len() ==> #[trigger] pos_lt(s[i], s[j])
}

fn pos_less(a: &ChangedPosition, b: &ChangedPosition) -> (r: bool)
    ensures
        r == pos_lt(*a, *b),
{
    a.line < b.line || (a.line == b.line && a.col < b.col)
}

/// A finite set of changed positions, kept in reading order without repeats.
pub struct ChangeSet {
    items: Vec<ChangedPosition>,
}

impl View for ChangeSet {
    type V = Set<ChangedPosition>;

    closed spec fn view(&self) -> Set<ChangedPosition> {
        self.items@.to_set()
    }
}

impl ChangeSet {
    #[verifier::type_invariant]
    closed spec fn sorted_inv(&self) -> bool {
        strictly_sorted(self.items@)
    }

    proof fn lemma_no_duplicates(s: Seq<ChangedPosition>)
        requires
            strictly_sorted(s),
        ensures
            s.no_duplicates(),
            s.len() == s.to_set().len(),
            s.to_set().finite(),
    {
        assert forall|i: int, j: int| 0 <= i < s.len() && 0 <= j < s.len() && i != j implies s[i]
            != s[j] by {
            if i < j {
                assert(pos_lt(s[i], s[j]));
            } else {
                assert(pos_lt(s[j], s[i]));
            }
        }
        s.unique_seq_to_set();
        s.lemma_cardinality_of_set();
        vstd::seq_lib::seq_to_set_is_finite(s);
    }

    /// The empty set.
    pub fn new() -> (r: ChangeSet)
        ensures
            r@ == Set::<ChangedPosition>::empty(),
    {
        let r = ChangeSet { items: Vec::new() };
        assert(r@ =~= Set::<ChangedPosition>::empty());
        r
    }

    /// The number of positions in the set.
    pub fn len(&self) -> (n: usize)
        ensures
            self@.finite(),
            n == self@.len(),
    {
        proof {
            use_type_invariant(self);
            Self::lemma_no_duplicates(self.items@);
        }
        self.items.len()
    }

    /// Whether the set holds no position.
    pub fn is_empty(&self) -> (r: bool)
        ensures
            r == (self@ == Set::<ChangedPosition>::empty()),
    {
        proof {
            use_type_invariant(self);
            Self::lemma_no_duplicates(self.items@);
        }
        if self.items.len() == 0 {
            assert(self@ =~= Set::<ChangedPosition>::empty());
            true
        } else {
            assert(self@.contains(self.items@[0]));
            false
        }
    }

    /// Whether `p` is in the set (a binary search over the ordered positions).
    pub fn contains(&self, p: &ChangedPosition) -> (r: bool)
        ensures
            r == self@.contains(*p),
    {
        proof {
            use_type_invariant(self);
        }
        let mut lo: usize = 0;
        let mut hi: usize = self.items.len();
        while lo < hi
            invariant
                0 <= lo <= hi <= self.items.len(),
                strictly_sorted(self.items@),
                forall|k: int| 0 <= k < lo ==> pos_lt(#[trigger] self.items@[k], *p),
                forall|k: int| hi <= k < self.items.len() ==> pos_lt(*p, #[trigger] self.items@[k]),
            decreases hi - lo,
        {
            let mid = lo + (hi - lo) / 2;
            let x = self.items[mid];
            if x.line == p.line && x.col == p.col {
                assert(self.items@.contains(*p) == self@.contains(*p));
                assert(self.items@[mid as int] == *p);
                return true;
            }
            if pos_less(&x, p) {
                assert forall|k: int| 0 <= k < mid + 1 implies pos_lt(
                    #[trigger] self.items@[k],
                    *p,
                ) by {
                    if k < mid {
                        assert(pos_lt(self.items@[k], self.items@[mid as int]));
                    }
                }
                lo = mid + 1;
            } else {
                assert forall|k: int| mid <= k < self.items.len() implies pos_lt(
                    *p,
                    #[trigger] self.items@[k],
                ) by {
                    if k > mid {
                        assert(pos_lt(self.items@[mid as int], self.items@[k]));
                    }
                }
                hi = mid;
            }
        }
        assert(!self.items@.contains(*p)) by {
            if self.items@.contains(*p) {
                let k = choose|k: int| 0 <= k < self.items@.len() && self.items@[k] == *p;
                if k < lo {
                    assert(pos_lt(self.items@[k], *p));
                } else {
                    assert(pos_lt(*p, self.items@[k]));
                }
            }
        }
        false
    }

    /// The positions in reading order.
    pub fn positions(&self) -> (v: Vec<ChangedPosition>)
        ensures
            v@.to_set() == self@,
            strictly_sorted(v@),
    {
        proof {
            use_type_invariant(self);
        }
        let mut v: Vec<ChangedPosition> = Vec::new();
        let mut i: usize = 0;
        while i < self.items.len()
            invariant
                i <= self.items.len(),
                v@ == self.items@.take(i as int),
            decreases self.items.len() - i,
        {
            v.push(self.items[i]);
            i = i + 1;
            assert(v@ =~= self.items@.take(i as int));
        }
        assert(v@ =~= self.items@);
        v
    }

    /// A second set with the same positions.
    pub fn duplicate(&self) -> (r: ChangeSet)
        ensures
            r@ == self@,
    {
        let items = self.positions();
        ChangeSet { items }
    }

    /// Adds `p`, which comes after every position already in the set.
    fn push_last(&mut self, p: ChangedPosition)
        requires
            all_before(old(self)@, p),
        ensures
            final(self)@ == old(self)@.insert(p),
    {
        proof {
            use_type_invariant(&*self);
        }
        let ghost before = self.items@;
        assert forall|i: int| 0 <= i < before.len() implies pos_lt(#[trigger] before[i], p) by {
            assert(before.to_set().contains(before[i]));
        }
        let mut items: Vec<ChangedPosition> = Vec::new();
        std::mem::swap(&mut items, &mut self.items);
        items.push(p);
        proof {
            before.lemma_push_to_set_commute(p);
        }
        assert(strictly_sorted(items@)) by {
            assert forall|i: int, j: int| 0 <= i < j < items@.len() implies #[trigger] pos_lt(
                items@[i],
                items@[j],
            ) by {
                if j < before.len() {
                    assert(pos_lt(before[i], before[j]));
                } else {
                    assert(pos_lt(before[i], p));
                }
            }
        }
        *self = ChangeSet { items };
    }

    /// The positions that are in either set (a merge of the two ordered sequences).
    pub fn union(&self, other: &ChangeSet) -> (r: ChangeSet)
        ensures
            r@ == self@.union(other@),
    {
        proof {
            use_type_invariant(self);
            use_type_invariant(other);
        }
        let a = &self.items;
        let b = &other.items;
        let mut out: Vec<ChangedPosition> = Vec::new();
        let mut i: usize = 0;
        let mut j: usize = 0;
        while i < a.len() || j < b.len()
            invariant
                i <= a.len(),
                j <= b.len(),
                strictly_sorted(a@),
                strictly_sorted(b@),
                strictly_sorted(out@),
                out@.to_set() == a@.take(i as int).to_set().union(b@.take(j as int).to_set()),
                out@.len() > 0 && i < a.len() ==> pos_lt(out@.last(), a@[i as int]),
                out@.len() > 0 && j < b.len() ==> pos_lt(out@.last(), b@[j as int]),
            decreases a.len() - i + b.len() - j,
        {
            let ghost out_before = out@;
            let ghost ai = a@.take(i as int);
            let ghost bj = b@.take(j as int);
            let x: ChangedPosition;
            if j == b.len() || (i < a.len() && pos_less(&a[i], &b[j])) {
                x = a[i];
                i = i + 1;
                assert(a@.take(i as int) == ai.push(x));
                proof {
                    ai.lemma_push_to_set_commute(x);
                }
            } else if i == a.len() || pos_less(&b[j], &a[i]) {
                x = b[j];
                j = j + 1;
                assert(b@.take(j as int) == bj.push(x));
                proof {
                    bj.lemma_push_to_set_commute(x);
                }
            } else {
                x = a[i];
                assert(x == b@[j as int]);
                i = i + 1;
                j = j + 1;
                assert(a@.take(i as int) == ai.push(x));
                assert(b@.take(j as int) == bj.push(x));
                proof {
                    ai.lemma_push_to_set_commute(x);
                    bj.lemma_push_to_set_commute(x);
                }
            }
            out.push(x);
            proof {
                out_before.lemma_push_to_set_commute(x);
                assert(out@.to_set() =~= a@.take(i as int).to_set().union(
                    b@.take(j as int).to_set(),
                ));
                assert forall|p: int, q: int| 0 <= p < q < out@.len() implies #[trigger] pos_lt(
                    out@[p],
                    out@[q],
                ) by {
                    if q < out_before.len() {
                        assert(pos_lt(out_before[p], out_before[q]));
                    } else if p < out_before.len() - 1 {
                        assert(pos_lt(out_before[p], out_before.last()));
                    }
                }
                if i < a.len() && i > 0 {
                    assert(pos_lt(a@[i - 1], a@[i as int]));
                }
                if j < b.len() && j > 0 {
                    assert(pos_lt(b@[j - 1], b@[j as int]));
                }
            }
        }
        assert(a@.take(i as int) == a@);
        assert(b@.take(j as int) == b@);
        ChangeSet { items: out }
    }
}

// ---------------------------------------------------------------------------
// The diff engine.
// ---------------------------------------------------------------------------

/// The character at column `c` of line `l` of `cur` is there and is not the same
/// character at the same place of `base` (`base` may lack that line or column).
pub open spec fn char_changed(cur: Seq<Seq<char>>, base: Seq<Seq<char>>, l: int, c: int) -> bool {
    &&& 0 <= l < cur.len()
    &&& 0 <= c < cur[l].len()
    &&& !(l < base.len() && c < base[l].len() && base[l][c] == cur[l][c])
}

/// The positions of `cur` whose character differs from `base`.
pub open spec fn diff_positions(cur: Seq<Seq<char>>, base: Seq<Seq<char>>) -> Set<
    ChangedPosition,
> {
    Set::new(|p: ChangedPosition| char_changed(cur, base, p.line as int, p.col as int))
}

/// The state of a diff engine, as plain values.
pub struct DiffState {
    /// The lines of the previous output.
    pub previous: Seq<Seq<char>>,
    /// The lines of the first output, kept where that run asked for permanent mode.
    pub first: Option<Seq<Seq<char>>>,
    /// Every position reported changed so far in permanent mode.
    pub all_changes: Set<ChangedPosition>,
    /// No output has been seen yet.
    pub is_first_run: bool,
}

/// The state of a new or reset engine.
pub open spec fn initial_diff_state() -> DiffState {
    DiffState {
        previous: Seq::empty(),
        first: None,
        all_changes: Set::empty(),
        is_first_run: true,
    }
}

/// The output that the current one is compared with: the first output in permanent
/// mode where it was kept, else the previous one.
pub open spec fn comparison_base(e: DiffState, permanent: bool) -> Seq<Seq<char>> {
    if permanent {
        match e.first {
            Some(f) => f,
            None => e.previous,
        }
    } else {
        e.previous
    }
}

/// What `calculate_diff` does: the engine's next state and the positions to highlight.
/// The first output is only recorded (and kept as the first one in permanent mode) and
/// nothing is highlighted. After that, the positions that differ from the comparison
/// base are highlighted; in permanent mode they are added to every earlier change and
/// all of those are highlighted. The current output becomes the previous one.
pub open spec fn spec_calculate_diff(e: DiffState, current: Seq<char>, permanent: bool) -> (
    DiffState,
    Set<ChangedPosition>,
) {
    let cur = spec_lines(current);
    if e.is_first_run {
        (
            DiffState {
                previous: cur,
                first: if permanent {
                    Some(cur)
                } else {
                    e.first
                },
                all_changes: e.all_changes,
                is_first_run: false,
            },
            Set::empty(),
        )
    } else {
        let changes = diff_positions(cur, comparison_base(e, permanent));
        if permanent {
            let all = e.all_changes.union(changes);
            (DiffState { previous: cur, first: e.first, all_changes: all, is_first_run: false }, all)
        } else {
            (
                DiffState {
                    previous: cur,
                    first: e.first,
                    all_changes: e.all_changes,
                    is_first_run: false,
                },
                changes,
            )
        }
    }
}

/// Diff engine for highlighting differences between outputs.
pub struct DiffEngine {
    /// Previous output lines
    previous: Vec<Vec<char>>,
    /// First output (for permanent mode)
    first: Option<Vec<Vec<char>>>,
    /// All positions that have ever changed (for permanent mode)
    all_changes: ChangeSet,
    /// Whether this is the first run
    is_first_run: bool,
}

impl View for DiffEngine {
    type V = DiffState;

    closed spec fn view(&self) -> DiffState {
        DiffState {
            previous: lines_view(self.previous@),
            first: match self.first {
                Some(f) => Some(lines_view(f@)),
                None => None,
            },
            all_changes: self.all_changes@,
            is_first_run: self.is_first_run,
        }
    }
}

/// The positions of `cur` that differ from `base`, in reading order.
fn diff_lines(cur: &Vec<Vec<char>>, base: &Vec<Vec<char>>) -> (r: ChangeSet)
    ensures
        r@ == diff_positions(lines_view(cur@), lines_view(base@)),
{
    let ghost c = lines_view(cur@);
    let ghost b = lines_view(base@);
    let mut out = ChangeSet::new();
    let mut l: usize = 0;
    while l < cur.len()
        invariant
            l <= cur.len(),
            c == lines_view(cur@),
            b == lines_view(base@),
            out@ == Set::new(
                |p: ChangedPosition|
                    char_changed(c, b, p.line as int, p.col as int) && (p.line as int) < l,
            ),
        decreases cur.len() - l,
    {
        let line = &cur[l];
        let mut col: usize = 0;
        while col < line.len()
            invariant
                l < cur.len(),
                col <= line.len(),
                *line == cur@[l as int],
                c == lines_view(cur@),
                b == lines_view(base@),
                out@ == Set::new(
                    |p: ChangedPosition|
                        char_changed(c, b, p.line as int, p.col as int) && pos_lt(
                            p,
                            ChangedPosition { line: l, col },
                        ),
                ),
            decreases line.len() - col,
        {
            let same = l < base.len() && col < base[l].len() && base[l][col] == line[col];
            let p = ChangedPosition { line: l, col };
            if !same {
                out.push_last(p);
            }
            col = col + 1;
            assert(out@ =~= Set::new(
                |q: ChangedPosition|
                    char_changed(c, b, q.line as int, q.col as int) && pos_lt(
                        q,
                        ChangedPosition { line: l, col },
                    ),
            ));
        }
        l = l + 1;
        assert(out@ =~= Set::new(
            |p: ChangedPosition| char_changed(c, b, p.line as int, p.col as int) && (p.line as int)
                < l,
        ));
    }
    assert(out@ =~= diff_positions(c, b));
    out
}

impl DiffEngine {
    /// Create a new diff engine
    pub fn new() -> (r: DiffEngine)
        ensures
            r@ == initial_diff_state(),
    {
        let r = DiffEngine {
            previous: Vec::new(),
            first: None,
            all_changes: ChangeSet::new(),
            is_first_run: true,
        };
        assert(r@.previous =~= Seq::<Seq<char>>::empty());
        r
    }

    /// Reset the diff engine (used when terminal resizes)
    pub fn reset(&mut self)
        ensures
            final(self)@ == initial_diff_state(),
    {
        self.previous = Vec::new();
        self.first = None;
        self.all_changes = ChangeSet::new();
        self.is_first_run = true;
        assert(self@.previous =~= Seq::<Seq<char>>::empty());
    }

    /// Calculate differences between current and previous output.
    /// Returns the set of positions that should be highlighted.
    pub fn calculate_diff(&mut self, current: &str, permanent: bool) -> (r: ChangeSet)
        ensures
            (final(self)@, r@) == spec_calculate_diff(old(self)@, current@, permanent),
    {
        let current_lines = lines_of(current);
        if self.is_first_run {
            self.is_first_run = false;
            if permanent {
                self.first = Some(lines_of(current));
            }
            self.previous = current_lines;
            return ChangeSet::new();
        }
        let changes = if permanent {
            match &self.first {
                Some(f) => diff_lines(&current_lines, f),
                None => diff_lines(&current_lines, &self.previous),
            }
        } else {
            diff_lines(&current_lines, &self.previous)
        };
        if permanent {
            let merged = self.all_changes.union(&changes);
            self.all_changes = merged;
            self.previous = current_lines;
            self.all_changes.duplicate()
        } else {
            self.previous = current_lines;
            changes
        }
    }

    /// Check if this is the first run (no previous output to compare)
    pub fn is_first(&self) -> (r: bool)
        ensures
            r == self@.is_first_run,
    {
        self.is_first_run
    }
}

impl Default for DiffEngine {
    /// Everything empty and the first-run flag off, as a derived `Default` gives.
    fn default() -> (r: DiffEngine)
        ensures
            r@ == (DiffState { is_first_run: false, ..initial_diff_state() }),
    {
        let r = DiffEngine {
            previous: Vec::new(),
            first: None,
            all_changes: ChangeSet::new(),
            is_first_run: false,
        };
        assert(r@.previous =~= Seq::<Seq<char>>::empty());
        r
    }
}

/// Simple line-based diff for checking if output has changed
pub fn output_changed(current: &str, previous: &str) -> (r: bool)
    ensures
        r == (current@ != previous@),
{
    !crate::text::same_text(current, previous)
}


/// An output compared with itself has no changed position.
pub proof fn law_no_change_against_itself(lines: Seq<Seq<char>>)
    ensures
        diff_positions(lines, lines) == Set::<ChangedPosition>::empty(),
{
    assert(diff_positions(lines, lines) =~= Set::<ChangedPosition>::empty());
}

/// The first output seen highlights nothing.
pub proof fn law_first_run_highlights_nothing(e: DiffState, current: Seq<char>, permanent: bool)
    requires
        e.is_first_run,
    ensures
        spec_calculate_diff(e, current, permanent).1 == Set::<ChangedPosition>::empty(),
        !spec_calculate_diff(e, current, permanent).0.is_first_run,
{
}

/// In normal mode, an output that repeats the previous one highlights nothing.
pub proof fn law_repeated_output_highlights_nothing(e: DiffState, current: Seq<char>, permanent: bool)
    ensures
        spec_calculate_diff(spec_calculate_diff(e, current, permanent).0, current, false).1
            == Set::<ChangedPosition>::empty(),
{
    law_no_change_against_itself(spec_lines(current));
}

/// In permanent mode, what is highlighted only grows: it holds every position reported
/// before, and it is what the engine keeps.
pub proof fn law_permanent_highlights_accumulate(e: DiffState, current: Seq<char>)
    requires
        !e.is_first_run,
    ensures
        e.all_changes.subset_of(spec_calculate_diff(e, current, true).1),
        spec_calculate_diff(e, current, true).0.all_changes == spec_calculate_diff(
            e,
            current,
            true,
        ).1,
{
}

/// In normal mode, every highlighted position holds a character of the current output.
pub proof fn law_highlights_within_current(e: DiffState, current: Seq<char>, p: ChangedPosition)
    requires
        spec_calculate_diff(e, current, false).1.contains(p),
    ensures
        (p.line as int) < spec_lines(current).len(),
        (p.col as int) < spec_lines(current)[p.line as int].len(),
{
}

/// The engine's state and the highlighted positions after calling `calculate_diff` on
/// each output of `outputs` in turn, starting from `e`.
pub open spec fn spec_diff_sequence(e: DiffState, outputs: Seq<Seq<char>>, permanent: bool) -> (
    DiffState,
    Set<ChangedPosition>,
)
    decreases outputs.len(),
{
    if outputs.len() == 0 {
        (e, Set::empty())
    } else {
        let (before, _) = spec_diff_sequence(e, outputs.drop_last(), permanent);
        spec_calculate_diff(before, outputs.last(), permanent)
    }
}

/// Every position where one of the later outputs differs from the first one.
pub open spec fn changes_against_first(outputs: Seq<Seq<char>>) -> Set<ChangedPosition> {
    Set::new(
        |p: ChangedPosition|
            exists|i: int|
                1 <= i < outputs.len() && #[trigger] diff_positions(
                    spec_lines(outputs[i]),
                    spec_lines(outputs[0]),
                ).contains(p),
    )
}

proof fn lemma_permanent_sequence(outputs: Seq<Seq<char>>)
    requires
        outputs.len() >= 1,
    ensures
        spec_diff_sequence(initial_diff_state(), outputs, true).0 == (DiffState {
            previous: spec_lines(outputs.last()),
            first: Some(spec_lines(outputs[0])),
            all_changes: changes_against_first(outputs),
            is_first_run: false,
        }),
        outputs.len() >= 2 ==> spec_diff_sequence(initial_diff_state(), outputs, true).1
            == changes_against_first(outputs),
    decreases outputs.len(),
{
    let prefix = outputs.drop_last();
    if outputs.len() == 1 {
        assert(prefix.len() == 0);
        assert(changes_against_first(outputs) =~= Set::<ChangedPosition>::empty());
    } else {
        lemma_permanent_sequence(prefix);
        assert(prefix[0] == outputs[0]);
        let before = changes_against_first(prefix);
        let added = diff_positions(spec_lines(outputs.last()), spec_lines(outputs[0]));
        assert(changes_against_first(outputs) =~= before.union(added)) by {
            assert forall|p: ChangedPosition|
                changes_against_first(outputs).contains(p) implies #[trigger] before.union(
                added,
            ).contains(p) by {
                let i = choose|i: int|
                    1 <= i < outputs.len() && #[trigger] diff_positions(
                        spec_lines(outputs[i]),
                        spec_lines(outputs[0]),
                    ).contains(p);
                if i < outputs.len() - 1 {
                    assert(prefix[i] == outputs[i]);
                    assert(diff_positions(spec_lines(prefix[i]), spec_lines(prefix[0])).contains(
                        p,
                    ));
                }
            }
            assert forall|p: ChangedPosition|
                before.union(added).contains(p) implies #[trigger] changes_against_first(
                outputs,
            ).contains(p) by {
                if before.contains(p) {
                    let i = choose|i: int|
                        1 <= i < prefix.len() && #[trigger] diff_positions(
                            spec_lines(prefix[i]),
                            spec_lines(prefix[0]),
                        ).contains(p);
                    assert(prefix[i] == outputs[i]);
                    assert(diff_positions(spec_lines(outputs[i]), spec_lines(outputs[0])).contains(
                        p,
                    ));
                } else {
                    let last = outputs.len() - 1;
                    assert(diff_positions(spec_lines(outputs[last]), spec_lines(outputs[0])).contains(
                        p,
                    ));
                }
            }
        }
    }
}

/// In permanent mode, starting from a new (or reset) engine: after the first output, each
/// call highlights every position where any later output so far differs from the first
/// output, so what is highlighted only grows from call to call.
pub proof fn law_permanent_highlights_changes_against_first(outputs: Seq<Seq<char>>)
    requires
        outputs.len() >= 2,
    ensures
        spec_diff_sequence(initial_diff_state(), outputs, true).1 == changes_against_first(
            outputs,
        ),
        outputs.len() >= 3 ==> spec_diff_sequence(
            initial_diff_state(),
            outputs.drop_last(),
            true,
        ).1.subset_of(spec_diff_sequence(initial_diff_state(), outputs, true).1),
{
    lemma_permanent_sequence(outputs);
    if outputs.len() >= 3 {
        lemma_permanent_sequence(outputs.drop_last());
        let prefix = outputs.drop_last();
        assert forall|p: ChangedPosition|
            changes_against_first(prefix).contains(p) implies #[trigger] changes_against_first(
            outputs,
        ).contains(p) by {
            let i = choose|i: int|
                1 <= i < prefix.len() && #[trigger] diff_positions(
                    spec_lines(prefix[i]),
                    spec_lines(prefix[0]),
                ).contains(p);
            assert(prefix[i] == outputs[i]);
            assert(prefix[0] == outputs[0]);
            assert(diff_positions(spec_lines(outputs[i]), spec_lines(outputs[0])).contains(p));
        }
    }
}

/// After the first output, in normal mode, a position is highlighted exactly when the
/// current output has a character there and the previous output has none there (no such
/// line, or a shorter line) or a different one. Characters of a line that grew are
/// highlighted; positions the current output lacks are not.
pub proof fn law_normal_mode_highlights_exactly_the_changed_characters(
    e: DiffState,
    current: Seq<char>,
    p: ChangedPosition,
)
    requires
        !e.is_first_run,
    ensures
        spec_calculate_diff(e, current, false).1.contains(p) <==> ({
            let cur = spec_lines(current);
            let prev = e.previous;
            let l = p.line as int;
            let c = p.col as int;
            &&& l < cur.len()
            &&& c < cur[l].len()
            &&& (l >= prev.len() || c >= prev[l].len() || prev[l][c] != cur[l][c])
        }),
{
}

/// After the first output, in permanent mode, the positions added are those where the
/// current output has a character and the first output (when it was kept, else the
/// previous one) has none or a different one; they join all earlier ones.
pub proof fn law_permanent_mode_adds_the_changed_characters(
    e: DiffState,
    current: Seq<char>,
    p: ChangedPosition,
)
    requires
        !e.is_first_run,
    ensures
        spec_calculate_diff(e, current, true).1.contains(p) <==> (e.all_changes.contains(p) || {
            let cur = spec_lines(current);
            let base = match e.first {
                Some(f) => f,
                None => e.previous,
            };
            let l = p.line as int;
            let c = p.col as int;
            &&& l < cur.len()
            &&& c < cur[l].len()
            &&& (l >= base.len() || c >= base[l].len() || base[l][c] != cur[l][c])
        }),
{
}

} // verus!
