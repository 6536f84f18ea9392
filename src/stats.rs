//! The logger's statistics: per-provenance counts of new smallest test cases,
//! interesting but not smaller ones, and not interesting ones, and the order
//! and names in which the final histogram shows them.
use vstd::prelude::*;
use vstd::string::{StrSliceExecFns, StringExecFns};

verus! {

/// The provenance under which failed merges are counted.
pub const MERGE_PROVENANCE: &'static str = "merge";

/// How many characters of a reducer's name the histogram shows.
pub const NAME_WIDTH: usize = 50;

/// Lexicographic order of names, character by character.
pub open spec fn name_less(a: Seq<char>, b: Seq<char>) -> bool
    decreases a.len(),
{
    if a.len() == 0 {
        b.len() > 0
    } else if b.len() == 0 {
        false
    } else if a[0] != b[0] {
        a[0] < b[0]
    } else {
        name_less(a.skip(1), b.skip(1))
    }
}

pub proof fn lemma_name_less_transitive(a: Seq<char>, b: Seq<char>, c: Seq<char>)
    requires
        name_less(a, b),
        name_less(b, c),
    ensures
        name_less(a, c),
    decreases a.len(),
{
    if a.len() > 0 && b.len() > 0 && c.len() > 0 && a[0] == b[0] && b[0] == c[0] {
        lemma_name_less_transitive(a.skip(1), b.skip(1), c.skip(1));
    }
}

pub proof fn lemma_name_less_total(a: Seq<char>, b: Seq<char>)
    ensures
        a == b || name_less(a, b) || name_less(b, a),
        !(name_less(a, b) && name_less(b, a)),
        !name_less(a, a),
    decreases a.len(),
{
    if a.len() > 0 && b.len() > 0 {
        lemma_name_less_total(a.skip(1), b.skip(1));
        if a[0] == b[0] && a.skip(1) == b.skip(1) {
            assert(a == seq![a[0]] + a.skip(1));
            assert(b == seq![b[0]] + b.skip(1));
        }
    }
    if a.len() > 0 {
        lemma_name_less_total(a.skip(1), a.skip(1));
    }
    if a.len() == 0 && b.len() == 0 {
        assert(a == b);
    }
}

/// The counts kept for one provenance.
pub struct StatRow {
    pub name: String,
    /// New smallest test cases it produced.
    pub smallest: u64,
    /// Interesting test cases it produced that were not smaller.
    pub not_smallest: u64,
    /// Not interesting test cases it produced.
    pub not_interesting: u64,
}

/// The counts of a row, as a triple.
pub open spec fn counts(r: StatRow) -> (u64, u64, u64) {
    (r.smallest, r.not_smallest, r.not_interesting)
}

/// Whether row `a` is shown above row `b`: greater counts, compared
/// lexicographically, come first, and among equal counts the greater name.
pub open spec fn shown_before(a: StatRow, b: StatRow) -> bool {
    ||| a.smallest > b.smallest
    ||| a.smallest == b.smallest && a.not_smallest > b.not_smallest
    ||| a.smallest == b.smallest && a.not_smallest == b.not_smallest && a.not_interesting > b.not_interesting
    ||| counts(a) == counts(b) && name_less(b.name@, a.name@)
}

pub proof fn lemma_shown_before_order(a: StatRow, b: StatRow, c: StatRow)
    ensures
        shown_before(a, b) && shown_before(b, c) ==> shown_before(a, c),
        a.name@ != b.name@ ==> shown_before(a, b) || shown_before(b, a),
        !(shown_before(a, b) && shown_before(b, a)),
{
    lemma_name_less_total(a.name@, b.name@);
    lemma_name_less_total(b.name@, a.name@);
    if shown_before(a, b) && shown_before(b, c) && counts(a) == counts(b) && counts(b) == counts(c) {
        lemma_name_less_transitive(c.name@, b.name@, a.name@);
    }
}

/// Add one, stopping at the largest value.
pub open spec fn bump(n: u64) -> u64 {
    if n < u64::MAX {
        (n + 1) as u64
    } else {
        n
    }
}

/// Which of a row's three counts an event increments.
#[derive(Clone, Copy, Debug, PartialEq, Eq, Structural)]
pub enum Tally {
    Smallest,
    NotSmallest,
    NotInteresting,
}

/// `r`'s counts after one event of kind `t`.
pub open spec fn tallied(c: (u64, u64, u64), t: Tally) -> (u64, u64, u64) {
    match t {
        Tally::Smallest => (bump(c.0), c.1, c.2),
        Tally::NotSmallest => (c.0, bump(c.1), c.2),
        Tally::NotInteresting => (c.0, c.1, bump(c.2)),
    }
}

/// The rows are exactly the entries of the table: one row per key, with that
/// key's counts.
pub open spec fn rows_agree(rows: Seq<StatRow>, table: Map<Seq<char>, (u64, u64, u64)>) -> bool {
    &&& forall|n: Seq<char>| table.contains_key(n) <==> exists|i: int| 0 <= i < rows.len() && rows[i].name@ == n
    &&& forall|i: int| 0 <= i < rows.len() ==> table[rows[i].name@] == counts(rows[i])
    &&& forall|i: int, j: int| 0 <= i < j < rows.len() ==> rows[i].name@ != rows[j].name@
}

/// The logger's statistics: one row per provenance seen.
pub struct Stats {
    rows: Vec<StatRow>,
    final_size: u64,
}

impl Stats {
    /// Names are unique among the rows.
    pub closed spec fn wf(&self) -> bool {
        forall|i: int, j: int| 0 <= i < j < self.rows@.len() ==> self.rows@[i].name@ != self.rows@[j].name@
    }

    /// The counts of each provenance seen so far.
    pub closed spec fn table(&self) -> Map<Seq<char>, (u64, u64, u64)> {
        Map::new(
            |n: Seq<char>| exists|i: int| 0 <= i < self.rows@.len() && self.rows@[i].name@ == n,
            |n: Seq<char>| counts(self.rows@[choose|i: int| 0 <= i < self.rows@.len() && self.rows@[i].name@ == n]),
        )
    }

    /// The rows, in the order they were first seen.
    pub closed spec fn rows(&self) -> Seq<StatRow> {
        self.rows@
    }

    /// The rows shown in the histogram are the counted statistics.
    pub proof fn lemma_rows_agree(&self)
        requires
            self.wf(),
        ensures
            rows_agree(self.rows(), self.table()),
    {
        let rows = self.rows@;
        assert forall|i: int| 0 <= i < rows.len() implies self.table()[rows[i].name@] == counts(rows[i]) by {
            let n = rows[i].name@;
            assert(self.table().contains_key(n));
            let k = choose|k: int| 0 <= k < rows.len() && rows[k].name@ == n;
            if k != i {
                if k < i {
                    assert(rows[k].name@ != rows[i].name@);
                } else {
                    assert(rows[i].name@ != rows[k].name@);
                }
            }
        }
    }

    /// The final size: the one last logged as final, else the last new
    /// smallest size, 0 before either.
    pub closed spec fn final_size_spec(&self) -> u64 {
        self.final_size
    }

    pub fn new() -> (r: Stats)
        ensures
            r.wf(),
            r.table() == Map::<Seq<char>, (u64, u64, u64)>::empty(),
            r.rows().len() == 0,
            r.final_size_spec() == 0,
    {
        let r = Stats { rows: Vec::new(), final_size: 0 };
        assert(r.table() == Map::<Seq<char>, (u64, u64, u64)>::empty());
        r
    }

    /// Count one event of kind `t` for `provenance`.
    pub fn tally(&mut self, provenance: &str, t: Tally)
        requires
            old(self).wf(),
        ensures
            final(self).wf(),
            final(self).final_size_spec() == old(self).final_size_spec(),
            final(self).table() == old(self).table().insert(
                provenance@,
                tallied(
                    if old(self).table().contains_key(provenance@) {
                        old(self).table()[provenance@]
                    } else {
                        (0u64, 0u64, 0u64)
                    },
                    t,
                ),
            ),
    {
        let ghost old_rows = self.rows@;
        let name = String::from_str(provenance);
        let mut i: usize = 0;
        while i < self.rows.len() && !(self.rows[i].name == name)
            invariant
                self.rows@ == old_rows,
                i <= old_rows.len(),
                name@ == provenance@,
                forall|j: int| 0 <= j < i ==> old_rows[j].name@ != provenance@,
            decreases old_rows.len() - i,
        {
            i = i + 1;
        }
        if i < self.rows.len() {
            let mut row = self.rows.remove(i);
            let ghost before = counts(row);
            match t {
                Tally::Smallest => {
                    if row.smallest < u64::MAX {
                        row.smallest = row.smallest + 1;
                    }
                },
                Tally::NotSmallest => {
                    if row.not_smallest < u64::MAX {
                        row.not_smallest = row.not_smallest + 1;
                    }
                },
                Tally::NotInteresting => {
                    if row.not_interesting < u64::MAX {
                        row.not_interesting = row.not_interesting + 1;
                    }
                },
            }
            self.rows.insert(i, row);
            proof {
                assert(counts(row) == tallied(before, t));
                assert(self.rows@ == old_rows.update(i as int, row));
                assert(old_rows[i as int].name@ == provenance@);
                assert(old(self).table().contains_key(provenance@));
                assert(old(self).table()[provenance@] == before) by {
                    let k = choose|k: int| 0 <= k < old_rows.len() && old_rows[k].name@ == provenance@;
                    if k != i {
                        assert(old_rows[k].name@ != old_rows[i as int].name@);
                    }
                }
                assert forall|a: int, b: int| 0 <= a < b < self.rows@.len() implies self.rows@[a].name@ != self.rows@[b].name@ by {
                    assert(old_rows[a].name@ != old_rows[b].name@);
                }
                let m = self.table();
                let m2 = old(self).table().insert(provenance@, tallied(before, t));
                assert forall|n: Seq<char>| m.contains_key(n) <==> m2.contains_key(n) by {
                    if n == provenance@ {
                        assert(self.rows@[i as int].name@ == n);
                    }
                    if m2.contains_key(n) && n != provenance@ {
                        let k = choose|k: int| 0 <= k < old_rows.len() && old_rows[k].name@ == n;
                        assert(self.rows@[k].name@ == n);
                    }
                    if m.contains_key(n) {
                        let k = choose|k: int| 0 <= k < self.rows@.len() && self.rows@[k].name@ == n;
                        assert(old_rows[k].name@ == n);
                    }
                }
                assert forall|n: Seq<char>| m.contains_key(n) implies m[n] == m2[n] by {
                    let k = choose|k: int| 0 <= k < self.rows@.len() && self.rows@[k].name@ == n;
                    let k2 = choose|k2: int| 0 <= k2 < old_rows.len() && old_rows[k2].name@ == n;
                    assert(old_rows[k].name@ == n);
                }
                assert(m == m2);
            }
        } else {
            let row = StatRow {
                name,
                smallest: if t == Tally::Smallest { 1 } else { 0 },
                not_smallest: if t == Tally::NotSmallest { 1 } else { 0 },
                not_interesting: if t == Tally::NotInteresting { 1 } else { 0 },
            };
            self.rows.push(row);
            proof {
                assert(!old(self).table().contains_key(provenance@));
                assert(self.rows@ == old_rows.push(row));
                assert forall|a: int, b: int| 0 <= a < b < self.rows@.len() implies self.rows@[a].name@ != self.rows@[b].name@ by {
                    if b < old_rows.len() {
                        assert(old_rows[a].name@ != old_rows[b].name@);
                    }
                }
                let m = self.table();
                let m2 = old(self).table().insert(provenance@, tallied((0u64, 0u64, 0u64), t));
                assert forall|n: Seq<char>| m.contains_key(n) <==> m2.contains_key(n) by {
                    if m2.contains_key(n) && n != provenance@ {
                        let k = choose|k: int| 0 <= k < old_rows.len() && old_rows[k].name@ == n;
                        assert(self.rows@[k].name@ == n);
                    }
                    if n == provenance@ {
                        assert(self.rows@[old_rows.len() as int].name@ == n);
                    }
                    if m.contains_key(n) {
                        let k = choose|k: int| 0 <= k < self.rows@.len() && self.rows@[k].name@ == n;
                        if k < old_rows.len() {
                            assert(old_rows[k].name@ == n);
                        }
                    }
                }
                assert forall|n: Seq<char>| m.contains_key(n) implies m[n] == m2[n] by {
                    let k = choose|k: int| 0 <= k < self.rows@.len() && self.rows@[k].name@ == n;
                    if n == provenance@ {
                        assert(self.rows@[old_rows.len() as int].name@ == n);
                    } else {
                        let k2 = choose|k2: int| 0 <= k2 < old_rows.len() && old_rows[k2].name@ == n;
                        assert(self.rows@[k2].name@ == n);
                    }
                }
                assert(m == m2);
            }
        }
    }

    /// Log a new smallest test case of `new_size` bytes from `provenance`.
    pub fn new_smallest(&mut self, new_size: u64, provenance: &str)
        requires
            old(self).wf(),
        ensures
            final(self).wf(),
            final(self).final_size_spec() == new_size,
            final(self).table() == old(self).table().insert(
                provenance@,
                tallied(
                    if old(self).table().contains_key(provenance@) {
                        old(self).table()[provenance@]
                    } else {
                        (0u64, 0u64, 0u64)
                    },
                    Tally::Smallest,
                ),
            ),
    {
        self.tally(provenance, Tally::Smallest);
        self.final_size = new_size;
        assert(self.table() == old(self).table().insert(
            provenance@,
            tallied(
                if old(self).table().contains_key(provenance@) {
                    old(self).table()[provenance@]
                } else {
                    (0u64, 0u64, 0u64)
                },
                Tally::Smallest,
            ),
        ));
    }

    /// Log an interesting test case from `provenance` that was not smaller.
    pub fn is_not_smaller(&mut self, provenance: &str)
        requires
            old(self).wf(),
        ensures
            final(self).wf(),
            final(self).final_size_spec() == old(self).final_size_spec(),
            final(self).table() == old(self).table().insert(
                provenance@,
                tallied(
                    if old(self).table().contains_key(provenance@) {
                        old(self).table()[provenance@]
                    } else {
                        (0u64, 0u64, 0u64)
                    },
                    Tally::NotSmallest,
                ),
            ),
    {
        self.tally(provenance, Tally::NotSmallest);
    }

    /// Log a not interesting test case from `provenance`.
    pub fn judged_not_interesting(&mut self, provenance: &str)
        requires
            old(self).wf(),
        ensures
            final(self).wf(),
            final(self).final_size_spec() == old(self).final_size_spec(),
            final(self).table() == old(self).table().insert(
                provenance@,
                tallied(
                    if old(self).table().contains_key(provenance@) {
                        old(self).table()[provenance@]
                    } else {
                        (0u64, 0u64, 0u64)
                    },
                    Tally::NotInteresting,
                ),
            ),
    {
        self.tally(provenance, Tally::NotInteresting);
    }

    /// Log a finished merge; one that is not smaller than upstream counts as
    /// a not interesting result of the merge provenance.
    pub fn finished_merging(&mut self, merged_size: u64, upstream_size: u64)
        requires
            old(self).wf(),
        ensures
            final(self).wf(),
            final(self).final_size_spec() == old(self).final_size_spec(),
            merged_size < upstream_size ==> final(self).table() == old(self).table(),
            merged_size >= upstream_size ==> final(self).table() == old(self).table().insert(
                MERGE_PROVENANCE@,
                tallied(
                    if old(self).table().contains_key(MERGE_PROVENANCE@) {
                        old(self).table()[MERGE_PROVENANCE@]
                    } else {
                        (0u64, 0u64, 0u64)
                    },
                    Tally::NotInteresting,
                ),
            ),
    {
        if merged_size >= upstream_size {
            self.tally(MERGE_PROVENANCE, Tally::NotInteresting);
        }
    }

    /// Log the final reduced size, which the histogram reports.
    pub fn final_reduced_size(&mut self, final_size: u64)
        requires
            old(self).wf(),
        ensures
            final(self).wf(),
            final(self).final_size_spec() == final_size,
            final(self).table() == old(self).table(),
            final(self).rows() == old(self).rows(),
    {
        self.final_size = final_size;
    }

    /// The final size: the one last logged as final, else the last new
    /// smallest size, 0 before either.
    pub fn final_size(&self) -> (r: u64)
        ensures
            r == self.final_size_spec(),
    {
        self.final_size
    }

    /// How many provenances have been seen.
    pub fn len(&self) -> (r: usize)
        ensures
            r == self.rows().len(),
    {
        self.rows.len()
    }

    /// The name of row `i`.
    pub fn row_name(&self, i: usize) -> (r: String)
        requires
            i < self.rows().len(),
        ensures
            r@ == self.rows()[i as int].name@,
    {
        self.rows[i].name.clone()
    }

    /// The counts of row `i`: new smallest, not smaller, not interesting.
    pub fn row_counts(&self, i: usize) -> (r: (u64, u64, u64))
        requires
            i < self.rows().len(),
        ensures
            r == counts(self.rows()[i as int]),
    {
        (self.rows[i].smallest, self.rows[i].not_smallest, self.rows[i].not_interesting)
    }

    /// Whether row `a` is shown above row `b`.
    fn row_shown_before(&self, a: usize, b: usize) -> (r: bool)
        requires
            a < self.rows().len(),
            b < self.rows().len(),
        ensures
            r == shown_before(self.rows()[a as int], self.rows()[b as int]),
    {
        let x = &self.rows[a];
        let y = &self.rows[b];
        if x.smallest != y.smallest {
            x.smallest > y.smallest
        } else if x.not_smallest != y.not_smallest {
            x.not_smallest > y.not_smallest
        } else if x.not_interesting != y.not_interesting {
            x.not_interesting > y.not_interesting
        } else {
            proof {
                lemma_name_less_total(x.name@, y.name@);
            }
            name_lt(y.name.as_str(), x.name.as_str())
        }
    }

    /// The order in which the final histogram shows the rows: a permutation
    /// of the row indexes in which every row is shown before the next.
    pub fn histogram_order(&self) -> (r: Vec<usize>)
        requires
            self.wf(),
        ensures
            r@.len() == self.rows().len(),
            r@.no_duplicates(),
            forall|i: int| 0 <= i < r@.len() ==> r@[i] < self.rows().len(),
            forall|i: int, j: int| 0 <= i < j < r@.len()
                ==> shown_before(self.rows()[r@[i] as int], self.rows()[r@[j] as int]),
            rows_agree(self.rows(), self.table()),
    {
        proof {
            self.lemma_rows_agree();
        }
        let ghost rows = self.rows();
        let mut r: Vec<usize> = Vec::new();
        let mut x: usize = 0;
        while x < self.rows.len()
            invariant
                self.wf(),
                rows == self.rows(),
                x <= rows.len(),
                r@.len() == x,
                r@.no_duplicates(),
                forall|i: int| 0 <= i < r@.len() ==> r@[i] < x,
                forall|i: int, j: int| 0 <= i < j < r@.len()
                    ==> shown_before(rows[r@[i] as int], rows[r@[j] as int]),
            decreases rows.len() - x,
        {
            let mut p: usize = r.len();
            while p > 0 && self.row_shown_before(x, r[p - 1])
                invariant
                    p <= r@.len(),
                    x < rows.len(),
                    rows == self.rows(),
                    forall|i: int| 0 <= i < r@.len() ==> r@[i] < x,
                    forall|i: int| p <= i < r@.len() ==> shown_before(rows[x as int], rows[r@[i] as int]),
                decreases p,
            {
                p = p - 1;
            }
            proof {
                assert forall|i: int| 0 <= i < p implies shown_before(rows[r@[i] as int], rows[x as int]) by {
                    let last = r@[p - 1];
                    assert(rows[last as int].name@ != rows[x as int].name@);
                    lemma_shown_before_order(rows[x as int], rows[last as int], rows[x as int]);
                    if i < p - 1 {
                        lemma_shown_before_order(rows[r@[i] as int], rows[last as int], rows[x as int]);
                    }
                }
            }
            let ghost r0 = r@;
            r.insert(p, x);
            proof {
                assert(r@ == r0.insert(p as int, x));
                assert forall|a: int| 0 <= a < r@.len() implies (a < p ==> r@[a] == r0[a]) && (a > p ==> r@[a] == r0[a - 1]) && (a == p ==> r@[a] == x) by {}
                assert forall|a: int, b: int| 0 <= a < r@.len() && 0 <= b < r@.len() && a != b implies r@[a] != r@[b] by {
                    if a != p && b != p {
                        let a2 = if a < p { a } else { a - 1 };
                        let b2 = if b < p { b } else { b - 1 };
                        assert(r@[a] == r0[a2] && r@[b] == r0[b2]);
                    } else if a != p {
                        let a2 = if a < p { a } else { a - 1 };
                        assert(r0[a2] < x);
                    } else if b != p {
                        let b2 = if b < p { b } else { b - 1 };
                        assert(r0[b2] < x);
                    }
                }
                assert forall|i: int| 0 <= i < r@.len() implies r@[i] < x + 1 by {
                    if i != p {
                        let i2 = if i < p { i } else { i - 1 };
                        assert(r0[i2] < x);
                    }
                }
                assert forall|i: int, j: int| 0 <= i < j < r@.len()
                    implies shown_before(rows[r@[i] as int], rows[r@[j] as int]) by {
                    let i2 = if i < p { i } else { i - 1 };
                    let j2 = if j < p { j } else { j - 1 };
                    if i != p && j != p {
                        assert(r@[i] == r0[i2] && r@[j] == r0[j2]);
                    }
                }
            }
            x = x + 1;
        }
        r
    }
}

/// Whether `a` comes before `b` in lexicographic order.
fn name_lt(a: &str, b: &str) -> (r: bool)
    ensures
        r == name_less(a@, b@),
{
    let la = a.unicode_len();
    let lb = b.unicode_len();
    let mut i: usize = 0;
    assert(a@.skip(0) == a@);
    assert(b@.skip(0) == b@);
    while i < la && i < lb && a.get_char(i) == b.get_char(i)
        invariant
            la == a@.len(),
            lb == b@.len(),
            i <= la,
            i <= lb,
            name_less(a@, b@) == name_less(a@.skip(i as int), b@.skip(i as int)),
        decreases la - i,
    {
        proof {
            let sa = a@.skip(i as int);
            let sb = b@.skip(i as int);
            assert(sa.skip(1) == a@.skip(i + 1));
            assert(sb.skip(1) == b@.skip(i + 1));
        }
        i = i + 1;
    }
    proof {
        assert(a@.skip(0) == a@);
        assert(b@.skip(0) == b@);
    }
    if i == la {
        i < lb
    } else if i == lb {
        false
    } else {
        a.get_char(i) < b.get_char(i)
    }
}

/// The index just after the last `/` of `name`, 0 if it has none.
pub open spec fn after_last_slash(name: Seq<char>) -> int
    decreases name.len(),
{
    if name.len() == 0 {
        0
    } else if name.last() == '/' {
        name.len() as int
    } else {
        after_last_slash(name.drop_last())
    }
}

/// Where the part of a reducer's name that the histogram shows begins: what
/// follows its last `/`, cut to its last `NAME_WIDTH` characters.
pub open spec fn display_start(name: Seq<char>) -> int {
    if name.len() - after_last_slash(name) > NAME_WIDTH {
        name.len() - NAME_WIDTH
    } else {
        after_last_slash(name)
    }
}

/// The part of a reducer's name that the histogram shows.
pub fn display_name(name: &str) -> (r: String)
    ensures
        r@ == name@.subrange(display_start(name@), name@.len() as int),
{
    let len = name.unicode_len();
    let mut j: usize = len;
    assert(name@.take(len as int) == name@);
    while j > 0 && name.get_char(j - 1) != '/'
        invariant
            len == name@.len(),
            j <= len,
            after_last_slash(name@) == after_last_slash(name@.take(j as int)),
        decreases j,
    {
        proof {
            assert(name@.take(j as int).drop_last() == name@.take(j - 1));
            assert(name@.take(j as int).last() == name@[j - 1]);
        }
        j = j - 1;
    }
    proof {
        assert(name@.take(len as int) == name@);
        if j > 0 {
            assert(name@.take(j as int).last() == name@[j - 1]);
        }
        assert(after_last_slash(name@) == j);
    }
    let start: usize = if len - j > NAME_WIDTH {
        len - NAME_WIDTH
    } else {
        j
    };
    String::from_str(name.substring_char(start, len))
}

} // verus!
