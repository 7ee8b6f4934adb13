//! Unique aggregation: fold the record stream into one summary per distinct
//! path, emitted in case-folded path order.
use vstd::prelude::*;

verus! {

use vstd::utf8::encode_utf8;
use vstd::string::StrSliceExecFns;
use crate::flags::{self, str_eq, spec_render, Vocab};

/// What case folding a string yields.
pub uninterp spec fn lower_of(s: Seq<char>) -> Seq<char>;

/// Relies on str::to_lowercase: the result depends on the characters alone.
#[verifier::external_body]
fn fold_case(s: &str) -> (r: String)
    ensures
        r@ == lower_of(s@),
{
    s.to_lowercase()
}

/// The sort key of a path: the UTF-8 bytes of its case-folded text.
pub open spec fn folded_key(path: Seq<char>) -> Seq<u8> {
    encode_utf8(lower_of(path))
}

/// Lexicographic order on byte strings.
pub open spec fn bytes_le(a: Seq<u8>, b: Seq<u8>) -> bool
    decreases a.len(),
{
    if a.len() == 0 {
        true
    } else if b.len() == 0 {
        false
    } else if a[0] < b[0] {
        true
    } else if a[0] > b[0] {
        false
    } else {
        bytes_le(a.subrange(1, a.len() as int), b.subrange(1, b.len() as int))
    }
}

proof fn lemma_bytes_le_total(a: Seq<u8>, b: Seq<u8>)
    ensures
        bytes_le(a, b) || bytes_le(b, a),
    decreases a.len(),
{
    if a.len() > 0 && b.len() > 0 && a[0] == b[0] {
        lemma_bytes_le_total(a.subrange(1, a.len() as int), b.subrange(1, b.len() as int));
    }
}

proof fn lemma_bytes_le_trans(a: Seq<u8>, b: Seq<u8>, c: Seq<u8>)
    requires
        bytes_le(a, b),
        bytes_le(b, c),
    ensures
        bytes_le(a, c),
    decreases a.len(),
{
    if a.len() > 0 && b.len() > 0 && c.len() > 0 && a[0] == b[0] && b[0] == c[0] {
        lemma_bytes_le_trans(
            a.subrange(1, a.len() as int),
            b.subrange(1, b.len() as int),
            c.subrange(1, c.len() as int),
        );
    }
}

/// Compare two byte strings lexicographically.
fn bytes_le_exec(x: &Vec<u8>, y: &Vec<u8>) -> (r: bool)
    ensures
        r == bytes_le(x@, y@),
{
    let mut i: usize = 0;
    proof {
        assert(x@.subrange(0, x@.len() as int) =~= x@);
        assert(y@.subrange(0, y@.len() as int) =~= y@);
    }
    loop
        invariant
            i <= x@.len(),
            i <= y@.len(),
            bytes_le(x@, y@) == bytes_le(
                x@.subrange(i as int, x@.len() as int),
                y@.subrange(i as int, y@.len() as int),
            ),
        decreases x@.len() - i,
    {
        let ghost xs = x@.subrange(i as int, x@.len() as int);
        let ghost ys = y@.subrange(i as int, y@.len() as int);
        if i == x.len() {
            return true;
        }
        if i == y.len() {
            return false;
        }
        proof {
            assert(xs[0] == x@[i as int]);
            assert(ys[0] == y@[i as int]);
        }
        if x[i] < y[i] {
            return true;
        }
        if x[i] > y[i] {
            return false;
        }
        proof {
            assert(xs.subrange(1, xs.len() as int) =~= x@.subrange(i + 1, x@.len() as int));
            assert(ys.subrange(1, ys.len() as int) =~= y@.subrange(i + 1, y@.len() as int));
        }
        i += 1;
    }
}

/// The running summary of one distinct path: how many records carried it and
/// the OR of every flag bitmask seen with it.
#[derive(Clone, Copy, Debug, PartialEq, Eq, Structural)]
pub struct UniqueCounts {
    pub counts: u64,
    pub flags: u32,
}

impl Default for UniqueCounts {
    /// The summary before any record: nothing counted, no flags seen.
    fn default() -> (r: Self)
        ensures
            r.counts == 0,
            r.flags == 0,
    {
        UniqueCounts { counts: 0, flags: 0 }
    }
}

impl UniqueCounts {
    /// Fold one record's bitmask into the summary.
    pub fn update(&mut self, flag: u32)
        requires
            old(self).counts < u64::MAX,
        ensures
            final(self).counts == old(self).counts + 1,
            final(self).flags == old(self).flags | flag,
    {
        self.counts = self.counts + 1;
        self.flags = self.flags | flag;
    }

    /// Turn the summary into an output row for `path`, with the combined
    /// flags rendered as text against both vocabularies.
    pub fn into_unique_out(self, path: String) -> (r: UniqueOut)
        ensures
            r.path@ == path@,
            r.counts == self.counts,
            r.flags@ == spec_render(Vocab::Norm, self.flags),
            r.alt_flags@ == spec_render(Vocab::Alt, self.flags),
    {
        let f = flags::parse_bits(self.flags);
        UniqueOut { path, counts: self.counts, flags: f.norm, alt_flags: f.alt }
    }
}

/// One emitted summary row.
#[derive(Debug)]
pub struct UniqueOut {
    pub path: String,
    pub counts: u64,
    pub flags: String,
    pub alt_flags: String,
}

struct AggEntry {
    path: String,
    folded: Vec<u8>,
    counts: UniqueCounts,
}

spec fn entry_val(e: AggEntry) -> (u64, u32) {
    (e.counts.counts, e.counts.flags)
}

spec fn entry_map(s: Seq<AggEntry>) -> Map<Seq<char>, (u64, u32)>
    decreases s.len(),
{
    if s.len() == 0 {
        Map::empty()
    } else {
        entry_map(s.drop_last()).insert(s.last().path@, entry_val(s.last()))
    }
}

proof fn lemma_entry_map_contains(s: Seq<AggEntry>, k: Seq<char>)
    ensures
        entry_map(s).contains_key(k) <==> exists|i: int| 0 <= i < s.len() && s[i].path@ == k,
    decreases s.len(),
{
    if s.len() > 0 {
        lemma_entry_map_contains(s.drop_last(), k);
        if entry_map(s).contains_key(k) {
            if s.last().path@ == k {
                assert(s[s.len() - 1].path@ == k);
            } else {
                let i = choose|i: int| 0 <= i < s.drop_last().len() && s.drop_last()[i].path@ == k;
                assert(s[i].path@ == k);
            }
        }
        if exists|i: int| 0 <= i < s.len() && s[i].path@ == k {
            let i = choose|i: int| 0 <= i < s.len() && s[i].path@ == k;
            if i < s.len() - 1 {
                assert(s.drop_last()[i].path@ == k);
            }
        }
    }
}

spec fn paths_unique(s: Seq<AggEntry>) -> bool {
    forall|i: int, j: int| 0 <= i < j < s.len() ==> s[i].path@ != s[j].path@
}

proof fn lemma_entry_map_index(s: Seq<AggEntry>, i: int)
    requires
        paths_unique(s),
        0 <= i < s.len(),
    ensures
        entry_map(s).contains_key(s[i].path@),
        entry_map(s)[s[i].path@] == entry_val(s[i]),
    decreases s.len(),
{
    if i == s.len() - 1 {
        assert(s.last() == s[i]);
    } else {
        lemma_entry_map_index(s.drop_last(), i);
        assert(s.drop_last()[i] == s[i]);
        assert(s.last().path@ != s[i].path@);
    }
}

proof fn lemma_entry_map_update(s: Seq<AggEntry>, i: int, e: AggEntry)
    requires
        paths_unique(s),
        0 <= i < s.len(),
        s[i].path@ == e.path@,
    ensures
        entry_map(s.update(i, e)) =~= entry_map(s).insert(e.path@, entry_val(e)),
    decreases s.len(),
{
    let t = s.update(i, e);
    if i == s.len() - 1 {
        assert(t.drop_last() =~= s.drop_last());
        assert(t.last() == e);
    } else {
        lemma_entry_map_update(s.drop_last(), i, e);
        assert(t.drop_last() =~= s.drop_last().update(i, e));
        assert(t.last() == s.last());
        assert(s.last().path@ != e.path@);
    }
}

proof fn lemma_entry_map_insert(s: Seq<AggEntry>, p: int, e: AggEntry)
    requires
        0 <= p <= s.len(),
        forall|i: int| 0 <= i < s.len() ==> (#[trigger] s[i].path@) != e.path@,
    ensures
        entry_map(s.insert(p, e)) =~= entry_map(s).insert(e.path@, entry_val(e)),
    decreases s.len(),
{
    let t = s.insert(p, e);
    if p == s.len() {
        assert(t.drop_last() =~= s);
        assert(t.last() == e);
    } else {
        lemma_entry_map_insert(s.drop_last(), p, e);
        assert(t.drop_last() =~= s.drop_last().insert(p, e));
        assert(t.last() == s.last());
        assert(s[s.len() - 1].path@ != e.path@);
    }
}

/// A sink that folds the record stream into one summary per distinct path.
/// Its view is the map from each seen path to its count and combined flags.
pub struct UniqueAggregator {
    entries: Vec<AggEntry>,
}

impl View for UniqueAggregator {
    type V = Map<Seq<char>, (u64, u32)>;

    closed spec fn view(&self) -> Map<Seq<char>, (u64, u32)> {
        entry_map(self.entries@)
    }
}

impl UniqueAggregator {
    /// Every stored summary belongs to a distinct path, sort keys are the
    /// case-folded path bytes, and entries stand in sort-key order.
    pub closed spec fn wf(self) -> bool {
        &&& paths_unique(self.entries@)
        &&& (forall|i: int|
            0 <= i < self.entries@.len() ==> (#[trigger] self.entries@[i].folded@) == folded_key(
                self.entries@[i].path@,
            ))
        &&& (forall|i: int, j: int|
            0 <= i < j < self.entries@.len() ==> bytes_le(
                self.entries@[i].folded@,
                self.entries@[j].folded@,
            ))
    }

    /// An aggregator that has seen nothing.
    pub fn new() -> (r: UniqueAggregator)
        ensures
            r.wf(),
            r@ == Map::<Seq<char>, (u64, u32)>::empty(),
    {
        UniqueAggregator { entries: Vec::new() }
    }

    /// Fold one record into the aggregate: look up (or create) the path's
    /// summary, count the record, and OR its flag bits in.
    #[verifier::rlimit(100)]
    pub fn update(&mut self, path: &str, flag: u32)
        requires
            old(self).wf(),
            old(self)@.contains_key(path@) ==> old(self)@[path@].0 < u64::MAX,
        ensures
            final(self).wf(),
            final(self)@ == if old(self)@.contains_key(path@) {
                old(self)@.insert(
                    path@,
                    ((old(self)@[path@].0 + 1) as u64, old(self)@[path@].1 | flag),
                )
            } else {
                old(self)@.insert(path@, (1u64, flag))
            },
    {
        let n = self.entries.len();
        let mut i: usize = 0;
        let mut found = false;
        while !found && i < n
            invariant
                self == old(self),
                n == self.entries@.len(),
                i <= n,
                forall|q: int| 0 <= q < i ==> (#[trigger] self.entries@[q].path@) != path@,
                found ==> (i < n && self.entries@[i as int].path@ == path@),
            decreases n - i + (if found {
                0int
            } else {
                1int
            }),
        {
            if str_eq(self.entries[i].path.as_str(), path) {
                found = true;
            } else {
                i += 1;
            }
        }
        if found {
            proof {
                lemma_entry_map_index(self.entries@, i as int);
            }
            let mut entry = self.entries.remove(i);
            entry.counts.update(flag);
            let ghost e2 = entry;
            self.entries.insert(i, entry);
            proof {
                let s = old(self).entries@;
                let t = self.entries@;
                assert(t =~= s.update(i as int, e2));
                lemma_entry_map_update(s, i as int, e2);
                assert(forall|k: int|
                    0 <= k < t.len() ==> (#[trigger] t[k]).path@ == s[k].path@ && t[k].folded@
                        == s[k].folded@);
            }
            return ;
        }
        proof {
            lemma_entry_map_contains(self.entries@, path@);
        }
        let folded = fold_case(path).as_str().as_bytes_vec();
        let mut p: usize = 0;
        let mut stop = false;
        while !stop && p < n
            invariant
                n == self.entries@.len(),
                p <= n,
                forall|q: int|
                    0 <= q < p ==> bytes_le(#[trigger] self.entries@[q].folded@, folded@),
                stop ==> (p < n && !bytes_le(self.entries@[p as int].folded@, folded@)),
            decreases n - p + (if stop {
                0int
            } else {
                1int
            }),
        {
            if !bytes_le_exec(&self.entries[p].folded, &folded) {
                stop = true;
            } else {
                p += 1;
            }
        }
        proof {
            if (p as int) < self.entries@.len() {
                lemma_bytes_le_total(self.entries@[p as int].folded@, folded@);
                assert(bytes_le(folded@, self.entries@[p as int].folded@));
            }
        }
        let e = AggEntry {
            path: path.to_owned(),
            folded,
            counts: UniqueCounts { counts: 1, flags: flag },
        };
        proof {
            lemma_entry_map_insert(self.entries@, p as int, e);
        }
        self.entries.insert(p, e);
        proof {
            let s = old(self).entries@;
            let t = self.entries@;
            s.insert_ensures(p as int, e);
            assert(forall|k: int|
                0 <= k < t.len() ==> (#[trigger] t[k]) == (if k < p {
                    s[k]
                } else if k == p {
                    e
                } else {
                    s[k - 1]
                }));
            assert forall|i2: int, j2: int| 0 <= i2 < j2 < t.len() implies bytes_le(
                t[i2].folded@,
                t[j2].folded@,
            ) by {
                if i2 < p && j2 == p {
                    assert(bytes_le(s[i2].folded@, folded@));
                } else if i2 == p && j2 == p + 1 {
                    assert(bytes_le(folded@, s[p as int].folded@));
                } else if i2 == p && j2 > p + 1 {
                    assert(bytes_le(folded@, s[p as int].folded@));
                    lemma_bytes_le_trans(folded@, s[p as int].folded@, s[j2 - 1].folded@);
                }
            };
            assert(paths_unique(t));
            assert(forall|k: int|
                0 <= k < t.len() ==> (#[trigger] t[k].folded@) == folded_key(t[k].path@));
        }
    }

    /// Emit one row per distinct path, in case-folded path order: each row
    /// carries the path, its record count, and its combined flags rendered
    /// as text.
    pub fn into_rows(self) -> (rows: Vec<UniqueOut>)
        requires
            self.wf(),
        ensures
            forall|k: int|
                0 <= k < rows@.len() ==> {
                    let row = #[trigger] rows@[k];
                    &&& self@.contains_key(row.path@)
                    &&& row.counts == self@[row.path@].0
                    &&& row.flags@ == spec_render(Vocab::Norm, self@[row.path@].1)
                    &&& row.alt_flags@ == spec_render(Vocab::Alt, self@[row.path@].1)
                },
            forall|key: Seq<char>|
                self@.contains_key(key) ==> exists|k: int|
                    0 <= k < rows@.len() && (#[trigger] rows@[k].path@) == key,
            forall|i: int, j: int| 0 <= i < j < rows@.len() ==> rows@[i].path@ != rows@[j].path@,
            forall|i: int, j: int|
                0 <= i < j < rows@.len() ==> bytes_le(
                    folded_key(rows@[i].path@),
                    folded_key(rows@[j].path@),
                ),
    {
        let entries = self.entries;
        let n = entries.len();
        let mut rows: Vec<UniqueOut> = Vec::new();
        let mut i: usize = 0;
        while i < n
            invariant
                n == entries@.len(),
                i <= n,
                rows@.len() == i,
                paths_unique(entries@),
                forall|q: int|
                    0 <= q < entries@.len() ==> (#[trigger] entries@[q].folded@) == folded_key(
                        entries@[q].path@,
                    ),
                forall|q: int, r: int|
                    0 <= q < r < entries@.len() ==> bytes_le(
                        entries@[q].folded@,
                        entries@[r].folded@,
                    ),
                forall|k: int|
                    0 <= k < i ==> (#[trigger] rows@[k].path@) == entries@[k].path@
                        && rows@[k].counts == entries@[k].counts.counts && rows@[k].flags@
                        == spec_render(Vocab::Norm, entries@[k].counts.flags) && rows@[k].alt_flags@
                        == spec_render(Vocab::Alt, entries@[k].counts.flags),
            decreases n - i,
        {
            let path = entries[i].path.clone();
            let counts = entries[i].counts;
            rows.push(counts.into_unique_out(path));
            i += 1;
        }
        proof {
            assert forall|k: int| 0 <= k < rows@.len() implies {
                let row = #[trigger] rows@[k];
                &&& entry_map(entries@).contains_key(row.path@)
                &&& row.counts == entry_map(entries@)[row.path@].0
                &&& row.flags@ == spec_render(Vocab::Norm, entry_map(entries@)[row.path@].1)
                &&& row.alt_flags@ == spec_render(Vocab::Alt, entry_map(entries@)[row.path@].1)
            } by {
                lemma_entry_map_index(entries@, k);
            };
            assert forall|key: Seq<char>| entry_map(entries@).contains_key(key) implies exists|
                k: int,
            | 0 <= k < rows@.len() && (#[trigger] rows@[k].path@) == key by {
                lemma_entry_map_contains(entries@, key);
                let i2 = choose|i2: int| 0 <= i2 < entries@.len() && entries@[i2].path@ == key;
                assert(rows@[i2].path@ == key);
            };
            assert forall|i2: int, j2: int| 0 <= i2 < j2 < rows@.len() implies bytes_le(
                folded_key(rows@[i2].path@),
                folded_key(rows@[j2].path@),
            ) by {
                assert(entries@[i2].folded@ == folded_key(entries@[i2].path@));
                assert(entries@[j2].folded@ == folded_key(entries@[j2].path@));
                assert(bytes_le(entries@[i2].folded@, entries@[j2].folded@));
            };
        }
        rows
    }
}

} // verus!
