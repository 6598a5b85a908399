//! The table comparator.
//!
//! A [`TableQuotient`] partitions one table's records by a compiled mapping;
//! a [`TableComparator`] holds the two sides and reports, in a fixed sorted
//! order, every representative key whose classes differ in population.

use vstd::prelude::*;

verus! {

use crate::ValView;
use vstd::std_specs::cmp::PartialEqSpec;
use crate::columns::Columns;
use crate::record::{Record, Mapping};
use crate::quotient::{Quotient, Difference};
use crate::Tag;

/// The classes with their bags seen as views.
pub open spec fn bags_views(s: Seq<(Seq<ValView>, Seq<Record>)>) -> Seq<
    (Seq<ValView>, Seq<Seq<ValView>>),
> {
    s.map_values(|p: (Seq<ValView>, Seq<Record>)| (p.0, crate::record::rec_views(p.1)))
}

/// The partition reached by pushing each row in order, grouped by the key
/// the terms project it to.
pub open spec fn spec_fill(
    s: Seq<(Seq<ValView>, Seq<Seq<ValView>>)>,
    ts: Seq<crate::expr::Term>,
    rows: Seq<Seq<ValView>>,
) -> Seq<(Seq<ValView>, Seq<Seq<ValView>>)>
    decreases rows.len(),
{
    if rows.len() == 0 {
        s
    } else {
        spec_fill(
            crate::quotient::spec_push(s, crate::record::map_eval(ts, rows[0]), rows[0]),
            ts,
            rows.drop_first(),
        )
    }
}

/// Taking bag views commutes with one insertion.
proof fn lemma_push_bags_views(s: Seq<(Seq<ValView>, Seq<Record>)>, kv: Seq<ValView>, item: Record)
    ensures
        bags_views(crate::quotient::spec_push(s, kv, item)) == crate::quotient::spec_push(
            bags_views(s),
            kv,
            item@,
        ),
    decreases s.len(),
{
    lemma_class_index_bags(s, kv);
    let i = crate::quotient::class_index(s, kv);
    let lhs = bags_views(crate::quotient::spec_push(s, kv, item));
    let rhs = crate::quotient::spec_push(bags_views(s), kv, item@);
    if 0 <= i < s.len() {
        assert(crate::record::rec_views(s[i].1.push(item)) =~= crate::record::rec_views(
            s[i].1,
        ).push(item@));
        assert forall|k: int| 0 <= k < lhs.len() implies lhs[k] == rhs[k] by {
            if k == i {
                assert(crate::quotient::spec_push(s, kv, item)[k] == (s[i].0, s[i].1.push(item)));
                assert(bags_views(s)[i] == (s[i].0, crate::record::rec_views(s[i].1)));
            } else {
                assert(crate::quotient::spec_push(s, kv, item)[k] == s[k]);
                assert(bags_views(s)[k] == (s[k].0, crate::record::rec_views(s[k].1)));
            }
        }
        assert(lhs =~= rhs);
    } else {
        assert(crate::record::rec_views(seq![item]) =~= seq![item@]);
        assert forall|k: int| 0 <= k < lhs.len() implies lhs[k] == rhs[k] by {
            if k < s.len() {
                assert(crate::quotient::spec_push(s, kv, item)[k] == s[k]);
                assert(bags_views(s)[k] == (s[k].0, crate::record::rec_views(s[k].1)));
            } else {
                assert(crate::quotient::spec_push(s, kv, item)[k] == (kv, seq![item]));
            }
        }
        assert(lhs =~= rhs);
    }
}

/// Membership in a sequence extended by one element.
proof fn lemma_seq_push_contains<A>(s: Seq<A>, x: A, y: A)
    ensures
        s.push(x).contains(y) == (s.contains(y) || y == x),
{
    if s.push(x).contains(y) {
        let w = choose|w: int| 0 <= w < s.push(x).len() && (#[trigger] s.push(x)[w]) == y;
        if w < s.len() {
            assert(s[w] == y);
            assert(s.contains(y));
        }
    }
    if s.contains(y) {
        let w = choose|w: int| 0 <= w < s.len() && (#[trigger] s[w]) == y;
        assert(s.push(x)[w] == y);
        assert(s.push(x).contains(y));
    }
    if y == x {
        assert(s.push(x)[s.len() as int] == y);
        assert(s.push(x).contains(y));
    }
}

/// Membership in a sequence with one element inserted.
proof fn lemma_seq_insert_contains<A>(s: Seq<A>, p: int, x: A, y: A)
    requires
        0 <= p <= s.len(),
    ensures
        s.insert(p, x).contains(y) == (s.contains(y) || y == x),
{
    s.insert_ensures(p, x);
    let t = s.insert(p, x);
    if t.contains(y) {
        let w = choose|w: int| 0 <= w < t.len() && (#[trigger] t[w]) == y;
        if w < p {
            assert(t[w] == s[w]);
            assert(s.contains(y));
        } else if w > p {
            assert(t[(w - 1) + 1] == s[w - 1]);
            assert(s.contains(y));
        }
    }
    if s.contains(y) {
        let w = choose|w: int| 0 <= w < s.len() && (#[trigger] s[w]) == y;
        if w < p {
            assert(t[w] == s[w]);
        } else {
            assert(t[w + 1] == s[w]);
        }
        assert(t.contains(y));
    }
    if y == x {
        assert(t[p] == x);
        assert(t.contains(y));
    }
}

/// Taking bag views keeps the first-match search unchanged.
proof fn lemma_class_index_bags(s: Seq<(Seq<ValView>, Seq<Record>)>, kv: Seq<ValView>)
    ensures
        crate::quotient::class_index(bags_views(s), kv) == crate::quotient::class_index(s, kv),
    decreases s.len(),
{
    if s.len() > 0 {
        lemma_class_index_bags(s.drop_first(), kv);
        assert(bags_views(s).drop_first() =~= bags_views(s.drop_first()));
        assert(bags_views(s)[0] == (s[0].0, crate::record::rec_views(s[0].1)));
    }
}

/// A quotient of one table: the partition of its records under one side's
/// compiled mapping, kept with the originating schema for display.
pub struct TableQuotient {
    columns: Columns,
    quotient: Quotient<Record, Record, Mapping>,
}

impl TableQuotient {
    /// The schema's view.
    pub closed spec fn cols(self) -> Seq<(Seq<char>, Tag)> {
        self.columns@
    }

    /// The partition's view.
    pub closed spec fn part(self) -> Seq<(Seq<ValView>, Seq<Record>)> {
        self.quotient@
    }

    /// The terms of the mapping the partition groups by.
    pub closed spec fn terms(self) -> Seq<crate::expr::Term> {
        self.quotient.proj().0@
    }

    /// Keys are distinct and well-formed, bags are nonempty and hold
    /// well-formed records.
    pub open spec fn inv(self) -> bool {
        &&& crate::quotient::classes_wf(self.part())
        &&& forall|i: int| 0 <= i < self.part().len() ==> crate::rec_wf((#[trigger] self.part()[i]).0)
        &&& forall|i: int, j: int|
            0 <= i < self.part().len() && 0 <= j < self.part()[i].1.len() ==> (
            #[trigger] self.part()[i].1[j]).wf()
    }

    /// Partition a table's records under a mapping.
    pub fn new(table: &crate::table::Table, proj: &Mapping) -> (r: TableQuotient)
        requires
            table.wf(),
            forall|i: int| 0 <= i < table@.1.len() ==> crate::record::map_ok(
                proj.0@,
                #[trigger] table@.1[i],
            ),
        ensures
            r.cols() == table@.0,
            r.terms() == proj.0@,
            bags_views(r.part()) == spec_fill(
                Seq::<(Seq<ValView>, Seq<Seq<ValView>>)>::empty(),
                proj.0@,
                table@.1,
            ),
            r.inv(),
    {
        let mut quot: Quotient<Record, Record, Mapping> = Quotient::with_projection(
            proj.duplicate(),
        );
        let records = table.inner();
        let ghost rows = table@.1;
        let ghost ts = proj.0@;
        let mut i: usize = 0;
        proof {
            assert(crate::record::rec_views(records@) == rows);
            assert(rows.skip(0) =~= rows);
            assert(bags_views(quot@) =~= Seq::<(Seq<ValView>, Seq<Seq<ValView>>)>::empty());
            assert forall|a: Record, b: Record| #[trigger] a.eq_spec(&b) <==> a@ == b@ by {}
        }
        while i < records.len()
            invariant
                i <= records.len(),
                crate::quotient::eq_congruent::<Record>(),
                records@ == table.spec_records(),
                rows == crate::record::rec_views(records@),
                rows == table@.1,
                table.wf(),
                forall|k: int| 0 <= k < rows.len() ==> crate::record::map_ok(ts, #[trigger] rows[k]),
                quot.proj().0@ == ts,
                spec_fill(bags_views(quot@), ts, rows.skip(i as int)) == spec_fill(
                    Seq::<(Seq<ValView>, Seq<Seq<ValView>>)>::empty(),
                    ts,
                    rows,
                ),
                crate::quotient::classes_wf(quot@),
                forall|k: int| 0 <= k < quot@.len() ==> crate::rec_wf((#[trigger] quot@[k]).0),
                forall|k: int, j: int|
                    0 <= k < quot@.len() && 0 <= j < quot@[k].1.len() ==> (
                    #[trigger] quot@[k].1[j]).wf(),
            decreases records.len() - i,
        {
            proof {
                assert(rows[i as int] == records@[i as int]@);
                assert(records@[i as int].wf());
                assert(rows.skip(i as int)[0] == rows[i as int]);
                assert(rows.skip(i + 1 as int) =~= rows.skip(i as int).drop_first());
            }
            let item = records[i].duplicate();
            let ghost pre = quot@;
            let ghost kv = crate::record::map_eval(ts, item@);
            proof {
                crate::record::lemma_map_eval_wf(ts, item@);
            }
            quot.push(item);
            proof {
                lemma_push_bags_views(pre, kv, item);
                lemma_spec_push_wf(pre, kv, item);
            }
            i += 1;
        }
        proof {
            assert(rows.skip(rows.len() as int).len() == 0);
        }
        TableQuotient { columns: table.columns().duplicate(), quotient: quot }
    }

    /// The originating schema.
    pub fn columns(&self) -> (r: &Columns)
        ensures
            r@ == self.cols(),
    {
        &self.columns
    }

    /// The underlying partition.
    pub fn quotient(&self) -> (r: &Quotient<Record, Record, Mapping>)
        ensures
            r@ == self.part(),
    {
        &self.quotient
    }

    /// The keys of this side's classes that are different against the
    /// other side's (shallow, by bag sizes).
    pub fn difference<'a>(&'a self, other: &'a TableQuotient) -> (d: Difference<'a, Record>)
        ensures
            d.position() == 0,
            d.keys_seq() == crate::quotient::spec_diff_keys(self.part(), other.part()),
    {
        proof {
            assert forall|a: Record, b: Record| #[trigger] a.eq_spec(&b) <==> a@ == b@ by {}
        }
        self.quotient.difference(&other.quotient)
    }
}

/// Inserting a well-formed record under a well-formed key keeps every
/// class well-formed.
proof fn lemma_spec_push_wf(s: Seq<(Seq<ValView>, Seq<Record>)>, kv: Seq<ValView>, item: Record)
    requires
        forall|k: int| 0 <= k < s.len() ==> crate::rec_wf((#[trigger] s[k]).0),
        forall|k: int, j: int|
            0 <= k < s.len() && 0 <= j < s[k].1.len() ==> (#[trigger] s[k].1[j]).wf(),
        crate::rec_wf(kv),
        item.wf(),
    ensures
        forall|k: int|
            0 <= k < crate::quotient::spec_push(s, kv, item).len() ==> crate::rec_wf(
                (#[trigger] crate::quotient::spec_push(s, kv, item)[k]).0,
            ),
        forall|k: int, j: int|
            0 <= k < crate::quotient::spec_push(s, kv, item).len() && 0 <= j
                < crate::quotient::spec_push(s, kv, item)[k].1.len() ==> (
            #[trigger] crate::quotient::spec_push(s, kv, item)[k].1[j]).wf(),
{
    let out = crate::quotient::spec_push(s, kv, item);
    let i = crate::quotient::class_index(s, kv);
    assert forall|k: int, j: int|
        0 <= k < out.len() && 0 <= j < out[k].1.len() implies (#[trigger] out[k].1[j]).wf() by {
        if 0 <= i < s.len() {
            if k == i && j == out[k].1.len() - 1 {
            } else {
                assert(out[k].1[j] == s[k].1[j]);
            }
        } else {
            if k < s.len() {
                assert(out[k].1[j] == s[k].1[j]);
            }
        }
    }
}

/// All pairs of a key list stand in the strict record order.
pub open spec fn strictly_sorted(s: Seq<Seq<ValView>>) -> bool {
    forall|i: int, j: int| 0 <= i < j < s.len() ==> crate::rec_lt(#[trigger] s[i], #[trigger] s[j])
}

/// The views of a list of borrowed records.
pub open spec fn key_views(s: Seq<&Record>) -> Seq<Seq<ValView>> {
    s.map_values(|x: &Record| x@)
}

/// Whether a key's view occurs in a list of borrowed records.
fn contains_key(keys: &Vec<&Record>, x: &Record) -> (r: bool)
    ensures
        r == key_views(keys@).contains(x@),
{
    let mut i: usize = 0;
    while i < keys.len()
        invariant
            i <= keys.len(),
            forall|j: int| 0 <= j < i ==> key_views(keys@)[j] != x@,
        decreases keys.len() - i,
    {
        proof {
            assert(key_views(keys@)[i as int] == keys@[i as int]@);
        }
        if keys[i] == x {
            proof {
                assert(key_views(keys@)[i as int] == x@);
            }
            return true;
        }
        i += 1;
    }
    proof {
        if key_views(keys@).contains(x@) {
            let w = choose|w: int| 0 <= w < key_views(keys@).len() && (#[trigger] key_views(keys@)[w]) == x@;
            assert(key_views(keys@)[w] != x@);
        }
    }
    false
}

/// Sort well-formed, pairwise-distinct keys into the strict record order.
fn sort_keys(keys: Vec<&Record>) -> (r: Vec<&Record>)
    requires
        forall|i: int| 0 <= i < keys@.len() ==> (*#[trigger] keys@[i]).wf(),
        forall|i: int, j: int|
            0 <= i < j < keys@.len() ==> key_views(keys@)[i] != key_views(keys@)[j],
    ensures
        strictly_sorted(key_views(r@)),
        forall|i: int| 0 <= i < r@.len() ==> (*#[trigger] r@[i]).wf(),
        forall|kv: Seq<ValView>| key_views(r@).contains(kv) == key_views(keys@).contains(kv),
{
    let mut out: Vec<&Record> = Vec::new();
    let mut i: usize = 0;
    while i < keys.len()
        invariant
            i <= keys.len(),
            forall|k: int| 0 <= k < keys@.len() ==> (*#[trigger] keys@[k]).wf(),
            forall|k: int, j: int|
                0 <= k < j < keys@.len() ==> key_views(keys@)[k] != key_views(keys@)[j],
            forall|k: int| 0 <= k < out@.len() ==> (*#[trigger] out@[k]).wf(),
            strictly_sorted(key_views(out@)),
            forall|kv: Seq<ValView>|
                key_views(out@).contains(kv) == key_views(keys@.take(i as int)).contains(kv),
        decreases keys.len() - i,
    {
        let x = keys[i];
        proof {
            assert(key_views(keys@)[i as int] == x@);
            // The new key's view is absent from what is already placed.
            if key_views(out@).contains(x@) {
                let w = choose|w: int|
                    0 <= w < key_views(keys@.take(i as int)).len() && key_views(
                        keys@.take(i as int),
                    )[w] == x@;
                assert(key_views(keys@.take(i as int))[w] == keys@.take(i as int)[w]@);
                assert(keys@.take(i as int)[w] == keys@[w]);
                assert(key_views(keys@)[w] == x@);
                assert(false);
            }
        }
        // Find the insertion position: the first placed key above `x`.
        let mut p: usize = 0;
        while p < out.len() && crate::record::record_cmp(x, out[p]) != -1
            invariant
                p <= out.len(),
                x == keys@[i as int],
                x@ == key_views(keys@)[i as int],
                i < keys@.len(),
                forall|k: int| 0 <= k < keys@.len() ==> (*#[trigger] keys@[k]).wf(),
                forall|k: int| 0 <= k < out@.len() ==> (*#[trigger] out@[k]).wf(),
                strictly_sorted(key_views(out@)),
                !key_views(out@).contains(x@),
                forall|k: int| 0 <= k < p ==> crate::rec_lt(#[trigger] key_views(out@)[k], x@),
            decreases out.len() - p,
        {
            proof {
                assert(key_views(out@)[p as int] == out@[p as int]@);
                if !crate::rec_lt(out@[p as int]@, x@) && !crate::rec_lt(x@, out@[p as int]@) {
                    crate::lemma_rec_lt_connex(out@[p as int]@, x@);
                    assert(key_views(out@)[p as int] == x@);
                    assert(key_views(out@).contains(x@));
                }
            }
            p += 1;
        }
        proof {
            if p < out@.len() {
                assert(key_views(out@)[p as int] == out@[p as int]@);
                assert(crate::rec_lt(x@, out@[p as int]@));
            }
        }
        let ghost pre = out@;
        out.insert(p, x);
        proof {
            assert forall|a: int, b: int|
                0 <= a < b < out@.len() implies crate::rec_lt(
                #[trigger] key_views(out@)[a],
                #[trigger] key_views(out@)[b],
            ) by {
                assert(key_views(out@)[a] == out@[a]@);
                assert(key_views(out@)[b] == out@[b]@);
                let pa = if a < p {
                    a
                } else {
                    a - 1
                };
                let pb = if b < p {
                    b
                } else {
                    b - 1
                };
                if a == p {
                    // x against a later element
                    assert(out@[b] == pre[b - 1]);
                    assert(key_views(pre)[b - 1] == pre[b - 1]@);
                    if b - 1 == p {
                    } else {
                        assert(crate::rec_lt(key_views(pre)[p as int], key_views(pre)[b - 1]));
                        crate::lemma_rec_lt_trans(x@, pre[p as int]@, pre[b - 1]@);
                    }
                } else if b == p {
                    assert(out@[a] == pre[a]);
                    assert(key_views(pre)[a] == pre[a]@);
                    assert(crate::rec_lt(pre[a]@, x@));
                } else {
                    assert(out@[a] == pre[pa]);
                    assert(out@[b] == pre[pb]);
                    assert(key_views(pre)[pa] == pre[pa]@);
                    assert(key_views(pre)[pb] == pre[pb]@);
                    if a < p && b < p {
                        assert(crate::rec_lt(key_views(pre)[pa], key_views(pre)[pb]));
                    } else if a < p {
                        if pb == pa {
                            assert(false);
                        } else if pa < pb {
                            assert(crate::rec_lt(key_views(pre)[pa], key_views(pre)[pb]));
                        } else {
                            assert(false);
                        }
                    } else {
                        assert(crate::rec_lt(key_views(pre)[pa], key_views(pre)[pb]));
                    }
                }
            }
            pre.insert_ensures(p as int, x);
            assert(out@ == pre.insert(p as int, x));
            assert(key_views(pre).len() == pre.len());
            key_views(pre).insert_ensures(p as int, x@);
            assert forall|j: int|
                0 <= j < out@.len() implies key_views(out@)[j] == key_views(pre).insert(
                p as int,
                x@,
            )[j] by {
                assert(key_views(out@)[j] == out@[j]@);
                if j < p {
                    assert(out@[j] == pre[j]);
                    assert(key_views(pre)[j] == pre[j]@);
                } else if j > p {
                    assert(out@[(j - 1) + 1] == pre[j - 1]);
                    assert(key_views(pre)[j - 1] == pre[j - 1]@);
                    assert(key_views(pre).insert(p as int, x@)[(j - 1) + 1] == key_views(
                        pre,
                    )[j - 1]);
                }
            }
            assert(key_views(out@) =~= key_views(pre).insert(p as int, x@));
            assert(keys@.take(i + 1 as int) =~= keys@.take(i as int).push(x));
            assert forall|j: int|
                0 <= j < key_views(keys@.take(i + 1 as int)).len() implies key_views(
                keys@.take(i + 1 as int),
            )[j] == key_views(keys@.take(i as int)).push(x@)[j] by {
                assert(key_views(keys@.take(i + 1 as int))[j] == keys@.take(i + 1 as int)[j]@);
                if j < i {
                    assert(keys@.take(i + 1 as int)[j] == keys@[j]);
                    assert(keys@.take(i as int)[j] == keys@[j]);
                    assert(key_views(keys@.take(i as int))[j] == keys@.take(i as int)[j]@);
                }
            }
            assert(key_views(keys@.take(i + 1 as int)) =~= key_views(
                keys@.take(i as int),
            ).push(x@));
            assert forall|kv: Seq<ValView>|
                key_views(out@).contains(kv) == key_views(keys@.take(i + 1 as int)).contains(
                    kv,
                ) by {
                lemma_seq_insert_contains(key_views(pre), p as int, x@, kv);
                lemma_seq_push_contains(key_views(keys@.take(i as int)), x@, kv);
                assert(key_views(pre).contains(kv) == key_views(keys@.take(i as int)).contains(
                    kv,
                ));
            }
        }
        i += 1;
    }
    proof {
        assert(keys@.take(keys@.len() as int) =~= keys@);
    }
    out
}

/// Compares two partitioned tables and reports the differing keys.
pub struct TableComparator {
    source: TableQuotient,
    target: TableQuotient,
    empty_vec: Vec<Record>,
}

impl TableComparator {
    /// The source side's partition.
    pub closed spec fn src(self) -> Seq<(Seq<ValView>, Seq<Record>)> {
        self.source.part()
    }

    /// The target side's partition.
    pub closed spec fn tgt(self) -> Seq<(Seq<ValView>, Seq<Record>)> {
        self.target.part()
    }

    /// Both sides are well-formed partitions and the shared empty bag is
    /// empty.
    pub closed spec fn inv(self) -> bool {
        &&& self.source.inv()
        &&& self.target.inv()
        &&& self.empty_vec@.len() == 0
    }

    /// Build the comparator from a configuration and each side's raw bytes.
    pub fn from_app(
        app: &crate::app::App,
        source_data: &Vec<Vec<u8>>,
        target_data: &Vec<Vec<u8>>,
    ) -> (r: Result<TableComparator, crate::app::Error>)
        ensures
            r matches Ok(c) ==> (crate::app::spec_to_quotients(
                *app,
                crate::table::bytes_view(source_data@),
                crate::table::bytes_view(target_data@),
            ) matches Ok(q) && c.inv() && bags_views(c.src()) == q.0.1 && bags_views(c.tgt())
                == q.1.1),
            r matches Err(e) ==> crate::app::spec_to_quotients(
                *app,
                crate::table::bytes_view(source_data@),
                crate::table::bytes_view(target_data@),
            ) matches Err(ev) && e@ == ev,
    {
        match app.to_quotients(source_data, target_data) {
            Err(e) => Err(e),
            Ok((source, target)) => Ok(TableComparator::from_quotients(source, target)),
        }
    }

    /// Pair two quotients for comparison.
    pub fn from_quotients(source: TableQuotient, target: TableQuotient) -> (r: TableComparator)
        requires
            source.inv(),
            target.inv(),
        ensures
            r.inv(),
            r.src() == source.part(),
            r.tgt() == target.part(),
    {
        TableComparator { source, target, empty_vec: Vec::new() }
    }

    /// Every key that differs in either direction, deduplicated and sorted
    /// ascending in the record order — the same list on every call,
    /// whatever order the classes are walked in.
    pub fn different_points(&self) -> (r: Vec<&Record>)
        requires
            self.inv(),
        ensures
            strictly_sorted(key_views(r@)),
            forall|kv: Seq<ValView>|
                key_views(r@).contains(kv) == (crate::quotient::spec_diff_keys(
                    self.src(),
                    self.tgt(),
                ).contains(kv) || crate::quotient::spec_diff_keys(
                    self.tgt(),
                    self.src(),
                ).contains(kv)),
    {
        let mut d1 = self.source.difference(&self.target).remaining();
        let d2 = self.target.difference(&self.source).remaining();
        proof {
            let s1 = crate::quotient::spec_diff_keys(self.src(), self.tgt());
            let s2 = crate::quotient::spec_diff_keys(self.tgt(), self.src());
            assert(key_views(d1@) =~= s1.skip(0));
            assert(s1.skip(0) =~= s1);
            assert(key_views(d2@) =~= s2.skip(0));
            assert(s2.skip(0) =~= s2);
            lemma_diff_keys_wf(self.src(), self.tgt());
            lemma_diff_keys_wf(self.tgt(), self.src());
            lemma_diff_keys_distinct(self.src(), self.tgt());
            assert forall|k: int| 0 <= k < d1@.len() implies (*#[trigger] d1@[k]).wf() by {
                assert(key_views(d1@)[k] == d1@[k]@);
            }
            assert forall|k: int| 0 <= k < d2@.len() implies (*#[trigger] d2@[k]).wf() by {
                assert(key_views(d2@)[k] == d2@[k]@);
            }
        }
        let mut i: usize = 0;
        let ghost s1 = crate::quotient::spec_diff_keys(self.src(), self.tgt());
        let ghost s2 = crate::quotient::spec_diff_keys(self.tgt(), self.src());
        while i < d2.len()
            invariant
                i <= d2.len(),
                key_views(d2@) == s2,
                forall|k: int| 0 <= k < d1@.len() ==> (*#[trigger] d1@[k]).wf(),
                forall|k: int| 0 <= k < d2@.len() ==> (*#[trigger] d2@[k]).wf(),
                forall|k: int, j: int|
                    0 <= k < j < d1@.len() ==> key_views(d1@)[k] != key_views(d1@)[j],
                forall|kv: Seq<ValView>|
                    (#[trigger] key_views(d1@).contains(kv)) == (s1.contains(kv) || s2.take(
                        i as int,
                    ).contains(kv)),
            decreases d2.len() - i,
        {
            proof {
                assert(key_views(d2@)[i as int] == d2@[i as int]@);
                assert(s2.take(i + 1 as int) =~= s2.take(i as int).push(s2[i as int]));
            }
            let x = d2[i];
            if !contains_key(&d1, x) {
                let ghost pre = d1@;
                d1.push(x);
                proof {
                    assert(key_views(d1@) =~= key_views(pre).push(x@));
                    assert forall|kv: Seq<ValView>|
                        (#[trigger] key_views(d1@).contains(kv)) == (s1.contains(kv) || s2.take(
                            i + 1 as int,
                        ).contains(kv)) by {
                        lemma_seq_push_contains(key_views(pre), x@, kv);
                        lemma_seq_push_contains(s2.take(i as int), s2[i as int], kv);
                        assert(key_views(pre).contains(kv) == (s1.contains(kv) || s2.take(
                            i as int,
                        ).contains(kv)));
                    }
                    assert forall|k: int| 0 <= k < d1@.len() implies (*#[trigger] d1@[k]).wf() by {
                        if k < pre.len() {
                            assert(d1@[k] == pre[k]);
                        } else {
                            assert(d1@[k] == x);
                        }
                    }
                    assert forall|k: int, j: int|
                        0 <= k < j < d1@.len() implies key_views(d1@)[k] != key_views(
                        d1@,
                    )[j] by {
                        assert(key_views(d1@)[k] == d1@[k]@);
                        assert(key_views(d1@)[j] == d1@[j]@);
                        if j == d1@.len() - 1 {
                            assert(d1@[j] == x);
                            assert(d1@[k] == pre[k]);
                            assert(key_views(pre)[k] == pre[k]@);
                            if pre[k]@ == x@ {
                                assert(key_views(pre).contains(x@));
                                assert(false);
                            }
                        } else {
                            assert(d1@[k] == pre[k]);
                            assert(d1@[j] == pre[j]);
                            assert(key_views(pre)[k] == pre[k]@);
                            assert(key_views(pre)[j] == pre[j]@);
                        }
                    }
                }
            } else {
                proof {
                    assert forall|kv: Seq<ValView>|
                        (#[trigger] key_views(d1@).contains(kv)) == (s1.contains(kv) || s2.take(
                            i + 1 as int,
                        ).contains(kv)) by {
                        lemma_seq_push_contains(s2.take(i as int), s2[i as int], kv);
                        assert(key_views(d1@).contains(kv) == (s1.contains(kv) || s2.take(
                            i as int,
                        ).contains(kv)));
                        if kv == x@ {
                            assert(key_views(d1@).contains(x@));
                        }
                    }
                }
            }
            i += 1;
        }
        proof {
            assert(s2.take(s2.len() as int) =~= s2);
        }
        sort_keys(d1)
    }

    /// The original source-side and target-side records behind a key; an
    /// absent side yields the empty bag.
    pub fn get_records(&self, pt: &Record) -> (r: (&Vec<Record>, &Vec<Record>))
        requires
            self.inv(),
        ensures
            match crate::quotient::spec_get(self.src(), pt@) {
                Some(bag) => r.0@ == bag,
                None => r.0@.len() == 0,
            },
            match crate::quotient::spec_get(self.tgt(), pt@) {
                Some(bag) => r.1@ == bag,
                None => r.1@.len() == 0,
            },
    {
        proof {
            assert forall|a: Record, b: Record| #[trigger] a.eq_spec(&b) <==> a@ == b@ by {}
        }
        let src_class = match self.source.quotient().get(pt) {
            Some(class) => class,
            None => &self.empty_vec,
        };
        let tgt_class = match self.target.quotient().get(pt) {
            Some(class) => class,
            None => &self.empty_vec,
        };
        (src_class, tgt_class)
    }
}

/// Every reported key is one of the left side's (well-formed) class keys.
proof fn lemma_diff_keys_wf(a: Seq<(Seq<ValView>, Seq<Record>)>, b: Seq<(Seq<ValView>, Seq<Record>)>)
    requires
        forall|i: int| 0 <= i < a.len() ==> crate::rec_wf((#[trigger] a[i]).0),
    ensures
        forall|k: int|
            0 <= k < crate::quotient::spec_diff_keys(a, b).len() ==> crate::rec_wf(
                #[trigger] crate::quotient::spec_diff_keys(a, b)[k],
            ),
    decreases a.len(),
{
    if a.len() > 0 {
        assert forall|i: int| 0 <= i < a.drop_first().len() implies crate::rec_wf(
            (#[trigger] a.drop_first()[i]).0,
        ) by {
            assert(a.drop_first()[i] == a[i + 1]);
        }
        lemma_diff_keys_wf(a.drop_first(), b);
        let d = crate::quotient::spec_diff_keys(a, b);
        let rest = crate::quotient::spec_diff_keys(a.drop_first(), b);
        assert forall|k: int| 0 <= k < d.len() implies crate::rec_wf(#[trigger] d[k]) by {
            if crate::quotient::diff_at(a[0], b) {
                if k > 0 {
                    assert(d[k] == rest[k - 1]);
                }
            } else {
                assert(d[k] == rest[k]);
            }
        }
    }
}

/// With pairwise-distinct class keys the reported keys are pairwise
/// distinct too.
proof fn lemma_diff_keys_distinct(
    a: Seq<(Seq<ValView>, Seq<Record>)>,
    b: Seq<(Seq<ValView>, Seq<Record>)>,
)
    requires
        forall|i: int, j: int| 0 <= i < j < a.len() ==> (#[trigger] a[i]).0 != (#[trigger] a[j]).0,
    ensures
        forall|k: int, j: int|
            0 <= k < j < crate::quotient::spec_diff_keys(a, b).len()
                ==> crate::quotient::spec_diff_keys(a, b)[k] != crate::quotient::spec_diff_keys(
                a,
                b,
            )[j],
        forall|kv: Seq<ValView>|
            #[trigger] crate::quotient::spec_diff_keys(a, b).contains(kv) ==> exists|i: int|
                0 <= i < a.len() && (#[trigger] a[i]).0 == kv,
    decreases a.len(),
{
    if a.len() > 0 {
        assert forall|i: int, j: int|
            0 <= i < j < a.drop_first().len() implies (#[trigger] a.drop_first()[i]).0 != (
        #[trigger] a.drop_first()[j]).0 by {
            assert(a.drop_first()[i] == a[i + 1]);
            assert(a.drop_first()[j] == a[j + 1]);
        }
        lemma_diff_keys_distinct(a.drop_first(), b);
        let d = crate::quotient::spec_diff_keys(a, b);
        let rest = crate::quotient::spec_diff_keys(a.drop_first(), b);
        assert forall|kv: Seq<ValView>| #[trigger] d.contains(kv) implies exists|i: int|
            0 <= i < a.len() && (#[trigger] a[i]).0 == kv by {
            let w = choose|w: int| 0 <= w < d.len() && (#[trigger] d[w]) == kv;
            if crate::quotient::diff_at(a[0], b) {
                if w == 0 {
                    assert(a[0].0 == kv);
                } else {
                    assert(rest[w - 1] == kv);
                    assert(rest.contains(kv));
                    let u = choose|u: int| 0 <= u < a.drop_first().len() && (#[trigger] a.drop_first()[u]).0 == kv;
                    assert(a[u + 1].0 == kv);
                }
            } else {
                assert(rest[w] == kv);
                assert(rest.contains(kv));
                let u = choose|u: int| 0 <= u < a.drop_first().len() && (#[trigger] a.drop_first()[u]).0 == kv;
                assert(a[u + 1].0 == kv);
            }
        }
        assert forall|k: int, j: int| 0 <= k < j < d.len() implies d[k] != d[j] by {
            if crate::quotient::diff_at(a[0], b) {
                if k == 0 {
                    assert(d[j] == rest[j - 1]);
                    assert(rest.contains(rest[j - 1]));
                    if d[k] == d[j] {
                        let u = choose|u: int|
                            0 <= u < a.drop_first().len() && (#[trigger] a.drop_first()[u]).0 == rest[j - 1];
                        assert(a[u + 1].0 == a[0].0);
                        assert(false);
                    }
                } else {
                    assert(d[k] == rest[k - 1]);
                    assert(d[j] == rest[j - 1]);
                }
            } else {
                assert(d[k] == rest[k]);
                assert(d[j] == rest[j]);
            }
        }
    }
}

/// Two strictly sorted lists of well-formed keys with the same members are
/// the same list: the report order is determined by the keys alone,
/// independent of any traversal order.
pub proof fn lemma_sorted_unique(s1: Seq<Seq<ValView>>, s2: Seq<Seq<ValView>>)
    requires
        strictly_sorted(s1),
        strictly_sorted(s2),
        forall|k: int| 0 <= k < s1.len() ==> crate::rec_wf(#[trigger] s1[k]),
        forall|k: int| 0 <= k < s2.len() ==> crate::rec_wf(#[trigger] s2[k]),
        forall|kv: Seq<ValView>| s1.contains(kv) == s2.contains(kv),
    ensures
        s1 == s2,
    decreases s1.len(),
{
    if s1.len() == 0 {
        if s2.len() > 0 {
            assert(s2.contains(s2[0]));
            assert(false);
        }
        assert(s1 =~= s2);
    } else {
        assert(s1.contains(s1[0]));
        assert(s2.contains(s1[0]));
        let j = choose|j: int| 0 <= j < s2.len() && (#[trigger] s2[j]) == s1[0];
        if j > 0 {
            assert(s2.contains(s2[0]));
            assert(s1.contains(s2[0]));
            let i = choose|i: int| 0 <= i < s1.len() && (#[trigger] s1[i]) == s2[0];
            assert(crate::rec_lt(s2[0], s2[j]));
            if i == 0 {
                crate::lemma_rec_lt_irrefl(s1[0]);
                assert(false);
            } else {
                assert(crate::rec_lt(s1[0], s1[i]));
                crate::lemma_rec_lt_trans(s1[0], s1[i], s2[j]);
                crate::lemma_rec_lt_irrefl(s1[0]);
                assert(false);
            }
        }
        assert(s2.len() > 0 && s2[0] == s1[0]);
        assert forall|kv: Seq<ValView>|
            s1.drop_first().contains(kv) == s2.drop_first().contains(kv) by {
            lemma_head_member(s1, kv);
            lemma_head_member(s2, kv);
            assert(s2[0] == s1[0]);
        }
        assert forall|k: int| 0 <= k < s1.drop_first().len() implies crate::rec_wf(
            #[trigger] s1.drop_first()[k],
        ) by {
            assert(s1.drop_first()[k] == s1[k + 1]);
        }
        assert forall|k: int| 0 <= k < s2.drop_first().len() implies crate::rec_wf(
            #[trigger] s2.drop_first()[k],
        ) by {
            assert(s2.drop_first()[k] == s2[k + 1]);
        }
        assert forall|a: int, b: int|
            0 <= a < b < s1.drop_first().len() implies crate::rec_lt(
            #[trigger] s1.drop_first()[a],
            #[trigger] s1.drop_first()[b],
        ) by {
            assert(s1.drop_first()[a] == s1[a + 1]);
            assert(s1.drop_first()[b] == s1[b + 1]);
        }
        assert forall|a: int, b: int|
            0 <= a < b < s2.drop_first().len() implies crate::rec_lt(
            #[trigger] s2.drop_first()[a],
            #[trigger] s2.drop_first()[b],
        ) by {
            assert(s2.drop_first()[a] == s2[a + 1]);
            assert(s2.drop_first()[b] == s2[b + 1]);
        }
        lemma_sorted_unique(s1.drop_first(), s2.drop_first());
        assert(s1.len() == s2.len());
        assert forall|k: int| 0 <= k < s1.len() implies s1[k] == s2[k] by {
            if k > 0 {
                assert(s1[k] == s1.drop_first()[k - 1]);
                assert(s2[k] == s2.drop_first()[k - 1]);
            }
        }
        assert(s1 =~= s2);
    }
}

/// Membership in a strictly sorted list splits into the head and the tail.
proof fn lemma_head_member(s: Seq<Seq<ValView>>, kv: Seq<ValView>)
    requires
        s.len() > 0,
        strictly_sorted(s),
        forall|k: int| 0 <= k < s.len() ==> crate::rec_wf(#[trigger] s[k]),
    ensures
        s.drop_first().contains(kv) == (s.contains(kv) && kv != s[0]),
{
    if s.drop_first().contains(kv) {
        let w = choose|w: int| 0 <= w < s.drop_first().len() && (#[trigger] s.drop_first()[w]) == kv;
        assert(s[w + 1] == kv);
        assert(s.contains(kv));
        assert(crate::rec_lt(s[0], s[w + 1]));
        if kv == s[0] {
            crate::lemma_rec_lt_irrefl(s[0]);
            assert(false);
        }
    }
    if s.contains(kv) && kv != s[0] {
        let w = choose|w: int| 0 <= w < s.len() && (#[trigger] s[w]) == kv;
        assert(w > 0);
        assert(s.drop_first()[w - 1] == kv);
        assert(s.drop_first().contains(kv));
    }
}

/// The sorted report is unique: any two lists that both satisfy what
/// `different_points` ensures for the same comparator state are equal.
pub proof fn lemma_different_points_deterministic(
    r1: Seq<Seq<ValView>>,
    r2: Seq<Seq<ValView>>,
    src: Seq<(Seq<ValView>, Seq<Record>)>,
    tgt: Seq<(Seq<ValView>, Seq<Record>)>,
)
    requires
        forall|i: int| 0 <= i < src.len() ==> crate::rec_wf((#[trigger] src[i]).0),
        forall|i: int| 0 <= i < tgt.len() ==> crate::rec_wf((#[trigger] tgt[i]).0),
        strictly_sorted(r1),
        strictly_sorted(r2),
        forall|kv: Seq<ValView>|
            r1.contains(kv) == (crate::quotient::spec_diff_keys(src, tgt).contains(kv)
                || crate::quotient::spec_diff_keys(tgt, src).contains(kv)),
        forall|kv: Seq<ValView>|
            r2.contains(kv) == (crate::quotient::spec_diff_keys(src, tgt).contains(kv)
                || crate::quotient::spec_diff_keys(tgt, src).contains(kv)),
    ensures
        r1 == r2,
{
    lemma_diff_keys_wf(src, tgt);
    lemma_diff_keys_wf(tgt, src);
    assert forall|k: int| 0 <= k < r1.len() implies crate::rec_wf(#[trigger] r1[k]) by {
        assert(r1.contains(r1[k]));
    }
    assert forall|k: int| 0 <= k < r2.len() implies crate::rec_wf(#[trigger] r2[k]) by {
        assert(r2.contains(r2[k]));
    }
    lemma_sorted_unique(r1, r2);
}

} // verus!
