//! The equivalence-class container.
//!
//! A [`Quotient`] groups points by the representative that an injected
//! [`Projection`] maps them to: each representative key owns the bag of
//! points that projected to it, in first-seen insertion order. Two keys name
//! the same class exactly when their views are equal, so the container asks
//! that the key type's executable equality agree with view equality; keys
//! are kept pairwise distinct under it.

use vstd::prelude::*;

verus! {

use vstd::std_specs::cmp::PartialEqSpec;

/// A strategy mapping a point of the domain to its representative.
pub trait Projection {
    type Domain: View;

    type Target: View;

    /// Whether the projection is defined on a point.
    spec fn wf(&self, x: <Self::Domain as View>::V) -> bool;

    /// What the projection maps a point to.
    spec fn spec_project(&self, x: <Self::Domain as View>::V) -> <Self::Target as View>::V;

    /// Map a point to its representative.
    fn project(&self, x: &Self::Domain) -> (r: Self::Target)
        requires
            self.wf(x@),
        ensures
            r@ == self.spec_project(x@),
    ;
}

/// The key type's executable equality decides exactly view equality.
pub open spec fn eq_congruent<R: PartialEqSpec + View>() -> bool {
    &&& R::obeys_eq_spec()
    &&& forall|a: R, b: R| #[trigger] a.eq_spec(&b) <==> a@ == b@
}

/// The position of the first class keyed by `k`, or `-1` when none is.
pub open spec fn class_index<RV, T>(s: Seq<(RV, Seq<T>)>, k: RV) -> int
    decreases s.len(),
{
    if s.len() == 0 {
        -1
    } else if s[0].0 == k {
        0
    } else if class_index(s.drop_first(), k) == -1 {
        -1
    } else {
        1 + class_index(s.drop_first(), k)
    }
}

/// The bag of the class keyed by `k`, when there is one.
pub open spec fn spec_get<RV, T>(s: Seq<(RV, Seq<T>)>, k: RV) -> Option<Seq<T>> {
    let i = class_index(s, k);
    if 0 <= i < s.len() {
        Some(s[i].1)
    } else {
        None
    }
}

/// The classes after inserting `item` under key `k`: appended to the first
/// class keyed by `k`, or opening a new class at the end.
pub open spec fn spec_push<RV, T>(s: Seq<(RV, Seq<T>)>, k: RV, item: T) -> Seq<(RV, Seq<T>)> {
    let i = class_index(s, k);
    if 0 <= i < s.len() {
        s.update(i, (s[i].0, s[i].1.push(item)))
    } else {
        s.push((k, seq![item]))
    }
}

/// Keys are pairwise distinct, and no bag is empty.
pub open spec fn classes_wf<RV, T>(s: Seq<(RV, Seq<T>)>) -> bool {
    &&& forall|i: int, j: int| 0 <= i < j < s.len() ==> (#[trigger] s[i]).0 != (#[trigger] s[j]).0
    &&& forall|i: int| 0 <= i < s.len() ==> (#[trigger] s[i]).1.len() > 0
}

/// Where the first-match search for a key lands: before `m` nothing is
/// equal, and `m` (if in range) is equal.
pub proof fn lemma_class_index<RV, T>(s: Seq<(RV, Seq<T>)>, k: RV, m: int)
    requires
        0 <= m <= s.len(),
        forall|j: int| 0 <= j < m ==> (#[trigger] s[j]).0 != k,
        m < s.len() ==> s[m].0 == k,
    ensures
        class_index(s, k) == if m == s.len() {
            -1
        } else {
            m
        },
    decreases s.len(),
{
    if s.len() > 0 {
        if m == 0 {
        } else {
            assert(s[0].0 != k);
            assert forall|j: int| 0 <= j < m - 1 implies (#[trigger] s.drop_first()[j]).0 != k by {
                assert(s.drop_first()[j] == s[j + 1]);
            }
            lemma_class_index(s.drop_first(), k, m - 1);
        }
    }
}

/// The first-match search lands at `-1` or inside the sequence, and where
/// it lands the key matches.
pub proof fn lemma_class_index_range<RV, T>(s: Seq<(RV, Seq<T>)>, k: RV)
    ensures
        -1 <= class_index(s, k) < s.len(),
        0 <= class_index(s, k) ==> s[class_index(s, k)].0 == k,
    decreases s.len(),
{
    if s.len() > 0 {
        lemma_class_index_range(s.drop_first(), k);
    }
}

/// A failed first-match search means no key matches.
pub proof fn lemma_class_index_none<RV, T>(s: Seq<(RV, Seq<T>)>, k: RV)
    requires
        class_index(s, k) == -1,
    ensures
        forall|j: int| 0 <= j < s.len() ==> (#[trigger] s[j]).0 != k,
    decreases s.len(),
{
    if s.len() > 0 {
        lemma_class_index_range(s.drop_first(), k);
        lemma_class_index_none(s.drop_first(), k);
        assert forall|j: int| 0 <= j < s.len() implies (#[trigger] s[j]).0 != k by {
            if j > 0 {
                assert(s.drop_first()[j - 1] == s[j]);
            }
        }
    }
}

/// The keys of the classes of `a` that are "different" against `b`: absent
/// from `b`, or with a strictly larger bag in `a` than in `b`.
pub open spec fn spec_diff_keys<RV, T>(a: Seq<(RV, Seq<T>)>, b: Seq<(RV, Seq<T>)>) -> Seq<RV>
    decreases a.len(),
{
    if a.len() == 0 {
        Seq::empty()
    } else {
        let rest = spec_diff_keys(a.drop_first(), b);
        if diff_at(a[0], b) {
            seq![a[0].0] + rest
        } else {
            rest
        }
    }
}

/// Whether one class differs against the other side: its key is absent
/// there, or its bag is strictly larger.
pub open spec fn diff_at<RV, T>(p: (RV, Seq<T>), b: Seq<(RV, Seq<T>)>) -> bool {
    match spec_get(b, p.0) {
        None => true,
        Some(bag) => p.1.len() > bag.len(),
    }
}

/// A partition of inserted points into equivalence classes, keyed by the
/// representative each point projects to.
#[derive(Clone)]
pub struct Quotient<R, T, P> {
    classes: Vec<(R, Vec<T>)>,
    projection: P,
}

impl<R: View, T, P> View for Quotient<R, T, P> {
    type V = Seq<(<R as View>::V, Seq<T>)>;

    closed spec fn view(&self) -> Seq<(<R as View>::V, Seq<T>)> {
        self.classes@.map_values(|p: (R, Vec<T>)| (p.0@, p.1@))
    }
}

impl<R, T, P> Quotient<R, T, P> where R: View, P: Projection<Domain = T, Target = R> {
    /// The projection this container groups by.
    pub closed spec fn proj(&self) -> P {
        self.projection
    }

    /// An empty partition grouping by the given projection.
    pub fn with_projection(proj: P) -> (q: Quotient<R, T, P>)
        ensures
            q@ =~= Seq::<(<R as View>::V, Seq<T>)>::empty(),
            q.proj() == proj,
    {
        Quotient { classes: Vec::new(), projection: proj }
    }

    /// The number of classes.
    pub fn len(&self) -> (r: usize)
        ensures
            r == self@.len(),
    {
        self.classes.len()
    }

    /// The representative keys, in class order.
    pub fn representatives(&self) -> (r: Vec<&R>)
        ensures
            r@.len() == self@.len(),
            forall|i: int| 0 <= i < r@.len() ==> (*(#[trigger] r@[i]))@ == self@[i].0,
    {
        let mut out: Vec<&R> = Vec::new();
        let mut i: usize = 0;
        while i < self.classes.len()
            invariant
                i <= self.classes.len(),
                out@.len() == i,
                forall|j: int| 0 <= j < i ==> (*(#[trigger] out@[j]))@ == self@[j].0,
            decreases self.classes.len() - i,
        {
            out.push(&self.classes[i].0);
            proof {
                assert(self@[i as int] == (self.classes@[i as int].0@, self.classes@[i as int].1@));
            }
            i += 1;
        }
        out
    }

    /// The bags, in class order.
    pub fn classes(&self) -> (r: Vec<&Vec<T>>)
        ensures
            r@.len() == self@.len(),
            forall|i: int| 0 <= i < r@.len() ==> (#[trigger] r@[i])@ == self@[i].1,
    {
        let mut out: Vec<&Vec<T>> = Vec::new();
        let mut i: usize = 0;
        while i < self.classes.len()
            invariant
                i <= self.classes.len(),
                out@.len() == i,
                forall|j: int| 0 <= j < i ==> (#[trigger] out@[j])@ == self@[j].1,
            decreases self.classes.len() - i,
        {
            out.push(&self.classes[i].1);
            proof {
                assert(self@[i as int] == (self.classes@[i as int].0@, self.classes@[i as int].1@));
            }
            i += 1;
        }
        out
    }

    /// The `(key, bag)` pairs, in class order.
    pub fn iter(&self) -> (r: Vec<(&R, &Vec<T>)>)
        ensures
            r@.len() == self@.len(),
            forall|i: int| 0 <= i < r@.len() ==> (*((#[trigger] r@[i]).0))@ == self@[i].0 && r@[
                i
            ].1@ == self@[i].1,
    {
        let mut out: Vec<(&R, &Vec<T>)> = Vec::new();
        let mut i: usize = 0;
        while i < self.classes.len()
            invariant
                i <= self.classes.len(),
                out@.len() == i,
                forall|j: int| 0 <= j < i ==> (*((#[trigger] out@[j]).0))@ == self@[j].0 && out@[
                    j
                ].1@ == self@[j].1,
            decreases self.classes.len() - i,
        {
            out.push((&self.classes[i].0, &self.classes[i].1));
            proof {
                assert(self@[i as int] == (self.classes@[i as int].0@, self.classes@[i as int].1@));
            }
            i += 1;
        }
        out
    }
}

impl<R, T, P> Quotient<R, T, P> where
    R: View + Eq + PartialEqSpec,
    T: View,
    P: Projection<Domain = T, Target = R>,
 {
    /// The position of the first class whose key equals the point, if any.
    fn find(&self, point: &R) -> (r: Option<usize>)
        requires
            eq_congruent::<R>(),
        ensures
            r matches Some(i) ==> i < self@.len() && class_index(self@, point@) == i,
            r is None ==> class_index(self@, point@) == -1,
    {
        let mut i: usize = 0;
        while i < self.classes.len()
            invariant
                eq_congruent::<R>(),
                i <= self.classes.len(),
                forall|j: int| 0 <= j < i ==> (#[trigger] self@[j]).0 != point@,
            decreases self.classes.len() - i,
        {
            proof {
                assert(self@[i as int] == (self.classes@[i as int].0@, self.classes@[i as int].1@));
            }
            if &self.classes[i].0 == point {
                proof {
                    lemma_class_index(self@, point@, i as int);
                }
                return Some(i);
            }
            i += 1;
        }
        proof {
            lemma_class_index(self@, point@, self@.len() as int);
        }
        None
    }

    /// The bag of the class keyed by the given representative, if any.
    pub fn get(&self, point: &R) -> (r: Option<&Vec<T>>)
        requires
            eq_congruent::<R>(),
        ensures
            r matches Some(bag) ==> spec_get(self@, point@) matches Some(s) && bag@ == s,
            r is None ==> spec_get(self@, point@) is None,
    {
        match self.find(point) {
            Some(i) => {
                proof {
                    assert(self@[i as int] == (
                        self.classes@[i as int].0@,
                        self.classes@[i as int].1@,
                    ));
                }
                Some(&self.classes[i].1)
            },
            None => None,
        }
    }

    /// Whether some class is keyed by the given representative.
    pub fn contains_representative(&self, point: &R) -> (r: bool)
        requires
            eq_congruent::<R>(),
        ensures
            r == (spec_get(self@, point@) is Some),
    {
        match self.find(point) {
            Some(_) => true,
            None => false,
        }
    }

    /// The bag of the class keyed by the given representative, if any, for
    /// in-place change.
    pub fn get_mut(&mut self, point: &R) -> (r: Option<&mut Vec<T>>)
        requires
            eq_congruent::<R>(),
        ensures
            r is None ==> spec_get(old(self)@, point@) is None && final(self)@ == old(self)@
                && final(self).proj() == old(self).proj(),
            r matches Some(bag) ==> 0 <= class_index(old(self)@, point@) < old(self)@.len() && bag@
                == old(self)@[class_index(old(self)@, point@)].1 && final(self)@ == old(
                self,
            )@.update(
                class_index(old(self)@, point@),
                (old(self)@[class_index(old(self)@, point@)].0, final(bag)@),
            ) && final(self).proj() == old(self).proj(),
    {
        let found = self.find(point);
        match found {
            Some(i) => {
                proof {
                    assert(self@[i as int] == (
                        self.classes@[i as int].0@,
                        self.classes@[i as int].1@,
                    ));
                }
                let bag = &mut self.classes[i].1;
                Some(bag)
            },
            None => None,
        }
    }

    /// Insert a point: project it to its representative key and append it
    /// to that key's bag, opening a new class when the key is new.
    pub fn push(&mut self, item: T)
        requires
            eq_congruent::<R>(),
            old(self).proj().wf(item@),
            classes_wf(old(self)@),
        ensures
            final(self).proj() == old(self).proj(),
            final(self)@ == spec_push(old(self)@, old(self).proj().spec_project(item@), item),
            classes_wf(final(self)@),
    {
        let ghost pre = self@;
        let repr = self.projection.project(&item);
        let found = self.find(&repr);
        match found {
            Some(i) => {
                let (key, mut bag) = self.classes.remove(i);
                let ghost bagview = bag@;
                bag.push(item);
                self.classes.insert(i, (key, bag));
                proof {
                    assert(pre[i as int] == (key@, bagview));
                    assert(self@ =~= pre.update(
                        i as int,
                        (pre[i as int].0, pre[i as int].1.push(item)),
                    ));
                }
            },
            None => {
                let mut bag: Vec<T> = Vec::new();
                bag.push(item);
                self.classes.push((repr, bag));
                proof {
                    assert(bag@ =~= seq![item]);
                    assert(self@ =~= pre.push((self.classes@.last().0@, seq![item])));
                    lemma_class_index_none(pre, self.classes@.last().0@);
                }
            },
        }
    }

    /// The keys of the classes of `self` that are different against
    /// `other`: absent there entirely, or with a strictly larger bag here.
    /// The test is shallow: it sees only bag sizes, never bag contents, and
    /// it never reports keys that exist only in `other`.
    pub fn difference<'a, Q>(&'a self, other: &'a Quotient<R, T, Q>) -> (d: Difference<'a, R>) where
        Q: Projection<Domain = T, Target = R>,

        requires
            eq_congruent::<R>(),
        ensures
            d.position() == 0,
            d.keys_seq() == spec_diff_keys(self@, other@),
    {
        let keys = diff_from(&self.classes, other, 0);
        proof {
            assert(self.classes@.map_values(|p: (R, Vec<T>)| (p.0@, p.1@)).skip(0) =~= self@);
        }
        Difference { keys, pos: 0 }
    }
}

/// The different keys among the classes from position `k` on.
fn diff_from<'a, R, T, Q>(
    classes: &'a Vec<(R, Vec<T>)>,
    other: &'a Quotient<R, T, Q>,
    k: usize,
) -> (r: Vec<&'a R>) where
    R: View + Eq + PartialEqSpec,
    T: View,
    Q: Projection<Domain = T, Target = R>,

    requires
        eq_congruent::<R>(),
        k <= classes.len(),
    ensures
        r@.map_values(|x: &R| x@) == spec_diff_keys(
            classes@.map_values(|p: (R, Vec<T>)| (p.0@, p.1@)).skip(k as int),
            other@,
        ),
    decreases classes.len() - k,
{
    let ghost vs = classes@.map_values(|p: (R, Vec<T>)| (p.0@, p.1@)).skip(k as int);
    if k == classes.len() {
        let r: Vec<&R> = Vec::new();
        proof {
            assert(r@.map_values(|x: &R| x@) =~= Seq::<<R as View>::V>::empty());
        }
        r
    } else {
        proof {
            assert(vs[0] == classes@.map_values(|p: (R, Vec<T>)| (p.0@, p.1@))[k as int]);
            assert(vs[0] == (classes@[k as int].0@, classes@[k as int].1@));
        }
        let included = match other.get(&classes[k].0) {
            None => true,
            Some(bag) => classes[k].1.len() > bag.len(),
        };
        let mut rest = diff_from(classes, other, k + 1);
        proof {
            assert(classes@.map_values(|p: (R, Vec<T>)| (p.0@, p.1@)).skip(k + 1 as int)
                =~= vs.drop_first());
        }
        if included {
            rest.insert(0, &classes[k].0);
            proof {
                assert(rest@.map_values(|x: &R| x@) =~= seq![vs[0].0] + rest@.drop_first()
                    .map_values(|x: &R| x@));
            }
            rest
        } else {
            rest
        }
    }
}

/// The sequence of different keys that a difference call yields, handed out
/// one at a time.
pub struct Difference<'a, R: View> {
    keys: Vec<&'a R>,
    pos: usize,
}

impl<'a, R: View> Difference<'a, R> {
    /// The views of all keys this difference will yield, in class order of
    /// the left side.
    pub closed spec fn keys_seq(&self) -> Seq<<R as View>::V> {
        self.keys@.map_values(|x: &R| x@)
    }

    /// How many keys have been handed out already.
    pub closed spec fn position(&self) -> int {
        self.pos as int
    }

    /// The next different key, or nothing when all have been handed out.
    pub fn next(&mut self) -> (r: Option<&'a R>)
        ensures
            final(self).keys_seq() == old(self).keys_seq(),
            old(self).position() < old(self).keys_seq().len() ==> (final(self).position()
                == old(self).position() + 1 && (r matches Some(x) && x@
                == old(self).keys_seq()[old(self).position()])),
            old(self).position() >= old(self).keys_seq().len() ==> (r is None
                && final(self).position() == old(self).position()),
    {
        if self.pos < self.keys.len() {
            let r = self.keys[self.pos];
            self.pos = self.pos + 1;
            Some(r)
        } else {
            None
        }
    }

    /// The keys not yet handed out.
    pub fn remaining(&self) -> (r: Vec<&'a R>)
        ensures
            r@.map_values(|x: &R| x@) == self.keys_seq().skip(
                if self.position() <= self.keys_seq().len() {
                    self.position()
                } else {
                    self.keys_seq().len() as int
                },
            ),
    {
        let mut out: Vec<&'a R> = Vec::new();
        let mut i: usize = self.pos;
        if i > self.keys.len() {
            i = self.keys.len();
        }
        let ghost start = i as int;
        while i < self.keys.len()
            invariant
                start <= i <= self.keys.len(),
                out@.len() == i - start,
                forall|j: int| 0 <= j < out@.len() ==> #[trigger] out@[j] == self.keys@[start + j],
            decreases self.keys.len() - i,
        {
            out.push(self.keys[i]);
            i += 1;
        }
        proof {
            assert(out@.map_values(|x: &R| x@) =~= self.keys_seq().skip(start));
        }
        out
    }
}

} // verus!
