//! Typed rows and the row parser.
//!
//! A [`Record`] is an ordered tuple of [`Value`]s parsed from one raw text
//! row according to a schema. A [`Mapping`] is an ordered list of projection
//! terms; applying it to a record's fields yields the record's comparison
//! key.

use vstd::prelude::*;

verus! {

use crate::{Tag, Value, ValView};
use crate::columns::Columns;
use crate::expr::Term;

/// An ordered tuple of typed values parsed from one raw row.
#[derive(Debug, Clone)]
pub struct Record(pub Vec<Value>);

impl View for Record {
    type V = Seq<ValView>;

    open spec fn view(&self) -> Seq<ValView> {
        crate::vals_view(self.0@)
    }
}

impl Record {
    /// Every field is well-formed.
    pub open spec fn wf(self) -> bool {
        crate::rec_wf(self@)
    }

    /// A copy of this record with the same view.
    pub fn duplicate(&self) -> (r: Record)
        ensures
            r@ == self@,
    {
        let mut out: Vec<Value> = Vec::new();
        let mut i: usize = 0;
        while i < self.0.len()
            invariant
                i <= self.0.len(),
                out@.len() == i,
                forall|j: int| 0 <= j < i ==> (#[trigger] out@[j])@ == self.0@[j]@,
            decreases self.0.len() - i,
        {
            out.push(self.0[i].duplicate());
            i += 1;
        }
        let r = Record(out);
        proof {
            assert(r@ =~= self@);
        }
        r
    }

    /// The number of fields.
    pub fn len(&self) -> (r: usize)
        ensures
            r == self@.len(),
    {
        self.0.len()
    }
}

impl PartialEq for Record {
    /// Structural equality of the underlying views.
    fn eq(&self, other: &Record) -> (r: bool) {
        if self.0.len() != other.0.len() {
            proof {
                assert(self@.len() == self.0@.len());
                assert(other@.len() == other.0@.len());
            }
            return false;
        }
        let mut i: usize = 0;
        while i < self.0.len()
            invariant
                i <= self.0.len(),
                self.0.len() == other.0.len(),
                forall|j: int| 0 <= j < i ==> self@[j] == other@[j],
            decreases self.0.len() - i,
        {
            if !(self.0[i] == other.0[i]) {
                proof {
                    assert(self@[i as int] == self.0@[i as int]@);
                    assert(other@[i as int] == other.0@[i as int]@);
                }
                return false;
            }
            proof {
                assert(self@[i as int] == self.0@[i as int]@);
                assert(other@[i as int] == other.0@[i as int]@);
            }
            i += 1;
        }
        proof {
            assert(self@ =~= other@);
        }
        true
    }
}

impl From<Vec<Value>> for Record {
    /// Wrap an owned list of values as a record.
    fn from(values: Vec<Value>) -> (r: Record) {
        Record(values)
    }
}

impl vstd::std_specs::convert::FromSpecImpl<Vec<Value>> for Record {
    open spec fn obeys_from_spec() -> bool {
        true
    }

    open spec fn from_spec(values: Vec<Value>) -> Record {
        Record(values)
    }
}

impl Eq for Record {

}

impl vstd::std_specs::cmp::PartialEqSpecImpl for Record {
    open spec fn obeys_eq_spec() -> bool {
        true
    }

    open spec fn eq_spec(&self, other: &Record) -> bool {
        self@ == other@
    }
}

/// Three-way comparison of two well-formed records in the total record
/// order.
pub fn record_cmp(a: &Record, b: &Record) -> (r: i8)
    requires
        a.wf(),
        b.wf(),
    ensures
        (r as int == -1) <==> crate::rec_lt(a@, b@),
        (r as int == 0) <==> a@ == b@,
        (r as int == 1) <==> crate::rec_lt(b@, a@),
{
    let mut i: usize = 0;
    loop
        invariant
            i <= a.0.len(),
            i <= b.0.len(),
            a.wf(),
            b.wf(),
            forall|j: int| 0 <= j < i ==> a@[j] == b@[j],
        ensures
            i <= a.0.len() && i <= b.0.len() && (forall|j: int| 0 <= j < i ==> a@[j] == b@[j])
                && ((i == a.0.len() || i == b.0.len()) || a@[i as int] != b@[i as int]),
        decreases a.0.len() - i,
    {
        if i >= a.0.len() || i >= b.0.len() {
            break ;
        }
        proof {
            assert(a@[i as int] == a.0@[i as int]@);
            assert(b@[i as int] == b.0@[i as int]@);
        }
        let c = crate::value_cmp(&a.0[i], &b.0[i]);
        if c != 0 {
            break ;
        }
        i += 1;
    }
    proof {
        crate::lemma_rec_lt_common(a@, b@, i as int);
        crate::lemma_rec_lt_common(b@, a@, i as int);
    }
    if i < a.0.len() && i < b.0.len() {
        proof {
            assert(a@[i as int] == a.0@[i as int]@);
            assert(b@[i as int] == b.0@[i as int]@);
            assert(a@.skip(i as int)[0] == a@[i as int]);
            assert(b@.skip(i as int)[0] == b@[i as int]);
        }
        let c = crate::value_cmp(&a.0[i], &b.0[i]);
        proof {
            if !crate::val_lt(a@[i as int], b@[i as int]) && !crate::val_lt(
                b@[i as int],
                a@[i as int],
            ) {
                crate::lemma_val_lt_connex(a@[i as int], b@[i as int]);
            }
            if c as int == -1 {
                assert(crate::rec_lt(a@.skip(i as int), b@.skip(i as int)));
                assert(!crate::rec_lt(b@.skip(i as int), a@.skip(i as int)));
            }
            if c as int == 1 {
                assert(crate::rec_lt(b@.skip(i as int), a@.skip(i as int)));
                assert(!crate::rec_lt(a@.skip(i as int), b@.skip(i as int)));
            }
        }
        c
    } else if a.0.len() < b.0.len() {
        proof {
            assert(a@.skip(i as int).len() == 0);
            assert(b@.skip(i as int).len() > 0);
        }
        -1
    } else if b.0.len() < a.0.len() {
        1
    } else {
        proof {
            assert(a@ =~= b@);
        }
        0
    }
}

/// Why a raw row was rejected.
#[derive(Debug, Clone, Copy, PartialEq, Eq, Structural)]
pub enum ParseError {
    /// A field under a `Decimal` column is not a decimal number.
    Decimal,
    /// A field under a `Date` column matches none of the accepted patterns.
    Date,
    /// The raw row has a different number of fields than the schema.
    DifferentLength { columns: usize, record: usize },
}

/// What one raw field denotes under a column type.
pub open spec fn spec_parse_field(field: Seq<char>, tag: Tag) -> Result<ValView, ParseError> {
    match tag {
        Tag::Text => Ok(ValView::Text(field)),
        Tag::Decimal => match crate::decimal::decimal_from_str(field) {
            Some(t) => Ok(ValView::Decimal(crate::decimal::spec_dec_norm(t.0, t.1 as nat, t.2 as nat))),
            None => Err(ParseError::Decimal),
        },
        Tag::Date => match crate::date::spec_date_of_field(field) {
            Some(t) => Ok(ValView::Date(crate::date::Date { year: t.0, month: t.1, day: t.2 })),
            None => Err(ParseError::Date),
        },
    }
}

/// What a raw row denotes under a list of column types; the first failing
/// field decides the failure.
pub open spec fn spec_parse_row(fields: Seq<Seq<char>>, tags: Seq<Tag>) -> Result<
    Seq<ValView>,
    ParseError,
>
    decreases fields.len(),
{
    if fields.len() == 0 {
        Ok(Seq::empty())
    } else {
        match spec_parse_field(fields[0], tags[0]) {
            Err(e) => Err(e),
            Ok(v) => match spec_parse_row(fields.drop_first(), tags.drop_first()) {
                Err(e) => Err(e),
                Ok(rest) => Ok(seq![v] + rest),
            },
        }
    }
}

/// What the row parser yields on a raw row: no record when a length
/// mismatch is tolerated, a failure when it is not, else the parsed fields.
pub open spec fn spec_parse(
    cols: Seq<(Seq<char>, Tag)>,
    ignore_length_mismatch: bool,
    row: Seq<Seq<char>>,
) -> Result<Option<Seq<ValView>>, ParseError> {
    if cols.len() != row.len() {
        if ignore_length_mismatch {
            Ok(None)
        } else {
            Err(
                ParseError::DifferentLength {
                    columns: cols.len() as usize,
                    record: row.len() as usize,
                },
            )
        }
    } else {
        match spec_parse_row(row, cols.map_values(|p: (Seq<char>, Tag)| p.1)) {
            Err(e) => Err(e),
            Ok(vs) => Ok(Some(vs)),
        }
    }
}

/// A builder for the row parser; the length-mismatch switch must be set
/// before a parser can be built.
#[derive(Debug)]
pub struct RecordParserBuilder<LenMis> {
    pub ignore_length_mismatch: LenMis,
}

impl RecordParserBuilder<()> {
    /// A builder with the length-mismatch switch still unset.
    pub fn new() -> (r: RecordParserBuilder<()>) {
        RecordParserBuilder { ignore_length_mismatch: () }
    }
}

impl<LenMis> RecordParserBuilder<LenMis> {
    /// Set whether rows of the wrong width are dropped rather than fatal.
    pub fn ignore_length_mismatch(self, flag: bool) -> (r: RecordParserBuilder<bool>)
        ensures
            r.ignore_length_mismatch == flag,
    {
        RecordParserBuilder { ignore_length_mismatch: flag }
    }
}

impl RecordParserBuilder<bool> {
    /// Build the parser for a schema.
    pub fn from_columns(self, columns: &Columns) -> (r: RecordParser)
        ensures
            r.columns@ == columns@,
            r.ignore_length_mismatch == self.ignore_length_mismatch,
    {
        RecordParser { columns: columns.duplicate(), ignore_length_mismatch: self.ignore_length_mismatch }
    }
}

/// Parses one raw row into a [`Record`] under a schema.
#[derive(Debug, Clone)]
pub struct RecordParser {
    pub columns: Columns,
    pub ignore_length_mismatch: bool,
}

/// Read the raw fields from position `k` on, each under its column type.
fn parse_fields(cols: &Vec<(String, Tag)>, row: &Vec<String>, k: usize) -> (r: Result<
    Vec<Value>,
    ParseError,
>)
    requires
        k <= row.len(),
        cols.len() == row.len(),
    ensures
        r matches Ok(v) ==> spec_parse_row(
            crate::strs_view(row@).skip(k as int),
            cols@.map_values(|p: (String, Tag)| p.1).skip(k as int),
        ) matches Ok(vs) && crate::vals_view(v@) == vs && crate::rec_wf(crate::vals_view(v@)),
        r matches Err(e) ==> spec_parse_row(
            crate::strs_view(row@).skip(k as int),
            cols@.map_values(|p: (String, Tag)| p.1).skip(k as int),
        ) matches Err(e2) && e == e2,
    decreases row.len() - k,
{
    let ghost fs = crate::strs_view(row@).skip(k as int);
    let ghost ts = cols@.map_values(|p: (String, Tag)| p.1).skip(k as int);
    if k == row.len() {
        let r: Vec<Value> = Vec::new();
        proof {
            assert(fs.len() == 0);
            assert(crate::vals_view(r@) =~= Seq::<ValView>::empty());
        }
        Ok(r)
    } else {
        proof {
            assert(fs[0] == crate::strs_view(row@)[k as int]);
            assert(fs[0] == row@[k as int]@);
            assert(ts[0] == cols@.map_values(|p: (String, Tag)| p.1)[k as int]);
            assert(ts[0] == cols@[k as int].1);
        }
        let value = match cols[k].1 {
            Tag::Text => Value::Text(row[k].clone()),
            Tag::Decimal => match crate::decimal::dec_from_str(row[k].as_str()) {
                Some(d) => Value::Decimal(d),
                None => {
                    return Err(ParseError::Decimal);
                },
            },
            Tag::Date => match crate::date::date_from_field(row[k].as_str()) {
                Some(d) => Value::Date(d),
                None => {
                    return Err(ParseError::Date);
                },
            },
        };
        proof {
            assert(value@ == spec_parse_field(fs[0], ts[0])->Ok_0);
            assert(crate::val_wf(value@));
        }
        match parse_fields(cols, row, k + 1) {
            Err(e) => {
                proof {
                    assert(crate::strs_view(row@).skip(k + 1 as int) =~= fs.drop_first());
                    assert(cols@.map_values(|p: (String, Tag)| p.1).skip(k + 1 as int)
                        =~= ts.drop_first());
                }
                Err(e)
            },
            Ok(mut rest) => {
                let ghost pre = rest@;
                rest.insert(0, value);
                proof {
                    assert(rest@.drop_first() =~= pre);
                    assert(rest@[0] == value);
                    assert(crate::strs_view(row@).skip(k + 1 as int) =~= fs.drop_first());
                    assert(cols@.map_values(|p: (String, Tag)| p.1).skip(k + 1 as int)
                        =~= ts.drop_first());
                    assert(crate::vals_view(rest@) =~= seq![value@] + crate::vals_view(pre));
                    assert forall|j: int| 0 <= j < crate::vals_view(rest@).len() implies crate::val_wf(
                        #[trigger] crate::vals_view(rest@)[j],
                    ) by {
                        if j > 0 {
                            assert(crate::vals_view(rest@)[j] == crate::vals_view(pre)[j - 1]);
                        } else {
                            assert(crate::vals_view(rest@)[0] == value@);
                        }
                    }
                }
                Ok(rest)
            },
        }
    }
}

impl RecordParser {
    /// Parse one raw row: a record when every field converts, no record for
    /// a tolerated length mismatch, else the first failure.
    pub fn parse(&self, record: &Vec<String>) -> (r: Result<Option<Record>, ParseError>)
        ensures
            r matches Ok(Some(rec)) ==> spec_parse(
                self.columns@,
                self.ignore_length_mismatch,
                crate::strs_view(record@),
            ) matches Ok(Some(vs)) && rec@ == vs && rec.wf(),
            r matches Ok(None) ==> spec_parse(
                self.columns@,
                self.ignore_length_mismatch,
                crate::strs_view(record@),
            ) matches Ok(o) && o is None,
            r matches Err(e) ==> spec_parse(
                self.columns@,
                self.ignore_length_mismatch,
                crate::strs_view(record@),
            ) matches Err(e2) && e == e2,
    {
        if self.columns.len() != record.len() {
            if self.ignore_length_mismatch {
                Ok(None)
            } else {
                Err(
                    ParseError::DifferentLength {
                        columns: self.columns.len(),
                        record: record.len(),
                    },
                )
            }
        } else {
            let cols = self.columns.entries();
            proof {
                assert forall|i: int| 0 <= i < cols@.len() implies (#[trigger] cols@[i]).1
                    == self.columns@[i].1 by {
                    assert(self.columns@[i] == ((cols@[i]).0@, cols@[i].1));
                }
                assert(cols@.map_values(|p: (String, Tag)| p.1) =~= self.columns@.map_values(
                    |p: (Seq<char>, Tag)| p.1,
                ));
                assert(cols@.map_values(|p: (String, Tag)| p.1).skip(0) =~= cols@.map_values(
                    |p: (String, Tag)| p.1,
                ));
                assert(crate::strs_view(record@).skip(0) =~= crate::strs_view(record@));
            }
            match parse_fields(cols, record, 0) {
                Err(e) => Err(e),
                Ok(values) => Ok(Some(Record(values))),
            }
        }
    }
}

/// Whether every term of a list can be evaluated against fields of the
/// given shapes.
pub open spec fn map_ok(ts: Seq<Term>, fields: Seq<ValView>) -> bool {
    forall|i: int| 0 <= i < ts.len() ==> crate::expr::term_ok(#[trigger] ts[i], fields)
}

/// What applying a term list to a row's fields yields.
pub open spec fn map_eval(ts: Seq<Term>, fields: Seq<ValView>) -> Seq<ValView> {
    ts.map_values(|t: Term| crate::expr::term_eval(t, fields))
}

/// An ordered list of projection terms: the row-to-key mapping compiled
/// from one side of a predicate.
#[derive(Debug, Clone)]
pub struct Mapping(pub Vec<Term>);

impl From<Vec<Term>> for Mapping {
    /// Wrap a term list as a mapping.
    fn from(terms: Vec<Term>) -> (r: Mapping) {
        Mapping(terms)
    }
}

impl vstd::std_specs::convert::FromSpecImpl<Vec<Term>> for Mapping {
    open spec fn obeys_from_spec() -> bool {
        true
    }

    open spec fn from_spec(terms: Vec<Term>) -> Mapping {
        Mapping(terms)
    }
}

impl Mapping {
    /// Whether this mapping can be applied to fields of the given shapes.
    pub open spec fn ok_for(self, fields: Seq<ValView>) -> bool {
        map_ok(self.0@, fields)
    }

    /// Apply the mapping to a row's fields, yielding the projected key's
    /// fields.
    pub fn apply(&self, fields: &Vec<Value>) -> (r: Vec<Value>)
        requires
            map_ok(self.0@, crate::vals_view(fields@)),
            crate::rec_wf(crate::vals_view(fields@)),
        ensures
            crate::vals_view(r@) == map_eval(self.0@, crate::vals_view(fields@)),
            crate::rec_wf(crate::vals_view(r@)),
    {
        let mut out: Vec<Value> = Vec::new();
        let mut i: usize = 0;
        while i < self.0.len()
            invariant
                i <= self.0.len(),
                out@.len() == i,
                map_ok(self.0@, crate::vals_view(fields@)),
                crate::rec_wf(crate::vals_view(fields@)),
                forall|j: int| 0 <= j < i ==> (#[trigger] out@[j])@ == crate::expr::term_eval(
                    self.0@[j],
                    crate::vals_view(fields@),
                ) && crate::val_wf(out@[j]@),
            decreases self.0.len() - i,
        {
            let v = self.0[i].eval(fields);
            out.push(v);
            i += 1;
        }
        proof {
            assert(crate::vals_view(out@) =~= map_eval(self.0@, crate::vals_view(fields@)));
        }
        out
    }

    /// A copy of this mapping with the same terms.
    pub fn duplicate(&self) -> (r: Mapping)
        ensures
            r.0@ == self.0@,
    {
        let mut ts: Vec<Term> = Vec::new();
        let mut i: usize = 0;
        while i < self.0.len()
            invariant
                i <= self.0.len(),
                ts@.len() == i,
                forall|j: int| 0 <= j < i ==> #[trigger] ts@[j] == self.0@[j],
            decreases self.0.len() - i,
        {
            ts.push(self.0[i]);
            i += 1;
        }
        let r = Mapping(ts);
        proof {
            assert(r.0@ =~= self.0@);
        }
        r
    }
}

impl crate::quotient::Projection for Mapping {
    type Domain = Record;

    type Target = Record;

    /// Defined on rows whose fields are well-formed and wide enough, with a
    /// decimal wherever a term negates.
    open spec fn wf(&self, x: Seq<ValView>) -> bool {
        map_ok(self.0@, x) && crate::rec_wf(x)
    }

    /// The projected key's fields.
    open spec fn spec_project(&self, x: Seq<ValView>) -> Seq<ValView> {
        map_eval(self.0@, x)
    }

    /// Project a record through the mapping.
    fn project(&self, x: &Record) -> (r: Record) {
        Record(self.apply(&x.0))
    }
}

/// Applying a mapping to well-formed fields yields well-formed fields.
pub proof fn lemma_map_eval_wf(ts: Seq<Term>, fields: Seq<ValView>)
    requires
        map_ok(ts, fields),
        crate::rec_wf(fields),
    ensures
        crate::rec_wf(map_eval(ts, fields)),
{
    assert forall|i: int| 0 <= i < map_eval(ts, fields).len() implies crate::val_wf(
        #[trigger] map_eval(ts, fields)[i],
    ) by {
        assert(map_eval(ts, fields)[i] == crate::expr::term_eval(ts[i], fields));
        assert(crate::expr::term_ok(ts[i], fields));
    }
}

/// A parsed row has exactly the shapes its column types declare.
pub proof fn lemma_parse_row_shapes(fields: Seq<Seq<char>>, tags: Seq<Tag>)
    requires
        fields.len() == tags.len(),
        spec_parse_row(fields, tags) is Ok,
    ensures
        spec_parse_row(fields, tags)->Ok_0.len() == fields.len(),
        forall|i: int| 0 <= i < fields.len() ==> ((#[trigger] tags[i] == Tag::Text)
            ==> spec_parse_row(fields, tags)->Ok_0[i] is Text) && (tags[i] == Tag::Decimal
            ==> spec_parse_row(fields, tags)->Ok_0[i] is Decimal) && (tags[i] == Tag::Date
            ==> spec_parse_row(fields, tags)->Ok_0[i] is Date),
    decreases fields.len(),
{
    if fields.len() > 0 {
        lemma_parse_row_shapes(fields.drop_first(), tags.drop_first());
        assert forall|i: int| 0 <= i < fields.len() implies ((#[trigger] tags[i] == Tag::Text)
            ==> spec_parse_row(fields, tags)->Ok_0[i] is Text) && (tags[i] == Tag::Decimal
            ==> spec_parse_row(fields, tags)->Ok_0[i] is Decimal) && (tags[i] == Tag::Date
            ==> spec_parse_row(fields, tags)->Ok_0[i] is Date) by {
            if i > 0 {
                assert(tags.drop_first()[i - 1] == tags[i]);
                assert(spec_parse_row(fields, tags)->Ok_0[i] == spec_parse_row(
                    fields.drop_first(),
                    tags.drop_first(),
                )->Ok_0[i - 1]);
            }
        }
    }
}

/// The views of a sequence of records.
pub open spec fn rec_views(s: Seq<Record>) -> Seq<Seq<ValView>> {
    s.map_values(|r: Record| r@)
}

} // verus!
