//! The projection-expression language.
//!
//! A predicate has the shape `<expr> = <expr>`, where each side is a column
//! name, a `-`-prefixed column name (legal only for `Decimal` columns), or a
//! parenthesized comma-separated list of such terms. Each side compiles,
//! against its own schema, into a list of [`Term`]s that map a row to its
//! comparison key.

use vstd::prelude::*;

verus! {

use crate::{Tag, Value, ValView};
use crate::columns::Columns;
use crate::chars::{chars_of, trim_vec, subvec, split_vec, find_char_vec, string_from_chars};

/// Why a predicate was rejected.
#[derive(Debug, Clone)]
pub enum ParseError {
    /// No `=` sign separates the two sides.
    EqualsSignNotFound,
    /// A parenthesized tuple never closes.
    MissingCloseParen,
    /// A negated term names a column that is not `Decimal`.
    TypeError,
    /// A term names a column absent from the schema.
    UndefinedField(String),
}

/// The mathematical content of a [`ParseError`].
pub enum ParseErrView {
    EqualsSignNotFound,
    MissingCloseParen,
    TypeError,
    UndefinedField(Seq<char>),
}

impl View for ParseError {
    type V = ParseErrView;

    open spec fn view(&self) -> ParseErrView {
        match self {
            ParseError::EqualsSignNotFound => ParseErrView::EqualsSignNotFound,
            ParseError::MissingCloseParen => ParseErrView::MissingCloseParen,
            ParseError::TypeError => ParseErrView::TypeError,
            ParseError::UndefinedField(s) => ParseErrView::UndefinedField(s@),
        }
    }
}

/// One step of a projection: take the field at an index as it is, or
/// arithmetically negated (defined only for `Decimal` fields).
#[derive(Debug, Clone, Copy, PartialEq, Eq, Structural)]
pub enum Term {
    Val(usize),
    Neg(usize),
}

/// A parenthesized list of terms.
#[derive(Debug, Clone)]
pub struct Tuple(pub Vec<Term>);

/// What a single term denotes against a schema.
pub open spec fn spec_parse_term(s: Seq<char>, cols: Seq<(Seq<char>, Tag)>) -> Result<
    Term,
    ParseErrView,
> {
    let t = crate::chars::spec_trim(s);
    if t.len() > 0 && t[0] == '-' {
        let name = crate::chars::spec_trim(t.drop_first());
        let i = crate::columns::col_index(cols, name);
        if i == -1 {
            Err(ParseErrView::UndefinedField(name))
        } else if cols[i].1 != Tag::Decimal {
            Err(ParseErrView::TypeError)
        } else {
            Ok(Term::Neg(i as usize))
        }
    } else {
        let i = crate::columns::col_index(cols, t);
        if i == -1 {
            Err(ParseErrView::UndefinedField(t))
        } else {
            Ok(Term::Val(i as usize))
        }
    }
}

/// What a list of comma-separated term texts denotes; the first failing term
/// decides the failure.
pub open spec fn spec_terms_list(pieces: Seq<Seq<char>>, cols: Seq<(Seq<char>, Tag)>) -> Result<
    Seq<Term>,
    ParseErrView,
>
    decreases pieces.len(),
{
    if pieces.len() == 0 {
        Ok(Seq::empty())
    } else {
        match spec_parse_term(crate::chars::spec_trim(pieces[0]), cols) {
            Err(e) => Err(e),
            Ok(t) => match spec_terms_list(pieces.drop_first(), cols) {
                Err(e) => Err(e),
                Ok(rest) => Ok(seq![t] + rest),
            },
        }
    }
}

/// What the inside of a tuple denotes: nothing for blank text, else one term
/// per comma-separated piece.
pub open spec fn spec_parse_terms(s: Seq<char>, cols: Seq<(Seq<char>, Tag)>) -> Result<
    Seq<Term>,
    ParseErrView,
> {
    let t = crate::chars::spec_trim(s);
    if t.len() == 0 {
        Ok(Seq::empty())
    } else {
        spec_terms_list(crate::chars::spec_split(t, ','), cols)
    }
}

/// What a possibly-parenthesized expression denotes: `None` when it does not
/// start with `(`, else the terms up to the first `)` (text after it is
/// ignored), or a failure when the parenthesis never closes.
pub open spec fn spec_parse_tuple(s: Seq<char>, cols: Seq<(Seq<char>, Tag)>) -> Result<
    Option<Seq<Term>>,
    ParseErrView,
> {
    let t = crate::chars::spec_trim(s);
    if t.len() == 0 || t[0] != '(' {
        Ok(None)
    } else {
        let e = crate::chars::find_char(t, ')');
        if !(0 <= e < t.len()) {
            Err(ParseErrView::MissingCloseParen)
        } else {
            match spec_parse_terms(t.subrange(1, e), cols) {
                Err(err) => Err(err),
                Ok(ts) => Ok(Some(ts)),
            }
        }
    }
}

/// One side of a predicate: a tuple where one is written, otherwise a single
/// term standing for a one-term tuple.
pub open spec fn spec_tuple_or_term(s: Seq<char>, cols: Seq<(Seq<char>, Tag)>) -> Result<
    Seq<Term>,
    ParseErrView,
> {
    match spec_parse_tuple(s, cols) {
        Err(e) => Err(e),
        Ok(Some(ts)) => Ok(ts),
        Ok(None) => match spec_parse_term(s, cols) {
            Err(e) => Err(e),
            Ok(t) => Ok(seq![t]),
        },
    }
}

/// What a whole predicate denotes: the text left of the first `=` compiled
/// against the first schema, and the text right of it against the second.
pub open spec fn spec_parse_equal(
    s: Seq<char>,
    lcols: Seq<(Seq<char>, Tag)>,
    rcols: Seq<(Seq<char>, Tag)>,
) -> Result<(Seq<Term>, Seq<Term>), ParseErrView> {
    let p = crate::chars::find_char(s, '=');
    if !(0 <= p < s.len()) {
        Err(ParseErrView::EqualsSignNotFound)
    } else {
        match spec_tuple_or_term(crate::chars::spec_trim(s.take(p)), lcols) {
            Err(e) => Err(e),
            Ok(l) => match spec_tuple_or_term(crate::chars::spec_trim(s.skip(p + 1)), rcols) {
                Err(e) => Err(e),
                Ok(r) => Ok((l, r)),
            },
        }
    }
}

/// Read one term against a schema.
fn term_chars(piece: &Vec<char>, columns: &Columns) -> (r: Result<Term, ParseError>)
    ensures
        r matches Ok(t) ==> spec_parse_term(piece@, columns@) matches Ok(t2) && t == t2,
        r matches Err(e) ==> spec_parse_term(piece@, columns@) matches Err(e2) && e@ == e2,
{
    let t = trim_vec(piece);
    if t.len() > 0 && t[0] == '-' {
        let rest = subvec(&t, 1, t.len());
        proof {
            assert(rest@ =~= t@.drop_first());
        }
        let name = trim_vec(&rest);
        let ns = string_from_chars(&name);
        match columns.get_by_name(ns.as_str()) {
            None => {
                proof {
                    crate::columns::lemma_col_index(columns@, name@, columns@.len() as int);
                }
                Err(ParseError::UndefinedField(ns))
            },
            Some((i, tag)) => {
                proof {
                    crate::columns::lemma_col_index(columns@, name@, i as int);
                }
                if tag != Tag::Decimal {
                    Err(ParseError::TypeError)
                } else {
                    Ok(Term::Neg(i))
                }
            },
        }
    } else {
        let ns = string_from_chars(&t);
        match columns.get_by_name(ns.as_str()) {
            None => {
                proof {
                    crate::columns::lemma_col_index(columns@, t@, columns@.len() as int);
                }
                Err(ParseError::UndefinedField(ns))
            },
            Some((i, _tag)) => {
                proof {
                    crate::columns::lemma_col_index(columns@, t@, i as int);
                }
                Ok(Term::Val(i))
            },
        }
    }
}

/// Read a single term (`name` or `-name`) against a schema.
pub fn parse_term(s: &str, columns: &Columns) -> (r: Result<Term, ParseError>)
    ensures
        r matches Ok(t) ==> spec_parse_term(s@, columns@) matches Ok(t2) && t == t2,
        r matches Err(e) ==> spec_parse_term(s@, columns@) matches Err(e2) && e@ == e2,
{
    let cs = chars_of(s);
    term_chars(&cs, columns)
}

/// Read the comma-separated terms starting at position `k` of the split.
fn terms_exec(parts: &Vec<Vec<char>>, k: usize, columns: &Columns) -> (r: Result<
    Vec<Term>,
    ParseError,
>)
    requires
        k <= parts.len(),
    ensures
        r matches Ok(v) ==> spec_terms_list(
            crate::chars::views_of(parts@).skip(k as int),
            columns@,
        ) matches Ok(ts) && v@ == ts,
        r matches Err(e) ==> spec_terms_list(
            crate::chars::views_of(parts@).skip(k as int),
            columns@,
        ) matches Err(e2) && e@ == e2,
    decreases parts.len() - k,
{
    let ghost vs = crate::chars::views_of(parts@).skip(k as int);
    if k == parts.len() {
        let r: Vec<Term> = Vec::new();
        proof {
            assert(vs.len() == 0);
        }
        Ok(r)
    } else {
        proof {
            assert(vs[0] == crate::chars::views_of(parts@)[k as int]);
            assert(vs[0] == parts@[k as int]@);
        }
        let t = trim_vec(&parts[k]);
        match term_chars(&t, columns) {
            Err(e) => Err(e),
            Ok(term) => match terms_exec(parts, k + 1, columns) {
                Err(e) => {
                    proof {
                        assert(crate::chars::views_of(parts@).skip(k + 1 as int)
                            =~= vs.drop_first());
                    }
                    Err(e)
                },
                Ok(mut rest) => {
                    rest.insert(0, term);
                    proof {
                        assert(crate::chars::views_of(parts@).skip(k + 1 as int)
                            =~= vs.drop_first());
                        let t2 = spec_parse_term(
                            crate::chars::spec_trim(vs[0]),
                            columns@,
                        )->Ok_0;
                        assert(rest@ =~= seq![t2] + rest@.drop_first());
                    }
                    Ok(rest)
                },
            },
        }
    }
}

/// Read the comma-separated list of terms inside a tuple.
pub fn parse_terms(s: &str, columns: &Columns) -> (r: Result<Vec<Term>, ParseError>)
    ensures
        r matches Ok(v) ==> spec_parse_terms(s@, columns@) matches Ok(ts) && v@ == ts,
        r matches Err(e) ==> spec_parse_terms(s@, columns@) matches Err(e2) && e@ == e2,
{
    let cs = chars_of(s);
    terms_chars(&cs, columns)
}

/// Read the inside of a tuple from a character vector.
fn terms_chars(cs: &Vec<char>, columns: &Columns) -> (r: Result<Vec<Term>, ParseError>)
    ensures
        r matches Ok(v) ==> spec_parse_terms(cs@, columns@) matches Ok(ts) && v@ == ts,
        r matches Err(e) ==> spec_parse_terms(cs@, columns@) matches Err(e2) && e@ == e2,
{
    let t = trim_vec(cs);
    if t.len() == 0 {
        Ok(Vec::new())
    } else {
        let parts = split_vec(&t, ',');
        let r = terms_exec(&parts, 0, columns);
        proof {
            assert(crate::chars::views_of(parts@).skip(0) =~= crate::chars::views_of(parts@));
        }
        r
    }
}

/// Read a parenthesized tuple, or nothing when the text does not start one.
pub fn parse_tuple(s: &str, columns: &Columns) -> (r: Result<Option<Tuple>, ParseError>)
    ensures
        r matches Ok(Some(tu)) ==> spec_parse_tuple(s@, columns@) matches Ok(Some(ts)) && tu.0@
            == ts,
        r matches Ok(None) ==> spec_parse_tuple(s@, columns@) matches Ok(o) && o is None,
        r matches Err(e) ==> spec_parse_tuple(s@, columns@) matches Err(e2) && e@ == e2,
{
    let cs = chars_of(s);
    tuple_chars(&cs, columns)
}

/// Read a parenthesized tuple from a character vector.
fn tuple_chars(cs: &Vec<char>, columns: &Columns) -> (r: Result<Option<Tuple>, ParseError>)
    ensures
        r matches Ok(Some(tu)) ==> spec_parse_tuple(cs@, columns@) matches Ok(Some(ts)) && tu.0@
            == ts,
        r matches Ok(None) ==> spec_parse_tuple(cs@, columns@) matches Ok(o) && o is None,
        r matches Err(e) ==> spec_parse_tuple(cs@, columns@) matches Err(e2) && e@ == e2,
{
    let t = trim_vec(cs);
    if t.len() == 0 {
        return Ok(None);
    }
    if t[0] != '(' {
        return Ok(None);
    }
    match find_char_vec(&t, ')') {
        None => Err(ParseError::MissingCloseParen),
        Some(e) => {
            let inner = subvec(&t, 1, e);
            proof {
                assert(inner@ =~= t@.subrange(1, e as int));
            }
            match terms_chars(&inner, columns) {
                Err(err) => Err(err),
                Ok(v) => Ok(Some(Tuple(v))),
            }
        },
    }
}

/// Read one side of a predicate: a tuple where one is written, otherwise a
/// single term.
pub fn parse_tuple_or_term(s: &str, columns: &Columns) -> (r: Result<Vec<Term>, ParseError>)
    ensures
        r matches Ok(v) ==> spec_tuple_or_term(s@, columns@) matches Ok(ts) && v@ == ts,
        r matches Err(e) ==> spec_tuple_or_term(s@, columns@) matches Err(e2) && e@ == e2,
{
    let cs = chars_of(s);
    tuple_or_term_chars(&cs, columns)
}

/// Read one side of a predicate from a character vector.
fn tuple_or_term_chars(cs: &Vec<char>, columns: &Columns) -> (r: Result<Vec<Term>, ParseError>)
    ensures
        r matches Ok(v) ==> spec_tuple_or_term(cs@, columns@) matches Ok(ts) && v@ == ts,
        r matches Err(e) ==> spec_tuple_or_term(cs@, columns@) matches Err(e2) && e@ == e2,
{
    match tuple_chars(cs, columns) {
        Err(e) => Err(e),
        Ok(Some(tu)) => Ok(tu.0),
        Ok(None) => match term_chars(cs, columns) {
            Err(e) => Err(e),
            Ok(t) => {
                let mut v: Vec<Term> = Vec::new();
                v.push(t);
                proof {
                    assert(v@ =~= seq![t]);
                }
                Ok(v)
            },
        },
    }
}

/// Read a whole predicate: the side left of the first `=` compiles against
/// the first schema, the side right of it against the second.
pub fn parse_equal(s: &str, lcols: &Columns, rcols: &Columns) -> (r: Result<
    (Vec<Term>, Vec<Term>),
    ParseError,
>)
    ensures
        r matches Ok(p) ==> spec_parse_equal(s@, lcols@, rcols@) matches Ok(q) && p.0@ == q.0
            && p.1@ == q.1,
        r matches Err(e) ==> spec_parse_equal(s@, lcols@, rcols@) matches Err(e2) && e@ == e2,
{
    let cs = chars_of(s);
    match find_char_vec(&cs, '=') {
        None => Err(ParseError::EqualsSignNotFound),
        Some(p) => {
            let left = subvec(&cs, 0, p);
            let right = subvec(&cs, p + 1, cs.len());
            proof {
                assert(left@ =~= cs@.take(p as int));
                assert(right@ =~= cs@.skip(p + 1 as int));
            }
            let lt = trim_vec(&left);
            let rt = trim_vec(&right);
            match tuple_or_term_chars(&lt, lcols) {
                Err(e) => Err(e),
                Ok(l) => match tuple_or_term_chars(&rt, rcols) {
                    Err(e) => Err(e),
                    Ok(rr) => Ok((l, rr)),
                },
            }
        },
    }
}

/// Whether a term can be evaluated against fields of the given shapes.
pub open spec fn term_ok(t: Term, fields: Seq<ValView>) -> bool {
    match t {
        Term::Val(i) => i < fields.len(),
        Term::Neg(i) => i < fields.len() && fields[i as int] is Decimal,
    }
}

/// What evaluating a term on a row yields.
pub open spec fn term_eval(t: Term, fields: Seq<ValView>) -> ValView {
    match t {
        Term::Val(i) => fields[i as int],
        Term::Neg(i) => ValView::Decimal(
            crate::decimal::spec_dec_neg(fields[i as int]->Decimal_0),
        ),
    }
}

/// A term names a column inside the schema, and negates only a decimal one.
pub open spec fn term_valid(t: Term, cols: Seq<(Seq<char>, Tag)>) -> bool {
    match t {
        Term::Val(i) => i < cols.len(),
        Term::Neg(i) => i < cols.len() && cols[i as int].1 == Tag::Decimal,
    }
}

/// A term the compiler accepts is valid for its schema.
pub proof fn lemma_parse_term_valid(s: Seq<char>, cols: Seq<(Seq<char>, Tag)>)
    requires
        cols.len() <= usize::MAX,
        spec_parse_term(s, cols) is Ok,
    ensures
        term_valid(spec_parse_term(s, cols)->Ok_0, cols),
{
    let t = crate::chars::spec_trim(s);
    if t.len() > 0 && t[0] == '-' {
        crate::columns::lemma_col_index_range(cols, crate::chars::spec_trim(t.drop_first()));
    } else {
        crate::columns::lemma_col_index_range(cols, t);
    }
}

/// Every term of an accepted term list is valid for its schema.
pub proof fn lemma_terms_list_valid(pieces: Seq<Seq<char>>, cols: Seq<(Seq<char>, Tag)>)
    requires
        cols.len() <= usize::MAX,
        spec_terms_list(pieces, cols) is Ok,
    ensures
        forall|i: int| 0 <= i < spec_terms_list(pieces, cols)->Ok_0.len() ==> term_valid(
            #[trigger] spec_terms_list(pieces, cols)->Ok_0[i],
            cols,
        ),
    decreases pieces.len(),
{
    if pieces.len() > 0 {
        lemma_parse_term_valid(crate::chars::spec_trim(pieces[0]), cols);
        lemma_terms_list_valid(pieces.drop_first(), cols);
        assert forall|i: int| 0 <= i < spec_terms_list(pieces, cols)->Ok_0.len() implies term_valid(
            #[trigger] spec_terms_list(pieces, cols)->Ok_0[i],
            cols,
        ) by {
            if i > 0 {
                assert(spec_terms_list(pieces, cols)->Ok_0[i] == spec_terms_list(
                    pieces.drop_first(),
                    cols,
                )->Ok_0[i - 1]);
            }
        }
    }
}

/// Every term inside an accepted tuple body is valid for its schema.
pub proof fn lemma_parse_terms_valid(s: Seq<char>, cols: Seq<(Seq<char>, Tag)>)
    requires
        cols.len() <= usize::MAX,
        spec_parse_terms(s, cols) is Ok,
    ensures
        forall|i: int| 0 <= i < spec_parse_terms(s, cols)->Ok_0.len() ==> term_valid(
            #[trigger] spec_parse_terms(s, cols)->Ok_0[i],
            cols,
        ),
{
    let t = crate::chars::spec_trim(s);
    if t.len() > 0 {
        lemma_terms_list_valid(crate::chars::spec_split(t, ','), cols);
    }
}

/// Every term of an accepted predicate side is valid for its schema.
pub proof fn lemma_tuple_or_term_valid(s: Seq<char>, cols: Seq<(Seq<char>, Tag)>)
    requires
        cols.len() <= usize::MAX,
        spec_tuple_or_term(s, cols) is Ok,
    ensures
        forall|i: int| 0 <= i < spec_tuple_or_term(s, cols)->Ok_0.len() ==> term_valid(
            #[trigger] spec_tuple_or_term(s, cols)->Ok_0[i],
            cols,
        ),
{
    match spec_parse_tuple(s, cols) {
        Ok(Some(ts)) => {
            let t = crate::chars::spec_trim(s);
            let e = crate::chars::find_char(t, ')');
            lemma_parse_terms_valid(t.subrange(1, e), cols);
        },
        Ok(None) => {
            lemma_parse_term_valid(s, cols);
        },
        Err(_) => {},
    }
}

/// Every term of an accepted predicate is valid for its side's schema.
pub proof fn lemma_parse_equal_valid(
    s: Seq<char>,
    lcols: Seq<(Seq<char>, Tag)>,
    rcols: Seq<(Seq<char>, Tag)>,
)
    requires
        lcols.len() <= usize::MAX,
        rcols.len() <= usize::MAX,
        spec_parse_equal(s, lcols, rcols) is Ok,
    ensures
        forall|i: int| 0 <= i < spec_parse_equal(s, lcols, rcols)->Ok_0.0.len() ==> term_valid(
            #[trigger] spec_parse_equal(s, lcols, rcols)->Ok_0.0[i],
            lcols,
        ),
        forall|i: int| 0 <= i < spec_parse_equal(s, lcols, rcols)->Ok_0.1.len() ==> term_valid(
            #[trigger] spec_parse_equal(s, lcols, rcols)->Ok_0.1[i],
            rcols,
        ),
{
    let p = crate::chars::find_char(s, '=');
    lemma_tuple_or_term_valid(crate::chars::spec_trim(s.take(p)), lcols);
    lemma_tuple_or_term_valid(crate::chars::spec_trim(s.skip(p + 1)), rcols);
}

impl Term {
    /// Evaluate this term on a row's fields.
    pub fn eval(&self, fields: &Vec<Value>) -> (r: Value)
        requires
            term_ok(*self, crate::vals_view(fields@)),
            crate::rec_wf(crate::vals_view(fields@)),
        ensures
            r@ == term_eval(*self, crate::vals_view(fields@)),
            crate::val_wf(r@),
    {
        proof {
            match *self {
                Term::Val(i) => {
                    assert(crate::vals_view(fields@)[i as int] == fields@[i as int]@);
                },
                Term::Neg(i) => {
                    assert(crate::vals_view(fields@)[i as int] == fields@[i as int]@);
                },
            }
        }
        match self {
            Term::Val(i) => fields[*i].duplicate(),
            Term::Neg(i) => match &fields[*i] {
                Value::Decimal(d) => Value::Decimal(crate::decimal::dec_neg(d)),
                _ => vstd::pervasive::unreached(),
            },
        }
    }
}

} // verus!
