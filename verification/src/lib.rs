//! Compare two delimited-text tables under a user-chosen equivalence rule.
//!
//! Rows are parsed into typed records, each record is projected to a
//! representative key, records sharing a key form an equivalence class, and
//! the two sides are compared class by class.

use vstd::prelude::*;

pub mod app;
pub mod chars;
pub mod columns;
pub mod compare;
pub mod date;
pub mod expr;
pub mod quotient;
pub mod record;
pub mod table;
pub mod decimal;

use crate::date::Date;
use crate::decimal::Dec;

verus! {

/// The declared type of a column: each raw field is read as one of these.
#[derive(Debug, Clone, Copy, PartialEq, Eq, Structural)]
pub enum Tag {
    Text,
    Decimal,
    Date,
}

/// A single typed field value.
#[derive(Debug, Clone)]
pub enum Value {
    Text(String),
    Decimal(Dec),
    Date(Date),
}

/// The mathematical content of a [`Value`]: its text as a character
/// sequence, or its (plain-data) decimal or date.
pub enum ValView {
    Text(Seq<char>),
    Decimal(Dec),
    Date(Date),
}

impl View for Value {
    type V = ValView;

    open spec fn view(&self) -> ValView {
        match self {
            Value::Text(s) => ValView::Text(s@),
            Value::Decimal(d) => ValView::Decimal(*d),
            Value::Date(d) => ValView::Date(*d),
        }
    }
}

/// Well-formed value: its decimal is normalized, its date in calendar range.
pub open spec fn val_wf(v: ValView) -> bool {
    match v {
        ValView::Text(_) => true,
        ValView::Decimal(d) => d.wf(),
        ValView::Date(d) => d.wf(),
    }
}

/// The precedence of a value's tag in the total order on values.
pub open spec fn tag_rank(v: ValView) -> int {
    match v {
        ValView::Text(_) => 0,
        ValView::Decimal(_) => 1,
        ValView::Date(_) => 2,
    }
}

/// Strict lexicographic order on character sequences, by code point.
pub open spec fn str_lt(a: Seq<char>, b: Seq<char>) -> bool
    decreases a.len(),
{
    if b.len() == 0 {
        false
    } else if a.len() == 0 {
        true
    } else if a[0] != b[0] {
        (a[0] as u32) < (b[0] as u32)
    } else {
        str_lt(a.drop_first(), b.drop_first())
    }
}

/// Strict total order on values: by tag precedence first, then by the
/// contained value.
pub open spec fn val_lt(a: ValView, b: ValView) -> bool {
    if tag_rank(a) != tag_rank(b) {
        tag_rank(a) < tag_rank(b)
    } else {
        match (a, b) {
            (ValView::Text(x), ValView::Text(y)) => str_lt(x, y),
            (ValView::Decimal(x), ValView::Decimal(y)) => crate::decimal::dec_lt(x, y),
            (ValView::Date(x), ValView::Date(y)) => crate::date::date_lt(x, y),
            _ => false,
        }
    }
}

/// Strict lexicographic order on value sequences; a proper prefix comes
/// first.
pub open spec fn rec_lt(a: Seq<ValView>, b: Seq<ValView>) -> bool
    decreases a.len(),
{
    if b.len() == 0 {
        false
    } else if a.len() == 0 {
        true
    } else if val_lt(a[0], b[0]) {
        true
    } else if val_lt(b[0], a[0]) {
        false
    } else {
        rec_lt(a.drop_first(), b.drop_first())
    }
}

/// Every value of a sequence is well-formed.
pub open spec fn rec_wf(s: Seq<ValView>) -> bool {
    forall|i: int| 0 <= i < s.len() ==> val_wf(#[trigger] s[i])
}

/// The views of a sequence of owned values.
pub open spec fn vals_view(s: Seq<Value>) -> Seq<ValView> {
    s.map_values(|v: Value| v@)
}

/// The views of a sequence of owned strings.
pub open spec fn strs_view(s: Seq<String>) -> Seq<Seq<char>> {
    s.map_values(|x: String| x@)
}

impl Value {
    /// A copy of this value with the same view.
    pub fn duplicate(&self) -> (r: Value)
        ensures
            r@ == self@,
    {
        match self {
            Value::Text(s) => Value::Text(s.clone()),
            Value::Decimal(d) => Value::Decimal(*d),
            Value::Date(d) => Value::Date(*d),
        }
    }
}

/// Casting to a code point is injective on characters.
pub proof fn lemma_char_inj(c1: char, c2: char)
    requires
        c1 as u32 == c2 as u32,
    ensures
        c1 == c2,
{
    vstd::utf8::char_u32_cast(c1, c1 as u32);
    vstd::utf8::char_u32_cast(c2, c2 as u32);
}

/// The string order never relates a sequence to itself.
pub proof fn lemma_str_lt_irrefl(a: Seq<char>)
    ensures
        !str_lt(a, a),
    decreases a.len(),
{
    if a.len() > 0 {
        lemma_str_lt_irrefl(a.drop_first());
    }
}

/// The string order is transitive.
pub proof fn lemma_str_lt_trans(a: Seq<char>, b: Seq<char>, c: Seq<char>)
    requires
        str_lt(a, b),
        str_lt(b, c),
    ensures
        str_lt(a, c),
    decreases a.len(),
{
    if a.len() > 0 && b.len() > 0 && c.len() > 0 {
        if a[0] == b[0] && b[0] == c[0] {
            lemma_str_lt_trans(a.drop_first(), b.drop_first(), c.drop_first());
        }
    }
}

/// Two strings that the order does not separate are equal.
pub proof fn lemma_str_lt_connex(a: Seq<char>, b: Seq<char>)
    requires
        !str_lt(a, b),
        !str_lt(b, a),
    ensures
        a == b,
    decreases a.len(),
{
    if a.len() == 0 && b.len() == 0 {
        assert(a =~= b);
    } else {
        assert(a.len() > 0 && b.len() > 0);
        if a[0] != b[0] {
            lemma_char_inj(a[0], b[0]);
        }
        lemma_str_lt_connex(a.drop_first(), b.drop_first());
        assert(a.len() == b.len());
        assert forall|i: int| 0 <= i < a.len() implies a[i] == b[i] by {
            if i > 0 {
                assert(a[i] == a.drop_first()[i - 1]);
                assert(b[i] == b.drop_first()[i - 1]);
            }
        }
        assert(a =~= b);
    }
}

/// The value order never relates a value to itself.
pub proof fn lemma_val_lt_irrefl(a: ValView)
    ensures
        !val_lt(a, a),
{
    if a is Text {
        lemma_str_lt_irrefl(a->Text_0);
    }
}

/// The value order is transitive.
pub proof fn lemma_val_lt_trans(a: ValView, b: ValView, c: ValView)
    requires
        val_lt(a, b),
        val_lt(b, c),
    ensures
        val_lt(a, c),
{
    if tag_rank(a) == tag_rank(b) && tag_rank(b) == tag_rank(c) {
        match (a, b, c) {
            (ValView::Text(x), ValView::Text(y), ValView::Text(z)) => {
                lemma_str_lt_trans(x, y, z);
            },
            (ValView::Decimal(x), ValView::Decimal(y), ValView::Decimal(z)) => {
                crate::decimal::lemma_dec_lt_trans(x, y, z);
            },
            _ => {},
        }
    }
}

/// Two well-formed values that the order does not separate are equal.
pub proof fn lemma_val_lt_connex(a: ValView, b: ValView)
    requires
        val_wf(a),
        val_wf(b),
        !val_lt(a, b),
        !val_lt(b, a),
    ensures
        a == b,
{
    match (a, b) {
        (ValView::Text(x), ValView::Text(y)) => {
            lemma_str_lt_connex(x, y);
        },
        (ValView::Decimal(x), ValView::Decimal(y)) => {
            crate::decimal::lemma_dec_cross_eq(x, y);
        },
        _ => {},
    }
}

/// The record order never relates a sequence to itself.
pub proof fn lemma_rec_lt_irrefl(a: Seq<ValView>)
    ensures
        !rec_lt(a, a),
    decreases a.len(),
{
    if a.len() > 0 {
        lemma_val_lt_irrefl(a[0]);
        lemma_rec_lt_irrefl(a.drop_first());
    }
}

/// The record order is transitive.
pub proof fn lemma_rec_lt_trans(a: Seq<ValView>, b: Seq<ValView>, c: Seq<ValView>)
    requires
        rec_wf(a),
        rec_wf(b),
        rec_wf(c),
        rec_lt(a, b),
        rec_lt(b, c),
    ensures
        rec_lt(a, c),
    decreases a.len(),
{
    if a.len() > 0 && b.len() > 0 && c.len() > 0 {
        if !val_lt(a[0], b[0]) && !val_lt(b[0], a[0]) && !val_lt(b[0], c[0]) && !val_lt(
            c[0],
            b[0],
        ) {
            lemma_val_lt_connex(a[0], b[0]);
            lemma_val_lt_connex(b[0], c[0]);
            lemma_rec_lt_trans(a.drop_first(), b.drop_first(), c.drop_first());
        } else if val_lt(a[0], b[0]) && val_lt(b[0], c[0]) {
            lemma_val_lt_trans(a[0], b[0], c[0]);
        } else if val_lt(a[0], b[0]) && !val_lt(b[0], c[0]) && !val_lt(c[0], b[0]) {
            lemma_val_lt_connex(b[0], c[0]);
        } else if !val_lt(a[0], b[0]) && !val_lt(b[0], a[0]) && val_lt(b[0], c[0]) {
            lemma_val_lt_connex(a[0], b[0]);
        }
    }
}

/// Two well-formed record views that the order does not separate are equal.
pub proof fn lemma_rec_lt_connex(a: Seq<ValView>, b: Seq<ValView>)
    requires
        rec_wf(a),
        rec_wf(b),
        !rec_lt(a, b),
        !rec_lt(b, a),
    ensures
        a == b,
    decreases a.len(),
{
    if a.len() == 0 && b.len() == 0 {
        assert(a =~= b);
    } else {
        assert(a.len() > 0 && b.len() > 0);
        lemma_val_lt_connex(a[0], b[0]);
        assert forall|j: int| 0 <= j < a.drop_first().len() implies val_wf(
            #[trigger] a.drop_first()[j],
        ) by {
            assert(a.drop_first()[j] == a[j + 1]);
        }
        assert forall|j: int| 0 <= j < b.drop_first().len() implies val_wf(
            #[trigger] b.drop_first()[j],
        ) by {
            assert(b.drop_first()[j] == b[j + 1]);
        }
        lemma_rec_lt_connex(a.drop_first(), b.drop_first());
        assert(a.len() == b.len());
        assert forall|i: int| 0 <= i < a.len() implies a[i] == b[i] by {
            if i > 0 {
                assert(a[i] == a.drop_first()[i - 1]);
                assert(b[i] == b.drop_first()[i - 1]);
            }
        }
        assert(a =~= b);
    }
}

/// The order on two sequences is decided past any common prefix.
pub proof fn lemma_rec_lt_common(a: Seq<ValView>, b: Seq<ValView>, i: int)
    requires
        0 <= i <= a.len(),
        i <= b.len(),
        forall|j: int| 0 <= j < i ==> a[j] == b[j],
    ensures
        rec_lt(a, b) == rec_lt(a.skip(i), b.skip(i)),
    decreases i,
{
    if i > 0 {
        lemma_val_lt_irrefl(a[0]);
        lemma_rec_lt_common(a.drop_first(), b.drop_first(), i - 1);
        assert(a.drop_first().skip(i - 1) =~= a.skip(i));
        assert(b.drop_first().skip(i - 1) =~= b.skip(i));
    } else {
        assert(a.skip(0) =~= a);
        assert(b.skip(0) =~= b);
    }
}

/// The order on two character sequences is decided past any common prefix.
pub proof fn lemma_str_lt_common(a: Seq<char>, b: Seq<char>, i: int)
    requires
        0 <= i <= a.len(),
        i <= b.len(),
        forall|j: int| 0 <= j < i ==> a[j] == b[j],
    ensures
        str_lt(a, b) == str_lt(a.skip(i), b.skip(i)),
    decreases i,
{
    if i > 0 {
        lemma_str_lt_common(a.drop_first(), b.drop_first(), i - 1);
        assert(a.drop_first().skip(i - 1) =~= a.skip(i));
        assert(b.drop_first().skip(i - 1) =~= b.skip(i));
    } else {
        assert(a.skip(0) =~= a);
        assert(b.skip(0) =~= b);
    }
}

impl PartialEq for Value {
    /// Structural equality of the underlying views.
    fn eq(&self, other: &Value) -> (r: bool) {
        match (self, other) {
            (Value::Text(a), Value::Text(b)) => crate::chars::str_eq(a.as_str(), b.as_str()),
            (Value::Decimal(a), Value::Decimal(b)) => a == b,
            (Value::Date(a), Value::Date(b)) => a == b,
            _ => false,
        }
    }
}

impl vstd::std_specs::cmp::PartialEqSpecImpl for Value {
    open spec fn obeys_eq_spec() -> bool {
        true
    }

    open spec fn eq_spec(&self, other: &Value) -> bool {
        self@ == other@
    }
}

/// Three-way comparison of two character vectors in the code-point order.
pub fn chars_cmp(a: &Vec<char>, b: &Vec<char>) -> (r: i8)
    ensures
        (r as int == -1) <==> str_lt(a@, b@),
        (r as int == 0) <==> a@ == b@,
        (r as int == 1) <==> str_lt(b@, a@),
{
    let mut i: usize = 0;
    loop
        invariant
            i <= a.len(),
            i <= b.len(),
            forall|j: int| 0 <= j < i ==> a@[j] == b@[j],
        ensures
            ((i < a.len() || i < b.len()) && i <= a.len() && i <= b.len() && (i < a.len() && i
                < b.len() ==> a@[i as int] != b@[i as int]) && forall|j: int|
                0 <= j < i ==> a@[j] == b@[j]) || (i == a.len() && i == b.len() && forall|j: int|
                0 <= j < i ==> a@[j] == b@[j]),
        decreases a.len() - i,
    {
        if i >= a.len() || i >= b.len() {
            break ;
        }
        if a[i] != b[i] {
            break ;
        }
        i += 1;
    }
    proof {
        lemma_str_lt_common(a@, b@, i as int);
        lemma_str_lt_common(b@, a@, i as int);
    }
    if i < a.len() && i < b.len() {
        let x = a[i] as u32;
        let y = b[i] as u32;
        proof {
            assert(a@.skip(i as int)[0] == a@[i as int]);
            assert(b@.skip(i as int)[0] == b@[i as int]);
            if a@[i as int] as u32 == b@[i as int] as u32 {
                lemma_char_inj(a@[i as int], b@[i as int]);
            }
        }
        if x < y {
            -1
        } else {
            1
        }
    } else if a.len() < b.len() {
        proof {
            assert(a@.skip(i as int).len() == 0);
            assert(b@.skip(i as int).len() > 0);
        }
        -1
    } else if b.len() < a.len() {
        1
    } else {
        proof {
            assert(a@ =~= b@);
        }
        0
    }
}

/// Three-way comparison of two well-formed values in the total value order.
pub fn value_cmp(a: &Value, b: &Value) -> (r: i8)
    requires
        val_wf(a@),
        val_wf(b@),
    ensures
        (r as int == -1) <==> val_lt(a@, b@),
        (r as int == 0) <==> a@ == b@,
        (r as int == 1) <==> val_lt(b@, a@),
{
    match (a, b) {
        (Value::Text(x), Value::Text(y)) => {
            let cx = crate::chars::chars_of(x.as_str());
            let cy = crate::chars::chars_of(y.as_str());
            chars_cmp(&cx, &cy)
        },
        (Value::Decimal(x), Value::Decimal(y)) => crate::decimal::dec_cmp(x, y),
        (Value::Date(x), Value::Date(y)) => {
            if x.year != y.year {
                if x.year < y.year {
                    -1
                } else {
                    1
                }
            } else if x.month != y.month {
                if x.month < y.month {
                    -1
                } else {
                    1
                }
            } else if x.day != y.day {
                if x.day < y.day {
                    -1
                } else {
                    1
                }
            } else {
                0
            }
        },
        (Value::Text(_), _) => -1,
        (Value::Date(_), _) => 1,
        (Value::Decimal(_), Value::Text(_)) => 1,
        (Value::Decimal(_), Value::Date(_)) => -1,
    }
}

} // verus!
