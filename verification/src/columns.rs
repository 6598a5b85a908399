//! The column schema and its compact textual specification.
//!
//! A schema is an ordered list of `(name, type)` pairs, written as a
//! comma-separated list of `name` or `name:type` fields. A bare field
//! defaults to the `String` type keyword; an all-blank specification is the
//! zero-column schema.

use vstd::prelude::*;

verus! {

use crate::Tag;
use crate::chars::{chars_of, chars_eq, string_from_chars, trim_vec, split_vec};
use vstd::string::StringExecFns;

/// Why a schema specification was rejected.
#[derive(Debug, Clone, Copy, PartialEq, Eq, Structural)]
pub enum ParseError {
    /// A field's type token is not a known type keyword.
    InvalidType,
    /// A field holds more than one colon.
    InvalidFieldSpec,
}

/// The type denoted by a type token, matched case-sensitively.
pub open spec fn tag_of(s: Seq<char>) -> Option<Tag> {
    if s == "String"@ {
        Some(Tag::Text)
    } else if s == "Decimal"@ {
        Some(Tag::Decimal)
    } else if s == "Date"@ {
        Some(Tag::Date)
    } else {
        None
    }
}

/// Read a type token.
pub fn parse_tag(v: &Vec<char>) -> (r: Option<Tag>)
    ensures
        r == tag_of(v@),
{
    let lit_string = chars_of("String");
    if chars_eq(v, &lit_string) {
        return Some(Tag::Text);
    }
    let lit_decimal = chars_of("Decimal");
    if chars_eq(v, &lit_decimal) {
        return Some(Tag::Decimal);
    }
    let lit_date = chars_of("Date");
    if chars_eq(v, &lit_date) {
        return Some(Tag::Date);
    }
    None
}

/// What one comma-separated field denotes: its trimmed name and trimmed type
/// token (the `String` keyword when no colon is present), or a failure when
/// it holds more than one colon.
pub open spec fn spec_name_type(s: Seq<char>) -> Result<(Seq<char>, Seq<char>), ParseError> {
    let parts = crate::chars::spec_split(s, ':');
    if parts.len() == 1 {
        Ok((crate::chars::spec_trim(parts[0]), "String"@))
    } else if parts.len() == 2 {
        Ok((crate::chars::spec_trim(parts[0]), crate::chars::spec_trim(parts[1])))
    } else {
        Err(ParseError::InvalidFieldSpec)
    }
}

/// What a sequence of comma-separated fields denotes; the first failing
/// field decides the failure.
pub open spec fn spec_fields(pieces: Seq<Seq<char>>) -> Result<
    Seq<(Seq<char>, Seq<char>)>,
    ParseError,
>
    decreases pieces.len(),
{
    if pieces.len() == 0 {
        Ok(Seq::empty())
    } else {
        match spec_name_type(crate::chars::spec_trim(pieces[0])) {
            Err(e) => Err(e),
            Ok(p) => match spec_fields(pieces.drop_first()) {
                Err(e) => Err(e),
                Ok(rest) => Ok(seq![p] + rest),
            },
        }
    }
}

/// What a whole schema specification denotes as raw name/type text: nothing
/// for a blank input, otherwise one pair per comma-separated field.
pub open spec fn spec_parse_columns(s: Seq<char>) -> Result<
    Seq<(Seq<char>, Seq<char>)>,
    ParseError,
> {
    let t = crate::chars::spec_trim(s);
    if t.len() == 0 {
        Ok(Seq::empty())
    } else {
        spec_fields(crate::chars::spec_split(t, ','))
    }
}

/// Raw name/type pairs with the type tokens resolved; an unknown token is
/// the first failure.
pub open spec fn spec_tags(fields: Seq<(Seq<char>, Seq<char>)>) -> Result<
    Seq<(Seq<char>, Tag)>,
    ParseError,
>
    decreases fields.len(),
{
    if fields.len() == 0 {
        Ok(Seq::empty())
    } else {
        match tag_of(fields[0].1) {
            None => Err(ParseError::InvalidType),
            Some(tag) => match spec_tags(fields.drop_first()) {
                Err(e) => Err(e),
                Ok(rest) => Ok(seq![(fields[0].0, tag)] + rest),
            },
        }
    }
}

/// What a whole schema specification denotes as a schema.
pub open spec fn spec_columns(s: Seq<char>) -> Result<Seq<(Seq<char>, Tag)>, ParseError> {
    match spec_parse_columns(s) {
        Err(e) => Err(e),
        Ok(fields) => spec_tags(fields),
    }
}

/// The views of a vector of owned name/type-token pairs.
pub open spec fn pair_views(v: Seq<(String, String)>) -> Seq<(Seq<char>, Seq<char>)> {
    v.map_values(|p: (String, String)| (p.0@, p.1@))
}

/// Read one comma-separated field into its name and type token.
fn name_type_chars(piece: &Vec<char>) -> (r: Result<(String, String), ParseError>)
    ensures
        r matches Ok(p) ==> spec_name_type(piece@) matches Ok(q) && p.0@ == q.0 && p.1@ == q.1,
        r matches Err(e) ==> spec_name_type(piece@) matches Err(e2) && e == e2,
{
    let parts = split_vec(piece, ':');
    proof {
        assert(crate::chars::views_of(parts@).len() == parts@.len());
    }
    if parts.len() == 1 {
        let name = trim_vec(&parts[0]);
        proof {
            assert(crate::chars::views_of(parts@)[0] == parts@[0]@);
        }
        Ok((string_from_chars(&name), String::from_str("String")))
    } else if parts.len() == 2 {
        let name = trim_vec(&parts[0]);
        let ty = trim_vec(&parts[1]);
        proof {
            assert(crate::chars::views_of(parts@)[0] == parts@[0]@);
            assert(crate::chars::views_of(parts@)[1] == parts@[1]@);
        }
        Ok((string_from_chars(&name), string_from_chars(&ty)))
    } else {
        Err(ParseError::InvalidFieldSpec)
    }
}

/// Read a single field specifier (`name` or `name:type`), trimming around
/// the name and the type token.
pub fn parse_name_type(s: &str) -> (r: Result<(String, String), ParseError>)
    ensures
        r matches Ok(p) ==> spec_name_type(s@) matches Ok(q) && p.0@ == q.0 && p.1@ == q.1,
        r matches Err(e) ==> spec_name_type(s@) matches Err(e2) && e == e2,
{
    let cs = chars_of(s);
    name_type_chars(&cs)
}

/// Read the comma-separated fields starting at position `k` of the split.
fn fields_exec(parts: &Vec<Vec<char>>, k: usize) -> (r: Result<Vec<(String, String)>, ParseError>)
    requires
        k <= parts.len(),
    ensures
        r matches Ok(v) ==> spec_fields(crate::chars::views_of(parts@).skip(k as int)) matches Ok(
            fs,
        ) && pair_views(v@) == fs,
        r matches Err(e) ==> spec_fields(crate::chars::views_of(parts@).skip(k as int)) matches Err(
            e2,
        ) && e == e2,
    decreases parts.len() - k,
{
    let ghost vs = crate::chars::views_of(parts@).skip(k as int);
    if k == parts.len() {
        let r: Vec<(String, String)> = Vec::new();
        proof {
            assert(vs.len() == 0);
            assert(pair_views(r@) =~= Seq::<(Seq<char>, Seq<char>)>::empty());
        }
        Ok(r)
    } else {
        proof {
            assert(vs[0] == crate::chars::views_of(parts@)[k as int]);
            assert(vs[0] == parts@[k as int]@);
        }
        let t = trim_vec(&parts[k]);
        match name_type_chars(&t) {
            Err(e) => Err(e),
            Ok(p) => match fields_exec(parts, k + 1) {
                Err(e) => {
                    proof {
                        assert(crate::chars::views_of(parts@).skip(k + 1 as int)
                            =~= vs.drop_first());
                    }
                    Err(e)
                },
                Ok(mut rest) => {
                    rest.insert(0, p);
                    proof {
                        assert(crate::chars::views_of(parts@).skip(k + 1 as int)
                            =~= vs.drop_first());
                        let q = spec_name_type(crate::chars::spec_trim(vs[0]))->Ok_0;
                        assert(pair_views(rest@) =~= seq![q] + pair_views(
                            rest@.drop_first(),
                        ));
                    }
                    Ok(rest)
                },
            },
        }
    }
}

/// Read a whole schema specification into raw name/type-token pairs.
pub fn parse_columns(s: &str) -> (r: Result<Vec<(String, String)>, ParseError>)
    ensures
        r matches Ok(v) ==> spec_parse_columns(s@) matches Ok(fs) && pair_views(v@) == fs,
        r matches Err(e) ==> spec_parse_columns(s@) matches Err(e2) && e == e2,
{
    let cs = chars_of(s);
    let t = trim_vec(&cs);
    if t.len() == 0 {
        let r: Vec<(String, String)> = Vec::new();
        proof {
            assert(pair_views(r@) =~= Seq::<(Seq<char>, Seq<char>)>::empty());
        }
        Ok(r)
    } else {
        let parts = split_vec(&t, ',');
        let r = fields_exec(&parts, 0);
        proof {
            assert(crate::chars::views_of(parts@).skip(0) =~= crate::chars::views_of(parts@));
        }
        r
    }
}

/// An ordered column schema: `(name, type)` pairs at stable zero-based
/// positions. Names need not be unique; lookup by name returns the first
/// match.
#[derive(Debug, Clone)]
pub struct Columns {
    columns: Vec<(String, Tag)>,
}

impl View for Columns {
    type V = Seq<(Seq<char>, Tag)>;

    closed spec fn view(&self) -> Seq<(Seq<char>, Tag)> {
        self.columns@.map_values(|p: (String, Tag)| (p.0@, p.1))
    }
}

impl Columns {
    /// The number of columns.
    pub fn len(&self) -> (r: usize)
        ensures
            r == self@.len(),
    {
        self.columns.len()
    }

    /// The schema as a list of owned pairs.
    pub fn entries(&self) -> (r: &Vec<(String, Tag)>)
        ensures
            r@.len() == self@.len(),
            forall|i: int| 0 <= i < r@.len() ==> self@[i] == ((#[trigger] r@[i]).0@, r@[i].1),
    {
        &self.columns
    }

    /// Position and type of the first column with the given name.
    pub fn get_by_name(&self, name: &str) -> (r: Option<(usize, Tag)>)
        ensures
            r matches Some(p) ==> p.0 < self@.len() && self@[p.0 as int].0 == name@
                && self@[p.0 as int].1 == p.1 && (forall|j: int|
                0 <= j < p.0 ==> (#[trigger] self@[j]).0 != name@),
            r is None ==> forall|j: int| 0 <= j < self@.len() ==> (#[trigger] self@[j]).0
                != name@,
    {
        let target = chars_of(name);
        let mut i: usize = 0;
        while i < self.columns.len()
            invariant
                i <= self.columns.len(),
                target@ == name@,
                forall|j: int| 0 <= j < i ==> (#[trigger] self@[j]).0 != name@,
        decreases self.columns.len() - i,
        {
            let cs = chars_of(self.columns[i].0.as_str());
            if chars_eq(&cs, &target) {
                return Some((i, self.columns[i].1));
            }
            i += 1;
        }
        None
    }

    /// Name and type of the column at the given position.
    pub fn get_by_index(&self, index: usize) -> (r: Option<(&str, Tag)>)
        ensures
            index < self@.len() ==> (r matches Some(p) && p.0@ == self@[index as int].0 && p.1
                == self@[index as int].1),
            index >= self@.len() ==> r is None,
    {
        if index < self.columns.len() {
            Some((self.columns[index].0.as_str(), self.columns[index].1))
        } else {
            None
        }
    }

    /// A copy of this schema with the same view.
    pub fn duplicate(&self) -> (r: Columns)
        ensures
            r@ == self@,
    {
        let mut v: Vec<(String, Tag)> = Vec::new();
        let mut i: usize = 0;
        while i < self.columns.len()
            invariant
                i <= self.columns.len(),
                v@.len() == i,
                forall|j: int| 0 <= j < i ==> ((#[trigger] v@[j]).0@ == self@[j].0 && v@[j].1
                    == self@[j].1),
            decreases self.columns.len() - i,
        {
            let name = self.columns[i].0.clone();
            let tag = self.columns[i].1;
            proof {
                assert(name@ == self.columns@[i as int].0@);
                assert(self@[i as int] == (self.columns@[i as int].0@, self.columns@[i as int].1));
            }
            v.push((name, tag));
            proof {
                assert(v@[i as int].0@ == self@[i as int].0);
                assert(v@[i as int].1 == self@[i as int].1);
            }
            i += 1;
        }
        let r = Columns { columns: v };
        proof {
            assert(r@ =~= self@);
        }
        r
    }

    /// Read a schema from its textual specification.
    pub fn parse(s: &str) -> (r: Result<Columns, ParseError>)
        ensures
            r matches Ok(c) ==> spec_columns(s@) matches Ok(cols) && c@ == cols,
            r matches Err(e) ==> spec_columns(s@) matches Err(e2) && e == e2,
    {
        let raw = match parse_columns(s) {
            Err(e) => {
                return Err(e);
            },
            Ok(raw) => raw,
        };
        let mut out: Vec<(String, Tag)> = Vec::new();
        let mut i: usize = 0;
        let ghost fields = pair_views(raw@);
        while i < raw.len()
            invariant
                i <= raw.len(),
                fields == pair_views(raw@),
                fields.len() == raw.len(),
                spec_parse_columns(s@) == Ok::<Seq<(Seq<char>, Seq<char>)>, ParseError>(fields),
                out@.len() == i,
                forall|j: int| 0 <= j < i ==> tag_of((#[trigger] fields[j]).1) is Some,
                forall|j: int| 0 <= j < i ==> ((#[trigger] out@[j]).0@ == fields[j].0 && out@[j].1
                    == tag_of(fields[j].1)->0),
            decreases raw.len() - i,
        {
            let cs = chars_of(raw[i].1.as_str());
            match parse_tag(&cs) {
                None => {
                    proof {
                        lemma_spec_tags_err(fields, i as int);
                    }
                    return Err(ParseError::InvalidType);
                },
                Some(tag) => {
                    let name = raw[i].0.clone();
                    out.push((name, tag));
                    proof {
                        assert(fields[i as int] == (raw@[i as int].0@, raw@[i as int].1@));
                        assert(out@[i as int].0@ == raw@[i as int].0@);
                    }
                },
            }
            i += 1;
        }
        let c = Columns { columns: out };
        proof {
            lemma_spec_tags_ok(fields);
            assert(c@ =~= spec_tags(fields)->Ok_0);
        }
        Ok(c)
    }
}

/// When every type token resolves, `spec_tags` succeeds entry by entry.
proof fn lemma_spec_tags_ok(fields: Seq<(Seq<char>, Seq<char>)>)
    requires
        forall|j: int| 0 <= j < fields.len() ==> tag_of((#[trigger] fields[j]).1) is Some,
    ensures
        spec_tags(fields) is Ok,
        spec_tags(fields)->Ok_0.len() == fields.len(),
        forall|j: int| 0 <= j < fields.len() ==> spec_tags(fields)->Ok_0[j] == (
            (#[trigger] fields[j]).0,
            tag_of(fields[j].1)->0,
        ),
    decreases fields.len(),
{
    if fields.len() > 0 {
        assert forall|j: int| 0 <= j < fields.drop_first().len() implies tag_of(
            (#[trigger] fields.drop_first()[j]).1,
        ) is Some by {
            assert(fields.drop_first()[j] == fields[j + 1]);
        }
        lemma_spec_tags_ok(fields.drop_first());
        assert forall|j: int| 0 <= j < fields.len() implies spec_tags(fields)->Ok_0[j] == (
            (#[trigger] fields[j]).0,
            tag_of(fields[j].1)->0,
        ) by {
            if j > 0 {
                assert(fields.drop_first()[j - 1] == fields[j]);
                assert(spec_tags(fields)->Ok_0[j] == spec_tags(fields.drop_first())->Ok_0[j - 1]);
            }
        }
    }
}

/// A failing type token makes `spec_tags` fail with the type error.
proof fn lemma_spec_tags_err(fields: Seq<(Seq<char>, Seq<char>)>, i: int)
    requires
        0 <= i < fields.len(),
        tag_of(fields[i].1) is None,
    ensures
        spec_tags(fields) == Err::<Seq<(Seq<char>, Tag)>, ParseError>(ParseError::InvalidType),
    decreases fields.len(),
{
    if tag_of(fields[0].1) is Some {
        assert(i > 0);
        assert(fields.drop_first()[i - 1] == fields[i]);
        lemma_spec_tags_err(fields.drop_first(), i - 1);
    }
}

/// The position of the first column with the given name, or `-1`.
pub open spec fn col_index(cols: Seq<(Seq<char>, Tag)>, name: Seq<char>) -> int
    decreases cols.len(),
{
    if cols.len() == 0 {
        -1
    } else if cols[0].0 == name {
        0
    } else if col_index(cols.drop_first(), name) == -1 {
        -1
    } else {
        1 + col_index(cols.drop_first(), name)
    }
}

/// Where the first-match lookup lands: before `k` nothing matches, and `k`
/// (if in range) is a match.
pub proof fn lemma_col_index(cols: Seq<(Seq<char>, Tag)>, name: Seq<char>, k: int)
    requires
        0 <= k <= cols.len(),
        forall|j: int| 0 <= j < k ==> (#[trigger] cols[j]).0 != name,
        k < cols.len() ==> cols[k].0 == name,
    ensures
        col_index(cols, name) == if k == cols.len() {
            -1
        } else {
            k
        },
    decreases cols.len(),
{
    if cols.len() > 0 {
        if k == 0 {
        } else {
            assert(cols[0].0 != name);
            assert forall|j: int| 0 <= j < k - 1 implies (
            #[trigger] cols.drop_first()[j]).0 != name by {
                assert(cols.drop_first()[j] == cols[j + 1]);
            }
            lemma_col_index(cols.drop_first(), name, k - 1);
        }
    }
}

/// The first-match lookup lands at `-1` or inside the schema, and where it
/// lands the name matches.
pub proof fn lemma_col_index_range(cols: Seq<(Seq<char>, Tag)>, name: Seq<char>)
    ensures
        -1 <= col_index(cols, name) < cols.len(),
        0 <= col_index(cols, name) ==> cols[col_index(cols, name)].0 == name,
    decreases cols.len(),
{
    if cols.len() > 0 {
        lemma_col_index_range(cols.drop_first(), name);
    }
}

impl core::str::FromStr for Columns {
    type Err = ParseError;

    /// Read a schema from its textual specification.
    fn from_str(s: &str) -> Result<Columns, ParseError> {
        Columns::parse(s)
    }
}

} // verus!
