//! Loading a table from in-memory delimited-text sources.
//!
//! The `csv` crate splits a byte stream into raw records behind a trusted
//! wrapper; everything after that call — per-row parsing, the two tolerance
//! switches, line numbering and concatenation of sources — is verified.

use vstd::prelude::*;

verus! {

use crate::Tag;
use crate::columns::Columns;
use crate::record::{Record, RecordParser, RecordParserBuilder};

/// Why a table could not be loaded.
#[derive(Debug, Clone, Copy, PartialEq, Eq, Structural)]
pub enum Error {
    /// A row failed to parse, with its 1-based line number in its source.
    ParseRecord { source: crate::record::ParseError, line: usize },
    /// The raw bytes are not a record stream the reader can decode.
    Csv,
}

/// What the delimited-text reader splits a byte stream into: the rows, each
/// a list of text fields — or nothing when the stream cannot be decoded.
pub uninterp spec fn csv_rows(data: Seq<u8>) -> Option<Seq<Seq<Seq<char>>>>;

/// The views of a sequence of raw rows.
pub open spec fn rows_view(rows: Seq<Vec<String>>) -> Seq<Seq<Seq<char>>> {
    rows.map_values(|r: Vec<String>| crate::strs_view(r@))
}

/// Relies on csv's `ReaderBuilder` and `Reader` (headers off, flexible
/// field counts): the byte stream is split into records of text fields, and
/// a stream it cannot decode yields nothing.
#[verifier::external_body]
fn read_raw_rows(data: &Vec<u8>) -> (r: Option<Vec<Vec<String>>>)
    ensures
        (r is Some) == (csv_rows(data@) is Some),
        r matches Some(rows) ==> csv_rows(data@) matches Some(vs) && rows_view(rows@) == vs,
{
    let rdr = csv::ReaderBuilder::new().has_headers(false).flexible(true).from_reader(
        data.as_slice(),
    );
    rdr.into_records().map(
        |rec: Result<csv::StringRecord, csv::Error>| match rec {
            Ok(row) => Some(row.iter().map(|f: &str| f.to_string()).collect()),
            Err(_) => None,
        },
    ).collect()
}

/// What loading a sequence of raw rows yields, starting at the given
/// 1-based line number: the parsed records in order, with tolerated rows
/// skipped, or the first failure with its line number.
pub open spec fn spec_load(
    cols: Seq<(Seq<char>, Tag)>,
    ignore_length_mismatch: bool,
    ignore_parse_error: bool,
    rows: Seq<Seq<Seq<char>>>,
    line: int,
) -> Result<Seq<Seq<crate::ValView>>, Error>
    decreases rows.len(),
{
    if rows.len() == 0 {
        Ok(Seq::empty())
    } else {
        match crate::record::spec_parse(cols, ignore_length_mismatch, rows[0]) {
            Err(e) => if ignore_parse_error {
                spec_load(cols, ignore_length_mismatch, ignore_parse_error, rows.drop_first(), line + 1)
            } else {
                Err(Error::ParseRecord { source: e, line: line as usize })
            },
            Ok(None) => spec_load(
                cols,
                ignore_length_mismatch,
                ignore_parse_error,
                rows.drop_first(),
                line + 1,
            ),
            Ok(Some(vs)) => match spec_load(
                cols,
                ignore_length_mismatch,
                ignore_parse_error,
                rows.drop_first(),
                line + 1,
            ) {
                Err(e) => Err(e),
                Ok(rest) => Ok(seq![vs] + rest),
            },
        }
    }
}

/// Parse the raw rows from position `k` on, 1-based line `k + 1`.
fn load_rows(parser: &RecordParser, rows: &Vec<Vec<String>>, k: usize, ignore_parse_error: bool) -> (r:
    Result<Vec<Record>, Error>)
    requires
        k <= rows.len(),
    ensures
        r matches Ok(v) ==> spec_load(
            parser.columns@,
            parser.ignore_length_mismatch,
            ignore_parse_error,
            rows_view(rows@).skip(k as int),
            k + 1,
        ) matches Ok(vs) && crate::record::rec_views(v@) == vs && (forall|i: int|
            0 <= i < v@.len() ==> (#[trigger] v@[i]).wf()),
        r matches Err(e) ==> spec_load(
            parser.columns@,
            parser.ignore_length_mismatch,
            ignore_parse_error,
            rows_view(rows@).skip(k as int),
            k + 1,
        ) matches Err(e2) && e == e2,
    decreases rows.len() - k,
{
    let ghost vs = rows_view(rows@).skip(k as int);
    if k == rows.len() {
        let r: Vec<Record> = Vec::new();
        proof {
            assert(vs.len() == 0);
            assert(crate::record::rec_views(r@) =~= Seq::<Seq<crate::ValView>>::empty());
        }
        Ok(r)
    } else {
        proof {
            assert(vs[0] == rows_view(rows@)[k as int]);
            assert(vs[0] == crate::strs_view(rows@[k as int]@));
            assert(rows_view(rows@).skip(k + 1 as int) =~= vs.drop_first());
        }
        let parsed = match parser.parse(&rows[k]) {
            Err(e) => {
                if ignore_parse_error {
                    None
                } else {
                    return Err(Error::ParseRecord { source: e, line: k + 1 });
                }
            },
            Ok(None) => None,
            Ok(Some(rec)) => Some(rec),
        };
        match load_rows(parser, rows, k + 1, ignore_parse_error) {
            Err(e) => Err(e),
            Ok(mut rest) => {
                match parsed {
                    None => Ok(rest),
                    Some(rec) => {
                        let ghost pre = rest@;
                        rest.insert(0, rec);
                        proof {
                            assert(rest@.drop_first() =~= pre);
                            assert(crate::record::rec_views(rest@) =~= seq![rec@]
                                + crate::record::rec_views(pre));
                        }
                        Ok(rest)
                    },
                }
            },
        }
    }
}

/// Split one source's bytes into rows and append its records, reporting
/// 1-based line numbers within that source.
pub fn read_csv_records(
    data: &Vec<u8>,
    records: &mut Vec<Record>,
    parser: &RecordParser,
    ignore_parse_error: bool,
) -> (r: Result<(), Error>)
    ensures
        csv_rows(data@) is None ==> (r matches Err(e) && e == Error::Csv && final(records)@
            == old(records)@),
        csv_rows(data@) matches Some(rows) ==> match r {
            Ok(()) => spec_load(
                parser.columns@,
                parser.ignore_length_mismatch,
                ignore_parse_error,
                rows,
                1,
            ) matches Ok(vs) && final(records)@.len() == old(records)@.len() + vs.len() && (forall|
                i: int,
            |
                0 <= i < old(records)@.len() ==> final(records)@[i] == old(records)@[i]) && (forall|
                i: int,
            |
                0 <= i < vs.len() ==> (#[trigger] final(records)@[old(records)@.len() + i])@ == vs[
                    i
                ] && final(records)@[old(records)@.len() + i].wf()),
            Err(e) => spec_load(
                parser.columns@,
                parser.ignore_length_mismatch,
                ignore_parse_error,
                rows,
                1,
            ) matches Err(e2) && e == e2 && final(records)@ == old(records)@,
        },
{
    match read_raw_rows(data) {
        None => Err(Error::Csv),
        Some(rows) => {
            proof {
                assert(rows_view(rows@).skip(0) =~= rows_view(rows@));
            }
            match load_rows(&parser, &rows, 0, ignore_parse_error) {
                Err(e) => Err(e),
                Ok(mut got) => {
                    records.append(&mut got);
                    Ok(())
                },
            }
        },
    }
}

/// The views of a sequence of byte sources.
pub open spec fn bytes_view(s: Seq<Vec<u8>>) -> Seq<Seq<u8>> {
    s.map_values(|v: Vec<u8>| v@)
}

/// What loading a list of sources yields: their records concatenated in
/// source order, or the first failure.
pub open spec fn spec_sources(
    cols: Seq<(Seq<char>, Tag)>,
    ignore_length_mismatch: bool,
    ignore_parse_error: bool,
    sources: Seq<Seq<u8>>,
) -> Result<Seq<Seq<crate::ValView>>, Error>
    decreases sources.len(),
{
    if sources.len() == 0 {
        Ok(Seq::empty())
    } else {
        match csv_rows(sources[0]) {
            None => Err(Error::Csv),
            Some(rows) => match spec_load(cols, ignore_length_mismatch, ignore_parse_error, rows, 1) {
                Err(e) => Err(e),
                Ok(vs) => match spec_sources(
                    cols,
                    ignore_length_mismatch,
                    ignore_parse_error,
                    sources.drop_first(),
                ) {
                    Err(e) => Err(e),
                    Ok(rest) => Ok(vs + rest),
                },
            },
        }
    }
}

/// Builds a [`Table`] from a schema, the two tolerance switches and a list
/// of in-memory sources.
#[derive(Debug)]
pub struct TableBuilder {
    pub columns: Option<Columns>,
    pub ignore_length_mismatch: bool,
    pub ignore_parse_error: bool,
}

impl TableBuilder {
    /// A builder with no schema and both tolerance switches off.
    pub fn new() -> (r: TableBuilder)
        ensures
            r.columns is None,
            !r.ignore_length_mismatch,
            !r.ignore_parse_error,
    {
        TableBuilder { columns: None, ignore_length_mismatch: false, ignore_parse_error: false }
    }

    /// Set the schema.
    pub fn columns(self, columns: Columns) -> (r: TableBuilder)
        ensures
            r.columns matches Some(c) && c@ == columns@,
            r.ignore_length_mismatch == self.ignore_length_mismatch,
            r.ignore_parse_error == self.ignore_parse_error,
    {
        TableBuilder { columns: Some(columns), ..self }
    }

    /// Set whether rows of the wrong width are dropped rather than fatal.
    pub fn ignore_length_mismatch(self, flag: bool) -> (r: TableBuilder)
        ensures
            r.ignore_length_mismatch == flag,
            r.columns == self.columns,
            r.ignore_parse_error == self.ignore_parse_error,
    {
        TableBuilder { ignore_length_mismatch: flag, ..self }
    }

    /// Set whether rows with unconvertible fields are dropped rather than
    /// fatal.
    pub fn ignore_parse_error(self, flag: bool) -> (r: TableBuilder)
        ensures
            r.ignore_parse_error == flag,
            r.columns == self.columns,
            r.ignore_length_mismatch == self.ignore_length_mismatch,
    {
        TableBuilder { ignore_parse_error: flag, ..self }
    }

    /// Load the table from in-memory sources, concatenated in order.
    pub fn from_sources(self, sources: &Vec<Vec<u8>>) -> (r: Result<Table, Error>)
        requires
            self.columns is Some,
        ensures
            r matches Ok(t) ==> spec_sources(
                self.columns->0@,
                self.ignore_length_mismatch,
                self.ignore_parse_error,
                bytes_view(sources@),
            ) matches Ok(vs) && t.wf() && t@.0 == self.columns->0@ && t@.1 == vs,
            r matches Err(e) ==> spec_sources(
                self.columns->0@,
                self.ignore_length_mismatch,
                self.ignore_parse_error,
                bytes_view(sources@),
            ) matches Err(e2) && e == e2,
    {
        let columns = match self.columns {
            Some(c) => c,
            None => {
                return Err(Error::Csv);
            },
        };
        let parser = RecordParserBuilder::new().ignore_length_mismatch(
            self.ignore_length_mismatch,
        ).from_columns(&columns);
        let mut data: Vec<Record> = Vec::new();
        let mut i: usize = 0;
        let ghost cols = columns@;
        let ghost srcs = bytes_view(sources@);
        proof {
            assert(srcs.skip(0) =~= srcs);
            assert(crate::record::rec_views(data@) =~= Seq::<Seq<crate::ValView>>::empty());
            if spec_sources(cols, self.ignore_length_mismatch, self.ignore_parse_error, srcs)
                is Ok {
                assert(Seq::<Seq<crate::ValView>>::empty() + spec_sources(
                    cols,
                    self.ignore_length_mismatch,
                    self.ignore_parse_error,
                    srcs,
                )->Ok_0 =~= spec_sources(
                    cols,
                    self.ignore_length_mismatch,
                    self.ignore_parse_error,
                    srcs,
                )->Ok_0);
            }
        }
        while i < sources.len()
            invariant
                i <= sources.len(),
                self.columns is Some,
                cols == self.columns->0@,
                parser.columns@ == cols,
                parser.ignore_length_mismatch == self.ignore_length_mismatch,
                srcs == bytes_view(sources@),
                srcs.len() == sources@.len(),
                spec_sources(cols, self.ignore_length_mismatch, self.ignore_parse_error, srcs)
                    is Ok ==> (spec_sources(
                    cols,
                    self.ignore_length_mismatch,
                    self.ignore_parse_error,
                    srcs,
                ) matches Ok(whole) && (spec_sources(
                    cols,
                    self.ignore_length_mismatch,
                    self.ignore_parse_error,
                    srcs.skip(i as int),
                ) matches Ok(rest) && crate::record::rec_views(data@) + rest == whole)),
                spec_sources(
                    cols,
                    self.ignore_length_mismatch,
                    self.ignore_parse_error,
                    srcs,
                ) is Err ==> spec_sources(
                    cols,
                    self.ignore_length_mismatch,
                    self.ignore_parse_error,
                    srcs.skip(i as int),
                ) == spec_sources(cols, self.ignore_length_mismatch, self.ignore_parse_error, srcs),
                forall|j: int| 0 <= j < data@.len() ==> (#[trigger] data@[j]).wf(),
            decreases sources.len() - i,
        {
            proof {
                assert(srcs.skip(i as int)[0] == srcs[i as int]);
                assert(srcs[i as int] == sources@[i as int]@);
                assert(srcs.skip(i + 1 as int) =~= srcs.skip(i as int).drop_first());
            }
            let ghost pre = data@;
            let ghost whole = spec_sources(
                cols,
                self.ignore_length_mismatch,
                self.ignore_parse_error,
                srcs,
            );
            let ghost at_i = spec_sources(
                cols,
                self.ignore_length_mismatch,
                self.ignore_parse_error,
                srcs.skip(i as int),
            );
            match read_csv_records(&sources[i], &mut data, &parser, self.ignore_parse_error) {
                Err(e) => {
                    proof {
                        assert(srcs.skip(i as int).len() > 0);
                        assert(srcs.skip(i as int)[0] == srcs[i as int]);
                        if whole is Ok {
                            assert(at_i is Ok);
                            assert(csv_rows(srcs[i as int]) is Some);
                            assert(false);
                        }
                        assert(whole is Err);
                        assert(at_i == whole);
                        assert(at_i matches Err(e2) && e == e2);
                    }
                    return Err(e);
                },
                Ok(()) => {},
            }
            proof {
                assert(csv_rows(srcs[i as int]) is Some);
                let loaded = spec_load(
                    cols,
                    self.ignore_length_mismatch,
                    self.ignore_parse_error,
                    csv_rows(srcs[i as int])->0,
                    1,
                )->Ok_0;
                assert forall|j: int| 0 <= j < data@.len() implies crate::record::rec_views(
                    data@,
                )[j] == (crate::record::rec_views(pre) + loaded)[j] by {
                    if j < pre.len() {
                        assert(data@[j] == pre[j]);
                    } else {
                        let i0 = j - pre.len();
                        assert((#[trigger] data@[pre.len() + i0])@ == loaded[i0]);
                    }
                }
                assert forall|j: int| 0 <= j < data@.len() implies (#[trigger] data@[j]).wf() by {
                    if j >= pre.len() {
                        let i0 = j - pre.len();
                        assert((#[trigger] data@[pre.len() + i0]).wf());
                    }
                }
                assert(crate::record::rec_views(data@) =~= crate::record::rec_views(pre) + loaded);
                if whole is Ok {
                    let rest_i = at_i->Ok_0;
                    let rest_i1 = spec_sources(
                        cols,
                        self.ignore_length_mismatch,
                        self.ignore_parse_error,
                        srcs.skip(i + 1 as int),
                    )->Ok_0;
                    assert(rest_i =~= loaded + rest_i1);
                    assert(crate::record::rec_views(data@) + rest_i1 =~= whole->Ok_0);
                }
            }
            i += 1;
        }
        proof {
            assert(srcs.skip(srcs.len() as int).len() == 0);
            if spec_sources(cols, self.ignore_length_mismatch, self.ignore_parse_error, srcs)
                is Ok {
                assert(crate::record::rec_views(data@) + Seq::<Seq<crate::ValView>>::empty()
                    =~= crate::record::rec_views(data@));
            }
        }
        Ok(Table { columns, data })
    }
}

/// A row has exactly the width and field shapes its schema declares.
pub open spec fn row_matches(cols: Seq<(Seq<char>, Tag)>, row: Seq<crate::ValView>) -> bool {
    &&& row.len() == cols.len()
    &&& forall|j: int|
        0 <= j < row.len() ==> (((#[trigger] cols[j]).1 == Tag::Text ==> row[j] is Text) && (
        cols[j].1 == Tag::Decimal ==> row[j] is Decimal) && (cols[j].1 == Tag::Date
            ==> row[j] is Date))
}

/// Every row a load yields matches its schema.
pub proof fn lemma_load_shapes(
    cols: Seq<(Seq<char>, Tag)>,
    ignore_length_mismatch: bool,
    ignore_parse_error: bool,
    rows: Seq<Seq<Seq<char>>>,
    line: int,
)
    requires
        spec_load(cols, ignore_length_mismatch, ignore_parse_error, rows, line) is Ok,
    ensures
        forall|k: int|
            0 <= k < spec_load(cols, ignore_length_mismatch, ignore_parse_error, rows, line)->Ok_0.len()
                ==> row_matches(
                cols,
                #[trigger] spec_load(
                    cols,
                    ignore_length_mismatch,
                    ignore_parse_error,
                    rows,
                    line,
                )->Ok_0[k],
            ),
    decreases rows.len(),
{
    if rows.len() > 0 {
        let r = spec_load(cols, ignore_length_mismatch, ignore_parse_error, rows, line)->Ok_0;
        match crate::record::spec_parse(cols, ignore_length_mismatch, rows[0]) {
            Err(_) => {
                lemma_load_shapes(
                    cols,
                    ignore_length_mismatch,
                    ignore_parse_error,
                    rows.drop_first(),
                    line + 1,
                );
            },
            Ok(None) => {
                lemma_load_shapes(
                    cols,
                    ignore_length_mismatch,
                    ignore_parse_error,
                    rows.drop_first(),
                    line + 1,
                );
            },
            Ok(Some(vs)) => {
                let tags = cols.map_values(|p: (Seq<char>, Tag)| p.1);
                crate::record::lemma_parse_row_shapes(rows[0], tags);
                lemma_load_shapes(
                    cols,
                    ignore_length_mismatch,
                    ignore_parse_error,
                    rows.drop_first(),
                    line + 1,
                );
                let rest = spec_load(
                    cols,
                    ignore_length_mismatch,
                    ignore_parse_error,
                    rows.drop_first(),
                    line + 1,
                )->Ok_0;
                assert forall|k: int| 0 <= k < r.len() implies row_matches(
                    cols,
                    #[trigger] r[k],
                ) by {
                    if k == 0 {
                        assert(r[0] == vs);
                        assert forall|j: int|
                            0 <= j < vs.len() implies (((#[trigger] cols[j]).1 == Tag::Text
                            ==> vs[j] is Text) && (cols[j].1 == Tag::Decimal
                            ==> vs[j] is Decimal) && (cols[j].1 == Tag::Date
                            ==> vs[j] is Date)) by {
                            assert(tags[j] == cols[j].1);
                        }
                    } else {
                        assert(r[k] == rest[k - 1]);
                    }
                }
            },
        }
    }
}

/// Every row a multi-source load yields matches its schema.
pub proof fn lemma_sources_shapes(
    cols: Seq<(Seq<char>, Tag)>,
    ignore_length_mismatch: bool,
    ignore_parse_error: bool,
    sources: Seq<Seq<u8>>,
)
    requires
        spec_sources(cols, ignore_length_mismatch, ignore_parse_error, sources) is Ok,
    ensures
        forall|k: int|
            0 <= k < spec_sources(cols, ignore_length_mismatch, ignore_parse_error, sources)->Ok_0.len()
                ==> row_matches(
                cols,
                #[trigger] spec_sources(
                    cols,
                    ignore_length_mismatch,
                    ignore_parse_error,
                    sources,
                )->Ok_0[k],
            ),
    decreases sources.len(),
{
    if sources.len() > 0 {
        let r = spec_sources(cols, ignore_length_mismatch, ignore_parse_error, sources)->Ok_0;
        let rows = csv_rows(sources[0])->0;
        lemma_load_shapes(cols, ignore_length_mismatch, ignore_parse_error, rows, 1);
        lemma_sources_shapes(cols, ignore_length_mismatch, ignore_parse_error, sources.drop_first());
        let vs = spec_load(cols, ignore_length_mismatch, ignore_parse_error, rows, 1)->Ok_0;
        let rest = spec_sources(
            cols,
            ignore_length_mismatch,
            ignore_parse_error,
            sources.drop_first(),
        )->Ok_0;
        assert forall|k: int| 0 <= k < r.len() implies row_matches(cols, #[trigger] r[k]) by {
            if k < vs.len() {
                assert(r[k] == vs[k]);
            } else {
                assert(r[k] == rest[k - vs.len()]);
            }
        }
    }
}

/// A schema together with the records parsed under it, read-only once
/// built.
#[derive(Debug, Clone)]
pub struct Table {
    columns: Columns,
    data: Vec<Record>,
}

impl View for Table {
    type V = (Seq<(Seq<char>, Tag)>, Seq<Seq<crate::ValView>>);

    closed spec fn view(&self) -> (Seq<(Seq<char>, Tag)>, Seq<Seq<crate::ValView>>) {
        (self.columns@, crate::record::rec_views(self.data@))
    }
}

impl Table {
    /// Every record is well-formed.
    pub open spec fn wf(self) -> bool {
        forall|i: int| 0 <= i < self.spec_records().len() ==> (#[trigger] self.spec_records()[i]).wf()
    }

    /// The records this table holds.
    pub closed spec fn spec_records(self) -> Seq<Record> {
        self.data@
    }

    /// The table's schema.
    pub fn columns(&self) -> (r: &Columns)
        ensures
            r@ == self@.0,
    {
        &self.columns
    }

    /// The records, in order of their sources and lines.
    pub fn inner(&self) -> (r: &Vec<Record>)
        ensures
            r@ == self.spec_records(),
            crate::record::rec_views(r@) == self@.1,
    {
        &self.data
    }
}

} // verus!
