//! The run configuration and the pipeline from configuration to quotients.
//!
//! An [`App`] holds what the command line supplies: the source and target
//! paths, the two column specifications, the predicate and the two tolerance
//! switches. Reading files is a caller's concern; the pipeline here takes
//! each side's raw bytes and carries them through schema parsing, predicate
//! compilation, table loading and partitioning.

use vstd::prelude::*;

verus! {

use crate::{Tag, ValView};
use crate::columns::Columns;
use crate::record::Mapping;
use crate::table::TableBuilder;
use crate::compare::TableQuotient;

/// Why a run was rejected before or while loading.
#[derive(Debug)]
pub enum Error {
    /// More than one path names standard input.
    MultipleStdin,
    /// The source column specification is malformed.
    SourceColumns(crate::columns::ParseError),
    /// The target column specification is malformed.
    TargetColumns(crate::columns::ParseError),
    /// The predicate is malformed.
    Predicate(crate::expr::ParseError),
    /// The source table failed to load.
    SourceTable(crate::table::Error),
    /// The target table failed to load.
    TargetTable(crate::table::Error),
}

/// The mathematical content of an [`Error`].
pub enum ErrView {
    MultipleStdin,
    SourceColumns(crate::columns::ParseError),
    TargetColumns(crate::columns::ParseError),
    Predicate(crate::expr::ParseErrView),
    SourceTable(crate::table::Error),
    TargetTable(crate::table::Error),
}

impl View for Error {
    type V = ErrView;

    open spec fn view(&self) -> ErrView {
        match self {
            Error::MultipleStdin => ErrView::MultipleStdin,
            Error::SourceColumns(e) => ErrView::SourceColumns(*e),
            Error::TargetColumns(e) => ErrView::TargetColumns(*e),
            Error::Predicate(e) => ErrView::Predicate(e@),
            Error::SourceTable(e) => ErrView::SourceTable(*e),
            Error::TargetTable(e) => ErrView::TargetTable(*e),
        }
    }
}

/// The run configuration: paths, column specifications, predicate and the
/// two tolerance switches.
#[derive(Debug)]
pub struct App {
    pub source_file: Vec<String>,
    pub target_file: Vec<String>,
    pub source_columns: String,
    pub target_columns: String,
    pub predicate: String,
    pub ignore_length_mismatch: bool,
    pub ignore_parse_error: bool,
}

/// How many of the paths name standard input.
pub open spec fn stdin_count(paths: Seq<Seq<char>>) -> int
    decreases paths.len(),
{
    if paths.len() == 0 {
        0
    } else {
        (if paths[0] == "-"@ {
            1int
        } else {
            0int
        }) + stdin_count(paths.drop_first())
    }
}

/// Count the paths naming standard input, from position `k` on.
fn count_stdin(paths: &Vec<String>, k: usize) -> (r: usize)
    requires
        k <= paths.len(),
    ensures
        r == stdin_count(crate::strs_view(paths@).skip(k as int)),
        r <= paths.len() - k,
    decreases paths.len() - k,
{
    let ghost vs = crate::strs_view(paths@).skip(k as int);
    if k == paths.len() {
        proof {
            assert(vs.len() == 0);
        }
        0
    } else {
        proof {
            assert(vs[0] == crate::strs_view(paths@)[k as int]);
            assert(vs[0] == paths@[k as int]@);
            assert(crate::strs_view(paths@).skip(k + 1 as int) =~= vs.drop_first());
        }
        let hyphen = crate::chars::str_eq(paths[k].as_str(), "-");
        let rest = count_stdin(paths, k + 1);
        if hyphen {
            rest + 1
        } else {
            rest
        }
    }
}

/// What the whole pipeline denotes: the two schemas with the two partitions
/// (classes keyed by projected keys, bags as field views), or the first
/// failure in configuration order.
pub open spec fn spec_to_quotients(app: App, srcs: Seq<Seq<u8>>, tgts: Seq<Seq<u8>>) -> Result<
    (
        (Seq<(Seq<char>, Tag)>, Seq<(Seq<ValView>, Seq<Seq<ValView>>)>),
        (Seq<(Seq<char>, Tag)>, Seq<(Seq<ValView>, Seq<Seq<ValView>>)>),
    ),
    ErrView,
> {
    if stdin_count(crate::strs_view(app.source_file@)) + stdin_count(
        crate::strs_view(app.target_file@),
    ) >= 2 {
        Err(ErrView::MultipleStdin)
    } else {
        match crate::columns::spec_columns(app.source_columns@) {
            Err(e) => Err(ErrView::SourceColumns(e)),
            Ok(sc) => match crate::columns::spec_columns(app.target_columns@) {
                Err(e) => Err(ErrView::TargetColumns(e)),
                Ok(tc) => match crate::expr::spec_parse_equal(app.predicate@, sc, tc) {
                    Err(e) => Err(ErrView::Predicate(e)),
                    Ok(ms) => match crate::table::spec_sources(
                        sc,
                        app.ignore_length_mismatch,
                        app.ignore_parse_error,
                        srcs,
                    ) {
                        Err(e) => Err(ErrView::SourceTable(e)),
                        Ok(srows) => match crate::table::spec_sources(
                            tc,
                            app.ignore_length_mismatch,
                            app.ignore_parse_error,
                            tgts,
                        ) {
                            Err(e) => Err(ErrView::TargetTable(e)),
                            Ok(trows) => Ok(
                                (
                                    (
                                        sc,
                                        crate::compare::spec_fill(
                                            Seq::<(Seq<ValView>, Seq<Seq<ValView>>)>::empty(),
                                            ms.0,
                                            srows,
                                        ),
                                    ),
                                    (
                                        tc,
                                        crate::compare::spec_fill(
                                            Seq::<(Seq<ValView>, Seq<Seq<ValView>>)>::empty(),
                                            ms.1,
                                            trows,
                                        ),
                                    ),
                                ),
                            ),
                        },
                    },
                },
            },
        }
    }
}

impl App {
    /// At most one path in total may name standard input.
    fn validate_path(&self) -> (r: Result<(), Error>)
        ensures
            (r is Ok) == (stdin_count(crate::strs_view(self.source_file@)) + stdin_count(
                crate::strs_view(self.target_file@),
            ) < 2),
            r matches Err(e) ==> e is MultipleStdin,
    {
        let src_hyphens = count_stdin(&self.source_file, 0);
        let dst_hyphens = count_stdin(&self.target_file, 0);
        proof {
            assert(crate::strs_view(self.source_file@).skip(0) =~= crate::strs_view(
                self.source_file@,
            ));
            assert(crate::strs_view(self.target_file@).skip(0) =~= crate::strs_view(
                self.target_file@,
            ));
        }
        if src_hyphens >= 2 || dst_hyphens >= 2 || (src_hyphens >= 1 && dst_hyphens >= 1) {
            Err(Error::MultipleStdin)
        } else {
            Ok(())
        }
    }

    /// Check the configuration before any loading.
    fn validate(&self) -> (r: Result<(), Error>)
        ensures
            (r is Ok) == (stdin_count(crate::strs_view(self.source_file@)) + stdin_count(
                crate::strs_view(self.target_file@),
            ) < 2),
            r matches Err(e) ==> e is MultipleStdin,
    {
        self.validate_path()
    }

    /// Run the whole pipeline on each side's raw bytes: parse both schemas,
    /// compile the predicate, load both tables and partition them.
    pub fn to_quotients(&self, source_data: &Vec<Vec<u8>>, target_data: &Vec<Vec<u8>>) -> (r:
        Result<(TableQuotient, TableQuotient), Error>)
        ensures
            r matches Ok(p) ==> (spec_to_quotients(
                *self,
                crate::table::bytes_view(source_data@),
                crate::table::bytes_view(target_data@),
            ) matches Ok(q) && p.0.cols() == q.0.0 && crate::compare::bags_views(p.0.part())
                == q.0.1 && p.0.inv() && p.1.cols() == q.1.0 && crate::compare::bags_views(
                p.1.part(),
            ) == q.1.1 && p.1.inv()),
            r matches Err(e) ==> spec_to_quotients(
                *self,
                crate::table::bytes_view(source_data@),
                crate::table::bytes_view(target_data@),
            ) matches Err(ev) && e@ == ev,
    {
        match self.validate() {
            Err(e) => {
                return Err(e);
            },
            Ok(()) => {},
        }
        let source_columns = match Columns::parse(self.source_columns.as_str()) {
            Err(e) => {
                return Err(Error::SourceColumns(e));
            },
            Ok(c) => c,
        };
        let target_columns = match Columns::parse(self.target_columns.as_str()) {
            Err(e) => {
                return Err(Error::TargetColumns(e));
            },
            Ok(c) => c,
        };
        let mappings = match crate::expr::parse_equal(
            self.predicate.as_str(),
            &source_columns,
            &target_columns,
        ) {
            Err(e) => {
                return Err(Error::Predicate(e));
            },
            Ok(p) => p,
        };
        let ghost sc = source_columns@;
        let ghost tc = target_columns@;
        let ghost lm = mappings.0@;
        let ghost rm = mappings.1@;
        let source_width = source_columns.len();
        let target_width = target_columns.len();
        proof {
            assert(sc.len() == source_width as int);
            assert(tc.len() == target_width as int);
        }
        let source_table = match TableBuilder::new().columns(source_columns).ignore_length_mismatch(
            self.ignore_length_mismatch,
        ).ignore_parse_error(self.ignore_parse_error).from_sources(source_data) {
            Err(e) => {
                return Err(Error::SourceTable(e));
            },
            Ok(t) => t,
        };
        let target_table = match TableBuilder::new().columns(target_columns).ignore_length_mismatch(
            self.ignore_length_mismatch,
        ).ignore_parse_error(self.ignore_parse_error).from_sources(target_data) {
            Err(e) => {
                return Err(Error::TargetTable(e));
            },
            Ok(t) => t,
        };
        proof {
            crate::expr::lemma_parse_equal_valid(self.predicate@, sc, tc);
            crate::table::lemma_sources_shapes(
                sc,
                self.ignore_length_mismatch,
                self.ignore_parse_error,
                crate::table::bytes_view(source_data@),
            );
            crate::table::lemma_sources_shapes(
                tc,
                self.ignore_length_mismatch,
                self.ignore_parse_error,
                crate::table::bytes_view(target_data@),
            );
            lemma_rows_map_ok(lm, sc, source_table@.1);
            lemma_rows_map_ok(rm, tc, target_table@.1);
        }
        let source_quotient = TableQuotient::new(&source_table, &Mapping(mappings.0));
        let target_quotient = TableQuotient::new(&target_table, &Mapping(mappings.1));
        Ok((source_quotient, target_quotient))
    }
}

/// Terms valid for a schema apply to every row that matches the schema.
proof fn lemma_rows_map_ok(
    ts: Seq<crate::expr::Term>,
    cols: Seq<(Seq<char>, Tag)>,
    rows: Seq<Seq<ValView>>,
)
    requires
        forall|t: int| 0 <= t < ts.len() ==> crate::expr::term_valid(#[trigger] ts[t], cols),
        forall|k: int| 0 <= k < rows.len() ==> crate::table::row_matches(cols, #[trigger] rows[k]),
    ensures
        forall|k: int| 0 <= k < rows.len() ==> crate::record::map_ok(ts, #[trigger] rows[k]),
{
    assert forall|k: int| 0 <= k < rows.len() implies crate::record::map_ok(
        ts,
        #[trigger] rows[k],
    ) by {
        assert forall|t: int| 0 <= t < ts.len() implies crate::expr::term_ok(
            #[trigger] ts[t],
            rows[k],
        ) by {
            match ts[t] {
                crate::expr::Term::Val(i) => {},
                crate::expr::Term::Neg(i) => {
                    assert(cols[i as int].1 == Tag::Decimal);
                    assert(rows[k][i as int] is Decimal);
                },
            }
        }
    }
}

} // verus!
