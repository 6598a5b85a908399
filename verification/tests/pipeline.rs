use compare_csv::app::{App, Error};
use compare_csv::columns::Columns;
use compare_csv::compare::TableComparator;
use compare_csv::quotient::{Projection, Quotient};
use compare_csv::record::{Record, RecordParserBuilder};
use compare_csv::Tag;
use compare_csv::Value;

fn app_for(source_cols: &str, target_cols: &str, predicate: &str) -> App {
    App {
        source_file: vec!["a.csv".to_owned()],
        target_file: vec!["b.csv".to_owned()],
        source_columns: source_cols.to_owned(),
        target_columns: target_cols.to_owned(),
        predicate: predicate.to_owned(),
        ignore_length_mismatch: false,
        ignore_parse_error: false,
    }
}

fn dec(s: &str) -> Value {
    Value::Decimal(compare_csv::decimal::dec_from_str(s).unwrap())
}

#[test]
fn schema_round_trip() {
    let cols = Columns::parse("a:Decimal, b").unwrap();
    let entries = cols.entries();
    assert_eq!(entries.len(), 2);
    assert_eq!(entries[0].0, "a");
    assert_eq!(entries[0].1, Tag::Decimal);
    assert_eq!(entries[1].0, "b");
    assert_eq!(entries[1].1, Tag::Text);

    assert_eq!(Columns::parse("").unwrap().len(), 0);

    let blank = Columns::parse(",,").unwrap();
    assert_eq!(blank.len(), 3);
    for i in 0..3 {
        assert_eq!(blank.entries()[i].0, "");
        assert_eq!(blank.entries()[i].1, Tag::Text);
    }
}

#[test]
fn schema_errors() {
    assert!(matches!(
        Columns::parse("a:Nope"),
        Err(compare_csv::columns::ParseError::InvalidType)
    ));
    assert!(matches!(
        Columns::parse("a:b:c"),
        Err(compare_csv::columns::ParseError::InvalidFieldSpec)
    ));
}

#[test]
fn predicate_errors() {
    let xy = Columns::parse("x:Decimal, y:String").unwrap();
    let ab = Columns::parse("a:Decimal, b:String").unwrap();
    assert!(matches!(
        compare_csv::expr::parse_equal("x", &xy, &ab),
        Err(compare_csv::expr::ParseError::EqualsSignNotFound)
    ));
    assert!(matches!(
        compare_csv::expr::parse_equal("(x, y = a", &xy, &ab),
        Err(compare_csv::expr::ParseError::MissingCloseParen)
    ));
    assert!(matches!(
        compare_csv::expr::parse_equal("z = a", &xy, &ab),
        Err(compare_csv::expr::ParseError::UndefinedField(_))
    ));
    assert!(matches!(
        compare_csv::expr::parse_equal("-y = a", &xy, &ab),
        Err(compare_csv::expr::ParseError::TypeError)
    ));
}

#[derive(Clone)]
struct Identity;

impl Projection for Identity {
    type Domain = usize;
    type Target = usize;

    fn wf(&self, _x: usize) -> bool {
        true
    }

    fn spec_project(&self, x: usize) -> usize {
        x
    }

    fn project(&self, x: &usize) -> usize {
        *x
    }
}

#[test]
fn asymmetric_difference() {
    // A has class sizes {0: 2, 1: 2}; B has {0: 2, 1: 1}.
    let mut a: Quotient<usize, usize, Identity> = Quotient::with_projection(Identity);
    a.push(0);
    a.push(0);
    a.push(1);
    a.push(1);
    let mut b: Quotient<usize, usize, Identity> = Quotient::with_projection(Identity);
    b.push(0);
    b.push(0);
    b.push(1);
    b.push(5);

    let mut fwd: Vec<usize> = Vec::new();
    let mut d = a.difference(&b);
    while let Some(k) = d.next() {
        fwd.push(*k);
    }
    assert_eq!(fwd, vec![1]);

    // The reverse direction never re-reports key 1 (not strictly bigger in
    // B), but does report the key present only in B.
    let mut bwd: Vec<usize> = Vec::new();
    let mut d = b.difference(&a);
    while let Some(k) = d.next() {
        bwd.push(*k);
    }
    assert_eq!(bwd, vec![5]);
}

#[test]
fn end_to_end() {
    let app = app_for("x:Decimal", "x:Decimal", "x=x");
    let source = vec![b"1\n2\n3\n".to_vec()];
    let target = vec![b"2\n3\n4\n".to_vec()];
    let comp = TableComparator::from_app(&app, &source, &target).unwrap();

    let points = comp.different_points();
    assert_eq!(points.len(), 2);
    assert_eq!(*points[0], Record(vec![dec("1")]));
    assert_eq!(*points[1], Record(vec![dec("4")]));

    let (src, tgt) = comp.get_records(points[0]);
    assert_eq!(src, &vec![Record(vec![dec("1")])]);
    assert_eq!(tgt.len(), 0);

    let (src, tgt) = comp.get_records(points[1]);
    assert_eq!(src.len(), 0);
    assert_eq!(tgt, &vec![Record(vec![dec("4")])]);
}

#[test]
fn idempotent_report() {
    let app = app_for("x:Decimal", "x:Decimal", "x=x");
    let source = vec![b"1\n2\n3\n".to_vec()];
    let target = vec![b"2\n3\n4\n".to_vec()];
    let comp = TableComparator::from_app(&app, &source, &target).unwrap();

    let first = comp.different_points();
    let second = comp.different_points();
    assert_eq!(first, second);
}

#[test]
fn parse_error_aborts_with_line() {
    let app = app_for("x:Decimal", "x:Decimal", "x=x");
    let source = vec![b"1\nfoo\n3\n".to_vec()];
    let target = vec![b"1\n".to_vec()];
    let r = TableComparator::from_app(&app, &source, &target);
    assert!(matches!(
        r,
        Err(Error::SourceTable(compare_csv::table::Error::ParseRecord {
            source: compare_csv::record::ParseError::Decimal,
            line: 2,
        }))
    ));
}

#[test]
fn parse_error_tolerated() {
    let mut app = app_for("x:Decimal", "x:Decimal", "x=x");
    app.ignore_parse_error = true;
    let source = vec![b"1\nfoo\n3\n".to_vec()];
    let target = vec![b"9\n".to_vec()];
    let (sq, _tq) = app.to_quotients(&source, &target).unwrap();
    // The malformed row is dropped: two records remain, in two classes.
    assert_eq!(sq.quotient().len(), 2);
}

#[test]
fn length_mismatch_aborts_with_line() {
    let app = app_for("x:Decimal", "x:Decimal", "x=x");
    let source = vec![b"1\n2,3\n4\n".to_vec()];
    let target = vec![b"1\n".to_vec()];
    let r = app.to_quotients(&source, &target);
    assert!(matches!(
        r,
        Err(Error::SourceTable(compare_csv::table::Error::ParseRecord {
            source: compare_csv::record::ParseError::DifferentLength {
                columns: 1,
                record: 2,
            },
            line: 2,
        }))
    ));
}

#[test]
fn length_mismatch_tolerated() {
    let mut app = app_for("x:Decimal", "x:Decimal", "x=x");
    app.ignore_length_mismatch = true;
    let source = vec![b"1\n2,3\n4\n".to_vec()];
    let target = vec![b"9\n".to_vec()];
    let (sq, _tq) = app.to_quotients(&source, &target).unwrap();
    assert_eq!(sq.quotient().len(), 2);
}

#[test]
fn multiple_stdin_rejected() {
    let mut app = app_for("x:Decimal", "x:Decimal", "x=x");
    app.source_file = vec!["-".to_owned()];
    app.target_file = vec!["-".to_owned()];
    let r = app.to_quotients(&Vec::new(), &Vec::new());
    assert!(matches!(r, Err(Error::MultipleStdin)));
}

#[test]
fn decimal_values_compare_numerically() {
    let cols = Columns::parse("x:Decimal").unwrap();
    let parser = RecordParserBuilder::new()
        .ignore_length_mismatch(false)
        .from_columns(&cols);
    let a = parser.parse(&vec!["1.0".to_owned()]).unwrap().unwrap();
    let b = parser.parse(&vec!["1.00".to_owned()]).unwrap().unwrap();
    assert_eq!(a, b);
    let c = parser.parse(&vec!["1.5".to_owned()]).unwrap().unwrap();
    assert!(a != c);
    assert_eq!(compare_csv::record::record_cmp(&a, &c), -1);
    assert_eq!(compare_csv::record::record_cmp(&c, &a), 1);
    assert_eq!(compare_csv::record::record_cmp(&a, &b), 0);
}

#[test]
fn date_patterns_agree() {
    let cols = Columns::parse("d:Date").unwrap();
    let parser = RecordParserBuilder::new()
        .ignore_length_mismatch(false)
        .from_columns(&cols);
    let a = parser.parse(&vec!["2020-01-02".to_owned()]).unwrap().unwrap();
    let b = parser.parse(&vec!["2020/01/02".to_owned()]).unwrap().unwrap();
    let c = parser
        .parse(&vec!["2020\u{5e74}01\u{6708}02\u{65e5}".to_owned()])
        .unwrap()
        .unwrap();
    assert_eq!(a, b);
    assert_eq!(a, c);
    let later = parser.parse(&vec!["2021-03-04".to_owned()]).unwrap().unwrap();
    assert!(a != later);
    assert_eq!(compare_csv::record::record_cmp(&a, &later), -1);
    let end_of_month = parser.parse(&vec!["2020-01-31".to_owned()]).unwrap().unwrap();
    let next_month = parser.parse(&vec!["2020-02-01".to_owned()]).unwrap().unwrap();
    assert_eq!(compare_csv::record::record_cmp(&end_of_month, &next_month), -1);
    assert!(matches!(
        parser.parse(&vec!["01.02.2020".to_owned()]),
        Err(compare_csv::record::ParseError::Date)
    ));
}

#[test]
fn value_order_by_tag_then_content() {
    let text = Value::Text("zzz".to_owned());
    let number = dec("-5");
    let date = Value::Date(compare_csv::date::Date {
        year: 1970,
        month: 1,
        day: 1,
    });
    assert_eq!(compare_csv::value_cmp(&text, &number), -1);
    assert_eq!(compare_csv::value_cmp(&number, &date), -1);
    assert_eq!(compare_csv::value_cmp(&date, &text), 1);
    assert_eq!(
        compare_csv::value_cmp(&Value::Text("ab".to_owned()), &Value::Text("b".to_owned())),
        -1
    );
    assert_eq!(compare_csv::value_cmp(&dec("-10"), &dec("2")), -1);
    assert_eq!(compare_csv::value_cmp(&dec("0.5"), &dec("0.25")), 1);
}
