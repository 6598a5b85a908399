use compare_csv::columns::Columns;
use compare_csv::expr::{parse_equal, parse_term, parse_tuple, Term};
use compare_csv::quotient::{Projection, Quotient};
use compare_csv::record::Mapping;
use compare_csv::Tag;
use compare_csv::Value;

#[test]
fn get() {
    let cols: Columns = "key1:String, key2:Decimal".parse().unwrap();

    assert_eq!(cols.get_by_name("key1"), Some((0, Tag::Text)));
    assert_eq!(cols.get_by_name("key2"), Some((1, Tag::Decimal)));

    assert_eq!(cols.get_by_index(0), Some(("key1", Tag::Text)));
    assert_eq!(cols.get_by_index(1), Some(("key2", Tag::Decimal)));

    let cols = "".parse::<Columns>().unwrap();
    assert_eq!(cols.len(), 0);
}

#[test]
fn parse_columns() {
    assert_eq!(
        compare_csv::columns::parse_columns("key1:string,key2:decimal").unwrap(),
        vec![
            ("key1".to_owned(), "string".to_owned()),
            ("key2".to_owned(), "decimal".to_owned())
        ]
    );
    assert_eq!(
        compare_csv::columns::parse_columns("key1: string,  key2: decimal  ").unwrap(),
        vec![
            ("key1".to_owned(), "string".to_owned()),
            ("key2".to_owned(), "decimal".to_owned())
        ]
    );
    assert_eq!(
        compare_csv::columns::parse_columns("key1,,key3").unwrap(),
        vec![
            ("key1".to_owned(), "String".to_owned()),
            (String::new(), "String".to_owned()),
            ("key3".to_owned(), "String".to_owned())
        ]
    );
    assert_eq!(
        compare_csv::columns::parse_columns(",,,,").unwrap(),
        vec![(String::new(), "String".to_owned()); 5]
    );
}

#[test]
fn term() {
    let cols = "key1:Decimal, key2:Decimal".parse::<Columns>().unwrap();
    assert_eq!(parse_term("key1", &cols).unwrap(), Term::Val(0));
    assert_eq!(parse_term("-key2", &cols).unwrap(), Term::Neg(1));
}

#[test]
fn tuple() {
    let cols = "x:Decimal, y:Decimal".parse::<Columns>().unwrap();
    assert_eq!(
        parse_tuple("(x, y)", &cols).unwrap().unwrap().0,
        vec![Term::Val(0), Term::Val(1)]
    );
}

#[test]
fn tuple_neg() {
    let cols = "x:Decimal, y:Decimal".parse::<Columns>().unwrap();
    assert_eq!(
        parse_tuple("(x, -y)", &cols).unwrap().unwrap().0,
        vec![Term::Val(0), Term::Neg(1)]
    );
}

#[test]
fn equal_term() {
    let rcols = "x: Decimal, y: Decimal".parse::<Columns>().unwrap();
    let lcols = "a: Decimal, b: Decimal".parse::<Columns>().unwrap();
    let (left, right) = parse_equal("x = -b", &rcols, &lcols).unwrap();
    assert_eq!(left, vec![Term::Val(0)]);
    assert_eq!(right, vec![Term::Neg(1)]);
}

#[test]
fn equal_tuple() {
    let rcols = "x: Decimal, y: Decimal".parse::<Columns>().unwrap();
    let lcols = "a: Decimal, b: Decimal".parse::<Columns>().unwrap();
    let (left, right) = parse_equal("(x, -y) = (b, a)", &rcols, &lcols).unwrap();
    assert_eq!(left, vec![Term::Val(0), Term::Neg(1)]);
    assert_eq!(right, vec![Term::Val(1), Term::Val(0)]);
}

#[derive(Clone)]
struct Mod {
    n: usize,
}

impl Projection for Mod {
    type Domain = usize;
    type Target = usize;

    fn wf(&self, _x: usize) -> bool {
        true
    }

    fn spec_project(&self, x: usize) -> usize {
        x % self.n
    }

    fn project(&self, x: &usize) -> usize {
        x % self.n
    }
}

#[test]
fn get_and_contains() {
    let m10 = Mod { n: 10 };
    let mut quot: Quotient<usize, usize, Mod> = Quotient::with_projection(m10);
    quot.push(0);
    quot.push(1);
    quot.push(10);
    quot.push(11);
    quot.push(12);

    assert_eq!(quot.get(&0), Some(&vec![0, 10]));
    assert_eq!(quot.get(&1), Some(&vec![1, 11]));
    assert_eq!(quot.get(&2), Some(&vec![12]));
    assert_eq!(quot.get(&100), None);

    assert_eq!(quot.contains_representative(&0), true);
    assert_eq!(quot.contains_representative(&1000), false);
}

#[test]
fn get_mut_appends() {
    let m10 = Mod { n: 10 };
    let mut quot: Quotient<usize, usize, Mod> = Quotient::with_projection(m10);
    quot.push(0);
    quot.push(10);
    quot.get_mut(&0).unwrap().push(100);
    assert_eq!(quot.get(&0), Some(&vec![0, 10, 100]));
    assert!(quot.get_mut(&5).is_none());
}

#[test]
fn difference() {
    let m10 = Mod { n: 10 };
    let mut a: Quotient<usize, usize, Mod> = Quotient::with_projection(m10.clone());
    a.push(0);
    a.push(10);
    a.push(20);
    a.push(1);
    a.push(11);
    a.push(12);
    let mut b: Quotient<usize, usize, Mod> = Quotient::with_projection(m10);
    b.push(0);
    b.push(10);
    b.push(1);
    b.push(12);

    let mut diffs: Vec<usize> = Vec::new();
    let mut d = a.difference(&b);
    while let Some(k) = d.next() {
        diffs.push(*k);
    }
    diffs.sort();

    assert_eq!(diffs, vec![0, 1]);
}

fn dec(s: &str) -> Value {
    Value::Decimal(compare_csv::decimal::dec_from_str(s).unwrap())
}

#[test]
fn mapping_apply() {
    let mapping: Mapping = vec![Term::Val(1), Term::Neg(0)].into();
    let record = vec![dec("10"), Value::Text("hello".to_owned())];
    assert_eq!(
        mapping.apply(&record),
        vec![Value::Text("hello".to_owned()), dec("-10")]
    );
}
