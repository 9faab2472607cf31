use taggenator::errors::MyCustomError;
use taggenator::models::{Record, Timestamp};
use taggenator::searcher::{collect_tags, group_rows, Filter, RecordRow, Searcher};

fn strings(v: &[&str]) -> Vec<String> {
    v.iter().map(|s| s.to_string()).collect()
}

fn rec(id: i64, name: &str, tags: &[&str], size: i64, touched: bool, times: i32) -> Record {
    Record {
        RecordID: id,
        Name: name.to_string(),
        Location: format!("./{}", name),
        Tags: strings(tags),
        Size: size,
        Length: -1,
        TimesOpened: times,
        DateAdded: Some(Timestamp { secs: id * 10, nanos: 0 }),
        DateCreated: None,
        DateLastAccessed: None,
        HaveManuallyTouched: touched,
        Imported: false,
    }
}

fn ids(v: &[Record]) -> Vec<i64> {
    v.iter().map(|r| r.RecordID).collect()
}

const BASE: &str = "\nSelect * From Records Left Join Tags On Records.RecordID = Tags.RecordID";

#[test]
fn searcher_splits_at_sort() {
    let s = Searcher::new(strings(&["tags", "a", "-b", "-sort", "newest", "-sort", "-sort", "limit", "3"])).ok().unwrap();
    let f = s.filters();
    assert_eq!(f.len(), 3);
    assert_eq!(f[0].name, "tags");
    assert_eq!(f[0].args, strings(&["a", "-b"]));
    assert_eq!(f[1].name, "newest");
    assert!(f[1].args.is_empty());
    assert_eq!(f[2].name, "limit");
    assert_eq!(f[2].args, strings(&["3"]));
}

#[test]
fn format_query_takes_leading_sql_filters() {
    let mut s = Searcher::new(strings(&["tags", "a", "-b", "-sort", "newest"])).ok().unwrap();
    let sql = s.format_query(BASE);
    let clause = |t: &str| {
        format!(
            "(\"{}\" in (\n\t\t\t\t\t\tSELECT Tags.TagName from Tags\n\t\t\t\t\t\tWHERE Tags.RecordID = Records.RecordID))",
            t
        )
    };
    let expected = format!(
        "{} where ( ({}\n)\nand not  ({}\n))",
        BASE,
        clause("a"),
        clause("b")
    );
    assert_eq!(sql, expected);
    assert_eq!(s.filters().len(), 1);
    assert_eq!(s.filters()[0].name, "newest");
}

#[test]
fn search_clause_is_loose() {
    let mut f = Filter::new("search_inclusive".to_string(), strings(&["x", "y"])).ok().unwrap();
    assert!(f.sqlizable());
    let loose = |t: &str| {
        format!(
            " ((Records.Location LIKE \"%{}%\")\nor EXISTS(\n\t\t\t\t\t\t\tSELECT Tags.TagName from Tags\n\t\t\t\t\t\t\tWHERE Tags.RecordID = Records.RecordID\n\t\t\t\t\t\t\tAND Tags.TagName Like '%{}%'\n\t\t\t\t\t\t)\n)",
            t, t
        )
    };
    let sql = f.sqlize("Q".to_string(), false);
    assert_eq!(sql, format!("Q and ({}\nor {})", loose("x"), loose("y")));
    assert!(f.args.is_empty());
    let mut g = Filter::new("newest".to_string(), strings(&["x"])).ok().unwrap();
    assert!(!g.sqlizable());
    assert_eq!(g.sqlize("Q".to_string(), true), "Q");
}

#[test]
fn filters_apply_in_turn() {
    let records = vec![
        rec(1, "b.png", &["red"], 30, true, 0),
        rec(2, "a.png", &["blue"], 10, false, 2),
        rec(3, "c.png", &["red", "blue"], 20, true, 1),
    ];
    let s = Searcher::new(strings(&["touched", "-sort", "smallest"])).ok().unwrap();
    let out = s.apply_filters(records).ok().unwrap();
    assert_eq!(ids(&out), vec![3, 1]);
}

#[test]
fn filter_kinds() {
    let make = || {
        vec![
            rec(1, "b.png", &["red"], 30, true, 0),
            rec(2, "a.png", &["blue"], 10, false, 2),
            rec(3, "c.png", &["red", "blue"], 20, true, 1),
        ]
    };
    let run = |args: &[&str]| Searcher::new(strings(args)).ok().unwrap().apply_filters(make());
    assert_eq!(ids(&run(&["alpha"]).ok().unwrap()), vec![2, 1, 3]);
    assert_eq!(ids(&run(&["largest"]).ok().unwrap()), vec![1, 3, 2]);
    assert_eq!(ids(&run(&["reverse"]).ok().unwrap()), vec![3, 2, 1]);
    assert_eq!(ids(&run(&["newest"]).ok().unwrap()), vec![3, 2, 1]);
    assert_eq!(ids(&run(&["unseen"]).ok().unwrap()), vec![1]);
    assert_eq!(ids(&run(&["seen"]).ok().unwrap()), vec![2, 3]);
    assert_eq!(ids(&run(&["most_tags"]).ok().unwrap()), vec![3, 1, 2]);
    assert_eq!(ids(&run(&["tags", "red", "blue"]).ok().unwrap()), vec![3]);
    assert_eq!(ids(&run(&["tags_inclusive", "red", "blue"]).ok().unwrap()), vec![1, 2, 3]);
    assert_eq!(ids(&run(&["search", "c.png"]).ok().unwrap()), vec![3]);
    assert_eq!(ids(&run(&["name", "a"]).ok().unwrap()), vec![2]);
    assert_eq!(ids(&run(&["limit", "2"]).ok().unwrap()), vec![1, 2]);
    assert_eq!(ids(&run(&["limit", "-1"]).ok().unwrap()), vec![3]);
    assert_eq!(ids(&run(&["limit", "0"]).ok().unwrap()), Vec::<i64>::new());
    assert_eq!(run(&["random"]).ok().unwrap().len(), 3);
    assert!(matches!(run(&["sideways"]), Err(MyCustomError::UnknownError)));
    assert!(run(&["limit", "two"]).is_err());
}

#[test]
fn execute_without_records_fails() {
    let f = Filter::new("reverse".to_string(), vec![]).ok().unwrap();
    assert!(matches!(f.execute(None), Err(MyCustomError::UnknownError)));
}

#[test]
fn rows_group_into_records() {
    let rows = vec![
        RecordRow { record: rec(1, "a.png", &[], 1, false, 0), tag: Some("x".to_string()) },
        RecordRow { record: rec(1, "a.png", &[], 1, false, 0), tag: Some("y".to_string()) },
        RecordRow { record: rec(2, "b.png", &[], 1, false, 0), tag: None },
        RecordRow { record: rec(3, "c.png", &[], 1, false, 0), tag: Some("x".to_string()) },
    ];
    let records = group_rows(rows);
    assert_eq!(ids(&records), vec![1, 2, 3]);
    assert_eq!(records[0].Tags, strings(&["x", "y"]));
    assert!(records[1].Tags.is_empty());
    let tags = collect_tags(&records);
    assert_eq!(tags.len(), 2);
    assert!(tags.contains(&"x".to_string()) && tags.contains(&"y".to_string()));
}

fn sample() -> Vec<Record> {
    vec![
        rec(1, "b.png", &["red"], 30, true, 0),
        rec(2, "a.png", &["blue"], 10, false, 2),
        rec(3, "c.png", &["red", "blue"], 20, true, 1),
    ]
}

fn run_on_sample(args: &[&str]) -> Vec<i64> {
    ids(&Searcher::new(strings(args)).ok().unwrap().apply_filters(sample()).ok().unwrap())
}

#[test]
fn touched_and_untouched_split_the_records() {
    assert_eq!(run_on_sample(&["touched"]), vec![1, 3]);
    assert_eq!(run_on_sample(&["untouched"]), vec![2]);
}

#[test]
fn one_term_all_and_any_agree() {
    assert_eq!(run_on_sample(&["tags", "blue"]), run_on_sample(&["tags_inclusive", "blue"]));
    assert_eq!(run_on_sample(&["search", "red"]), run_on_sample(&["search_inclusive", "red"]));
    assert_eq!(run_on_sample(&["name", "b"]), run_on_sample(&["name_inclusive", "b"]));
}

#[test]
fn selecting_twice_is_selecting_once() {
    assert_eq!(run_on_sample(&["touched", "-sort", "touched"]), run_on_sample(&["touched"]));
}

#[test]
fn reversing_twice_restores_order() {
    assert_eq!(run_on_sample(&["reverse", "-sort", "reverse"]), vec![1, 2, 3]);
}

#[test]
fn no_filters_keep_everything() {
    assert_eq!(run_on_sample(&[]), vec![1, 2, 3]);
}
