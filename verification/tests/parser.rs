use still::ast::{Aggregation, Comparison, Search, SearchTerm, Sort, Transform};
use still::search::{SearchParser, SyntaxError};
use still::visitor::{Visitable, Visitor};

#[test]
fn lalrpop_sketch() {
    assert!(SearchParser::new().parse("ingress").is_ok());
    assert!(SearchParser::new().parse("protocol.kitchen").is_ok());
    assert!(SearchParser::new().parse("ingress protocol.kitchen").is_ok());
    assert!(SearchParser::new()
        .parse(r#"ingress protocol.kitchen !feedme !"GET /assets""#)
        .is_ok());
    assert!(SearchParser::new()
        .parse(
            r#"
        ingress protocol.kitchen !feedme !"GET /assets"
        | where stream != "stderr""#
        )
        .is_ok());
    assert!(SearchParser::new()
        .parse(
            r#"
        ingress protocol.kitchen !feedme !"GET /assets"
        | where stream != "stderr"
        | where kubernetes.namespace_name = "protocol-kitchen"
        | parse log with '"([^ ]+) ([^ ]+) HTTP/1.1" ([\d]{3})' as verb, path, response_code
        | where response_code = "200"
        | count by verb, path
        | sort by _count"#
        )
        .is_ok());
}

#[test]
fn lalrpop_ast_sketch() {
    let (search_terms, transforms, sort): Search = SearchParser::new()
        .parse(
            r#"
        ingress protocol.kitchen !feedme !"GET /assets"
        | where stream != "stderr"
        | where kubernetes.namespace_name = "protocol-kitchen"
        | parse log with '"([^ ]+) ([^ ]+) HTTP/1.1" ([\d]{3})' as verb, path, response_code
        | where response_code = "200"
        | count by verb, path
        | sort by _count"#,
        )
        .unwrap();
    assert_eq!(
        vec![
            SearchTerm::Include("ingress"),
            SearchTerm::Include("protocol.kitchen"),
            SearchTerm::Exclude("feedme"),
            SearchTerm::Exclude(r#"GET /assets"#),
        ],
        search_terms
    );
    assert_eq!(
        vec![
            Transform::Filter {
                field: "stream",
                comparison: Comparison::Ne,
                value: r#"stderr"#
            },
            Transform::Filter {
                field: "kubernetes.namespace_name",
                comparison: Comparison::Eq,
                value: r#"protocol-kitchen"#
            },
            Transform::Parse {
                field: "log",
                parser: r#""([^ ]+) ([^ ]+) HTTP/1.1" ([\d]{3})"#,
                bindings: vec!["verb", "path", "response_code"]
            },
            Transform::Filter {
                field: "response_code",
                comparison: Comparison::Eq,
                value: r#"200"#
            },
            Transform::Aggregate(Aggregation::Count(vec!["verb", "path"])),
        ],
        transforms
    );
    assert_eq!(Some(Sort::Desc(vec!["_count"])), sort);
}

struct TestVisitor {
    include_terms: usize,
    exclude_terms: usize,
    any: usize,
    filters_equal: usize,
    filters_not_equal: usize,
    filters_match: usize,
    parses: usize,
    bound_fields: usize,
    aggregations: usize,
    count_fields: usize,
    sort_fields: usize,
}

impl Visitor<'_> for TestVisitor {
    fn visit_search(&mut self, _search: &Search) {}
    fn visit_search_term(&mut self, search_term: &SearchTerm) {
        match search_term {
            SearchTerm::Include(_) => self.include_terms += 1,
            SearchTerm::Exclude(_) => self.exclude_terms += 1,
            SearchTerm::Any() => self.any += 1,
        }
    }
    fn visit_transform(&mut self, transform: &Transform) {
        match transform {
            Transform::Aggregate(_) => self.aggregations += 1,
            Transform::Filter {
                field: _,
                comparison,
                value: _,
            } => match comparison {
                Comparison::Eq => self.filters_equal += 1,
                Comparison::Ne => self.filters_not_equal += 1,
                Comparison::Match => self.filters_match += 1,
            },
            Transform::Parse {
                field: _,
                parser: _,
                bindings,
            } => {
                self.parses += 1;
                self.bound_fields += bindings.len();
            }
        }
    }
    fn visit_aggregation(&mut self, aggregation: &Aggregation) {
        match aggregation {
            Aggregation::Count(fields) => self.count_fields += fields.len(),
        }
    }
    fn visit_sort(&mut self, sort: &Sort) {
        match sort {
            Sort::Asc(fields) => self.sort_fields += fields.len(),
            Sort::Desc(fields) => self.sort_fields += fields.len(),
        }
    }
}

#[test]
fn lalrpop_ast_visitor_sketch() {
    let search: Search = SearchParser::new()
        .parse(
            r#"
        ingress protocol.kitchen !feedme !"GET /assets"
        | where stream != "stderr"
        | where kubernetes.namespace_name = "protocol-kitchen"
        | parse log with '"([^ ]+) ([^ ]+) HTTP/1.1" ([\d]{3})' as verb, path, response_code
        | where response_code = "200"
        | count by verb, path
        | sort by _count"#,
        )
        .unwrap();
    let mut test_visitor = TestVisitor {
        include_terms: 0,
        exclude_terms: 0,
        any: 0,
        filters_equal: 0,
        filters_not_equal: 0,
        filters_match: 0,
        parses: 0,
        bound_fields: 0,
        aggregations: 0,
        count_fields: 0,
        sort_fields: 0,
    };
    search.accept(&mut test_visitor);
    assert_eq!(2, test_visitor.include_terms);
    assert_eq!(2, test_visitor.exclude_terms);
    assert_eq!(0, test_visitor.any);
    assert_eq!(2, test_visitor.filters_equal);
    assert_eq!(1, test_visitor.filters_not_equal);
    assert_eq!(0, test_visitor.filters_match);
    assert_eq!(1, test_visitor.parses);
    assert_eq!(3, test_visitor.bound_fields);
    assert_eq!(1, test_visitor.aggregations);
    assert_eq!(2, test_visitor.count_fields);
    assert_eq!(1, test_visitor.sort_fields);
}

#[test]
fn blank_query_is_the_empty_search() {
    let (terms, transforms, sort) = SearchParser::new().parse(" \t\r\n ").unwrap();
    assert!(terms.is_empty());
    assert!(transforms.is_empty());
    assert_eq!(None, sort);
    let (terms, transforms, sort) = SearchParser::new().parse("").unwrap();
    assert!(terms.is_empty() && transforms.is_empty() && sort.is_none());
}

#[test]
fn ascending_sort_is_parsed() {
    let (_, _, sort) = SearchParser::new().parse("| sort by kubernetes.host asc").unwrap();
    assert_eq!(Some(Sort::Asc(vec!["kubernetes.host"])), sort);
}

#[test]
fn keywords_are_plain_words_among_the_terms() {
    let (terms, transforms, _) = SearchParser::new().parse("where !sort | count by by").unwrap();
    assert_eq!(vec![SearchTerm::Include("where"), SearchTerm::Exclude("sort")], terms);
    assert_eq!(vec![Transform::Aggregate(Aggregation::Count(vec!["by"]))], transforms);
}

#[test]
fn tokens_need_no_blank_between_them() {
    let (terms, transforms, _) =
        SearchParser::new().parse(r#"a!b|where x.y!="1"|where z=2"#).unwrap();
    assert_eq!(vec![SearchTerm::Include("a"), SearchTerm::Exclude("b")], terms);
    assert_eq!(
        vec![
            Transform::Filter { field: "x.y", comparison: Comparison::Ne, value: "1" },
            Transform::Filter { field: "z", comparison: Comparison::Eq, value: "2" },
        ],
        transforms
    );
}

#[test]
fn quoted_text_keeps_everything_between_its_quotes() {
    let (terms, _, _) = SearchParser::new().parse(r#""a | b, c = 'd'" 'say "hi"' "é ü""#).unwrap();
    assert_eq!(
        vec![
            SearchTerm::Include("a | b, c = 'd'"),
            SearchTerm::Include(r#"say "hi""#),
            SearchTerm::Include("é ü"),
        ],
        terms
    );
}

#[test]
fn syntax_errors_name_their_position() {
    let parser = SearchParser::new();
    assert_eq!(Err(SyntaxError { position: 4 }), parser.parse(r#"abc "never closed"#));
    assert_eq!(Err(SyntaxError { position: 2 }), parser.parse("a = b"));
    assert_eq!(Err(SyntaxError { position: 3 }), parser.parse("a !"));
    assert_eq!(Err(SyntaxError { position: 4 }), parser.parse("a ! | where x = y"));
    assert_eq!(Err(SyntaxError { position: 2 }), parser.parse("| frobnicate x"));
    assert_eq!(Err(SyntaxError { position: 1 }), parser.parse("|"));
    assert_eq!(Err(SyntaxError { position: 8 }), parser.parse("| where 9lives = x"));
    assert_eq!(Err(SyntaxError { position: 8 }), parser.parse("| where a..b = x"));
    assert_eq!(Err(SyntaxError { position: 8 }), parser.parse("| where a. = x"));
    assert_eq!(Err(SyntaxError { position: 10 }), parser.parse("| where a x"));
    assert_eq!(Err(SyntaxError { position: 11 }), parser.parse("| where a ="));
    assert_eq!(Err(SyntaxError { position: 12 }), parser.parse("| where a = |"));
    assert_eq!(Err(SyntaxError { position: 17 }), parser.parse("| parse log with bare as a"));
    assert_eq!(Err(SyntaxError { position: 12 }), parser.parse("| parse log using 'x' as a"));
    assert_eq!(Err(SyntaxError { position: 21 }), parser.parse("| parse log with 'x' to a"));
    assert_eq!(Err(SyntaxError { position: 27 }), parser.parse("| parse log with 'x' as a, "));
    assert_eq!(Err(SyntaxError { position: 8 }), parser.parse("| count verb"));
    assert_eq!(Err(SyntaxError { position: 11 }), parser.parse("| count by 'verb'"));
    assert_eq!(Err(SyntaxError { position: 7 }), parser.parse("| sort _count"));
    assert_eq!(Err(SyntaxError { position: 12 }), parser.parse("| sort by a desc"));
    assert_eq!(Err(SyntaxError { position: 12 }), parser.parse("| sort by a | where b = c"));
    assert_eq!(Err(SyntaxError { position: 16 }), parser.parse("| sort by a asc b"));
    assert_eq!(Err(SyntaxError { position: 14 }), parser.parse("| where a = b c"));
}

#[test]
fn every_kind_of_white_space_separates() {
    let parser = SearchParser::new();
    let blanks = "\u{9}\u{a}\u{b}\u{c}\u{d} \u{85}\u{a0}\u{1680}\u{2000}\u{2001}\u{2002}\u{2003}\u{2004}\u{2005}\u{2006}\u{2007}\u{2008}\u{2009}\u{200a}\u{2028}\u{2029}\u{202f}\u{205f}\u{3000}";
    assert!(blanks.chars().all(char::is_whitespace));
    assert_eq!(Ok((vec![], vec![], None)), parser.parse(blanks));
    assert_eq!(Ok((vec![], vec![], None)), parser.parse("\u{c}"));
    for blank in blanks.chars() {
        let query = format!("a{blank}b");
        assert_eq!(
            Ok((vec![SearchTerm::Include("a"), SearchTerm::Include("b")], vec![], None)),
            parser.parse(&query)
        );
    }
    assert_eq!(
        Ok((vec![SearchTerm::Include("a"), SearchTerm::Include("b")], vec![], None)),
        parser.parse("a\u{a0}b")
    );
    let (_, transforms, sort) =
        parser.parse("\u{2003}|\u{a0}count\u{b}by\u{3000}verb\u{85}|\u{c}sort\u{2028}by\u{a0}verb").unwrap();
    assert_eq!(vec![Transform::Aggregate(Aggregation::Count(vec!["verb"]))], transforms);
    assert_eq!(Some(Sort::Desc(vec!["verb"])), sort);
    for other in ['\u{0}', '\u{8}', '\u{e}', '\u{1f}', '\u{84}', '\u{86}', '\u{9f}', '\u{a1}', '\u{200b}', '\u{2060}', '\u{feff}'] {
        assert!(!other.is_whitespace());
        let query = format!("a{other}b");
        let (terms, _, _) = parser.parse(&query).unwrap();
        assert_eq!(1, terms.len());
    }
    assert_eq!(
        Ok((vec![SearchTerm::Include("a\u{a0}b")], vec![], None)),
        parser.parse("'a\u{a0}b'")
    );
}

#[test]
fn a_backslash_in_double_quotes_takes_the_next_character_along() {
    let parser = SearchParser::new();
    assert_eq!(
        Ok((vec![SearchTerm::Include(r#"a\"b"#)], vec![], None)),
        parser.parse(r#""a\"b""#)
    );
    assert_eq!(
        Ok((vec![SearchTerm::Include(r#"a\\"#), SearchTerm::Include("b")], vec![], None)),
        parser.parse(r#""a\\" b"#)
    );
    assert_eq!(
        Ok((vec![SearchTerm::Include(r#"\d+\s"#)], vec![], None)),
        parser.parse(r#""\d+\s""#)
    );
    assert_eq!(Err(SyntaxError { position: 0 }), parser.parse(r#""a\""#));
    assert_eq!(Err(SyntaxError { position: 0 }), parser.parse(r#""a\"#));
    assert_eq!(
        Ok((vec![SearchTerm::Include(r#"a\"#), SearchTerm::Include("b")], vec![], None)),
        parser.parse(r#"'a\' b"#)
    );
    assert_eq!(Err(SyntaxError { position: 5 }), parser.parse(r#"'a\' 'b"#));
    let (_, transforms, _) = parser
        .parse(r#"| parse log with "\"([^ ]+) ([^ ]+) HTTP/1.1\" ([\d]{3})" as verb, path, response_code"#)
        .unwrap();
    assert_eq!(
        vec![Transform::Parse {
            field: "log",
            parser: r#"\"([^ ]+) ([^ ]+) HTTP/1.1\" ([\d]{3})"#,
            bindings: vec!["verb", "path", "response_code"]
        }],
        transforms
    );
}
