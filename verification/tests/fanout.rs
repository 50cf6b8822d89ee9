use doh::dns::{Answer, QueryRequest, ResolveError};
use doh::fanout::{
    diagnostic, merge, plan, ConfigurationError, PlannedQuery, Report, Resolver,
};
use doh::lookup::{LookupOutcome, Row};
use doh::probe::ProbeStatistics;
use doh::record::Record;

fn resolver(tag: &str, endpoint: &str) -> Resolver {
    Resolver { tag: String::from(tag), endpoint: String::from(endpoint) }
}

fn row(data: &str, mean: i32) -> Row {
    Row {
        answer: Answer {
            name: String::from("example.com"),
            rtype: 1,
            TTL: 60,
            data: String::from(data),
        },
        stats: ProbeStatistics { mean_latency_ms: Some(mean), lost: 0 },
    }
}

fn rows_of(tag: &str, rows: Vec<Row>) -> LookupOutcome {
    LookupOutcome { tag: String::from(tag), result: Ok(rows) }
}

fn failure_of(tag: &str, error: ResolveError) -> LookupOutcome {
    LookupOutcome { tag: String::from(tag), result: Err(error) }
}

fn shown(report: &Report) -> Vec<(String, String)> {
    report.records.iter().map(|record| (record.DoH.clone(), record.data.clone())).collect()
}

fn pair(tag: &str, data: &str) -> (String, String) {
    (String::from(tag), String::from(data))
}

#[test]
fn a_run_without_resolvers_cannot_begin() {
    assert_eq!(plan("example.com", &Vec::new()), Err(ConfigurationError::NoResolvers));
}

#[test]
fn a_run_plans_one_query_for_each_resolver() {
    let resolvers = vec![
        resolver("1.1.1.1", "https://1.1.1.1/dns-query"),
        resolver("9.9.9.9", "https://9.9.9.9:5053/dns-query"),
        resolver("aliyun", "https://dns.alidns.com/resolve"),
    ];
    let planned = plan("example.com", &resolvers).unwrap();
    assert_eq!(
        planned,
        vec![
            PlannedQuery {
                tag: String::from("1.1.1.1"),
                request: QueryRequest {
                    url: String::from("https://1.1.1.1/dns-query?name=example.com&type=A"),
                    accept: String::from("application/dns-json"),
                },
            },
            PlannedQuery {
                tag: String::from("9.9.9.9"),
                request: QueryRequest {
                    url: String::from("https://9.9.9.9:5053/dns-query?name=example.com&type=A"),
                    accept: String::from("application/dns-json"),
                },
            },
            PlannedQuery {
                tag: String::from("aliyun"),
                request: QueryRequest {
                    url: String::from("https://dns.alidns.com/resolve?name=example.com&type=A"),
                    accept: String::from("application/dns-json"),
                },
            },
        ]
    );
}

#[test]
fn a_run_with_one_resolver_can_begin() {
    let planned = plan("example.org", &vec![resolver("test", "http://localhost/q")]).unwrap();
    assert_eq!(planned.len(), 1);
    assert_eq!(planned[0].tag, "test");
    assert_eq!(planned[0].request.url, "http://localhost/q?name=example.org&type=A");
}

#[test]
fn a_diagnostic_names_the_resolver_and_the_cause() {
    let error = ResolveError::Transport(String::from("connection reset"));
    assert_eq!(diagnostic("aliyun", &error), "aliyun error: connection reset");
    let error = ResolveError::Decode(String::from("missing field `Status`"));
    assert_eq!(diagnostic("1.1.1.1", &error), "1.1.1.1 error: missing field `Status`");
}

#[test]
fn merging_nothing_gives_an_empty_table() {
    let report = merge(Vec::new());
    assert_eq!(report, Report { records: Vec::new(), diagnostics: Vec::new() });
}

#[test]
fn merging_keeps_the_order_of_the_outcomes_and_of_their_rows() {
    let report = merge(vec![
        rows_of("b", vec![row("2.2.2.2", 2), row("2.2.2.1", 1)]),
        rows_of("a", vec![row("1.1.1.1", 3)]),
    ]);
    assert_eq!(
        shown(&report),
        vec![pair("b", "2.2.2.2"), pair("b", "2.2.2.1"), pair("a", "1.1.1.1")]
    );
    assert!(report.diagnostics.is_empty());
}

#[test]
fn merged_lines_are_the_records_of_the_rows() {
    let report = merge(vec![rows_of("a", vec![row("1.1.1.1", 3)])]);
    assert_eq!(report.records, vec![Record::new("a", row("1.1.1.1", 3))]);
}

#[test]
fn a_failed_resolver_takes_nothing_from_the_others() {
    let report = merge(vec![
        failure_of("a", ResolveError::Transport(String::from("timed out"))),
        rows_of("b", vec![row("2.2.2.2", 2), row("2.2.2.1", 1)]),
    ]);
    assert_eq!(shown(&report), vec![pair("b", "2.2.2.2"), pair("b", "2.2.2.1")]);
    assert_eq!(report.diagnostics, vec![String::from("a error: timed out")]);
}

#[test]
fn a_failed_resolver_is_isolated_wherever_it_stands() {
    let others = || vec![rows_of("b", vec![row("2.2.2.2", 2)]), rows_of("c", vec![row("3.3.3.3", 3)])];
    let without = merge(others());
    for place in 0..=2 {
        let mut outcomes = others();
        outcomes.insert(place, failure_of("a", ResolveError::Decode(String::from("bad body"))));
        let report = merge(outcomes);
        assert_eq!(report.records, without.records);
        assert_eq!(report.diagnostics, vec![String::from("a error: bad body")]);
    }
}

#[test]
fn every_failure_has_its_diagnostic_in_order() {
    let report = merge(vec![
        failure_of("a", ResolveError::Transport(String::from("first"))),
        rows_of("b", Vec::new()),
        failure_of("c", ResolveError::Decode(String::from("second"))),
    ]);
    assert!(report.records.is_empty());
    assert_eq!(
        report.diagnostics,
        vec![String::from("a error: first"), String::from("c error: second")]
    );
}

#[test]
fn a_run_where_every_resolver_failed_gives_an_empty_table() {
    let report = merge(vec![
        failure_of("a", ResolveError::Transport(String::from("down"))),
        failure_of("b", ResolveError::Transport(String::from("down"))),
    ]);
    assert!(report.records.is_empty());
    assert_eq!(report.diagnostics.len(), 2);
}

#[test]
fn a_resolver_without_rows_gives_no_lines_and_no_diagnostic() {
    let report = merge(vec![rows_of("a", Vec::new())]);
    assert_eq!(report, Report { records: Vec::new(), diagnostics: Vec::new() });
}
