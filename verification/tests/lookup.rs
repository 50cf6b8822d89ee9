use doh::dns::{resolve, Answer, DnsResponse, ResolveError};
use doh::ipv4::Ipv4Address;
use doh::lookup::{targets, Lookup, LookupOutcome, LookupStep, Row, Target};
use doh::probe::ProbeStatistics;

fn answer(data: &str, ttl: u32) -> Answer {
    Answer { name: String::from("example.com"), rtype: 1, TTL: ttl, data: String::from(data) }
}

fn stats(mean: i32, lost: u16) -> ProbeStatistics {
    ProbeStatistics { mean_latency_ms: Some(mean), lost }
}

/// Runs a lookup to its end with a prober that answers from `latency`, and
/// tells which addresses were probed, in order.
fn run(
    tag: &str,
    resolved: Result<Vec<Answer>, ResolveError>,
    latency: fn(Ipv4Address) -> ProbeStatistics,
) -> (LookupOutcome, Vec<Ipv4Address>) {
    let mut probed = Vec::new();
    let mut lookup = Lookup::begin(tag, resolved);
    loop {
        match lookup.step() {
            LookupStep::Probe(pending) => {
                let address = pending.address();
                probed.push(address);
                lookup = pending.resume(latency(address));
            }
            LookupStep::Done(outcome) => return (outcome, probed),
        }
    }
}

fn by_last_octet(address: Ipv4Address) -> ProbeStatistics {
    stats(address.3 as i32, 0)
}

#[test]
fn targets_are_the_answers_with_an_ipv4_address() {
    let found = targets(vec![
        answer("1.1.1.1", 10),
        answer("example.net.", 20),
        answer("1.0.0.1", 30),
    ]);
    assert_eq!(
        found,
        vec![
            Target { answer: answer("1.1.1.1", 10), address: Ipv4Address(1, 1, 1, 1) },
            Target { answer: answer("1.0.0.1", 30), address: Ipv4Address(1, 0, 0, 1) },
        ]
    );
}

#[test]
fn targets_of_no_answers_are_none() {
    assert_eq!(targets(Vec::new()), Vec::<Target>::new());
}

#[test]
fn targets_of_answers_without_an_address_are_none() {
    let found = targets(vec![answer("", 1), answer("::1", 2), answer("1.2.3", 3)]);
    assert_eq!(found, Vec::<Target>::new());
}

#[test]
fn an_absent_answer_section_gives_no_rows_and_no_error() {
    let response = DnsResponse { status: 0, answer: None, comment: None };
    let (outcome, probed) = run("quad9", resolve(Ok(response)), by_last_octet);
    assert_eq!(outcome, LookupOutcome { tag: String::from("quad9"), result: Ok(Vec::new()) });
    assert!(probed.is_empty());
}

#[test]
fn an_empty_answer_section_gives_no_rows_and_no_error() {
    let response = DnsResponse { status: 0, answer: Some(Vec::new()), comment: None };
    let (outcome, probed) = run("quad9", resolve(Ok(response)), by_last_octet);
    assert_eq!(outcome, LookupOutcome { tag: String::from("quad9"), result: Ok(Vec::new()) });
    assert!(probed.is_empty());
}

#[test]
fn a_failed_query_is_returned_at_once() {
    let error = ResolveError::Transport(String::from("no route to host"));
    let lookup = Lookup::begin("aliyun", Err(error));
    match lookup.step() {
        LookupStep::Done(outcome) => {
            assert_eq!(outcome.tag, "aliyun");
            assert_eq!(
                outcome.result,
                Err(ResolveError::Transport(String::from("no route to host")))
            );
        }
        LookupStep::Probe(_) => panic!("nothing is probed after a failure"),
    }
}

#[test]
fn a_decode_error_is_returned_at_once() {
    let error = ResolveError::Decode(String::from("not json"));
    let (outcome, probed) = run("1.1.1.1", Err(error), by_last_octet);
    assert_eq!(outcome.result, Err(ResolveError::Decode(String::from("not json"))));
    assert!(probed.is_empty());
}

#[test]
fn each_address_is_probed_once_in_the_order_of_the_answers() {
    let answers = vec![answer("10.0.0.3", 1), answer("10.0.0.1", 2), answer("10.0.0.2", 3)];
    let (outcome, probed) = run("test", Ok(answers), by_last_octet);
    assert_eq!(
        probed,
        vec![Ipv4Address(10, 0, 0, 3), Ipv4Address(10, 0, 0, 1), Ipv4Address(10, 0, 0, 2)]
    );
    assert_eq!(
        outcome.result,
        Ok(vec![
            Row { answer: answer("10.0.0.3", 1), stats: stats(3, 0) },
            Row { answer: answer("10.0.0.1", 2), stats: stats(1, 0) },
            Row { answer: answer("10.0.0.2", 3), stats: stats(2, 0) },
        ])
    );
}

#[test]
fn answers_without_an_address_are_skipped_and_the_others_stay() {
    let answers = vec![
        answer("edge.example.net.", 60),
        answer("93.184.216.34", 300),
        answer("2606:2800:220:1:248:1893:25c8:1946", 300),
        answer("93.184.216.035", 300),
        answer("93.184.216.36", 120),
    ];
    let (outcome, probed) = run("test", Ok(answers), by_last_octet);
    assert_eq!(probed, vec![Ipv4Address(93, 184, 216, 34), Ipv4Address(93, 184, 216, 36)]);
    assert_eq!(
        outcome.result,
        Ok(vec![
            Row { answer: answer("93.184.216.34", 300), stats: stats(34, 0) },
            Row { answer: answer("93.184.216.36", 120), stats: stats(36, 0) },
        ])
    );
}

#[test]
fn only_answers_without_an_address_give_no_rows_and_no_error() {
    let answers = vec![answer("a.example.net.", 1), answer("b.example.net.", 2)];
    let (outcome, probed) = run("test", Ok(answers), by_last_octet);
    assert_eq!(outcome.result, Ok(Vec::new()));
    assert!(probed.is_empty());
}

#[test]
fn the_same_address_twice_is_probed_twice() {
    let answers = vec![answer("8.8.8.8", 1), answer("8.8.8.8", 2)];
    let (outcome, probed) = run("test", Ok(answers), by_last_octet);
    assert_eq!(probed, vec![Ipv4Address(8, 8, 8, 8), Ipv4Address(8, 8, 8, 8)]);
    assert_eq!(outcome.result.unwrap().len(), 2);
}

#[test]
fn a_row_carries_the_statistics_it_was_given() {
    let lookup = Lookup::begin("test", Ok(vec![answer("192.0.2.1", 5)]));
    let pending = match lookup.step() {
        LookupStep::Probe(pending) => pending,
        LookupStep::Done(_) => panic!("one address is to be probed"),
    };
    let lost = ProbeStatistics { mean_latency_ms: None, lost: 10 };
    match pending.resume(lost).step() {
        LookupStep::Done(outcome) => {
            assert_eq!(
                outcome.result,
                Ok(vec![Row { answer: answer("192.0.2.1", 5), stats: lost }])
            );
        }
        LookupStep::Probe(_) => panic!("nothing is left to probe"),
    }
}

#[test]
fn two_lookups_of_the_same_reply_give_the_same_rows() {
    let reply = || {
        Ok(vec![answer("203.0.113.9", 30), answer("bogus", 30), answer("203.0.113.77", 30)])
    };
    let (first, first_probed) = run("test", reply(), by_last_octet);
    let (second, second_probed) = run("test", reply(), by_last_octet);
    assert_eq!(first, second);
    assert_eq!(first_probed, second_probed);
    assert_eq!(first.result.unwrap().len(), 2);
}
