use std::collections::HashMap;

use directory_crawler::crawl::Crawler;
use directory_crawler::fetch::{after_attempt, AttemptOutcome, FetchError, RetryStep};
use directory_crawler::record::Enterprise;
use directory_crawler::table::{csv_rows, header_row};

fn strings(v: &[&str]) -> Vec<String> {
    v.iter().map(|s| s.to_string()).collect()
}

fn run_fetch(retries: usize, outcomes: Vec<AttemptOutcome>) -> Option<Result<String, FetchError>> {
    let mut attempt: usize = 1;
    for outcome in outcomes {
        match after_attempt(attempt, retries, outcome) {
            RetryStep::Retry => attempt += 1,
            RetryStep::Finish(r) => return Some(r),
        }
    }
    None
}

fn named(name: &str) -> Enterprise {
    let mut e = Enterprise::new();
    e.name = name.to_string();
    e
}

#[test]
fn retry_succeeds_after_retries_minus_one_timeouts() {
    let mut outcomes = vec![AttemptOutcome::TimedOut, AttemptOutcome::TimedOut];
    outcomes.push(AttemptOutcome::Body("ok".to_string()));
    assert_eq!(run_fetch(3, outcomes), Some(Ok("ok".to_string())));
}

#[test]
fn retry_gives_up_after_retries_timeouts() {
    let outcomes = vec![AttemptOutcome::TimedOut, AttemptOutcome::TimedOut, AttemptOutcome::TimedOut];
    assert_eq!(run_fetch(3, outcomes), Some(Err(FetchError::TimedOut)));
    assert_eq!(run_fetch(1, vec![AttemptOutcome::TimedOut]), Some(Err(FetchError::TimedOut)));
}

#[test]
fn other_failure_is_not_retried() {
    let step = after_attempt(1, 3, AttemptOutcome::Failed("refused".to_string()));
    assert_eq!(step, RetryStep::Finish(Err(FetchError::Transport("refused".to_string()))));
    assert_eq!(after_attempt(2, 3, AttemptOutcome::TimedOut), RetryStep::Retry);
}

#[test]
fn frontier_enqueues_each_url_once() {
    let mut c = Crawler::new("s".to_string(), 0);
    assert_eq!(c.next_url(), Some("s".to_string()));
    c.absorb(strings(&["a", "b", "a", "s", "b"]), None);
    assert_eq!(c.frontier(), &strings(&["a", "b"]));
    assert_eq!(c.visited(), &strings(&["s"]));
    assert_eq!(c.next_url(), Some("a".to_string()));
    c.absorb(strings(&["s", "a", "b", "c"]), None);
    assert_eq!(c.frontier(), &strings(&["b", "c"]));
    assert_eq!(c.visited_count(), 2);
    assert_eq!(c.pending_count(), 2);
}

#[test]
fn crawl_of_finite_graph_visits_all_reachable() {
    let mut graph: HashMap<&str, Vec<&str>> = HashMap::new();
    graph.insert("root", vec!["page2", "d1"]);
    graph.insert("page2", vec!["root", "d2", "d1"]);
    graph.insert("d1", vec![]);
    graph.insert("d2", vec!["d3"]);
    graph.insert("d3", vec![]);
    graph.insert("unreachable", vec!["root"]);
    let mut c = Crawler::new("root".to_string(), 0);
    let mut steps = 0;
    while let Some(url) = c.next_url() {
        steps += 1;
        let links = graph[url.as_str()].iter().map(|s| s.to_string()).collect();
        c.absorb(links, None);
    }
    assert!(c.is_done());
    assert_eq!(steps, 5);
    assert_eq!(c.visited(), &strings(&["root", "page2", "d1", "d2", "d3"]));
    assert_eq!(c.pending_count(), 0);
}

#[test]
fn failed_url_is_visited_and_not_retaken() {
    let mut c = Crawler::new("s".to_string(), 0);
    assert_eq!(c.next_url(), Some("s".to_string()));
    assert!(c.is_done());
    assert_eq!(c.next_url(), None);
    assert_eq!(c.visited(), &strings(&["s"]));
}

#[test]
fn budget_stops_crawl_with_frontier_left() {
    let mut c = Crawler::new("s".to_string(), 1);
    assert_eq!(c.next_url(), Some("s".to_string()));
    c.absorb(strings(&["a", "b"]), Some(named("one")));
    assert!(c.is_done());
    assert_eq!(c.next_url(), None);
    assert_eq!(c.pending_count(), 2);
    assert_eq!(c.records().len(), 1);
    let records = c.into_records();
    assert_eq!(records[0].name, "one");
}

#[test]
fn budget_not_reached_goes_on() {
    let mut c = Crawler::new("s".to_string(), 2);
    assert_eq!(c.next_url(), Some("s".to_string()));
    c.absorb(strings(&["a"]), Some(named("one")));
    assert!(!c.is_done());
    assert_eq!(c.next_url(), Some("a".to_string()));
}

#[test]
fn page_fetched_offers_links_and_keeps_record() {
    let page = r#"<ul class="pager lfr-pagination-buttons"><li><a href="https://x.example/2">2</a></li></ul>
        <a class="lm" href="https://x.example/d">d</a>
        <div class="socios-panel-lat"><h2 class="tit-soc">Acme</h2></div>"#;
    let mut c = Crawler::new("https://x.example/1".to_string(), 0);
    c.next_url();
    c.page_fetched(page);
    assert_eq!(c.frontier(), &strings(&["https://x.example/2", "https://x.example/d"]));
    assert_eq!(c.records().len(), 1);
    assert_eq!(c.records()[0].name, "Acme");
}

#[test]
fn no_records_no_table() {
    assert!(csv_rows(&Vec::new()).is_empty());
}

#[test]
fn table_has_header_then_rows() {
    let mut e = named("Acme");
    e.phone = "555".to_string();
    let rows = csv_rows(&vec![e, named("Beta")]);
    assert_eq!(rows.len(), 3);
    assert_eq!(rows[0], strings(&["Nombre", "Domicilio", "Teléfono", "Correo electrónico", "Persona de contacto"]));
    assert_eq!(rows[0], header_row());
    assert_eq!(rows[1], strings(&["Acme", "", "555", "", ""]));
    assert_eq!(rows[2], strings(&["Beta", "", "", "", ""]));
}
