use echo_rs::metrics::MetricsRegistry;

const BUCKETS: [u64; 12] = [
    1000, 5000, 10000, 25000, 50000, 100000, 250000, 500000, 1000000, 2500000, 5000000, 10000000,
];

fn expected_histogram(labels: &str, latencies: &[u64]) -> String {
    let mut out = String::new();
    for bound in BUCKETS {
        let n = latencies.iter().filter(|l| **l <= bound).count();
        out.push_str(&format!(
            "http_request_duration_microseconds_bucket{{{labels},le=\"{bound}\"}} {n}\n"
        ));
    }
    let sum: u64 = latencies.iter().sum();
    let count = latencies.len();
    out.push_str(&format!(
        "http_request_duration_microseconds_bucket{{{labels},le=\"+Inf\"}} {count}\n"
    ));
    out.push_str(&format!("http_request_duration_microseconds_sum{{{labels}}} {sum}\n"));
    out.push_str(&format!("http_request_duration_microseconds_count{{{labels}}} {count}\n"));
    out
}

#[test]
fn empty_registry_renders_headers_only() {
    let reg = MetricsRegistry::new();
    assert_eq!(
        reg.render(),
        "# TYPE http_requests_total counter\n# TYPE http_request_duration_microseconds histogram\n"
    );
}

#[test]
fn requests_are_counted_by_method_route_and_status_class() {
    let mut reg = MetricsRegistry::new();
    reg.record("GET", "/*key", 200, 700);
    reg.record("GET", "/*key", 204, 30000);
    reg.record("POST", "/", 500, 12_000_000);
    let get = "method=\"GET\",route=\"/*key\",status=\"2xx\"";
    let post = "method=\"POST\",route=\"/\",status=\"5xx\"";
    let expected = format!(
        "# TYPE http_requests_total counter\n\
         http_requests_total{{{get}}} 2\n\
         http_requests_total{{{post}}} 1\n\
         # TYPE http_request_duration_microseconds histogram\n{}{}",
        expected_histogram(get, &[700, 30000]),
        expected_histogram(post, &[12_000_000]),
    );
    assert_eq!(reg.render(), expected);
}

#[test]
fn label_values_are_escaped() {
    let mut reg = MetricsRegistry::new();
    reg.record("GET", "/a\"b\\c\nd", 404, 0);
    let text = reg.render();
    assert!(text.contains("http_requests_total{method=\"GET\",route=\"/a\\\"b\\\\c\\nd\",status=\"4xx\"} 1\n"));
}

#[test]
fn latency_sum_saturates() {
    let mut reg = MetricsRegistry::new();
    reg.record("GET", "/", 200, u64::MAX);
    reg.record("GET", "/", 200, 5);
    let text = reg.render();
    assert!(text.contains(&format!(
        "http_request_duration_microseconds_sum{{method=\"GET\",route=\"/\",status=\"2xx\"}} {}\n",
        u64::MAX
    )));
    assert!(text.contains("http_requests_total{method=\"GET\",route=\"/\",status=\"2xx\"} 2\n"));
}
