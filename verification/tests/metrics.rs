use prometheus::{Counter, CounterVec, Encoder, Gauge, HistogramOpts, HistogramVec, Opts, Registry, TextEncoder};

use zhensegg::broker::model::Event;
use zhensegg::metrics::{families, increments, Family, FamilyKind, Increment, Label};

/// A registry with every family, and the labelled message counters.
struct Metrics {
    registry: Registry,
    messages_total: Option<CounterVec>,
    messages_bytes_total: Option<CounterVec>,
}

impl Metrics {
    fn new() -> Metrics {
        let mut m = Metrics {
            registry: Registry::new(),
            messages_total: None,
            messages_bytes_total: None,
        };
        for f in families() {
            let opts = Opts::new(f.name(), f.help());
            match (f.kind(), f.labelled()) {
                (FamilyKind::Counter, true) => {
                    let c = CounterVec::new(opts, &["type"]).unwrap();
                    m.registry.register(Box::new(c.clone())).unwrap();
                    if f == Family::MessagesTotal {
                        m.messages_total = Some(c);
                    } else {
                        m.messages_bytes_total = Some(c);
                    }
                }
                (FamilyKind::Counter, false) => {
                    m.registry.register(Box::new(Counter::with_opts(opts).unwrap())).unwrap();
                }
                (FamilyKind::Gauge, _) => {
                    m.registry.register(Box::new(Gauge::with_opts(opts).unwrap())).unwrap();
                }
                (FamilyKind::Histogram, _) => {
                    let h = HistogramVec::new(HistogramOpts::new(f.name(), f.help()), &["type"]).unwrap();
                    h.with_label_values(&["disk"]).observe(0.001);
                    m.registry.register(Box::new(h)).unwrap();
                }
            }
        }
        m
    }

    fn count(&self, e: Event) {
        for i in increments(e) {
            if let Increment::Messages { label, count, bytes_each } = i {
                let l = [label.as_str()];
                self.messages_total.as_ref().unwrap().with_label_values(&l).inc_by(count as f64);
                self.messages_bytes_total
                    .as_ref()
                    .unwrap()
                    .with_label_values(&l)
                    .inc_by(count as f64 * bytes_each as f64);
            }
        }
    }

    fn render(&self) -> String {
        let mut buffer = Vec::new();
        TextEncoder::new().encode(&self.registry.gather(), &mut buffer).unwrap();
        String::from_utf8(buffer).unwrap()
    }
}

#[test]
fn metrics_new_creates_all_metric_families() {
    let m = Metrics::new();
    m.count(Event::Published { bytes: 1 });
    assert_eq!(families().len(), 11);
    assert!(m.messages_total.is_some() && m.messages_bytes_total.is_some());
}

#[test]
fn metrics_render_exposes_prometheus_names() {
    let m = Metrics::new();
    m.count(Event::Published { bytes: 123 });

    let out = m.render();
    for name in [
        "zhensegg_messages_total",
        "zhensegg_messages_bytes_total",
        "zhensegg_connections_total",
        "zhensegg_subscriptions_total",
        "zhensegg_backlog_size",
        "zhensegg_store_usage_bytes",
        "zhensegg_append_latency_seconds",
        "zhensegg_fsync_latency_seconds",
        "zhensegg_broker_uptime_seconds",
    ] {
        assert!(out.contains(name), "expected metric {name} in render output");
    }
}

#[test]
fn metrics_render_reflects_counter_values() {
    let m = Metrics::new();
    for _ in 0..3 {
        m.count(Event::Published { bytes: 10 });
    }
    m.count(Event::Delivered { copies: 4, bytes: 10 });
    let out = m.render();
    assert!(
        out.contains("zhensegg_messages_total{type=\"published\"} 3"),
        "expected counter value, got:\n{out}"
    );
    assert!(out.contains("zhensegg_messages_total{type=\"acked\"} 3"));
    assert!(out.contains("zhensegg_messages_bytes_total{type=\"delivered\"} 40"));
}

#[test]
fn events_add_what_they_stand_for() {
    assert_eq!(increments(Event::AuthFailed), vec![Increment::One(Family::AuthFailuresTotal)]);
    assert_eq!(increments(Event::Authenticated), vec![Increment::One(Family::AuthSuccessesTotal)]);
    assert_eq!(
        increments(Event::Subscribed),
        vec![
            Increment::One(Family::SubscriptionsTotal),
            Increment::Messages { label: Label::Acked, count: 1, bytes_each: 0 },
        ]
    );
    assert_eq!(
        increments(Event::Rejected),
        vec![Increment::Messages { label: Label::Rejected, count: 1, bytes_each: 0 }]
    );
    assert_eq!(Family::AuthFailuresTotal.help(), "Rejected connections (auth failures)");
}
