//! What is measured: the metric families, and what each event adds to them.

use crate::broker::model::Event;
use vstd::prelude::*;

verus! {

/// A metric family.
#[derive(Debug, Clone, Copy, PartialEq, Eq, Structural)]
pub enum Family {
    MessagesTotal,
    MessagesBytesTotal,
    ConnectionsTotal,
    SubscriptionsTotal,
    BacklogSize,
    StoreUsageBytes,
    AppendLatency,
    FsyncLatency,
    BrokerUptime,
    AuthFailuresTotal,
    AuthSuccessesTotal,
}

/// How a family behaves.
#[derive(Debug, Clone, Copy, PartialEq, Eq, Structural)]
pub enum FamilyKind {
    /// Only grows.
    Counter,
    /// Goes up and down.
    Gauge,
    /// Counts observations by size.
    Histogram,
}

impl Family {
    /// The name under which a family is exposed.
    pub open spec fn exposed_name(self) -> Seq<char> {
        match self {
            Family::MessagesTotal => "zhensegg_messages_total"@,
            Family::MessagesBytesTotal => "zhensegg_messages_bytes_total"@,
            Family::ConnectionsTotal => "zhensegg_connections_total"@,
            Family::SubscriptionsTotal => "zhensegg_subscriptions_total"@,
            Family::BacklogSize => "zhensegg_backlog_size"@,
            Family::StoreUsageBytes => "zhensegg_store_usage_bytes"@,
            Family::AppendLatency => "zhensegg_append_latency_seconds"@,
            Family::FsyncLatency => "zhensegg_fsync_latency_seconds"@,
            Family::BrokerUptime => "zhensegg_broker_uptime_seconds"@,
            Family::AuthFailuresTotal => "zhensegg_auth_failures_total"@,
            Family::AuthSuccessesTotal => "zhensegg_auth_successes_total"@,
        }
    }

    /// What a family is described as.
    pub open spec fn description(self) -> Seq<char> {
        match self {
            Family::MessagesTotal => "Total messages"@,
            Family::MessagesBytesTotal => "Total message bytes"@,
            Family::ConnectionsTotal => "Active connections"@,
            Family::SubscriptionsTotal => "Active subscriptions"@,
            Family::BacklogSize => "Undelivered messages"@,
            Family::StoreUsageBytes => "Store usage in bytes"@,
            Family::AppendLatency => "Append latency"@,
            Family::FsyncLatency => "Fsync latency"@,
            Family::BrokerUptime => "Broker uptime"@,
            Family::AuthFailuresTotal => "Rejected connections (auth failures)"@,
            Family::AuthSuccessesTotal => "Authenticated connections"@,
        }
    }

    pub open spec fn behaviour(self) -> FamilyKind {
        match self {
            Family::MessagesTotal => FamilyKind::Counter,
            Family::MessagesBytesTotal => FamilyKind::Counter,
            Family::ConnectionsTotal => FamilyKind::Gauge,
            Family::SubscriptionsTotal => FamilyKind::Gauge,
            Family::BacklogSize => FamilyKind::Gauge,
            Family::StoreUsageBytes => FamilyKind::Gauge,
            Family::AppendLatency => FamilyKind::Histogram,
            Family::FsyncLatency => FamilyKind::Histogram,
            Family::BrokerUptime => FamilyKind::Gauge,
            Family::AuthFailuresTotal => FamilyKind::Counter,
            Family::AuthSuccessesTotal => FamilyKind::Counter,
        }
    }

    /// The family is split by the label `type`.
    pub open spec fn is_labelled(self) -> bool {
        match self {
            Family::MessagesTotal => true,
            Family::MessagesBytesTotal => true,
            Family::AppendLatency => true,
            Family::FsyncLatency => true,
            _ => false,
        }
    }

    pub fn name(self) -> (s: &'static str)
        ensures
            s@ == self.exposed_name(),
    {
        match self {
            Family::MessagesTotal => "zhensegg_messages_total",
            Family::MessagesBytesTotal => "zhensegg_messages_bytes_total",
            Family::ConnectionsTotal => "zhensegg_connections_total",
            Family::SubscriptionsTotal => "zhensegg_subscriptions_total",
            Family::BacklogSize => "zhensegg_backlog_size",
            Family::StoreUsageBytes => "zhensegg_store_usage_bytes",
            Family::AppendLatency => "zhensegg_append_latency_seconds",
            Family::FsyncLatency => "zhensegg_fsync_latency_seconds",
            Family::BrokerUptime => "zhensegg_broker_uptime_seconds",
            Family::AuthFailuresTotal => "zhensegg_auth_failures_total",
            Family::AuthSuccessesTotal => "zhensegg_auth_successes_total",
        }
    }

    pub fn help(self) -> (s: &'static str)
        ensures
            s@ == self.description(),
    {
        match self {
            Family::MessagesTotal => "Total messages",
            Family::MessagesBytesTotal => "Total message bytes",
            Family::ConnectionsTotal => "Active connections",
            Family::SubscriptionsTotal => "Active subscriptions",
            Family::BacklogSize => "Undelivered messages",
            Family::StoreUsageBytes => "Store usage in bytes",
            Family::AppendLatency => "Append latency",
            Family::FsyncLatency => "Fsync latency",
            Family::BrokerUptime => "Broker uptime",
            Family::AuthFailuresTotal => "Rejected connections (auth failures)",
            Family::AuthSuccessesTotal => "Authenticated connections",
        }
    }

    pub fn kind(self) -> (k: FamilyKind)
        ensures
            k == self.behaviour(),
    {
        match self {
            Family::MessagesTotal => FamilyKind::Counter,
            Family::MessagesBytesTotal => FamilyKind::Counter,
            Family::ConnectionsTotal => FamilyKind::Gauge,
            Family::SubscriptionsTotal => FamilyKind::Gauge,
            Family::BacklogSize => FamilyKind::Gauge,
            Family::StoreUsageBytes => FamilyKind::Gauge,
            Family::AppendLatency => FamilyKind::Histogram,
            Family::FsyncLatency => FamilyKind::Histogram,
            Family::BrokerUptime => FamilyKind::Gauge,
            Family::AuthFailuresTotal => FamilyKind::Counter,
            Family::AuthSuccessesTotal => FamilyKind::Counter,
        }
    }

    pub fn labelled(self) -> (yes: bool)
        ensures
            yes == self.is_labelled(),
    {
        match self {
            Family::MessagesTotal => true,
            Family::MessagesBytesTotal => true,
            Family::AppendLatency => true,
            Family::FsyncLatency => true,
            _ => false,
        }
    }
}

/// All families, in the order in which they are registered.
pub open spec fn all_families() -> Seq<Family> {
    seq![
        Family::MessagesTotal,
        Family::MessagesBytesTotal,
        Family::ConnectionsTotal,
        Family::SubscriptionsTotal,
        Family::BacklogSize,
        Family::StoreUsageBytes,
        Family::AppendLatency,
        Family::FsyncLatency,
        Family::BrokerUptime,
        Family::AuthFailuresTotal,
        Family::AuthSuccessesTotal,
    ]
}

/// Every family is registered, and none twice.
pub proof fn families_are_complete(f: Family)
    ensures
        all_families().contains(f),
        all_families().no_duplicates(),
{
    let i: int = match f {
        Family::MessagesTotal => 0,
        Family::MessagesBytesTotal => 1,
        Family::ConnectionsTotal => 2,
        Family::SubscriptionsTotal => 3,
        Family::BacklogSize => 4,
        Family::StoreUsageBytes => 5,
        Family::AppendLatency => 6,
        Family::FsyncLatency => 7,
        Family::BrokerUptime => 8,
        Family::AuthFailuresTotal => 9,
        Family::AuthSuccessesTotal => 10,
    };
    assert(all_families()[i] == f);
}

/// All families.
pub fn families() -> (v: Vec<Family>)
    ensures
        v@ == all_families(),
{
    let v: Vec<Family> = vec![
        Family::MessagesTotal,
        Family::MessagesBytesTotal,
        Family::ConnectionsTotal,
        Family::SubscriptionsTotal,
        Family::BacklogSize,
        Family::StoreUsageBytes,
        Family::AppendLatency,
        Family::FsyncLatency,
        Family::BrokerUptime,
        Family::AuthFailuresTotal,
        Family::AuthSuccessesTotal,
    ];
    assert(v@ =~= all_families());
    v
}

/// A label under which messages are counted.
#[derive(Debug, Clone, Copy, PartialEq, Eq, Structural)]
pub enum Label {
    Published,
    Acked,
    Delivered,
    Rejected,
}

impl Label {
    pub open spec fn text(self) -> Seq<char> {
        match self {
            Label::Published => "published"@,
            Label::Acked => "acked"@,
            Label::Delivered => "delivered"@,
            Label::Rejected => "rejected"@,
        }
    }

    pub fn as_str(self) -> (s: &'static str)
        ensures
            s@ == self.text(),
    {
        match self {
            Label::Published => "published",
            Label::Acked => "acked",
            Label::Delivered => "delivered",
            Label::Rejected => "rejected",
        }
    }
}

/// What an event adds.
#[derive(Debug, Clone, Copy, PartialEq, Eq, Structural)]
pub enum Increment {
    /// So many messages of so many bytes each.
    Messages { label: Label, count: usize, bytes_each: usize },
    /// One to a family without labels.
    One(Family),
}

/// What an event adds, as a value.
pub open spec fn added(e: Event) -> Seq<Increment> {
    match e {
        Event::Authenticated => seq![Increment::One(Family::AuthSuccessesTotal)],
        Event::AuthFailed => seq![Increment::One(Family::AuthFailuresTotal)],
        Event::Published { bytes } => seq![
            Increment::Messages { label: Label::Published, count: 1, bytes_each: bytes },
            Increment::Messages { label: Label::Acked, count: 1, bytes_each: bytes },
        ],
        Event::Delivered { copies, bytes } => seq![
            Increment::Messages { label: Label::Delivered, count: copies, bytes_each: bytes },
        ],
        Event::Rejected => seq![
            Increment::Messages { label: Label::Rejected, count: 1, bytes_each: 0 },
        ],
        Event::Subscribed => seq![
            Increment::One(Family::SubscriptionsTotal),
            Increment::Messages { label: Label::Acked, count: 1, bytes_each: 0 },
        ],
    }
}

/// What an event adds.
pub fn increments(e: Event) -> (v: Vec<Increment>)
    ensures
        v@ == added(e),
{
    let v: Vec<Increment> = match e {
        Event::Authenticated => vec![Increment::One(Family::AuthSuccessesTotal)],
        Event::AuthFailed => vec![Increment::One(Family::AuthFailuresTotal)],
        Event::Published { bytes } => vec![
            Increment::Messages { label: Label::Published, count: 1, bytes_each: bytes },
            Increment::Messages { label: Label::Acked, count: 1, bytes_each: bytes },
        ],
        Event::Delivered { copies, bytes } => vec![
            Increment::Messages { label: Label::Delivered, count: copies, bytes_each: bytes },
        ],
        Event::Rejected => vec![
            Increment::Messages { label: Label::Rejected, count: 1, bytes_each: 0 },
        ],
        Event::Subscribed => vec![
            Increment::One(Family::SubscriptionsTotal),
            Increment::Messages { label: Label::Acked, count: 1, bytes_each: 0 },
        ],
    };
    assert(v@ =~= added(e));
    v
}

/// By how much a list of increments moves the count of messages under a label.
pub open spec fn messages_added(v: Seq<Increment>, label: Label) -> int
    decreases v.len(),
{
    if v.len() == 0 {
        0
    } else {
        let here: int = match v.last() {
            Increment::Messages { label: l, count, bytes_each } => if l == label {
                count as int
            } else {
                0
            },
            Increment::One(f) => 0,
        };
        messages_added(v.drop_last(), label) + here
    }
}

/// By how much it moves the count of bytes under a label.
pub open spec fn bytes_added(v: Seq<Increment>, label: Label) -> int
    decreases v.len(),
{
    if v.len() == 0 {
        0
    } else {
        let here: int = match v.last() {
            Increment::Messages { label: l, count, bytes_each } => if l == label {
                count * bytes_each
            } else {
                0
            },
            Increment::One(f) => 0,
        };
        bytes_added(v.drop_last(), label) + here
    }
}

/// By how much it moves a family without labels.
pub open spec fn ones_added(v: Seq<Increment>, family: Family) -> int
    decreases v.len(),
{
    if v.len() == 0 {
        0
    } else {
        let here: int = if v.last() == Increment::One(family) {
            1
        } else {
            0
        };
        ones_added(v.drop_last(), family) + here
    }
}

/// What each event moves, counter by counter: a record that was published
/// counts once as published and once as acknowledged, with its bytes; one that
/// was delivered counts once for each copy, with its bytes for each; one that
/// was refused counts once, without bytes; a subscription counts as a
/// subscription and as an acknowledgement; a token counts as right or wrong;
/// and nothing moves anything else.
pub proof fn counters_follow_events(e: Event, label: Label, family: Family)
    ensures
        messages_added(added(e), label) == match (e, label) {
            (Event::Published { bytes }, Label::Published) => 1int,
            (Event::Published { bytes }, Label::Acked) => 1,
            (Event::Delivered { copies, bytes }, Label::Delivered) => copies as int,
            (Event::Rejected, Label::Rejected) => 1,
            (Event::Subscribed, Label::Acked) => 1,
            _ => 0,
        },
        bytes_added(added(e), label) == match (e, label) {
            (Event::Published { bytes }, Label::Published) => bytes as int,
            (Event::Published { bytes }, Label::Acked) => bytes as int,
            (Event::Delivered { copies, bytes }, Label::Delivered) => copies * bytes,
            _ => 0,
        },
        ones_added(added(e), family) == match (e, family) {
            (Event::Authenticated, Family::AuthSuccessesTotal) => 1int,
            (Event::AuthFailed, Family::AuthFailuresTotal) => 1,
            (Event::Subscribed, Family::SubscriptionsTotal) => 1,
            _ => 0,
        },
{
    reveal_with_fuel(messages_added, 3);
    reveal_with_fuel(bytes_added, 3);
    reveal_with_fuel(ones_added, 3);
    let v = added(e);
    if v.len() == 2 {
        assert(v.drop_last() =~= seq![v[0]]);
        assert(v.drop_last().drop_last() =~= Seq::<Increment>::empty());
    } else {
        assert(v.drop_last() =~= Seq::<Increment>::empty());
    }
}

/// Families do not share a name, and labels do not share a text.
pub proof fn names_are_distinct(a: Family, b: Family, x: Label, y: Label)
    ensures
        a.exposed_name() == b.exposed_name() ==> a == b,
        x.text() == y.text() ==> x == y,
{
    reveal_strlit("zhensegg_messages_total");
    reveal_strlit("zhensegg_messages_bytes_total");
    reveal_strlit("zhensegg_connections_total");
    reveal_strlit("zhensegg_subscriptions_total");
    reveal_strlit("zhensegg_backlog_size");
    reveal_strlit("zhensegg_store_usage_bytes");
    reveal_strlit("zhensegg_append_latency_seconds");
    reveal_strlit("zhensegg_fsync_latency_seconds");
    reveal_strlit("zhensegg_broker_uptime_seconds");
    reveal_strlit("zhensegg_auth_failures_total");
    reveal_strlit("zhensegg_auth_successes_total");
    reveal_strlit("published");
    reveal_strlit("acked");
    reveal_strlit("delivered");
    reveal_strlit("rejected");
    let m = a.exposed_name();
    let n = b.exposed_name();
    if a.exposed_name() == b.exposed_name() && a != b {
        assert(m.len() == n.len());
        assert(m[9] == n[9] && m[10] == n[10]);
    }
    if x.text() == y.text() && x != y {
        assert(x.text().len() == y.text().len());
        assert(x.text()[0] == y.text()[0]);
    }
}

/// What is counted, what goes up and down, and what is observed; and which
/// families are split by their label.
pub proof fn families_behave(f: Family)
    ensures
        f.behaviour() is Histogram <==> f == Family::AppendLatency || f == Family::FsyncLatency,
        f.behaviour() is Counter <==> f == Family::MessagesTotal || f == Family::MessagesBytesTotal
            || f == Family::AuthFailuresTotal || f == Family::AuthSuccessesTotal,
        f.is_labelled() <==> f == Family::MessagesTotal || f == Family::MessagesBytesTotal || f
            == Family::AppendLatency || f == Family::FsyncLatency,
{
}

/// The names and descriptions under which families are exposed.
pub proof fn families_are_named(f: Family)
    ensures
        (f.exposed_name(), f.description()) == match f {
            Family::MessagesTotal => ("zhensegg_messages_total"@, "Total messages"@),
            Family::MessagesBytesTotal => (
                "zhensegg_messages_bytes_total"@,
                "Total message bytes"@,
            ),
            Family::ConnectionsTotal => ("zhensegg_connections_total"@, "Active connections"@),
            Family::SubscriptionsTotal => (
                "zhensegg_subscriptions_total"@,
                "Active subscriptions"@,
            ),
            Family::BacklogSize => ("zhensegg_backlog_size"@, "Undelivered messages"@),
            Family::StoreUsageBytes => ("zhensegg_store_usage_bytes"@, "Store usage in bytes"@),
            Family::AppendLatency => ("zhensegg_append_latency_seconds"@, "Append latency"@),
            Family::FsyncLatency => ("zhensegg_fsync_latency_seconds"@, "Fsync latency"@),
            Family::BrokerUptime => ("zhensegg_broker_uptime_seconds"@, "Broker uptime"@),
            Family::AuthFailuresTotal => (
                "zhensegg_auth_failures_total"@,
                "Rejected connections (auth failures)"@,
            ),
            Family::AuthSuccessesTotal => (
                "zhensegg_auth_successes_total"@,
                "Authenticated connections"@,
            ),
        },
{
}

/// The labels of messages are the words for what became of them.
pub proof fn labels_are_words(l: Label)
    ensures
        l.text() == match l {
            Label::Published => "published"@,
            Label::Acked => "acked"@,
            Label::Delivered => "delivered"@,
            Label::Rejected => "rejected"@,
        },
{
}

} // verus!
