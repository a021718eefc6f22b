//! The counter registry: how many connections each port has received.

use vstd::prelude::*;
use crate::port_text::{
    decimal,
    decimal_text,
    is_digit,
    lemma_decimal_injective,
    lemma_decimal_reads_back,
};
use crate::recorder::{
    count_of,
    counter_add,
    counters,
    family_text,
    lists_all,
    new_recorder,
    plain_series,
    render_text,
    sample_line,
    sample_lines,
    wrapped_sum,
    Series,
};

verus! {

/// The name of the metric under which connections are counted.
pub open spec fn metric() -> Seq<char> {
    "pretense_connection"@
}

/// The key of the label that tells the ports apart.
pub open spec fn port_label() -> Seq<char> {
    "port"@
}

/// The counter that belongs to `port`.
pub open spec fn port_series(port: u16) -> Series {
    (metric(), port_label(), decimal(port as nat))
}

/// The count that `counts` has for `port`: zero for a port not seen yet.
pub open spec fn count_in(counts: Map<u16, u64>, port: u16) -> u64 {
    if counts.contains_key(port) {
        counts[port]
    } else {
        0
    }
}

/// The count after one more connection.
pub open spec fn next_count(count: u64) -> u64 {
    wrapped_sum(count, 1)
}

/// The exposition line of one port:
/// `pretense_connection{port="<port>"} <count>`, ended by a line feed.
pub open spec fn port_line(port: u16, count: u64) -> Seq<char> {
    sample_line(port_series(port), count)
}

/// The lines of the ports `order`, one after the other.
pub open spec fn port_lines(order: Seq<u16>, counts: Map<u16, u64>) -> Seq<char>
    decreases order.len(),
{
    if order.len() == 0 {
        Seq::empty()
    } else {
        port_lines(order.drop_last(), counts) + port_line(order.last(), counts[order.last()])
    }
}

/// Whether `order` lists every port of `counts` once and nothing else.
pub open spec fn lists_ports(order: Seq<u16>, counts: Map<u16, u64>) -> bool {
    order.no_duplicates() && forall|port: u16| order.contains(port) <==> counts.contains_key(port)
}

/// Whether `text` is a snapshot of `counts` in the exposition format: empty
/// where no port was seen; else the type line of the metric, one line for each
/// port that was seen, with its count, in some order, and an empty line.
pub open spec fn exposition(counts: Map<u16, u64>, text: Seq<char>) -> bool {
    if counts.dom() =~= Set::empty() {
        text =~= Seq::empty()
    } else {
        exists|order: Seq<u16>|
            #![trigger port_lines(order, counts)]
            lists_ports(order, counts) && text == family_text(metric(), port_lines(order, counts))
    }
}

/// The connection counts of the decoy ports, behind one handle that is made
/// once and handed to whoever counts or reports.
#[derive(Debug)]
pub struct Registry {
    recorder: metrics_exporter_prometheus::PrometheusRecorder,
}

impl View for Registry {
    type V = Map<u16, u64>;

    /// The ports seen so far, each with its count.
    closed spec fn view(&self) -> Map<u16, u64> {
        Map::new(
            |port: u16| counters(self.recorder).contains_key(port_series(port)),
            |port: u16| counters(self.recorder)[port_series(port)],
        )
    }
}

impl Registry {
    #[verifier::type_invariant]
    spec fn only_ports(&self) -> bool {
        forall|series: Series| #[trigger]
            counters(self.recorder).contains_key(series) ==> is_port_series(series)
    }

    /// The count of `port`: zero for a port not seen yet.
    pub open spec fn count(&self, port: u16) -> u64 {
        count_in(self@, port)
    }

    /// A registry that has seen no port.
    pub fn new() -> (registry: Registry)
        ensures
            registry@ =~= Map::empty(),
    {
        Registry { recorder: new_recorder() }
    }

    fn add(&mut self, port: u16, by: u64)
        ensures
            final(self)@ == old(self)@.insert(port, wrapped_sum(old(self).count(port), by)),
    {
        proof {
            use_type_invariant(&*self);
        }
        let value = decimal_text(port as u64);
        let ghost before = counters(self.recorder);
        let ghost sum = wrapped_sum(count_of(before, port_series(port)), by);
        proof {
            assert(("pretense_connection"@, "port"@, value@) == port_series(port));
            assert forall|series: Series| #[trigger]
                before.insert(port_series(port), sum).contains_key(series) implies is_port_series(
                series,
            ) by {
                if series != port_series(port) {
                    assert(before.contains_key(series));
                }
            }
        }
        counter_add(&mut self.recorder, "pretense_connection", "port", value.as_str(), by);
        proof {
            assert(counters(self.recorder) == before.insert(port_series(port), sum));
            assert forall|other: u16| other != port implies port_series(other) != port_series(
                port,
            ) by {
                if port_series(other) == port_series(port) {
                    lemma_port_series_injective(other, port);
                }
            }
            assert(self@ =~= old(self)@.insert(port, wrapped_sum(old(self).count(port), by)));
        }
    }

    /// Makes `port` known: a port not seen yet gets the count zero, and no
    /// count changes.
    pub fn register(&mut self, port: u16)
        ensures
            final(self)@ == old(self)@.insert(port, old(self).count(port)),
    {
        self.add(port, 0)
    }

    /// Counts one connection on `port`, which starts at zero if it was not seen
    /// yet. No other port's count changes.
    pub fn increment(&mut self, port: u16)
        ensures
            final(self)@ == old(self)@.insert(port, next_count(old(self).count(port))),
    {
        self.add(port, 1)
    }

    /// A snapshot of all counts in the exposition format.
    pub fn render(&self) -> (text: String)
        ensures
            exposition(self@, text@),
    {
        proof {
            use_type_invariant(self);
        }
        let text = render_text(&self.recorder);
        proof {
            let held = counters(self.recorder);
            let counts = self@;
            if held.dom() =~= Set::empty() {
                assert forall|port: u16| !counts.contains_key(port) by {
                    assert(!held.dom().contains(port_series(port)));
                }
                assert(counts.dom() =~= Set::empty());
            } else {
                let some = choose|series: Series| held.dom().contains(series);
                assert(held.contains_key(some));
                let seen = choose|p: u16| some == port_series(p);
                assert(counts.dom().contains(seen));
                assert forall|s: Series, t: Series|
                    held.contains_key(s) && held.contains_key(t) implies plain_series(s) && s.0
                    == t.0 by {
                    let p = choose|p: u16| s == port_series(p);
                    let q = choose|q: u16| t == port_series(q);
                    lemma_port_series_plain(p);
                }
                let order = choose|order: Seq<Series>|
                    #![trigger sample_lines(order, held)]
                    lists_all(order, held) && order.len() > 0 && text@ == family_text(
                        order[0].0,
                        sample_lines(order, held),
                    );
                assert forall|i: int| 0 <= i < order.len() implies held.contains_key(
                    #[trigger] order[i],
                ) && is_port_series(order[i]) by {
                    assert(order.contains(order[i]));
                }
                let ports = lemma_ports_of_order(order, held, counts);
                assert(order[0] == port_series(ports[0]));
                assert forall|i: int, j: int|
                    0 <= i < ports.len() && 0 <= j < ports.len() && i != j implies ports[i]
                    != ports[j] by {
                    assert(order[i] == port_series(ports[i]));
                    assert(order[j] == port_series(ports[j]));
                }
                assert forall|port: u16| ports.contains(port) <==> counts.contains_key(port) by {
                    if ports.contains(port) {
                        let i = choose|i: int| 0 <= i < ports.len() && ports[i] == port;
                        assert(order[i] == port_series(ports[i]));
                        assert(order.contains(order[i]));
                    }
                    if counts.contains_key(port) {
                        assert(order.contains(port_series(port)));
                        let i = choose|i: int|
                            0 <= i < order.len() && order[i] == port_series(port);
                        assert(order[i] == port_series(ports[i]));
                        lemma_port_series_injective(port, ports[i]);
                    }
                }
                assert(lists_ports(ports, counts));
                assert(text@ == family_text(metric(), port_lines(ports, counts)));
            }
        }
        text
    }
}

/// Whether `part` stands somewhere in `text`, in one piece.
pub open spec fn holds(text: Seq<char>, part: Seq<char>) -> bool {
    exists|at: int|
        0 <= at && at + part.len() <= text.len() && #[trigger] text.subrange(
            at,
            at + part.len(),
        ) == part
}

/// What stands in a part of a text stands in the text.
pub proof fn lemma_holds_within(before: Seq<char>, middle: Seq<char>, after: Seq<char>, part: Seq<char>)
    requires
        holds(middle, part),
    ensures
        holds(before + middle + after, part),
{
    let at = choose|at: int|
        0 <= at && at + part.len() <= middle.len() && #[trigger] middle.subrange(
            at,
            at + part.len(),
        ) == part;
    let text = before + middle + after;
    let shifted = before.len() + at;
    assert(text.subrange(shifted, shifted + part.len()) =~= middle.subrange(at, at + part.len()));
}

/// The lines of `order` hold the line of each of its ports.
pub proof fn lemma_port_lines_hold(order: Seq<u16>, counts: Map<u16, u64>, port: u16)
    requires
        order.contains(port),
    ensures
        holds(port_lines(order, counts), port_line(port, counts[port])),
    decreases order.len(),
{
    let front = port_lines(order.drop_last(), counts);
    let last = port_line(order.last(), counts[order.last()]);
    let none = Seq::<char>::empty();
    if order.last() == port {
        assert(last.subrange(0int, 0int + last.len()) =~= last);
        assert(holds(last, last));
        lemma_holds_within(front, last, none, last);
        assert(front + last + none =~= front + last);
    } else {
        let i = choose|i: int| 0 <= i < order.len() && order[i] == port;
        assert(order.drop_last()[i] == port);
        lemma_port_lines_hold(order.drop_last(), counts, port);
        lemma_holds_within(none, front, last, port_line(port, counts[port]));
        assert(none + front + last =~= front + last);
    }
}

/// A snapshot lists every port that was seen: for each of them the text holds
/// the line `pretense_connection{port="<port>"} <count>` with the port's
/// count.
pub proof fn lemma_exposition_lists_every_port(counts: Map<u16, u64>, text: Seq<char>, port: u16)
    requires
        exposition(counts, text),
        counts.contains_key(port),
    ensures
        holds(text, port_line(port, counts[port])),
{
    assert(counts.dom().contains(port));
    let order = choose|order: Seq<u16>|
        #![trigger port_lines(order, counts)]
        lists_ports(order, counts) && text == family_text(metric(), port_lines(order, counts));
    lemma_port_lines_hold(order, counts, port);
    lemma_holds_within(
        "# TYPE "@ + metric() + " counter\n"@,
        port_lines(order, counts),
        "\n"@,
        port_line(port, counts[port]),
    );
}

/// The metric's name, the label's key and the text of a port are rendered as
/// they stand.
proof fn lemma_port_series_plain(port: u16)
    ensures
        plain_series(port_series(port)),
{
    reveal_strlit("pretense_connection");
    reveal_strlit("port");
    lemma_decimal_reads_back(port as nat);
    let value = decimal(port as nat);
    assert forall|i: int| 0 <= i < value.len() implies #[trigger] value[i] != '\\' && value[i]
        != '"' && value[i] != '\n' by {
        assert(is_digit(value[i]));
    }
}

/// Two ports with the same counter are the same port.
proof fn lemma_port_series_injective(a: u16, b: u16)
    requires
        port_series(a) == port_series(b),
    ensures
        a == b,
{
    lemma_decimal_injective(a as nat, b as nat);
}

/// Whether `series` is the counter of some port.
spec fn is_port_series(series: Series) -> bool {
    exists|port: u16| series == port_series(port)
}

/// The ports whose counters `order` lists, in the same order, with the same
/// lines.
proof fn lemma_ports_of_order(order: Seq<Series>, held: Map<Series, u64>, counts: Map<u16, u64>) -> (ports:
    Seq<u16>)
    requires
        forall|i: int|
            0 <= i < order.len() ==> held.contains_key(#[trigger] order[i]) && is_port_series(
                order[i],
            ),
        forall|p: u16| #[trigger] counts.contains_key(p) <==> held.contains_key(port_series(p)),
        forall|p: u16| #[trigger] counts.contains_key(p) ==> counts[p] == held[port_series(p)],
    ensures
        ports.len() == order.len(),
        forall|i: int| 0 <= i < order.len() ==> #[trigger] order[i] == port_series(ports[i]),
        sample_lines(order, held) == port_lines(ports, counts),
    decreases order.len(),
{
    if order.len() == 0 {
        Seq::empty()
    } else {
        let rest = order.drop_last();
        assert forall|i: int| 0 <= i < rest.len() implies held.contains_key(#[trigger] rest[i])
            && is_port_series(rest[i]) by {
            assert(rest[i] == order[i]);
        }
        let front = lemma_ports_of_order(rest, held, counts);
        assert(held.contains_key(order[order.len() - 1]));
        assert(is_port_series(order[order.len() - 1]));
        let port = choose|p: u16| order.last() == port_series(p);
        let ports = front.push(port);
        assert(ports.drop_last() =~= front);
        assert(counts.contains_key(port));
        assert forall|i: int| 0 <= i < order.len() implies #[trigger] order[i] == port_series(
            ports[i],
        ) by {
            if i < order.len() - 1 {
                assert(order.drop_last()[i] == order[i]);
            }
        }
        ports
    }
}

} // verus!
