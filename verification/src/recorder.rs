//! The Prometheus recorder that keeps the counts, and what this crate relies
//! on of it without proof: how a counter gets into it, how it grows, and what
//! the recorder renders.

use vstd::prelude::*;
use metrics::Recorder;
use crate::port_text::{decimal, is_digit};

verus! {

/// The recorder of `metrics_exporter_prometheus`. Nothing inside it is visible
/// here; `counters` names what it holds.
#[verifier::external_type_specification]
#[verifier::external_body]
pub struct ExPrometheusRecorder(metrics_exporter_prometheus::PrometheusRecorder);

/// A counter's identity in a recorder: the metric's name, then the key and the
/// value of its one label.
pub type Series = (Seq<char>, Seq<char>, Seq<char>);

/// The counters that `recorder` holds, each with its current count. A recorder
/// of this crate is made by `new_recorder` and changed by `counter_add` alone,
/// so it holds counters with exactly one label and nothing else.
pub uninterp spec fn counters(recorder: metrics_exporter_prometheus::PrometheusRecorder) -> Map<
    Series,
    u64,
>;

/// A recorder's contents before anything is counted.
pub open spec fn no_counters() -> Map<Series, u64> {
    Map::empty()
}

/// The sum of `count` and `by` as a 64-bit machine word: past the largest value
/// it starts again at zero.
pub open spec fn wrapped_sum(count: u64, by: u64) -> u64 {
    if count + by > u64::MAX {
        (count + by - u64::MAX - 1) as u64
    } else {
        (count + by) as u64
    }
}

/// The count that `held` has for `series`, zero where it has none.
pub open spec fn count_of(held: Map<Series, u64>, series: Series) -> u64 {
    if held.contains_key(series) {
        held[series]
    } else {
        0
    }
}

/// Whether `c` is a letter of the ASCII alphabet or an underscore.
pub open spec fn is_word_start(c: char) -> bool {
    ('a' <= c && c <= 'z') || ('A' <= c && c <= 'Z') || c == '_'
}

/// Whether a metric's name is rendered as it stands: letters, digits, `_` and
/// `:`, and no digit in the first place.
pub open spec fn plain_name(name: Seq<char>) -> bool {
    forall|i: int|
        0 <= i < name.len() ==> is_word_start(#[trigger] name[i]) || name[i] == ':' || (i > 0
            && is_digit(name[i]))
}

/// Whether a label's key is rendered as it stands: letters, digits and `_`,
/// and no digit in the first place.
pub open spec fn plain_label(label: Seq<char>) -> bool {
    forall|i: int|
        0 <= i < label.len() ==> is_word_start(#[trigger] label[i]) || (i > 0 && is_digit(
            label[i],
        ))
}

/// Whether a label's value is rendered as it stands: it holds no backslash, no
/// double quote and no line feed.
pub open spec fn plain_value(value: Seq<char>) -> bool {
    forall|i: int|
        0 <= i < value.len() ==> #[trigger] value[i] != '\\' && value[i] != '"' && value[i]
            != '\n'
}

/// Whether every part of `series` is rendered as it stands.
pub open spec fn plain_series(series: Series) -> bool {
    plain_name(series.0) && plain_label(series.1) && plain_value(series.2)
}

/// The line of the exposition format for one counter:
/// `name{label="value"} count`, ended by a line feed.
pub open spec fn sample_line(series: Series, count: u64) -> Seq<char> {
    series.0 + "{"@ + series.1 + "=\""@ + series.2 + "\"} "@ + decimal(count as nat) + "\n"@
}

/// The lines of the counters `order`, one after the other.
pub open spec fn sample_lines(order: Seq<Series>, held: Map<Series, u64>) -> Seq<char>
    decreases order.len(),
{
    if order.len() == 0 {
        Seq::empty()
    } else {
        sample_lines(order.drop_last(), held) + sample_line(order.last(), held[order.last()])
    }
}

/// The exposition text of one metric: its type line, its counters in the given
/// order, and an empty line.
pub open spec fn family_text(name: Seq<char>, lines: Seq<char>) -> Seq<char> {
    "# TYPE "@ + name + " counter\n"@ + lines + "\n"@
}

/// Whether `order` lists every counter of `held` once and nothing else.
pub open spec fn lists_all(order: Seq<Series>, held: Map<Series, u64>) -> bool {
    order.no_duplicates() && forall|series: Series|
        order.contains(series) <==> held.contains_key(series)
}

/// What a recorder that holds `held` may render as `text`. With no counter the
/// text is empty. Where all counters belong to one metric and all their parts
/// are rendered as they stand, the text is that metric's type line, one line
/// for each counter with its count, and an empty line, the counters in any
/// order. Of other recorders nothing is said.
pub open spec fn renders(held: Map<Series, u64>, text: Seq<char>) -> bool {
    if held.dom() =~= Set::empty() {
        text =~= Seq::empty()
    } else if forall|s: Series, t: Series|
        held.contains_key(s) && held.contains_key(t) ==> plain_series(s) && s.0 == t.0 {
        exists|order: Seq<Series>|
            #![trigger sample_lines(order, held)]
            lists_all(order, held) && order.len() > 0 && text == family_text(
                order[0].0,
                sample_lines(order, held),
            )
    } else {
        true
    }
}

/// `PrometheusBuilder::new().build_recorder()`: a recorder of its own, not the
/// process-wide one, with the builder's defaults and no counter in it.
#[verifier::external_body]
pub(crate) fn new_recorder() -> (recorder: metrics_exporter_prometheus::PrometheusRecorder)
    ensures
        counters(recorder) == no_counters(),
{
    metrics_exporter_prometheus::PrometheusBuilder::new().build_recorder()
}

/// `Recorder::register_counter` on a key of one label, then
/// `Counter::increment` on what it hands out: the counter is created at zero if
/// the recorder did not have it, and `by` is added to it as to a 64-bit word.
/// No other counter changes.
#[verifier::external_body]
pub(crate) fn counter_add(
    recorder: &mut metrics_exporter_prometheus::PrometheusRecorder,
    name: &str,
    label: &str,
    value: &str,
    by: u64,
)
    ensures
        counters(*final(recorder)) == counters(*old(recorder)).insert(
            (name@, label@, value@),
            wrapped_sum(count_of(counters(*old(recorder)), (name@, label@, value@)), by),
        ),
    no_unwind
{
    let labels = vec![metrics::Label::new(label.to_string(), value.to_string())];
    let key = metrics::Key::from_parts(name.to_string(), labels);
    let metadata = metrics::Metadata::new("", metrics::Level::INFO, None);
    recorder.register_counter(&key, &metadata).increment(by);
}

/// `PrometheusHandle::render` on a handle of the recorder: the exposition text
/// of the counters as they stand, in the order in which the recorder's hash
/// map hands them out.
#[verifier::external_body]
pub(crate) fn render_text(recorder: &metrics_exporter_prometheus::PrometheusRecorder) -> (text: String)
    ensures
        renders(counters(*recorder), text@),
{
    recorder.handle().render()
}

} // verus!
