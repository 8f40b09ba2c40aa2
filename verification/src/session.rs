//! The per-target session: applies each incoming command to the span state
//! and span tree, and yields the operator lines, queued file writes and
//! terminate summaries that the surrounding I/O code must carry out.

use vstd::prelude::*;
use vstd::string::*;

use crate::codec::{Project, ProjectView, SpanId};
use crate::file_manager::{
    duration_text, project_rows, project_text, times_row, times_row_text, SpanPayloadView,
};
use crate::metadata::{level_text, target_module, Level, Metadata, MetadataView};
use crate::paths::Paths;
use crate::state::{
    assoc_get, assoc_has, assoc_idx, freed_span_data, insts_alloc, insts_apply_values,
    insts_set_active, insts_set_exit, opt_text, span_state_wf, SpanData, SpanDataView,
    SpanInstance, SpanInstanceView, SpanState,
};
use crate::tree::{find_parent_node, relocate_node_spec, tree_dump, NodeView, SpanTree};
use crate::util::{
    broker_line, broker_line_text, csv_escape, csv_format_single, decimal_digits, join_with,
    u64_to_string, Type,
};
use crate::values::{
    inherited, pairs_view, value_set_text, Value, ValueSet, ValueView,
};

verus! {

/// Per-client configuration, updatable between sessions.
#[derive(Clone, Copy, Debug)]
pub struct Config {
    /// Bound on simultaneously open output files; 2 when absent.
    pub max_fd_count: Option<usize>,
    /// Whether parent values are inherited; on when absent.
    pub inheritance: Option<bool>,
    /// Rate limit for span data lines, in milliseconds; 500 when absent.
    pub refresh_interval: Option<u32>,
}

impl Config {
    /// The file bound, defaulted.
    pub fn get_max_fd_count(&self) -> (r: usize)
        ensures
            r == match self.max_fd_count {
                Some(v) => v,
                None => 2usize,
            },
    {
        match self.max_fd_count {
            Some(v) => v,
            None => 2,
        }
    }

    /// Whether inheritance is on, defaulted.
    pub fn has_inheritance(&self) -> (r: bool)
        ensures
            r == match self.inheritance {
                Some(v) => v,
                None => true,
            },
    {
        match self.inheritance {
            Some(v) => v,
            None => true,
        }
    }

    /// The refresh interval in milliseconds, defaulted.
    pub fn get_refresh_interval(&self) -> (r: u32)
        ensures
            r == match self.refresh_interval {
                Some(v) => v,
                None => 500u32,
            },
    {
        match self.refresh_interval {
            Some(v) => v,
            None => 500,
        }
    }
}

impl Default for Config {
    /// Everything defaulted.
    fn default() -> (r: Config)
        ensures
            r.max_fd_count is None,
            r.inheritance is None,
            r.refresh_interval is None,
    {
        Config { max_fd_count: None, inheritance: None, refresh_interval: None }
    }
}

/// One command as the session consumes it. It mirrors the wire command,
/// but every floating-point value has already been rendered to text.
pub enum Command {
    SpanAlloc { id: SpanId, metadata: Metadata },
    SpanInit {
        span: SpanId,
        parent: Option<SpanId>,
        message: Option<String>,
        value_set: Vec<(String, Value)>,
    },
    SpanFollows { span: SpanId, follows: SpanId },
    SpanValues { span: SpanId, message: Option<String>, value_set: Vec<(String, Value)> },
    Event {
        span: Option<SpanId>,
        metadata: Metadata,
        time: i64,
        message: Option<String>,
        value_set: Vec<(String, Value)>,
    },
    SpanEnter(SpanId),
    SpanExit { span: SpanId, duration: crate::codec::Duration },
    SpanFree(SpanId),
    Project(Project),
    Terminate,
}

/// The mathematical shape of a session command.
pub ghost enum CommandView {
    SpanAlloc { id: SpanId, metadata: MetadataView },
    SpanInit {
        span: SpanId,
        parent: Option<SpanId>,
        message: Option<Seq<char>>,
        value_set: Seq<(Seq<char>, ValueView)>,
    },
    SpanFollows { span: SpanId, follows: SpanId },
    SpanValues {
        span: SpanId,
        message: Option<Seq<char>>,
        value_set: Seq<(Seq<char>, ValueView)>,
    },
    Event {
        span: Option<SpanId>,
        metadata: MetadataView,
        time: i64,
        message: Option<Seq<char>>,
        value_set: Seq<(Seq<char>, ValueView)>,
    },
    SpanEnter(SpanId),
    SpanExit { span: SpanId, duration: crate::codec::Duration },
    SpanFree(SpanId),
    Project(ProjectView),
    Terminate,
}

impl View for Command {
    type V = CommandView;

    open spec fn view(&self) -> CommandView {
        match self {
            Command::SpanAlloc { id, metadata } => CommandView::SpanAlloc {
                id: *id,
                metadata: metadata@,
            },
            Command::SpanInit { span, parent, message, value_set } => CommandView::SpanInit {
                span: *span,
                parent: *parent,
                message: opt_text(*message),
                value_set: pairs_view(value_set@),
            },
            Command::SpanFollows { span, follows } => CommandView::SpanFollows {
                span: *span,
                follows: *follows,
            },
            Command::SpanValues { span, message, value_set } => CommandView::SpanValues {
                span: *span,
                message: opt_text(*message),
                value_set: pairs_view(value_set@),
            },
            Command::Event { span, metadata, time, message, value_set } => CommandView::Event {
                span: *span,
                metadata: metadata@,
                time: *time,
                message: opt_text(*message),
                value_set: pairs_view(value_set@),
            },
            Command::SpanEnter(id) => CommandView::SpanEnter(*id),
            Command::SpanExit { span, duration } => CommandView::SpanExit {
                span: *span,
                duration: *duration,
            },
            Command::SpanFree(id) => CommandView::SpanFree(*id),
            Command::Project(p) => CommandView::Project(p@),
            Command::Terminate => CommandView::Terminate,
        }
    }
}

/// The mutable heart of a session: its span table and span tree.
#[verifier::ext_equal]
pub ghost struct SessionView {
    pub spans: Seq<(u32, SpanDataView)>,
    pub tree: NodeView,
}

/// Everything one command asks of the surrounding I/O code, in order.
#[verifier::ext_equal]
pub ghost struct OutputView {
    pub lines: Seq<Seq<char>>,
    pub writes: Seq<(u32, SpanPayloadView)>,
    pub info_csv: Option<Seq<char>>,
    pub times_csv: Option<Seq<char>>,
    pub tree_txt: Option<Seq<char>>,
    pub continue_run: bool,
}

/// No output at all.
pub open spec fn empty_output() -> OutputView {
    OutputView {
        lines: Seq::empty(),
        writes: Seq::empty(),
        info_csv: None,
        times_csv: None,
        tree_txt: None,
        continue_run: true,
    }
}

/// Fresh span data for a definition.
pub open spec fn fresh_span_data(m: MetadataView) -> SpanDataView {
    SpanDataView {
        metadata: m,
        last_instance: None,
        min: u64::MAX,
        max: 0,
        sum: 0,
        run_count: 0,
        last_update_us: 0,
        history: Seq::empty(),
        instances: Seq::empty(),
    }
}

/// The synthetic root metadata.
pub open spec fn default_metadata_view() -> MetadataView {
    MetadataView {
        name: "root"@,
        target: ""@,
        level: Level::Info,
        module: None,
        file: None,
        line: None,
    }
}

/// A span table after installing a definition: replaced in place when the
/// id exists, appended otherwise.
pub open spec fn spans_alloc(
    spans: Seq<(u32, SpanDataView)>,
    id: u32,
    m: MetadataView,
) -> Seq<(u32, SpanDataView)> {
    if assoc_has(spans, id) {
        spans.update(assoc_idx(spans, id), (id, fresh_span_data(m)))
    } else {
        spans.push((id, fresh_span_data(m)))
    }
}

/// A span table after updating one span's data field-wise.
pub open spec fn spans_update(
    spans: Seq<(u32, SpanDataView)>,
    id: u32,
    d: SpanDataView,
) -> Seq<(u32, SpanDataView)> {
    if assoc_has(spans, id) {
        spans.update(assoc_idx(spans, id), (id, d))
    } else {
        spans
    }
}

/// The name of a span id as path lines show it, with a fallback.
pub open spec fn comp_name(
    spans: Seq<(u32, SpanDataView)>,
    cid: u32,
    dflt: Seq<char>,
) -> Seq<char> {
    if assoc_has(spans, cid) {
        assoc_get(spans, cid).metadata.name
    } else {
        dflt
    }
}

/// The slash-joined names of a root-to-node id chain: ancestors fall back
/// to `root`, the node itself to the empty name.
pub open spec fn path_names_text(spans: Seq<(u32, SpanDataView)>, comps: Seq<u32>) -> Seq<char> {
    join_with(
        Seq::new(
            comps.len(),
            |i: int|
                if i < comps.len() - 1 {
                    comp_name(spans, comps[i], "root"@)
                } else {
                    comp_name(spans, comps[i], ""@)
                },
        ),
        '/',
    )
}

/// The id chain a path line walks: the root-to-node chain when the id
/// hangs in the tree, the id alone otherwise.
pub open spec fn path_components(tree: NodeView, id: u32) -> Seq<u32> {
    match crate::tree::path_in_node(tree, id) {
        Some(p) => p,
        None => seq![id],
    }
}

/// One `SpanPath` operator line.
pub open spec fn span_path_line(
    ci: u64,
    id: u32,
    tree: NodeView,
    spans: Seq<(u32, SpanDataView)>,
) -> Seq<char> {
    broker_line_text(
        Type::SpanPath,
        Some(ci),
        decimal_digits(id as nat) + " "@ + path_names_text(spans, path_components(tree, id)),
    )
}

/// One `SpanAlloc` operator line.
pub open spec fn span_alloc_line(ci: u64, id: u32, m: MetadataView) -> Seq<char> {
    broker_line_text(
        Type::SpanAlloc,
        Some(ci),
        decimal_digits(id as nat) + " "@ + csv_escape(m.name, ' ') + " "@ + level_text(m.level)
            + " "@ + csv_escape(m.target, ' ') + " "@ + csv_escape(
            match m.module {
                Some(p) => p,
                None => "None"@,
            },
            ' ',
        ) + " "@ + csv_escape(
            match m.file {
                Some(f) => f,
                None => "None"@,
            },
            ' ',
        ) + " "@ + (match m.line {
            Some(l) => decimal_digits(l as nat),
            None => "None"@,
        }),
    )
}

/// One `SpanEvent` operator line.
pub open spec fn span_event_line(
    ci: u64,
    id: u32,
    msg: Seq<char>,
    vs: Seq<(Seq<char>, ValueView)>,
) -> Seq<char> {
    broker_line_text(
        Type::SpanEvent,
        Some(ci),
        decimal_digits(id as nat) + " "@ + csv_escape(msg, ' ') + " "@ + csv_escape(
            value_set_text(vs),
            ' ',
        ),
    )
}

/// The average of a span's runs in nanoseconds, zero before any run.
pub open spec fn avg_ns_of(d: SpanDataView) -> int {
    if d.run_count > 0 {
        d.sum as int / d.run_count as int
    } else {
        0
    }
}

/// One `SpanData` operator line.
pub open spec fn span_data_line(ci: u64, id: u32, d: SpanDataView) -> Seq<char> {
    broker_line_text(
        Type::SpanData,
        Some(ci),
        decimal_digits(id as nat) + " "@ + (if d.instances.len() == 0 {
            "D"@
        } else {
            "L"@
        }) + " "@ + (if exists|i: int|
            0 <= i < d.instances.len() && (#[trigger] d.instances[i]).1.active {
            "A"@
        } else {
            "I"@
        }) + " "@ + duration_text(d.min as int) + " "@ + duration_text(d.max as int) + " "@
            + duration_text(avg_ns_of(d)) + " "@ + decimal_digits(d.run_count as nat),
    )
}

/// The composed message of an event: the local date, the target, the
/// module (or `main`), and the message (or the event's name).
pub open spec fn event_message_text(
    date: Seq<char>,
    m: MetadataView,
    message: Option<Seq<char>>,
) -> Seq<char> {
    "("@ + date + ") <"@ + target_module(m).0 + "> "@ + (match target_module(m).1 {
        Some(md) => md,
        None => "main"@,
    }) + ": "@ + (match message {
        Some(msg) => msg,
        None => m.name,
    })
}

/// The rate-limited span data update: when the elapsed time since the
/// span's watermark exceeds the refresh interval, the watermark moves and
/// one `SpanData` line is emitted.
pub open spec fn step_data_update(
    spans: Seq<(u32, SpanDataView)>,
    ci: u64,
    refresh_ms: u32,
    now_us: u64,
    id: u32,
) -> (Seq<(u32, SpanDataView)>, Seq<Seq<char>>) {
    if assoc_has(spans, id) {
        let d = assoc_get(spans, id);
        let elapsed_ms = if now_us >= d.last_update_us {
            (now_us - d.last_update_us) / 1000
        } else {
            0
        };
        if elapsed_ms > refresh_ms {
            (
                spans_update(spans, id, SpanDataView { last_update_us: now_us, ..d }),
                seq![span_data_line(ci, id, d)],
            )
        } else {
            (spans, Seq::empty())
        }
    } else {
        (spans, Seq::empty())
    }
}

/// Any current instance of a span's data, or the last retained one.
pub open spec fn any_instance_of(d: SpanDataView) -> Option<SpanInstanceView> {
    if d.instances.len() > 0 {
        Some(d.instances[0].1)
    } else {
        d.last_instance
    }
}

/// The `times.csv` content: one row per span, in table order.
pub open spec fn times_text(spans: Seq<(u32, SpanDataView)>) -> Seq<char>
    decreases spans.len(),
{
    if spans.len() == 0 {
        Seq::empty()
    } else {
        times_text(spans.drop_last()) + times_row_text(
            spans.last().0,
            spans.last().1.min as int,
            spans.last().1.max as int,
            avg_ns_of(spans.last().1),
        )
    }
}

/// Applies a `SpanAlloc`: the metadata write is queued, the definition
/// line is emitted, the node joins the tree at root level, the span table
/// gains (or replaces) the definition, and its path line is emitted.
pub open spec fn step_span_alloc(s: SessionView, ci: u64, id: SpanId, m: MetadataView) -> (
    SessionView,
    OutputView,
) {
    let spans2 = spans_alloc(s.spans, id.id, m);
    let tree2 = NodeView {
        children: s.tree.children.push(NodeView { id: id.id, name: m.name, children: Seq::empty() }),
        ..s.tree
    };
    (
        SessionView { spans: spans2, tree: tree2 },
        OutputView {
            lines: seq![span_alloc_line(ci, id.id, m), span_path_line(ci, id.id, tree2, spans2)],
            writes: seq![(id.id, SpanPayloadView::Metadata(m))],
            ..empty_output()
        },
    )
}

/// Applies a `SpanInit`: the instance is installed under its span (when
/// the span is known) and, when a parent is given and the relocation
/// succeeds, a fresh path line is emitted.
pub open spec fn step_span_init(
    s: SessionView,
    ci: u64,
    span: SpanId,
    parent: Option<SpanId>,
    message: Option<Seq<char>>,
    vs: Seq<(Seq<char>, ValueView)>,
) -> (SessionView, OutputView) {
    let inst = SpanInstanceView { message, value_set: vs, duration: 0, active: false };
    let spans2 = if assoc_has(s.spans, span.id) {
        spans_update(s.spans, span.id, SpanDataView {
            instances: insts_alloc(assoc_get(s.spans, span.id).instances, span.instance, inst),
            ..assoc_get(s.spans, span.id)
        })
    } else {
        s.spans
    };
    match parent {
        Some(p) => {
            let (t2, ok) = relocate_node_spec(s.tree, span.id, p.id);
            (
                SessionView { spans: spans2, tree: t2 },
                OutputView {
                    lines: if ok {
                        seq![span_path_line(ci, span.id, t2, spans2)]
                    } else {
                        Seq::empty()
                    },
                    ..empty_output()
                },
            )
        },
        None => (SessionView { spans: spans2, tree: s.tree }, empty_output()),
    }
}

/// Applies a `SpanFollows`: the span moves under the parent of `follows`;
/// when `follows` has no parent nothing happens.
pub open spec fn step_span_follows(s: SessionView, ci: u64, span: SpanId, follows: SpanId) -> (
    SessionView,
    OutputView,
) {
    match find_parent_node(s.tree, follows.id) {
        Some(p) => {
            let (t2, ok) = relocate_node_spec(s.tree, span.id, p);
            (
                SessionView { spans: s.spans, tree: t2 },
                OutputView {
                    lines: if ok {
                        seq![span_path_line(ci, span.id, t2, s.spans)]
                    } else {
                        Seq::empty()
                    },
                    ..empty_output()
                },
            )
        },
        None => (s, empty_output()),
    }
}

/// Applies a `SpanValues`: the instance's value set is extended and its
/// message possibly replaced.
pub open spec fn step_span_values(
    s: SessionView,
    span: SpanId,
    message: Option<Seq<char>>,
    vs: Seq<(Seq<char>, ValueView)>,
) -> (SessionView, OutputView) {
    let spans2 = if assoc_has(s.spans, span.id) {
        spans_update(s.spans, span.id, SpanDataView {
            instances: insts_apply_values(
                assoc_get(s.spans, span.id).instances,
                span.instance,
                message,
                vs,
            ),
            ..assoc_get(s.spans, span.id)
        })
    } else {
        s.spans
    };
    (SessionView { spans: spans2, tree: s.tree }, empty_output())
}

/// Applies an `Event`: an event without a span goes to the synthetic root
/// span 0, which is created with default metadata on first use; under
/// inheritance the enclosing instance's values, keyed with the span's
/// name, follow the event's own values; the event row is queued and its
/// line emitted.
pub open spec fn step_event(
    s: SessionView,
    ci: u64,
    inheritance: bool,
    span_opt: Option<SpanId>,
    m: MetadataView,
    date: Seq<char>,
    message: Option<Seq<char>>,
    vs: Seq<(Seq<char>, ValueView)>,
) -> (SessionView, OutputView) {
    let sid = match span_opt {
        Some(x) => x,
        None => SpanId { id: 0, instance: 0 },
    };
    let spans1 = if sid.id == 0 && !assoc_has(s.spans, 0) {
        s.spans.push((0u32, fresh_span_data(default_metadata_view())))
    } else {
        s.spans
    };
    let msg = event_message_text(date, m, message);
    let vs2 = if inheritance && assoc_has(spans1, sid.id) && assoc_has(
        assoc_get(spans1, sid.id).instances,
        sid.instance,
    ) {
        vs + inherited(
            assoc_get(spans1, sid.id).metadata.name,
            assoc_get(assoc_get(spans1, sid.id).instances, sid.instance).value_set,
        )
    } else {
        vs
    };
    (
        SessionView { spans: spans1, tree: s.tree },
        OutputView {
            lines: seq![span_event_line(ci, sid.id, msg, vs2)],
            writes: seq![(sid.id, SpanPayloadView::Event(sid.instance, msg, vs2))],
            ..empty_output()
        },
    )
}

/// Applies a `SpanEnter`: the instance becomes active, then the rate
/// limited data line may follow.
pub open spec fn step_span_enter(
    s: SessionView,
    ci: u64,
    refresh_ms: u32,
    now_us: u64,
    id: SpanId,
) -> (SessionView, OutputView) {
    let spans1 = if assoc_has(s.spans, id.id) {
        spans_update(s.spans, id.id, SpanDataView {
            instances: insts_set_active(assoc_get(s.spans, id.id).instances, id.instance, true),
            ..assoc_get(s.spans, id.id)
        })
    } else {
        s.spans
    };
    let (spans2, lines) = step_data_update(spans1, ci, refresh_ms, now_us, id.id);
    (SessionView { spans: spans2, tree: s.tree }, OutputView { lines, ..empty_output() })
}

/// Applies a `SpanExit`: the instance goes inactive and records its
/// duration, then the rate limited data line may follow.
pub open spec fn step_span_exit(
    s: SessionView,
    ci: u64,
    refresh_ms: u32,
    now_us: u64,
    span: SpanId,
    duration: crate::codec::Duration,
) -> (SessionView, OutputView) {
    let ns = crate::codec::duration_ns(duration) as u64;
    let spans1 = if assoc_has(s.spans, span.id) {
        spans_update(s.spans, span.id, SpanDataView {
            instances: insts_set_exit(
                assoc_get(s.spans, span.id).instances,
                span.instance,
                ns,
            ),
            ..assoc_get(s.spans, span.id)
        })
    } else {
        s.spans
    };
    let (spans2, lines) = step_data_update(spans1, ci, refresh_ms, now_us, span.id);
    (SessionView { spans: spans2, tree: s.tree }, OutputView { lines, ..empty_output() })
}

/// Applies a `SpanFree`: the instance is freed into the aggregates; under
/// inheritance the parent span's current values, keyed with the parent's
/// name, are appended; the run row is queued; the rate limited data line
/// may follow.
pub open spec fn step_span_free(
    s: SessionView,
    ci: u64,
    inheritance: bool,
    refresh_ms: u32,
    now_us: u64,
    id: SpanId,
) -> (SessionView, OutputView) {
    if assoc_has(s.spans, id.id) && assoc_has(
        assoc_get(s.spans, id.id).instances,
        id.instance,
    ) {
        let inst = assoc_get(assoc_get(s.spans, id.id).instances, id.instance);
        let spans1 = spans_update(
            s.spans,
            id.id,
            freed_span_data(assoc_get(s.spans, id.id), id.instance),
        );
        let vs2 = if inheritance {
            match find_parent_node(s.tree, id.id) {
                Some(p) => {
                    if assoc_has(spans1, p) && any_instance_of(assoc_get(spans1, p)) is Some {
                        inst.value_set + inherited(
                            assoc_get(spans1, p).metadata.name,
                            any_instance_of(assoc_get(spans1, p))->Some_0.value_set,
                        )
                    } else {
                        inst.value_set
                    }
                },
                None => inst.value_set,
            }
        } else {
            inst.value_set
        };
        let inst2 = SpanInstanceView { value_set: vs2, ..inst };
        let (spans2, lines) = step_data_update(spans1, ci, refresh_ms, now_us, id.id);
        (
            SessionView { spans: spans2, tree: s.tree },
            OutputView {
                lines,
                writes: seq![(id.id, SpanPayloadView::Run(id.instance, inst2))],
                ..empty_output()
            },
        )
    } else {
        let (spans2, lines) = step_data_update(s.spans, ci, refresh_ms, now_us, id.id);
        (SessionView { spans: spans2, tree: s.tree }, OutputView { lines, ..empty_output() })
    }
}

/// Applies a `Terminate`: the session emits its two summaries and asks
/// the surrounding loop to stop.
pub open spec fn step_terminate(s: SessionView) -> (SessionView, OutputView) {
    (
        s,
        OutputView {
            times_csv: Some(times_text(s.spans)),
            tree_txt: Some(tree_dump(s.tree)),
            continue_run: false,
            ..empty_output()
        },
    )
}

/// One command applied to a session: the new state and everything the
/// surrounding I/O code must carry out. The `date` parameter is the local
/// rendering of an event's timestamp; commands other than `Event` ignore
/// it.
pub open spec fn session_step(
    s: SessionView,
    ci: u64,
    inheritance: bool,
    refresh_ms: u32,
    now_us: u64,
    date: Seq<char>,
    cmd: CommandView,
) -> (SessionView, OutputView) {
    match cmd {
        CommandView::SpanAlloc { id, metadata } => step_span_alloc(s, ci, id, metadata),
        CommandView::SpanInit { span, parent, message, value_set } => step_span_init(
            s,
            ci,
            span,
            parent,
            message,
            value_set,
        ),
        CommandView::SpanFollows { span, follows } => step_span_follows(s, ci, span, follows),
        CommandView::SpanValues { span, message, value_set } => step_span_values(
            s,
            span,
            message,
            value_set,
        ),
        CommandView::Event { span, metadata, time, message, value_set } => step_event(
            s,
            ci,
            inheritance,
            span,
            metadata,
            date,
            message,
            value_set,
        ),
        CommandView::SpanEnter(id) => step_span_enter(s, ci, refresh_ms, now_us, id),
        CommandView::SpanExit { span, duration } => step_span_exit(
            s,
            ci,
            refresh_ms,
            now_us,
            span,
            duration,
        ),
        CommandView::SpanFree(id) => step_span_free(s, ci, inheritance, refresh_ms, now_us, id),
        CommandView::Project(p) => (
            s,
            OutputView { info_csv: Some(project_text(p)), ..empty_output() },
        ),
        CommandView::Terminate => step_terminate(s),
    }
}

/// Handling `SpanFollows { span, follows }` is exactly relocating `span`
/// under the parent of `follows`: when the parent search succeeds the tree
/// becomes the relocation's result, and when it finds nothing the whole
/// command is a no-op.
pub proof fn lemma_span_follows_is_relocate(s: SessionView, ci: u64, span: SpanId, follows: SpanId)
    ensures
        ({
            let so = step_span_follows(s, ci, span, follows);
            match find_parent_node(s.tree, follows.id) {
                Some(p) => so.0.tree == relocate_node_spec(s.tree, span.id, p).0 && so.0.spans
                    == s.spans,
                None => so.0 == s && so.1 == empty_output(),
            }
        }),
{
    match find_parent_node(s.tree, follows.id) {
        Some(p) => {},
        None => {
            let so = step_span_follows(s, ci, span, follows);
            assert(so.0 =~~= s);
        },
    }
}

/// An event with no enclosing span and no prior definition of span id 0
/// creates the synthetic root span: afterwards span 0 exists, carries the
/// default metadata (`root`, level `Info`, nothing else) and has had no
/// instances or runs.
pub proof fn lemma_root_span_auto_created(
    s: SessionView,
    ci: u64,
    inheritance: bool,
    m: MetadataView,
    date: Seq<char>,
    message: Option<Seq<char>>,
    vs: Seq<(Seq<char>, ValueView)>,
)
    requires
        !assoc_has(s.spans, 0),
    ensures
        ({
            let so = step_event(s, ci, inheritance, None, m, date, message, vs);
            &&& assoc_has(so.0.spans, 0)
            &&& assoc_get(so.0.spans, 0) == fresh_span_data(default_metadata_view())
            &&& so.1.writes.len() == 1
            &&& so.1.writes[0].0 == 0
        }),
{
    let so = step_event(s, ci, inheritance, None, m, date, message, vs);
    let spans1 = s.spans.push((0u32, fresh_span_data(default_metadata_view())));
    assert(spans1[s.spans.len() as int].0 == 0);
    assert(assoc_has(spans1, 0));
    let w = assoc_idx(spans1, 0);
    assert(0 <= w < spans1.len() && spans1[w].0 == 0);
    if w < s.spans.len() {
        assert(spans1[w] == s.spans[w]);
        assert(false);
    }
    assert(assoc_get(spans1, 0) == fresh_span_data(default_metadata_view()));
}

/// The view of a queued write list.
pub open spec fn writes_view(data: Seq<(u32, crate::file_manager::Span)>) -> Seq<(
    u32,
    SpanPayloadView,
)> {
    data.map_values(|p: (u32, crate::file_manager::Span)| (p.0, p.1@))
}

/// Everything one command asks of the surrounding I/O code, in order:
/// operator lines to print, span writes to enqueue, the one-shot
/// `info.csv` content, and the terminate summaries.
pub struct Output {
    /// Operator-visible lines, in order.
    pub lines: Vec<String>,
    /// Span writes for the file-manager worker, in order.
    pub writes: Vec<(u32, crate::file_manager::Span)>,
    /// The `info.csv` content, on a `Project` command.
    pub info_csv: Option<String>,
    /// The `times.csv` content, on `Terminate`.
    pub times_csv: Option<String>,
    /// The `tree.txt` content, on `Terminate`.
    pub tree_txt: Option<String>,
    /// Cleared by `Terminate`: the read loop should stop.
    pub continue_run: bool,
}

impl View for Output {
    type V = OutputView;

    open spec fn view(&self) -> OutputView {
        OutputView {
            lines: crate::util::strings_view(self.lines@),
            writes: writes_view(self.writes@),
            info_csv: opt_text(self.info_csv),
            times_csv: opt_text(self.times_csv),
            tree_txt: opt_text(self.tree_txt),
            continue_run: self.continue_run,
        }
    }
}

impl Output {
    /// An output that asks for nothing.
    fn empty() -> (r: Output)
        ensures
            r@ == empty_output(),
            r.lines@ == Seq::<String>::empty(),
            r.writes@ == Seq::<(u32, crate::file_manager::Span)>::empty(),
            r.info_csv is None,
            r.times_csv is None,
            r.tree_txt is None,
            r.continue_run == true,
    {
        let r = Output {
            lines: Vec::new(),
            writes: Vec::new(),
            info_csv: None,
            times_csv: None,
            tree_txt: None,
            continue_run: true,
        };
        proof {
            assert(r@ =~~= empty_output());
        }
        r
    }
}

/// Relies on chrono for the local-timezone rendering of a unix timestamp
/// as `weekday month day hh:mm:ss am/pm`; out-of-range timestamps fall
/// back to the current local time. The result depends on the machine's
/// time zone, so nothing further is assumed of it.
#[verifier::external_body]
fn format_event_date(time: i64) -> String {
    match chrono::DateTime::from_timestamp(time, 0) {
        Some(utc) => utc.with_timezone(&chrono::Local).format("%a %b %d %I:%M:%S %p").to_string(),
        None => chrono::Local::now().format("%a %b %d %I:%M:%S %p").to_string(),
    }
}

/// One per-target session: the span table, the span tree, the session's
/// directory paths and configuration.
pub struct Session {
    paths: Paths,
    spans: SpanState,
    tree: SpanTree,
    config: Config,
    client_index: u64,
}

impl Session {
    /// The mutable heart of the session.
    pub closed spec fn view(&self) -> SessionView {
        SessionView { spans: self.spans@, tree: self.tree@ }
    }

    /// The client index this session belongs to.
    pub closed spec fn client(&self) -> u64 {
        self.client_index
    }

    /// The configuration the session runs under.
    pub closed spec fn cfg(&self) -> Config {
        self.config
    }

    /// A fresh session for one client: empty span table, only the root in
    /// the tree. The caller creates the directories of `get_paths()`.
    pub fn new(client_index: u64, config: Config) -> (r: Session)
        ensures
            r@.spans == Seq::<(u32, SpanDataView)>::empty(),
            r@.tree == (NodeView { id: 0, name: "root"@, children: Seq::empty() }),
            span_state_wf(r@.spans),
            r.client() == client_index,
            r.cfg() == config,
    {
        Session {
            paths: Paths::new(client_index),
            spans: SpanState::new(),
            tree: SpanTree::new(),
            config,
            client_index,
        }
    }

    /// The directory paths of this session.
    pub fn get_paths(&self) -> &Paths {
        &self.paths
    }

    /// The session's configuration.
    pub fn get_config(&self) -> (r: Config)
        ensures
            r == self.cfg(),
    {
        self.config
    }

    /// Builds the `SpanPath` line of a span: its root-to-node id chain,
    /// each id shown under its current name.
    fn path_line(&self, id: u32) -> (r: String)
        requires
            span_state_wf(self@.spans),
        ensures
            r@ == span_path_line(self.client(), id, self@.tree, self@.spans),
    {
        let comps: Vec<u32> = match self.tree.path_to(id) {
            Some(p) => p,
            None => {
                let mut single: Vec<u32> = Vec::new();
                single.push(id);
                proof {
                    assert(single@ =~= seq![id]);
                }
                single
            },
        };
        let ghost gcomps = path_components(self@.tree, id);
        proof {
            assert(comps@ == gcomps);
        }
        let n = comps.len();
        let ghost f = |i: int|
            if i < gcomps.len() - 1 {
                comp_name(self@.spans, gcomps[i], "root"@)
            } else {
                comp_name(self@.spans, gcomps[i], ""@)
            };
        let mut joined = String::new();
        let mut i: usize = 0;
        proof {
            assert(Seq::new(gcomps.len(), f).take(0) =~= Seq::<Seq<char>>::empty());
        }
        while i < n
            invariant
                i <= n,
                n == comps@.len(),
                comps@ == gcomps,
                span_state_wf(self@.spans),
                f == (|k: int|
                    if k < gcomps.len() - 1 {
                        comp_name(self@.spans, gcomps[k], "root"@)
                    } else {
                        comp_name(self@.spans, gcomps[k], ""@)
                    }),
                joined@ == join_with(Seq::new(gcomps.len(), f).take(i as int), '/'),
            decreases n - i,
        {
            if i > 0 {
                joined.append("/");
                proof {
                    reveal_strlit("/");
                    assert("/"@ =~= seq!['/']);
                }
            }
            let name: String = if i + 1 < n {
                match self.spans.get_data(comps[i]) {
                    Some(d) => d.metadata.name.clone(),
                    None => String::from_str("root"),
                }
            } else {
                match self.spans.get_data(comps[i]) {
                    Some(d) => d.metadata.name.clone(),
                    None => String::from_str(""),
                }
            };
            proof {
                assert(name@ == f(i as int));
            }
            joined.append(name.as_str());
            proof {
                let full = Seq::new(gcomps.len(), f);
                assert(full.take(i as int + 1).drop_last() =~= full.take(i as int));
                assert(full.take(i as int + 1).last() == f(i as int));
                assert(joined@ =~= join_with(full.take(i as int + 1), '/'));
            }
            i += 1;
        }
        proof {
            assert(Seq::new(gcomps.len(), f).take(n as int) =~= Seq::new(gcomps.len(), f));
        }
        let d = u64_to_string(id as u64);
        let mut payload = d;
        payload.append(" ");
        payload.append(joined.as_str());
        proof {
            assert(payload@ == decimal_digits(id as nat) + " "@ + path_names_text(
                self@.spans,
                gcomps,
            ));
        }
        broker_line(Type::SpanPath, Some(self.client_index), payload.as_str())
    }

    /// Builds the rate limited `SpanData` line and moves the watermark,
    /// when the refresh interval has elapsed for this span.
    fn maybe_data_update(&mut self, id: u32, now_us: u64) -> (r: Option<String>)
        requires
            span_state_wf(old(self)@.spans),
        ensures
            span_state_wf(final(self)@.spans),
            final(self)@.tree == old(self)@.tree,
            final(self).client() == old(self).client(),
            final(self).cfg() == old(self).cfg(),
            ({
                let (sp2, lns) = step_data_update(
                    old(self)@.spans,
                    old(self).client(),
                    match old(self).cfg().refresh_interval {
                        Some(v) => v,
                        None => 500u32,
                    },
                    now_us,
                    id,
                );
                final(self)@.spans == sp2 && match r {
                    Some(l) => lns == seq![l@],
                    None => lns == Seq::<Seq<char>>::empty(),
                }
            }),
    {
        let refresh = self.config.get_refresh_interval();
        let line: Option<String> = match self.spans.get_data(id) {
            Some(d) => {
                let last = d.last_update_us;
                let elapsed_ms: u64 = if now_us >= last {
                    (now_us - last) / 1000
                } else {
                    0
                };
                if elapsed_ms > refresh as u64 {
                    Some(data_line_exec(self.client_index, id, d))
                } else {
                    None
                }
            },
            None => None,
        };
        match line {
            Some(l) => {
                self.spans.set_last_update(id, now_us);
                Some(l)
            },
            None => None,
        }
    }
}

/// The inheritance switch of a configuration, defaulted.
pub open spec fn cfg_inherit(c: Config) -> bool {
    match c.inheritance {
        Some(v) => v,
        None => true,
    }
}

/// The refresh interval of a configuration in milliseconds, defaulted.
pub open spec fn cfg_refresh(c: Config) -> u32 {
    match c.refresh_interval {
        Some(v) => v,
        None => 500u32,
    }
}

impl Session {
    /// Applies one incoming command: mutates the span table and tree and
    /// returns everything the surrounding I/O code must do, in order. The
    /// `now_us` argument is the caller's monotonic clock in microseconds,
    /// used only for the rate limited data lines.
    pub fn handle_command(&mut self, cmd: Command, now_us: u64) -> (r: Output)
        requires
            span_state_wf(old(self)@.spans),
        ensures
            span_state_wf(final(self)@.spans),
            final(self).client() == old(self).client(),
            final(self).cfg() == old(self).cfg(),
            exists|date: Seq<char>|
                {
                    let so = #[trigger] session_step(
                        old(self)@,
                        old(self).client(),
                        cfg_inherit(old(self).cfg()),
                        cfg_refresh(old(self).cfg()),
                        now_us,
                        date,
                        cmd@,
                    );
                    final(self)@ == so.0 && r@ == so.1
                },
    {
        let ghost pre = self@;
        let ghost ci = self.client();
        let ghost inh = cfg_inherit(self.cfg());
        let ghost rfr = cfg_refresh(self.cfg());
        let ghost gcmd = cmd@;
        match cmd {
            Command::SpanAlloc { id, metadata } => {
                let r = self.do_span_alloc(id, metadata);
                proof {
                    let so = session_step(pre, ci, inh, rfr, now_us, Seq::empty(), gcmd);
                    assert(self@ == so.0 && r@ == so.1);
                }
                r
            },
            Command::SpanInit { span, parent, message, value_set } => {
                let r = self.do_span_init(span, parent, message, value_set);
                proof {
                    let so = session_step(pre, ci, inh, rfr, now_us, Seq::empty(), gcmd);
                    assert(self@ == so.0 && r@ == so.1);
                }
                r
            },
            Command::SpanFollows { span, follows } => {
                let r = self.do_span_follows(span, follows);
                proof {
                    let so = session_step(pre, ci, inh, rfr, now_us, Seq::empty(), gcmd);
                    assert(self@ == so.0 && r@ == so.1);
                }
                r
            },
            Command::SpanValues { span, message, value_set } => {
                let r = self.do_span_values(span, message, value_set);
                proof {
                    let so = session_step(pre, ci, inh, rfr, now_us, Seq::empty(), gcmd);
                    assert(self@ == so.0 && r@ == so.1);
                }
                r
            },
            Command::Event { span, metadata, time, message, value_set } => {
                let (r, date) = self.do_event(span, metadata, time, message, value_set);
                proof {
                    let so = session_step(pre, ci, inh, rfr, now_us, date@, gcmd);
                    assert(self@ == so.0 && r@ == so.1);
                }
                r
            },
            Command::SpanEnter(id) => {
                let r = self.do_span_enter(id, now_us);
                proof {
                    let so = session_step(pre, ci, inh, rfr, now_us, Seq::empty(), gcmd);
                    assert(self@ == so.0 && r@ == so.1);
                }
                r
            },
            Command::SpanExit { span, duration } => {
                let r = self.do_span_exit(span, duration, now_us);
                proof {
                    let so = session_step(pre, ci, inh, rfr, now_us, Seq::empty(), gcmd);
                    assert(self@ == so.0 && r@ == so.1);
                }
                r
            },
            Command::SpanFree(id) => {
                let r = self.do_span_free(id, now_us);
                proof {
                    let so = session_step(pre, ci, inh, rfr, now_us, Seq::empty(), gcmd);
                    assert(self@ == so.0 && r@ == so.1);
                }
                r
            },
            Command::Project(p) => {
                let mut out = Output::empty();
                out.info_csv = Some(project_rows(&p));
                proof {
                    let so = session_step(pre, ci, inh, rfr, now_us, Seq::empty(), gcmd);
                    assert(out@ =~~= so.1);
                    assert(self@ == so.0 && out@ == so.1);
                }
                out
            },
            Command::Terminate => {
                let r = self.do_terminate();
                proof {
                    let so = session_step(pre, ci, inh, rfr, now_us, Seq::empty(), gcmd);
                    assert(self@ == so.0 && r@ == so.1);
                }
                r
            },
        }
    }

    fn do_span_alloc(&mut self, id: SpanId, metadata: Metadata) -> (r: Output)
        requires
            span_state_wf(old(self)@.spans),
        ensures
            span_state_wf(final(self)@.spans),
            final(self).client() == old(self).client(),
            final(self).cfg() == old(self).cfg(),
            ({
                let so = step_span_alloc(old(self)@, old(self).client(), id, metadata@);
                final(self)@ == so.0 && r@ == so.1
            }),
    {
        let ghost gm = metadata@;
        let mut out = Output::empty();
        out.writes.push(
            (id.id, crate::file_manager::Span::Metadata(metadata.duplicate())),
        );
        out.lines.push(span_alloc_line_exec(self.client_index, id.id, &metadata));
        let node = crate::tree::Span::with_metadata(id.id, &metadata);
        self.tree.add_node(node);
        self.spans.alloc_span(id.id, metadata);
        let pl = self.path_line(id.id);
        out.lines.push(pl);
        proof {
            let so = step_span_alloc(old(self)@, old(self).client(), id, gm);
            assert(self@.spans =~~= so.0.spans);
            assert(self@.tree =~~= so.0.tree);
            assert(self@ =~~= so.0);
            assert(out.lines@.len() == 2);
            assert(out.lines@[0]@ == so.1.lines[0]);
            assert(out.lines@[1]@ == so.1.lines[1]);
            assert(out@.lines =~= so.1.lines);
            assert(out@.writes =~= so.1.writes);
            assert(out@ =~~= so.1);
        }
        out
    }

    fn do_span_init(
        &mut self,
        span: SpanId,
        parent: Option<SpanId>,
        message: Option<String>,
        value_set: Vec<(String, Value)>,
    ) -> (r: Output)
        requires
            span_state_wf(old(self)@.spans),
        ensures
            span_state_wf(final(self)@.spans),
            final(self).client() == old(self).client(),
            final(self).cfg() == old(self).cfg(),
            ({
                let so = step_span_init(
                    old(self)@,
                    old(self).client(),
                    span,
                    parent,
                    opt_text(message),
                    pairs_view(value_set@),
                );
                final(self)@ == so.0 && r@ == so.1
            }),
    {
        let ghost gmsg = opt_text(message);
        let ghost gvs = pairs_view(value_set@);
        let mut out = Output::empty();
        let inst = SpanInstance::new(message, ValueSet::from_pairs(value_set));
        proof {
            assert(inst@ == (SpanInstanceView {
                message: gmsg,
                value_set: gvs,
                duration: 0,
                active: false,
            }));
        }
        self.spans.alloc_instance(&span, inst);
        match parent {
            Some(p) => {
                if self.tree.relocate_node(span.id, p.id) {
                    let pl = self.path_line(span.id);
                    out.lines.push(pl);
                }
            },
            None => {},
        }
        proof {
            let so = step_span_init(old(self)@, old(self).client(), span, parent, gmsg, gvs);
            assert(self@ =~~= so.0);
            assert(out@.lines =~= so.1.lines);
            assert(out@ =~~= so.1);
        }
        out
    }

    fn do_span_follows(&mut self, span: SpanId, follows: SpanId) -> (r: Output)
        requires
            span_state_wf(old(self)@.spans),
        ensures
            span_state_wf(final(self)@.spans),
            final(self).client() == old(self).client(),
            final(self).cfg() == old(self).cfg(),
            ({
                let so = step_span_follows(old(self)@, old(self).client(), span, follows);
                final(self)@ == so.0 && r@ == so.1
            }),
    {
        let mut out = Output::empty();
        match self.tree.find_parent(follows.id) {
            Some(p) => {
                if self.tree.relocate_node(span.id, p) {
                    let pl = self.path_line(span.id);
                    out.lines.push(pl);
                }
            },
            None => {},
        }
        proof {
            let so = step_span_follows(old(self)@, old(self).client(), span, follows);
            assert(self@ =~~= so.0);
            assert(out@.lines =~= so.1.lines);
            assert(out@ =~~= so.1);
        }
        out
    }

    fn do_span_values(
        &mut self,
        span: SpanId,
        message: Option<String>,
        value_set: Vec<(String, Value)>,
    ) -> (r: Output)
        requires
            span_state_wf(old(self)@.spans),
        ensures
            span_state_wf(final(self)@.spans),
            final(self).client() == old(self).client(),
            final(self).cfg() == old(self).cfg(),
            ({
                let so = step_span_values(
                    old(self)@,
                    span,
                    opt_text(message),
                    pairs_view(value_set@),
                );
                final(self)@ == so.0 && r@ == so.1
            }),
    {
        let ghost gmsg = opt_text(message);
        let ghost gvs = pairs_view(value_set@);
        self.spans.apply_values(&span, message, value_set);
        let out = Output::empty();
        proof {
            let so = step_span_values(old(self)@, span, gmsg, gvs);
            assert(self@ =~~= so.0);
            assert(out@ =~~= so.1);
        }
        out
    }

    fn do_span_enter(&mut self, id: SpanId, now_us: u64) -> (r: Output)
        requires
            span_state_wf(old(self)@.spans),
        ensures
            span_state_wf(final(self)@.spans),
            final(self).client() == old(self).client(),
            final(self).cfg() == old(self).cfg(),
            ({
                let so = step_span_enter(
                    old(self)@,
                    old(self).client(),
                    cfg_refresh(old(self).cfg()),
                    now_us,
                    id,
                );
                final(self)@ == so.0 && r@ == so.1
            }),
    {
        let mut out = Output::empty();
        self.spans.set_active(&id, true);
        match self.maybe_data_update(id.id, now_us) {
            Some(l) => out.lines.push(l),
            None => {},
        }
        proof {
            let so = step_span_enter(
                old(self)@,
                old(self).client(),
                cfg_refresh(old(self).cfg()),
                now_us,
                id,
            );
            assert(self@ =~~= so.0);
            assert(out@.lines =~= so.1.lines);
            assert(out@ =~~= so.1);
        }
        out
    }

    fn do_span_exit(&mut self, span: SpanId, duration: crate::codec::Duration, now_us: u64) -> (r:
        Output)
        requires
            span_state_wf(old(self)@.spans),
        ensures
            span_state_wf(final(self)@.spans),
            final(self).client() == old(self).client(),
            final(self).cfg() == old(self).cfg(),
            ({
                let so = step_span_exit(
                    old(self)@,
                    old(self).client(),
                    cfg_refresh(old(self).cfg()),
                    now_us,
                    span,
                    duration,
                );
                final(self)@ == so.0 && r@ == so.1
            }),
    {
        let mut out = Output::empty();
        let ns = duration.as_nanos();
        self.spans.set_exit(&span, ns);
        match self.maybe_data_update(span.id, now_us) {
            Some(l) => out.lines.push(l),
            None => {},
        }
        proof {
            let so = step_span_exit(
                old(self)@,
                old(self).client(),
                cfg_refresh(old(self).cfg()),
                now_us,
                span,
                duration,
            );
            assert(self@ =~~= so.0);
            assert(out@.lines =~= so.1.lines);
            assert(out@ =~~= so.1);
        }
        out
    }

    fn do_span_free(&mut self, id: SpanId, now_us: u64) -> (r: Output)
        requires
            span_state_wf(old(self)@.spans),
        ensures
            span_state_wf(final(self)@.spans),
            final(self).client() == old(self).client(),
            final(self).cfg() == old(self).cfg(),
            ({
                let so = step_span_free(
                    old(self)@,
                    old(self).client(),
                    cfg_inherit(old(self).cfg()),
                    cfg_refresh(old(self).cfg()),
                    now_us,
                    id,
                );
                final(self)@ == so.0 && r@ == so.1
            }),
    {
        let mut out = Output::empty();
        match self.spans.free_instance(&id) {
            Some(inst) => {
                let mut freed = inst;
                if self.config.has_inheritance() {
                    match self.tree.find_parent(id.id) {
                        Some(parent) => {
                            match self.spans.get_data(parent) {
                                Some(pd) => {
                                    match self.spans.get_any_instance(parent) {
                                        Some(pinst) => {
                                            let pairs = pinst.value_set.duplicate().into_iter();
                                            freed.value_set.inherit_from(
                                                pd.metadata.name.as_str(),
                                                pairs,
                                            );
                                        },
                                        None => {},
                                    }
                                },
                                None => {},
                            }
                        },
                        None => {},
                    }
                }
                out.writes.push((id.id, crate::file_manager::Span::Run(id.instance, freed)));
            },
            None => {},
        }
        match self.maybe_data_update(id.id, now_us) {
            Some(l) => out.lines.push(l),
            None => {},
        }
        proof {
            let so = step_span_free(
                old(self)@,
                old(self).client(),
                cfg_inherit(old(self).cfg()),
                cfg_refresh(old(self).cfg()),
                now_us,
                id,
            );
            assert(self@ =~~= so.0);
            assert(out@.lines =~= so.1.lines);
            assert(out@.writes =~~= so.1.writes);
            assert(out@ =~~= so.1);
        }
        out
    }

    fn do_event(
        &mut self,
        span: Option<SpanId>,
        metadata: Metadata,
        time: i64,
        message: Option<String>,
        value_set: Vec<(String, Value)>,
    ) -> (r: (Output, String))
        requires
            span_state_wf(old(self)@.spans),
        ensures
            span_state_wf(final(self)@.spans),
            final(self).client() == old(self).client(),
            final(self).cfg() == old(self).cfg(),
            ({
                let so = step_event(
                    old(self)@,
                    old(self).client(),
                    cfg_inherit(old(self).cfg()),
                    span,
                    metadata@,
                    r.1@,
                    opt_text(message),
                    pairs_view(value_set@),
                );
                final(self)@ == so.0 && r.0@ == so.1
            }),
    {
        let ghost gm = metadata@;
        let ghost gmsg = opt_text(message);
        let ghost gvs = pairs_view(value_set@);
        let mut out = Output::empty();
        let date = format_event_date(time);
        let sid = match span {
            Some(x) => x,
            None => SpanId { id: 0, instance: 0 },
        };
        if sid.id == 0 {
            let missing = match self.spans.get_data(0) {
                Some(_) => false,
                None => true,
            };
            if missing {
                let dm = Metadata::default();
                proof {
                    assert(dm@ == default_metadata_view());
                }
                self.spans.alloc_span(0, dm);
            }
        }
        let ghost spans1 = self@.spans;
        let mut msg = String::from_str("(");
        msg.append(date.as_str());
        msg.append(") <");
        let (target, module) = metadata.get_target_module();
        msg.append(target);
        msg.append("> ");
        match module {
            Some(md) => msg.append(md),
            None => msg.append("main"),
        }
        msg.append(": ");
        match &message {
            Some(mm) => msg.append(mm.as_str()),
            None => msg.append(metadata.name.as_str()),
        }
        proof {
            assert(msg@ == event_message_text(date@, gm, gmsg));
        }
        let mut vs = ValueSet::from_pairs(value_set);
        if self.config.has_inheritance() {
            match self.spans.get_data(sid.id) {
                Some(d) => {
                    match self.spans.get_instance(&sid) {
                        Some(inst) => {
                            let pairs = inst.value_set.duplicate().into_iter();
                            vs.inherit_from(d.metadata.name.as_str(), pairs);
                        },
                        None => {},
                    }
                },
                None => {},
            }
        }
        out.writes.push(
            (sid.id, crate::file_manager::Span::Event(sid.instance, msg.clone(), vs.duplicate())),
        );
        let el = event_line_exec(self.client_index, sid.id, msg.as_str(), &vs);
        out.lines.push(el);
        proof {
            let so = step_event(
                old(self)@,
                old(self).client(),
                cfg_inherit(old(self).cfg()),
                span,
                gm,
                date@,
                gmsg,
                gvs,
            );
            assert(self@.spans =~~= so.0.spans);
            assert(self@ =~~= so.0);
            assert(out@.lines =~= so.1.lines);
            assert(out@.writes =~~= so.1.writes);
            assert(out@ =~~= so.1);
        }
        (out, date)
    }

    fn do_terminate(&mut self) -> (r: Output)
        requires
            span_state_wf(old(self)@.spans),
        ensures
            span_state_wf(final(self)@.spans),
            final(self).client() == old(self).client(),
            final(self).cfg() == old(self).cfg(),
            ({
                let so = step_terminate(old(self)@);
                final(self)@ == so.0 && r@ == so.1
            }),
    {
        let mut out = Output::empty();
        let n = self.spans.len();
        let mut content = String::new();
        let mut i: usize = 0;
        proof {
            assert(self@.spans.take(0) =~= Seq::<(u32, SpanDataView)>::empty());
        }
        while i < n
            invariant
                i <= n,
                n == self@.spans.len(),
                span_state_wf(self@.spans),
                content@ == times_text(self@.spans.take(i as int)),
            decreases n - i,
        {
            let (sid, d) = self.spans.entry(i);
            let avg: u64 = if d.run_count > 0 {
                proof {
                    assert(crate::state::span_data_wf(self@.spans[i as int].1));
                    crate::state::lemma_avg_fits(d@);
                }
                (d.sum / (d.run_count as u128)) as u64
            } else {
                0
            };
            let row = times_row(sid, d.min, d.max, avg);
            content.append(row.as_str());
            proof {
                assert(self@.spans.take(i as int + 1).drop_last() =~= self@.spans.take(i as int));
                assert(self@.spans.take(i as int + 1).last() == self@.spans[i as int]);
            }
            i += 1;
        }
        proof {
            assert(self@.spans.take(n as int) =~= self@.spans);
        }
        out.times_csv = Some(content);
        out.tree_txt = Some(self.tree.write());
        out.continue_run = false;
        proof {
            let so = step_terminate(old(self)@);
            assert(self@ =~~= so.0);
            assert(out@ =~~= so.1);
        }
        out
    }
}

/// Builds the `SpanAlloc` operator line for a definition.
fn span_alloc_line_exec(ci: u64, id: u32, m: &Metadata) -> (r: String)
    ensures
        r@ == span_alloc_line(ci, id, m@),
{
    let d = u64_to_string(id as u64);
    let mut payload = d;
    payload.append(" ");
    let name = csv_format_single(m.name.as_str(), ' ');
    payload.append(name.as_str());
    payload.append(" ");
    let lv = m.level.to_text();
    payload.append(lv.as_str());
    payload.append(" ");
    let target = csv_format_single(m.target.as_str(), ' ');
    payload.append(target.as_str());
    payload.append(" ");
    let module = match &m.module {
        Some(p) => csv_format_single(p.as_str(), ' '),
        None => csv_format_single("None", ' '),
    };
    proof {
        reveal_strlit("None");
    }
    payload.append(module.as_str());
    payload.append(" ");
    let file = match &m.file {
        Some(f) => csv_format_single(f.as_str(), ' '),
        None => csv_format_single("None", ' '),
    };
    payload.append(file.as_str());
    payload.append(" ");
    match m.line {
        Some(l) => {
            let ld = u64_to_string(l as u64);
            payload.append(ld.as_str());
        },
        None => {
            payload.append("None");
        },
    }
    broker_line(Type::SpanAlloc, Some(ci), payload.as_str())
}

/// Builds the `SpanEvent` operator line for an event.
fn event_line_exec(ci: u64, id: u32, msg: &str, vs: &ValueSet) -> (r: String)
    ensures
        r@ == span_event_line(ci, id, msg@, vs@),
{
    let d = u64_to_string(id as u64);
    let mut payload = d;
    payload.append(" ");
    let f1 = csv_format_single(msg, ' ');
    payload.append(f1.as_str());
    payload.append(" ");
    let vtext = vs.to_string();
    let f2 = csv_format_single(vtext.as_str(), ' ');
    payload.append(f2.as_str());
    broker_line(Type::SpanEvent, Some(ci), payload.as_str())
}

/// Builds the `SpanData` operator line for a span.
fn data_line_exec(ci: u64, id: u32, d: &SpanData) -> (r: String)
    requires
        crate::state::span_data_wf(d@),
    ensures
        r@ == span_data_line(ci, id, d@),
{
    let ds = u64_to_string(id as u64);
    let mut payload = ds;
    payload.append(" ");
    if d.is_dropped() {
        payload.append("D");
    } else {
        payload.append("L");
    }
    payload.append(" ");
    if d.is_active() {
        payload.append("A");
    } else {
        payload.append("I");
    }
    payload.append(" ");
    let mins = crate::file_manager::duration_to_string(d.min);
    payload.append(mins.as_str());
    payload.append(" ");
    let maxs = crate::file_manager::duration_to_string(d.max);
    payload.append(maxs.as_str());
    payload.append(" ");
    let avg: u64 = if d.run_count > 0 {
        proof {
            crate::state::lemma_avg_fits(d@);
        }
        (d.sum / (d.run_count as u128)) as u64
    } else {
        0
    };
    let avgs = crate::file_manager::duration_to_string(avg);
    payload.append(avgs.as_str());
    payload.append(" ");
    let rc = u64_to_string(d.run_count);
    payload.append(rc.as_str());
    broker_line(Type::SpanData, Some(ci), payload.as_str())
}

} // verus!
