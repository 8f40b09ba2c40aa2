//! The file-manager worker's pure core: which file a span write goes to,
//! which cached handle must be flushed and closed first, and the exact
//! bytes appended.

use vstd::prelude::*;
use vstd::string::*;

use crate::metadata::{level_text, Metadata, MetadataView};
use crate::paths::{dir_path_text, Directory, Paths};
use crate::state::{opt_text, SpanInstance};
use crate::util::{csv_escape, csv_format_single, decimal_digits, u64_to_string};
use crate::values::{value_set_text, ValueSet, ValueView};

verus! {

/// An optional string, or empty when absent.
pub open spec fn opt_or_empty(o: Option<Seq<char>>) -> Seq<char> {
    match o {
        Some(s) => s,
        None => Seq::empty(),
    }
}

/// Whole seconds of a nanosecond count.
pub open spec fn secs_of(ns: int) -> int {
    ns / 1_000_000_000
}

/// Milliseconds of the sub-second part.
pub open spec fn millis_of(ns: int) -> int {
    ns % 1_000_000_000 / 1_000_000
}

/// Microseconds of the sub-second part below the milliseconds.
pub open spec fn micros_rem_of(ns: int) -> int {
    ns % 1_000_000_000 / 1_000 % 1_000
}

/// One `<key>,<value>` row.
pub open spec fn kv_row(k: Seq<char>, v: Seq<char>) -> Seq<char> {
    csv_escape(k, ',') + ","@ + csv_escape(v, ',') + "\n"@
}

/// The six rows of a `metadata/<span_id>.csv` write.
pub open spec fn metadata_text(m: MetadataView) -> Seq<char> {
    "File,"@ + opt_or_empty(m.file) + "\n"@ + "Name,"@ + m.name + "\n"@ + "Level,"@ + level_text(
        m.level,
    ) + "\n"@ + "Line,"@ + (match m.line {
        Some(l) => decimal_digits(l as nat),
        None => Seq::empty(),
    }) + "\n"@ + "Target,"@ + m.target + "\n"@ + "Module path,"@ + opt_or_empty(m.module) + "\n"@
}

/// One row of an `events/<span_id>.csv` write.
pub open spec fn event_text(
    instance_id: u32,
    msg: Seq<char>,
    vs: Seq<(Seq<char>, ValueView)>,
) -> Seq<char> {
    csv_escape(decimal_digits(instance_id as nat), ',') + ","@ + csv_escape(msg, ',') + ","@
        + value_set_text(vs) + "\n"@
}

/// One row of a `runs/<span_id>.csv` write: the instance, its message, the
/// duration decomposed into seconds, milliseconds and the microsecond
/// remainder, then the value set.
pub open spec fn run_text(
    instance_id: u32,
    message: Option<Seq<char>>,
    ns: int,
    vs: Seq<(Seq<char>, ValueView)>,
) -> Seq<char> {
    csv_escape(decimal_digits(instance_id as nat), ',') + ","@ + csv_escape(
        opt_or_empty(message),
        ',',
    ) + ","@ + csv_escape(decimal_digits(secs_of(ns) as nat), ',') + ","@ + csv_escape(
        decimal_digits(millis_of(ns) as nat),
        ',',
    ) + ","@ + csv_escape(decimal_digits(micros_rem_of(ns) as nat), ',') + ","@ + value_set_text(
        vs,
    ) + "\n"@
}

/// The rows of an `info.csv` write.
pub open spec fn project_text(p: crate::codec::ProjectView) -> Seq<char> {
    kv_row("AppName"@, p.app_name) + kv_row("Name"@, p.name) + kv_row("Version"@, p.version)
        + kv_row("CommandLine"@, p.command_line) + kv_row("TargetOs"@, p.target.os) + kv_row(
        "TargetFamily"@,
        p.target.family,
    ) + kv_row("TargetArch"@, p.target.arch) + (match p.cpu {
        Some(c) => kv_row("CpuName"@, c.name) + kv_row(
            "CpuCoreCount"@,
            decimal_digits(c.core_count as nat),
        ),
        None => Seq::empty(),
    })
}

/// One row of `times.csv`: the span id, then min, max and average, each
/// decomposed into seconds, milliseconds and the microsecond remainder.
pub open spec fn times_row_text(id: u32, min_ns: int, max_ns: int, avg_ns: int) -> Seq<char> {
    csv_escape(decimal_digits(id as nat), ',') + ","@ + csv_escape(
        decimal_digits(secs_of(min_ns) as nat),
        ',',
    ) + ","@ + csv_escape(decimal_digits(millis_of(min_ns) as nat), ',') + ","@ + csv_escape(
        decimal_digits(micros_rem_of(min_ns) as nat),
        ',',
    ) + ","@ + csv_escape(decimal_digits(secs_of(max_ns) as nat), ',') + ","@ + csv_escape(
        decimal_digits(millis_of(max_ns) as nat),
        ',',
    ) + ","@ + csv_escape(decimal_digits(micros_rem_of(max_ns) as nat), ',') + ","@ + csv_escape(
        decimal_digits(secs_of(avg_ns) as nat),
        ',',
    ) + ","@ + csv_escape(decimal_digits(millis_of(avg_ns) as nat), ',') + ","@ + csv_escape(
        decimal_digits(micros_rem_of(avg_ns) as nat),
        ',',
    ) + "\n"@
}

/// The human form of a duration: whole seconds when at least one, else
/// milliseconds when at least one, else total microseconds.
pub open spec fn duration_text(ns: int) -> Seq<char> {
    if secs_of(ns) > 0 {
        decimal_digits(secs_of(ns) as nat) + "s"@
    } else if millis_of(ns) > 0 {
        decimal_digits(millis_of(ns) as nat) + "ms"@
    } else {
        decimal_digits((ns / 1_000) as nat) + "us"@
    }
}

/// Renders a `u64` nanosecond count in its human form.
pub fn duration_to_string(ns: u64) -> (r: String)
    ensures
        r@ == duration_text(ns as int),
{
    let secs = ns / 1_000_000_000;
    let millis = ns % 1_000_000_000 / 1_000_000;
    if secs > 0 {
        let mut out = u64_to_string(secs);
        out.append("s");
        out
    } else if millis > 0 {
        let mut out = u64_to_string(millis);
        out.append("ms");
        out
    } else {
        let mut out = u64_to_string(ns / 1_000);
        out.append("us");
        out
    }
}

/// Renders the six metadata rows.
pub fn metadata_rows(m: &Metadata) -> (r: String)
    ensures
        r@ == metadata_text(m@),
{
    let mut out = String::from_str("File,");
    match &m.file {
        Some(f) => out.append(f.as_str()),
        None => (),
    }
    out.append("\n");
    out.append("Name,");
    out.append(m.name.as_str());
    out.append("\n");
    out.append("Level,");
    let lv = m.level.to_text();
    out.append(lv.as_str());
    out.append("\n");
    out.append("Line,");
    match m.line {
        Some(l) => {
            let d = u64_to_string(l as u64);
            out.append(d.as_str());
        },
        None => (),
    }
    out.append("\n");
    out.append("Target,");
    out.append(m.target.as_str());
    out.append("\n");
    out.append("Module path,");
    match &m.module {
        Some(p) => out.append(p.as_str()),
        None => (),
    }
    out.append("\n");
    out
}

/// Renders one event row.
pub fn event_row(instance_id: u32, msg: &str, vs: &ValueSet) -> (r: String)
    ensures
        r@ == event_text(instance_id, msg@, vs@),
{
    let d = u64_to_string(instance_id as u64);
    let mut out = csv_format_single(d.as_str(), ',');
    out.append(",");
    let f = csv_format_single(msg, ',');
    out.append(f.as_str());
    out.append(",");
    let v = vs.to_string();
    out.append(v.as_str());
    out.append("\n");
    out
}

/// Renders one run row.
pub fn run_row(instance_id: u32, inst: &SpanInstance) -> (r: String)
    ensures
        r@ == run_text(instance_id, inst@.message, inst@.duration as int, inst@.value_set),
{
    let d = u64_to_string(instance_id as u64);
    let mut out = csv_format_single(d.as_str(), ',');
    out.append(",");
    let msg = match &inst.message {
        Some(m) => csv_format_single(m.as_str(), ','),
        None => csv_format_single("", ','),
    };
    proof {
        reveal_strlit("");
        assert(""@ =~= Seq::<char>::empty());
    }
    out.append(msg.as_str());
    out.append(",");
    let ns = inst.duration;
    let secs = u64_to_string(ns / 1_000_000_000);
    let f1 = csv_format_single(secs.as_str(), ',');
    out.append(f1.as_str());
    out.append(",");
    let millis = u64_to_string(ns % 1_000_000_000 / 1_000_000);
    let f2 = csv_format_single(millis.as_str(), ',');
    out.append(f2.as_str());
    out.append(",");
    let micros = u64_to_string(ns % 1_000_000_000 / 1_000 % 1_000);
    let f3 = csv_format_single(micros.as_str(), ',');
    out.append(f3.as_str());
    out.append(",");
    let v = inst.value_set.to_string();
    out.append(v.as_str());
    out.append("\n");
    out
}

/// Renders one `<key>,<value>` row.
fn kv_row_exec(k: &str, v: &str) -> (r: String)
    ensures
        r@ == kv_row(k@, v@),
{
    let mut out = csv_format_single(k, ',');
    out.append(",");
    let f = csv_format_single(v, ',');
    out.append(f.as_str());
    out.append("\n");
    out
}

/// Renders the full `info.csv` content for a project.
pub fn project_rows(p: &crate::codec::Project) -> (r: String)
    ensures
        r@ == project_text(p@),
{
    let mut out = kv_row_exec("AppName", p.app_name.as_str());
    let r2 = kv_row_exec("Name", p.name.as_str());
    out.append(r2.as_str());
    let r3 = kv_row_exec("Version", p.version.as_str());
    out.append(r3.as_str());
    let r4 = kv_row_exec("CommandLine", p.command_line.as_str());
    out.append(r4.as_str());
    let r5 = kv_row_exec("TargetOs", p.target.os.as_str());
    out.append(r5.as_str());
    let r6 = kv_row_exec("TargetFamily", p.target.family.as_str());
    out.append(r6.as_str());
    let r7 = kv_row_exec("TargetArch", p.target.arch.as_str());
    out.append(r7.as_str());
    match &p.cpu {
        Some(c) => {
            let r8 = kv_row_exec("CpuName", c.name.as_str());
            out.append(r8.as_str());
            let d = u64_to_string(c.core_count as u64);
            let r9 = kv_row_exec("CpuCoreCount", d.as_str());
            out.append(r9.as_str());
        },
        None => (),
    }
    out
}

/// Renders one `times.csv` row.
pub fn times_row(id: u32, min_ns: u64, max_ns: u64, avg_ns: u64) -> (r: String)
    ensures
        r@ == times_row_text(id, min_ns as int, max_ns as int, avg_ns as int),
{
    let d = u64_to_string(id as u64);
    let mut out = csv_format_single(d.as_str(), ',');
    append_duration_fields(&mut out, min_ns);
    append_duration_fields(&mut out, max_ns);
    append_duration_fields(&mut out, avg_ns);
    out.append("\n");
    out
}

/// Appends `,<sec>,<ms>,<us-remainder>` for one duration.
fn append_duration_fields(out: &mut String, ns: u64)
    ensures
        final(out)@ == old(out)@ + ","@ + csv_escape(decimal_digits(secs_of(ns as int) as nat), ',')
            + ","@ + csv_escape(decimal_digits(millis_of(ns as int) as nat), ',') + ","@
            + csv_escape(decimal_digits(micros_rem_of(ns as int) as nat), ','),
{
    out.append(",");
    let secs = u64_to_string(ns / 1_000_000_000);
    let f1 = csv_format_single(secs.as_str(), ',');
    out.append(f1.as_str());
    out.append(",");
    let millis = u64_to_string(ns % 1_000_000_000 / 1_000_000);
    let f2 = csv_format_single(millis.as_str(), ',');
    out.append(f2.as_str());
    out.append(",");
    let micros = u64_to_string(ns % 1_000_000_000 / 1_000 % 1_000);
    let f3 = csv_format_single(micros.as_str(), ',');
    out.append(f3.as_str());
}

/// The file a span write goes to: `<role dir>/<span_id>.csv`.
pub open spec fn file_path_text(ci: nat, dir: Directory, span: u32) -> Seq<char> {
    dir_path_text(ci, dir) + "/"@ + decimal_digits(span as nat) + ".csv"@
}

/// The pool holds this key.
pub open spec fn fd_has(s: Seq<(u32, Directory)>, span: u32, dir: Directory) -> bool {
    exists|i: int| 0 <= i < s.len() && #[trigger] s[i] == (span, dir)
}

/// The position of this key in the pool.
pub open spec fn fd_idx(s: Seq<(u32, Directory)>, span: u32, dir: Directory) -> int {
    choose|i: int| 0 <= i < s.len() && #[trigger] s[i] == (span, dir)
}

/// The bounded cache of open file keys, most recently used last.
pub struct FdMap {
    entries: Vec<(u32, Directory)>,
    max_fd_count: usize,
}

/// What one lookup asks of the caller: the file to use and, possibly, one
/// cached file to flush and close first.
pub struct FdOutcome {
    /// The path of the file to append to.
    pub path: String,
    /// A key whose file must be flushed and closed before opening.
    pub evict: Option<(u32, Directory)>,
    /// Whether the file was already open.
    pub hit: bool,
}

impl View for FdMap {
    type V = Seq<(u32, Directory)>;

    closed spec fn view(&self) -> Seq<(u32, Directory)> {
        self.entries@
    }
}

impl FdMap {
    /// The capacity the pool was created with.
    pub closed spec fn cap(&self) -> nat {
        self.max_fd_count as nat
    }

    /// An empty pool with the given bound.
    pub fn new(max_fd_count: usize) -> (r: FdMap)
        ensures
            r@ == Seq::<(u32, Directory)>::empty(),
            r.cap() == max_fd_count,
            r@.no_duplicates(),
    {
        let r = FdMap { entries: Vec::new(), max_fd_count };
        proof {
            assert(r@ =~= Seq::<(u32, Directory)>::empty());
        }
        r
    }

    /// Decides how to reach the file of `(span, dir)`: reuse the open
    /// handle when cached (refreshing its age), otherwise open it, first
    /// flushing and closing the least-recently-used entry when the pool is
    /// full.
    pub fn open_file(&mut self, paths: &Paths, span: u32, dir: Directory) -> (r: FdOutcome)
        requires
            paths.wf(),
            old(self)@.no_duplicates(),
        ensures
            final(self).cap() == old(self).cap(),
            final(self)@.no_duplicates(),
            r.path@ == file_path_text(paths.index(), dir, span),
            if fd_has(old(self)@, span, dir) {
                &&& r.hit
                &&& r.evict is None
                &&& final(self)@ == old(self)@.remove(fd_idx(old(self)@, span, dir)).push(
                    (span, dir),
                )
            } else if old(self)@.len() >= old(self).cap() && old(self)@.len() > 0 {
                &&& !r.hit
                &&& r.evict == Some(old(self)@[0])
                &&& final(self)@ == old(self)@.drop_first().push((span, dir))
            } else {
                &&& !r.hit
                &&& r.evict is None
                &&& final(self)@ == old(self)@.push((span, dir))
            },
    {
        let mut path = paths.get(dir).to_owned();
        path.append("/");
        let d = u64_to_string(span as u64);
        path.append(d.as_str());
        path.append(".csv");
        let n = self.entries.len();
        let mut i: usize = 0;
        let mut found: Option<usize> = None;
        while i < n
            invariant
                i <= n,
                n == self.entries@.len(),
                match found {
                    Some(f) => f < n && self.entries@[f as int] == (span, dir),
                    None => forall|j: int| 0 <= j < i ==> #[trigger] self.entries@[j] != (
                    span, dir),
                },
            decreases n - i,
        {
            if found.is_none() && self.entries[i].0 == span && directory_eq(
                self.entries[i].1,
                dir,
            ) {
                found = Some(i);
            }
            i += 1;
        }
        match found {
            Some(f) => {
                proof {
                    assert(fd_has(self@, span, dir));
                    let w = fd_idx(self@, span, dir);
                    assert(0 <= w < self@.len() && self@[w] == (span, dir));
                    if w != f as int {
                        assert(self@[w] == self@[f as int]);
                        assert(false);
                    }
                }
                let ghost pre = self.entries@;
                let e = self.entries.remove(f);
                self.entries.push(e);
                proof {
                    assert(self.entries@ == pre.remove(f as int).push(pre[f as int]));
                    lemma_whole_unique_remove(pre, f as int);
                    assert forall|j: int|
                        0 <= j < pre.remove(f as int).len() implies #[trigger] pre.remove(
                        f as int,
                    )[j] != (span, dir) by {
                        let sj: int = if j < f as int {
                            j
                        } else {
                            j + 1
                        };
                        assert(pre.remove(f as int)[j] == pre[sj]);
                    }
                    lemma_whole_unique_push(pre.remove(f as int), (span, dir));
                }
                FdOutcome { path, evict: None, hit: true }
            },
            None => {
                proof {
                    if fd_has(self@, span, dir) {
                        let w = fd_idx(self@, span, dir);
                        assert(self@[w] == (span, dir));
                    }
                }
                if self.entries.len() >= self.max_fd_count && self.entries.len() > 0 {
                    let ghost pre = self.entries@;
                    let evicted = self.entries.remove(0);
                    self.entries.push((span, dir));
                    proof {
                        assert(pre.remove(0) =~= pre.drop_first());
                        lemma_whole_unique_remove(pre, 0);
                        assert forall|j: int|
                            0 <= j < pre.drop_first().len() implies #[trigger] pre.drop_first()[j]
                            != (span, dir) by {
                            assert(pre.drop_first()[j] == pre[j + 1]);
                        }
                        lemma_whole_unique_push(pre.drop_first(), (span, dir));
                    }
                    FdOutcome { path, evict: Some(evicted), hit: false }
                } else {
                    let ghost pre = self.entries@;
                    self.entries.push((span, dir));
                    proof {
                        assert forall|j: int| 0 <= j < pre.len() implies #[trigger] pre[j] != (
                        span, dir) by {}
                        lemma_whole_unique_push(pre, (span, dir));
                    }
                    FdOutcome { path, evict: None, hit: false }
                }
            },
        }
    }
}

/// Whether two directory roles are the same.
fn directory_eq(a: Directory, b: Directory) -> (r: bool)
    ensures
        r == (a == b),
{
    match (a, b) {
        (Directory::Runs, Directory::Runs) => true,
        (Directory::Events, Directory::Events) => true,
        (Directory::Metadata, Directory::Metadata) => true,
        _ => false,
    }
}

/// Removing keeps pool entries distinct.
proof fn lemma_whole_unique_remove(s: Seq<(u32, Directory)>, i: int)
    requires
        s.no_duplicates(),
        0 <= i < s.len(),
    ensures
        s.remove(i).no_duplicates(),
{
    let t = s.remove(i);
    assert forall|a: int, b: int|
        0 <= a < t.len() && 0 <= b < t.len() && a != b implies t[a] != t[b] by {
        let sa: int = if a < i {
            a
        } else {
            a + 1
        };
        let sb: int = if b < i {
            b
        } else {
            b + 1
        };
        assert(t[a] == s[sa] && t[b] == s[sb]);
    }
}

/// Appending a fresh key keeps pool entries distinct.
proof fn lemma_whole_unique_push(s: Seq<(u32, Directory)>, x: (u32, Directory))
    requires
        s.no_duplicates(),
        forall|j: int| 0 <= j < s.len() ==> #[trigger] s[j] != x,
    ensures
        s.push(x).no_duplicates(),
{
    let t = s.push(x);
    assert forall|a: int, b: int|
        0 <= a < t.len() && 0 <= b < t.len() && a != b implies t[a] != t[b] by {
        if a < s.len() && b < s.len() {
            assert(t[a] == s[a] && t[b] == s[b]);
        } else if a < s.len() {
            assert(t[a] == s[a] && t[b] == x);
        } else {
            assert(t[a] == x && t[b] == s[b]);
        }
    }
}

/// One queued write for a span: its metadata block, one event, or one
/// freed run.
pub enum Span {
    /// The six metadata rows.
    Metadata(Metadata),
    /// One event: instance id, composed message, value set.
    Event(u32, String, ValueSet),
    /// One freed run: instance id and the freed instance.
    Run(u32, SpanInstance),
}

/// The mathematical shape of a queued span write.
pub ghost enum SpanPayloadView {
    Metadata(MetadataView),
    Event(u32, Seq<char>, Seq<(Seq<char>, ValueView)>),
    Run(u32, crate::state::SpanInstanceView),
}

impl View for Span {
    type V = SpanPayloadView;

    open spec fn view(&self) -> SpanPayloadView {
        match self {
            Span::Metadata(m) => SpanPayloadView::Metadata(m@),
            Span::Event(iid, msg, vs) => SpanPayloadView::Event(*iid, msg@, vs@),
            Span::Run(iid, inst) => SpanPayloadView::Run(*iid, inst@),
        }
    }
}

/// The directory role a payload is written under.
pub open spec fn payload_dir(p: SpanPayloadView) -> Directory {
    match p {
        SpanPayloadView::Metadata(_) => Directory::Metadata,
        SpanPayloadView::Event(_, _, _) => Directory::Events,
        SpanPayloadView::Run(_, _) => Directory::Runs,
    }
}

/// The exact bytes a payload appends; they depend on the payload alone,
/// never on the state of the file-descriptor pool.
pub open spec fn payload_bytes(p: SpanPayloadView) -> Seq<char> {
    match p {
        SpanPayloadView::Metadata(m) => metadata_text(m),
        SpanPayloadView::Event(iid, msg, vs) => event_text(iid, msg, vs),
        SpanPayloadView::Run(iid, inst) => run_text(
            iid,
            inst.message,
            inst.duration as int,
            inst.value_set,
        ),
    }
}

/// The pure core of the file-manager worker: the pool of open files and
/// the session's directory tree.
pub struct FileManagerTask {
    fd_map: FdMap,
    paths: Paths,
}

/// What one span write asks of the surrounding I/O code.
pub struct WriteStep {
    /// The pool key of the write: the span id and directory role.
    pub key: (u32, Directory),
    /// The file to append to.
    pub path: String,
    /// The bytes to append.
    pub bytes: String,
    /// A key whose file must be flushed and closed before opening.
    pub evict: Option<(u32, Directory)>,
    /// Whether the file was already open.
    pub hit: bool,
}

impl FileManagerTask {
    /// The client index whose tree is written.
    pub closed spec fn index(&self) -> nat {
        self.paths.index()
    }

    /// The current keys of the pool, most recently used last.
    pub closed spec fn fd_view(&self) -> Seq<(u32, Directory)> {
        self.fd_map@
    }

    /// The pool's capacity.
    pub closed spec fn cap(&self) -> nat {
        self.fd_map.cap()
    }

    /// The pool keys are distinct and the paths are the client's tree.
    pub closed spec fn wf(&self) -> bool {
        self.fd_map@.no_duplicates() && self.paths.wf()
    }

    /// A worker over an empty pool with the given bound.
    pub fn new(max_fd_count: usize, paths: Paths) -> (r: FileManagerTask)
        requires
            paths.wf(),
        ensures
            r.wf(),
            r.fd_view() == Seq::<(u32, Directory)>::empty(),
            r.cap() == max_fd_count,
            r.index() == paths.index(),
    {
        FileManagerTask { fd_map: FdMap::new(max_fd_count), paths }
    }

    /// Turns one queued span write into its file action: the exact bytes,
    /// the file they go to, and the handle to flush and close first, if
    /// any. The bytes and the path depend only on the request, never on
    /// the pool, so the written output is the same for every pool bound.
    pub fn handle_command_internal(&mut self, span_id: u32, span: &Span) -> (r: WriteStep)
        requires
            old(self).wf(),
        ensures
            final(self).wf(),
            final(self).cap() == old(self).cap(),
            final(self).index() == old(self).index(),
            r.bytes@ == payload_bytes(span@),
            r.key == (span_id, payload_dir(span@)),
            r.path@ == file_path_text(old(self).index(), payload_dir(span@), span_id),
            ({
                let key_dir = payload_dir(span@);
                if fd_has(old(self).fd_view(), span_id, key_dir) {
                    &&& r.hit
                    &&& r.evict is None
                    &&& final(self).fd_view() == old(self).fd_view().remove(
                        fd_idx(old(self).fd_view(), span_id, key_dir),
                    ).push((span_id, key_dir))
                } else if old(self).fd_view().len() >= old(self).cap() && old(
                    self,
                ).fd_view().len() > 0 {
                    &&& !r.hit
                    &&& r.evict == Some(old(self).fd_view()[0])
                    &&& final(self).fd_view() == old(self).fd_view().drop_first().push(
                        (span_id, key_dir),
                    )
                } else {
                    &&& !r.hit
                    &&& r.evict is None
                    &&& final(self).fd_view() == old(self).fd_view().push((span_id, key_dir))
                }
            }),
    {
        let (dir, bytes) = match span {
            Span::Metadata(m) => (Directory::Metadata, metadata_rows(m)),
            Span::Event(iid, msg, vs) => (Directory::Events, event_row(*iid, msg.as_str(), vs)),
            Span::Run(iid, inst) => (Directory::Runs, run_row(*iid, inst)),
        };
        let outcome = self.fd_map.open_file(&self.paths, span_id, dir);
        WriteStep {
            key: (span_id, dir),
            path: outcome.path,
            bytes,
            evict: outcome.evict,
            hit: outcome.hit,
        }
    }
}

} // verus!
