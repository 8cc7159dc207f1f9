//! Decisions of the jobs that do not touch the file system: which paths an
//! import collects, the names under which an output file is tried, and
//! what the worker does next with each command and each batch outcome.
use crate::paths::{path_before, paths_view, sort_paths};
use crate::pipeline::{is_input_extension, path_extension, supported};
use crate::settings::{
    spec_resolve, FieldView, Overrides, Settings, SettingsError, SettingsErrorView, SettingsView, ValueView,
};
use crate::text::{append_chars, chars_of, decimal, decimal_chars, lower, string_of};
use vstd::prelude::*;

verus! {

/// How many names are tried for one output file before giving up.
pub const MAX_SUFFIX: u32 = 100000;

/// The name of attempt `suffix` for an output file: the input's stem,
/// then `_` and the attempt's number from the second attempt on, then a
/// dot and the extension (`photo.webp`, `photo_1.webp`, ...).
pub open spec fn spec_output_name(stem: Seq<char>, suffix: nat, extension: Seq<char>) -> Seq<char> {
    let numbered = if suffix > 0 {
        stem + seq!['_'] + decimal(suffix)
    } else {
        stem
    };
    numbered + seq!['.'] + extension
}

/// The name of attempt `suffix` for an output file.
pub fn output_name(stem: &str, suffix: u32, extension: &str) -> (out: String)
    ensures
        out@ == spec_output_name(stem@, suffix as nat, extension@),
{
    let mut name = chars_of(stem);
    if suffix > 0 {
        name.push('_');
        let digits = decimal_chars(suffix as u64);
        append_chars(&mut name, &digits);
    }
    name.push('.');
    let ext = chars_of(extension);
    append_chars(&mut name, &ext);
    assert(name@ =~= spec_output_name(stem@, suffix as nat, extension@));
    string_of(&name)
}

/// What to do at attempt `suffix` of writing an output file.
#[derive(Debug)]
pub enum NameStep {
    /// Try to publish the file under this name.
    Try(String),
    /// Every name was taken: give up.
    Exhausted,
}

/// Attempt `suffix` of writing an output file: its name while fewer than
/// [`MAX_SUFFIX`] attempts were made, then giving up. An attempt whose
/// name is taken, or is the input itself, moves on to `suffix + 1`.
pub fn name_attempt(stem: &str, suffix: u32, extension: &str) -> (out: NameStep)
    ensures
        suffix < MAX_SUFFIX ==> out is Try && out->Try_0@ == spec_output_name(
            stem@,
            suffix as nat,
            extension@,
        ),
        suffix >= MAX_SUFFIX ==> out is Exhausted,
{
    if suffix < MAX_SUFFIX {
        NameStep::Try(output_name(stem, suffix, extension))
    } else {
        NameStep::Exhausted
    }
}


/// The most paths that an import holds, found and pending together.
pub const MAX_IMPORT: usize = 100000;

/// No two elements of `s` are equal.
pub open spec fn distinct(s: Seq<Seq<char>>) -> bool {
    forall|i: int, j: int| 0 <= i < j < s.len() ==> s[i] != s[j]
}

/// The state of an import: the paths still to look at (each marked when
/// the user named it), the files found so far (by canonical path, each
/// once) and the directories already listed (by canonical path, each
/// once, so that a link back to a parent is not followed again).
#[derive(Debug)]
pub struct Collector {
    pending: Vec<(String, bool)>,
    found: Vec<String>,
    directories: Vec<String>,
}

/// A [`Collector`] as values.
pub struct CollectorView {
    pub pending: Seq<(Seq<char>, bool)>,
    pub found: Seq<Seq<char>>,
    pub directories: Seq<Seq<char>>,
}

impl View for Collector {
    type V = CollectorView;

    closed spec fn view(&self) -> CollectorView {
        CollectorView {
            pending: self.pending@.map_values(|e: (String, bool)| (e.0@, e.1)),
            found: self.found@.map_values(|f: String| f@),
            directories: self.directories@.map_values(|d: String| d@),
        }
    }
}

/// Whether `s` holds `x`.
pub open spec fn holds(s: Seq<Seq<char>>, x: Seq<char>) -> bool {
    exists|i: int| 0 <= i < s.len() && s[i] == x
}

fn position(v: &Vec<String>, x: &String) -> (out: bool)
    ensures
        out == holds(v@.map_values(|f: String| f@), x@),
{
    let ghost s = v@.map_values(|f: String| f@);
    let mut i: usize = 0;
    while i < v.len()
        invariant
            i <= v@.len(),
            s == v@.map_values(|f: String| f@),
            forall|j: int| 0 <= j < i ==> s[j] != x@,
        decreases v@.len() - i,
    {
        if v[i] == *x {
            assert(s[i as int] == x@);
            return true;
        }
        i += 1;
    }
    false
}

proof fn lemma_push_distinct(s: Seq<Seq<char>>, x: Seq<char>)
    requires
        distinct(s),
        !holds(s, x),
    ensures
        distinct(s.push(x)),
{
    assert forall|i: int, j: int| 0 <= i < j < s.push(x).len() implies s.push(x)[i] != s.push(x)[j] by {
        if j == s.len() {
            assert(s[i] == s.push(x)[i]);
        }
    }
}

impl Collector {
    #[verifier::type_invariant]
    spec fn unique(self) -> bool {
        &&& distinct(self.found@.map_values(|f: String| f@))
        &&& distinct(self.directories@.map_values(|d: String| d@))
    }

    /// An import of the paths the user named.
    pub fn new(paths: Vec<String>) -> (out: Collector)
        ensures
            out@.pending == paths@.map_values(|p: String| (p@, true)),
            out@.found == Seq::<Seq<char>>::empty(),
            out@.directories == Seq::<Seq<char>>::empty(),
    {
        let mut pending: Vec<(String, bool)> = Vec::new();
        let mut i: usize = 0;
        while i < paths.len()
            invariant
                i <= paths@.len(),
                pending@.len() == i,
                forall|j: int| 0 <= j < i ==> (#[trigger] pending@[j]).0@ == paths@[j]@ && pending@[j].1,
            decreases paths@.len() - i,
        {
            let p = paths[i].clone();
            pending.push((p, true));
            i += 1;
        }
        assert(pending@.map_values(|e: (String, bool)| (e.0@, e.1)) =~= paths@.map_values(
            |p: String| (p@, true),
        ));
        let out = Collector { pending, found: Vec::new(), directories: Vec::new() };
        assert(out@.found =~= Seq::<Seq<char>>::empty());
        assert(out@.directories =~= Seq::<Seq<char>>::empty());
        out
    }

    /// The next path to look at, the last one pending, with whether the
    /// user named it.
    pub fn next(&mut self) -> (out: Option<(String, bool)>)
        ensures
            match out {
                Some((path, explicit)) => old(self)@.pending.len() > 0 && (path@, explicit)
                    == old(self)@.pending.last() && final(self)@.pending == old(self)@.pending.drop_last()
                    && final(self)@.found == old(self)@.found && final(self)@.directories
                    == old(self)@.directories,
                None => old(self)@.pending.len() == 0 && final(self)@ == old(self)@,
            },
    {
        proof {
            use_type_invariant(&*self);
        }
        let mut pending: Vec<(String, bool)> = Vec::new();
        std::mem::swap(&mut pending, &mut self.pending);
        let out = pending.pop();
        std::mem::swap(&mut pending, &mut self.pending);
        proof {
            if old(self)@.pending.len() > 0 {
                assert(self@.pending =~= old(self)@.pending.drop_last());
            } else {
                assert(self@.pending =~= old(self)@.pending);
            }
        }
        out
    }

    /// Records that the directory with this canonical path is listed;
    /// `false`, with nothing changed, when it already was.
    pub fn enter_directory(&mut self, canonical: String) -> (out: bool)
        ensures
            out == !holds(old(self)@.directories, canonical@),
            final(self)@.pending == old(self)@.pending,
            final(self)@.found == old(self)@.found,
            final(self)@.directories == if out {
                old(self)@.directories.push(canonical@)
            } else {
                old(self)@.directories
            },
    {
        proof {
            use_type_invariant(&*self);
        }
        if position(&self.directories, &canonical) {
            return false;
        }
        let ghost before = self@.directories;
        let mut directories: Vec<String> = Vec::new();
        std::mem::swap(&mut directories, &mut self.directories);
        directories.push(canonical);
        proof {
            lemma_push_distinct(before, canonical@);
            assert(directories@.map_values(|d: String| d@) =~= before.push(canonical@));
        }
        std::mem::swap(&mut directories, &mut self.directories);
        assert(self@.directories =~= before.push(canonical@));
        true
    }

    /// Queues an entry of a listed directory: a subdirectory only for a
    /// recursive import, any other entry unless it is a symbolic link.
    pub fn push_entry(&mut self, path: String, is_dir: bool, is_symlink: bool, recursive: bool)
        ensures
            final(self)@.pending == if (is_dir && recursive) || (!is_dir && !is_symlink) {
                old(self)@.pending.push((path@, false))
            } else {
                old(self)@.pending
            },
            final(self)@.found == old(self)@.found,
            final(self)@.directories == old(self)@.directories,
    {
        proof {
            use_type_invariant(&*self);
        }
        let ghost before = self@.pending;
        if (is_dir && recursive) || (!is_dir && !is_symlink) {
            let mut pending: Vec<(String, bool)> = Vec::new();
            std::mem::swap(&mut pending, &mut self.pending);
            pending.push((path, false));
            std::mem::swap(&mut pending, &mut self.pending);
            assert(self@.pending =~= before.push((path@, false)));
        }
    }

    /// Records a file at `path` whose canonical path is `canonical`, if the
    /// user named it or it has an input extension, unless it was found
    /// already.
    pub fn add_file(&mut self, path: &str, explicit: bool, canonical: String)
        ensures
            final(self)@.pending == old(self)@.pending,
            final(self)@.directories == old(self)@.directories,
            final(self)@.found == if (explicit || match path_extension(path@) {
                Some(e) => is_input_extension(lower(e)),
                None => false,
            }) && !holds(old(self)@.found, canonical@) {
                old(self)@.found.push(canonical@)
            } else {
                old(self)@.found
            },
    {
        proof {
            use_type_invariant(&*self);
        }
        if !(explicit || supported(path)) {
            return;
        }
        if position(&self.found, &canonical) {
            return;
        }
        let ghost before = self@.found;
        let mut found: Vec<String> = Vec::new();
        std::mem::swap(&mut found, &mut self.found);
        found.push(canonical);
        proof {
            lemma_push_distinct(before, canonical@);
            assert(found@.map_values(|f: String| f@) =~= before.push(canonical@));
        }
        std::mem::swap(&mut found, &mut self.found);
        assert(self@.found =~= before.push(canonical@));
    }

    /// Whether the import is within its limit of [`MAX_IMPORT`] paths,
    /// found and pending together.
    pub fn within_limit(&self) -> (out: bool)
        ensures
            out == (self@.found.len() + self@.pending.len() <= MAX_IMPORT),
    {
        self.found.len() <= MAX_IMPORT && self.pending.len() <= MAX_IMPORT - self.found.len()
    }

    /// The files found, each once, in path order (see [`path_before`]).
    pub fn into_found(self) -> (out: Vec<String>)
        ensures
            paths_view(out@).to_multiset() == self@.found.to_multiset(),
            forall|i: int, j: int|
                0 <= i < j < out@.len() ==> !path_before(#[trigger] out@[j]@, #[trigger] out@[i]@),
            distinct(self@.found),
    {
        proof {
            use_type_invariant(&self);
        }
        let ghost found = self@.found;
        let out = sort_paths(self.found);
        assert(paths_view(self.found@) =~= found);
        out
    }
}


/// An item of a batch: the image and the settings it is converted with,
/// taken when the batch starts.
#[derive(Debug)]
pub struct BatchTask {
    pub id: u64,
    pub settings: Settings,
}

impl Clone for BatchTask {
    fn clone(&self) -> (out: BatchTask)
        ensures
            out.id == self.id,
            out.settings@ == self.settings@,
    {
        BatchTask { id: self.id, settings: self.settings.clone() }
    }
}

/// The ids and settings of batch items.
pub open spec fn tasks_view(v: Seq<BatchTask>) -> Seq<(u64, SettingsView)> {
    v.map_values(|t: BatchTask| (t.id, t.settings@))
}

/// An outcome as values: the size written, or the error.
pub open spec fn result_view(r: Result<u64, String>) -> Result<u64, Seq<char>> {
    match r {
        Ok(n) => Ok(n),
        Err(e) => Err(e@),
    }
}

/// A running batch: its items with their settings, and the outcome of
/// each item done so far, in order.
#[derive(Debug)]
pub struct BatchState {
    tasks: Vec<BatchTask>,
    outcomes: Vec<(u64, Result<u64, String>)>,
}

/// A [`BatchState`] as values.
pub struct BatchStateView {
    pub tasks: Seq<(u64, SettingsView)>,
    pub outcomes: Seq<(u64, Result<u64, Seq<char>>)>,
}

impl View for BatchState {
    type V = BatchStateView;

    closed spec fn view(&self) -> BatchStateView {
        BatchStateView {
            tasks: tasks_view(self.tasks@),
            outcomes: self.outcomes@.map_values(|o: (u64, Result<u64, String>)| (o.0, result_view(o.1))),
        }
    }
}

impl BatchState {
    /// The outcomes so far: each item's id with the size written or the
    /// error.
    pub fn outcomes(&self) -> (out: Vec<(u64, Result<u64, String>)>)
        ensures
            out@.map_values(|o: (u64, Result<u64, String>)| (o.0, result_view(o.1))) == self@.outcomes,
    {
        let mut out: Vec<(u64, Result<u64, String>)> = Vec::new();
        let mut i: usize = 0;
        while i < self.outcomes.len()
            invariant
                i <= self.outcomes@.len(),
                out@.len() == i,
                forall|j: int| 0 <= j < i ==> (#[trigger] out@[j]).0 == self.outcomes@[j].0 && result_view(out@[j].1)
                    == result_view(self.outcomes@[j].1),
            decreases self.outcomes@.len() - i,
        {
            let (id, r) = (self.outcomes[i].0, &self.outcomes[i].1);
            let copy = match r {
                Ok(n) => Ok(*n),
                Err(e) => Err(e.clone()),
            };
            out.push((id, copy));
            i += 1;
        }
        assert(out@.map_values(|o: (u64, Result<u64, String>)| (o.0, result_view(o.1))) =~= self@.outcomes);
        out
    }
}

/// What the worker knows between commands: the newest preview request.
#[derive(Debug, Clone, Copy, PartialEq, Eq, Structural)]
pub struct WorkerState {
    pub latest_preview: u64,
}

/// A command to the worker, as its decisions need it.
pub enum CommandView {
    Import,
    Inspect(u64),
    /// A preview for this request generation.
    Preview(u64),
    /// A batch of items, and whether it was cancelled before it started.
    Batch { tasks: Vec<BatchTask>, cancelled: bool },
    Stop,
}

/// What the worker does next.
#[derive(Debug)]
pub enum WorkerAction {
    /// Nothing: the request is stale.
    Skip,
    Import,
    Inspect(u64),
    Preview(u64),
    /// Convert item `index` of the batch, image `id`, with these settings.
    Convert { index: usize, id: u64, settings: Settings },
    /// The batch is over; it was cancelled or not.
    BatchDone { cancelled: bool },
    Stop,
}

/// How a batch item ended: the size written or the error, and whether
/// the batch was cancelled meanwhile.
pub struct OutcomeView {
    pub result: Result<u64, String>,
    pub cancelled: bool,
}

/// Whether `a` starts item `i` of `tasks`, with the settings taken when the
/// batch started.
pub open spec fn starts(a: WorkerAction, tasks: Seq<(u64, SettingsView)>, i: int) -> bool {
    a matches WorkerAction::Convert { index, id, settings } && index == i && id == tasks[i].0
        && settings@ == tasks[i].1
}

fn start_item(tasks: &Vec<BatchTask>, i: usize) -> (out: WorkerAction)
    requires
        i < tasks@.len(),
    ensures
        starts(out, tasks_view(tasks@), i as int),
{
    let t = tasks[i].clone();
    WorkerAction::Convert { index: i, id: t.id, settings: t.settings }
}

fn copy_tasks(tasks: &Vec<BatchTask>) -> (out: Vec<BatchTask>)
    ensures
        tasks_view(out@) == tasks_view(tasks@),
{
    let mut out: Vec<BatchTask> = Vec::new();
    let mut i: usize = 0;
    while i < tasks.len()
        invariant
            i <= tasks@.len(),
            out@.len() == i,
            forall|j: int| 0 <= j < i ==> (#[trigger] out@[j]).id == tasks@[j].id && out@[j].settings@
                == tasks@[j].settings@,
        decreases tasks@.len() - i,
    {
        out.push(tasks[i].clone());
        i += 1;
    }
    assert(tasks_view(out@) =~= tasks_view(tasks@));
    out
}

/// What the worker does with a command: a preview request other than the
/// newest is skipped; a batch keeps the settings of its items as they are
/// when it starts and starts its first item, unless it was cancelled or
/// is empty; the other commands run as they are.
pub fn worker_step(state: &WorkerState, command: CommandView) -> (out: (WorkerState, WorkerAction))
    ensures
        out.0.latest_preview == state.latest_preview,
        command matches CommandView::Preview(g) ==> if g != state.latest_preview {
            out.1 is Skip
        } else {
            (out.1 matches WorkerAction::Preview(h) && h == g)
        },
        command is Import ==> out.1 is Import,
        command matches CommandView::Inspect(id) ==> (out.1 matches WorkerAction::Inspect(i) && i == id),
        command is Stop ==> out.1 is Stop,
        command matches CommandView::Batch { tasks, cancelled } ==> if cancelled || tasks@.len() == 0 {
            (out.1 matches WorkerAction::BatchDone { cancelled: c } && c == cancelled)
        } else {
            starts(out.1, tasks_view(tasks@), 0)
        },
{
    let next = WorkerState { latest_preview: state.latest_preview };
    match command {
        CommandView::Import => (next, WorkerAction::Import),
        CommandView::Inspect(id) => (next, WorkerAction::Inspect(id)),
        CommandView::Preview(g) => if g != state.latest_preview {
            (next, WorkerAction::Skip)
        } else {
            (next, WorkerAction::Preview(g))
        },
        CommandView::Stop => (next, WorkerAction::Stop),
        CommandView::Batch { tasks, cancelled } => if cancelled || tasks.len() == 0 {
            (next, WorkerAction::BatchDone { cancelled })
        } else {
            (next, start_item(&tasks, 0))
        },
    }
}

impl BatchState {
    /// A batch of these items, nothing done yet.
    pub fn new(tasks: Vec<BatchTask>) -> (out: BatchState)
        ensures
            out@.tasks == tasks_view(tasks@),
            out@.outcomes == Seq::<(u64, Result<u64, Seq<char>>)>::empty(),
    {
        let out = BatchState { tasks, outcomes: Vec::new() };
        assert(out@.outcomes =~= Seq::<(u64, Result<u64, Seq<char>>)>::empty());
        out
    }
}

/// What the worker does after item `index` of a batch ended: the outcome
/// is recorded whether the item was converted or failed; then the next
/// item starts, unless the batch was cancelled or this was its last item.
/// The items keep the settings taken when the batch started.
pub fn on_outcome(batch: &BatchState, index: usize, outcome: OutcomeView) -> (out: (BatchState, WorkerAction))
    requires
        index == batch@.outcomes.len(),
        index < batch@.tasks.len(),
    ensures
        out.0@.tasks == batch@.tasks,
        out.0@.outcomes == batch@.outcomes.push((batch@.tasks[index as int].0, result_view(outcome.result))),
        outcome.cancelled ==> (out.1 matches WorkerAction::BatchDone { cancelled } && cancelled),
        !outcome.cancelled && index + 1 < batch@.tasks.len() ==> starts(out.1, batch@.tasks, index + 1),
        !outcome.cancelled && index + 1 == batch@.tasks.len() ==> (out.1 matches WorkerAction::BatchDone {
            cancelled,
        } && !cancelled),
{
    assert(batch.tasks@.len() == tasks_view(batch.tasks@).len());
    let has_next = index < batch.tasks.len() - 1;
    let tasks = copy_tasks(&batch.tasks);
    let mut outcomes: Vec<(u64, Result<u64, String>)> = Vec::new();
    let mut i: usize = 0;
    while i < batch.outcomes.len()
        invariant
            i <= batch.outcomes@.len(),
            outcomes@.len() == i,
            forall|j: int| 0 <= j < i ==> (#[trigger] outcomes@[j]).0 == batch.outcomes@[j].0 && result_view(
                outcomes@[j].1,
            ) == result_view(batch.outcomes@[j].1),
        decreases batch.outcomes@.len() - i,
    {
        let copy = match &batch.outcomes[i].1 {
            Ok(n) => Ok(*n),
            Err(e) => Err(e.clone()),
        };
        outcomes.push((batch.outcomes[i].0, copy));
        i += 1;
    }
    assert(tasks_view(batch.tasks@)[index as int].0 == batch.tasks@[index as int].id);
    let id = batch.tasks[index].id;
    let ghost r = result_view(outcome.result);
    outcomes.push((id, outcome.result));
    let next = BatchState { tasks, outcomes };
    assert(next@.outcomes =~= batch@.outcomes.push((id, r)));
    let action = if outcome.cancelled {
        WorkerAction::BatchDone { cancelled: true }
    } else if has_next {
        assert(next.tasks@.len() == tasks_view(next.tasks@).len());
        start_item(&next.tasks, index + 1)
    } else {
        WorkerAction::BatchDone { cancelled: false }
    };
    (next, action)
}

/// Whether image `i` is exported: every image is, or only the selected one.
pub open spec fn exported(i: int, selected: Option<usize>, all: bool) -> bool {
    all || (selected matches Some(k) && k == i)
}

/// The id and the exceptions of each image.
pub open spec fn exceptions_view(v: Seq<(u64, Overrides)>) -> Seq<(u64, Seq<(FieldView, ValueView)>)> {
    v.map_values(|e: (u64, Overrides)| (e.0, e.1@))
}

/// The settings of each exported image, in order, or the error of the
/// first exported image whose exceptions no longer resolve.
pub open spec fn resolve_exported(
    common: SettingsView,
    ex: Seq<(u64, Seq<(FieldView, ValueView)>)>,
    selected: Option<usize>,
    all: bool,
) -> Result<Seq<(u64, SettingsView)>, SettingsErrorView>
    decreases ex.len(),
{
    if ex.len() == 0 {
        Ok(Seq::empty())
    } else {
        match resolve_exported(common, ex.drop_last(), selected, all) {
            Err(e) => Err(e),
            Ok(done) => if exported(ex.len() - 1, selected, all) {
                match spec_resolve(ex.last().1, common) {
                    Ok(s) => Ok(done.push((ex.last().0, s))),
                    Err(e) => Err(e),
                }
            } else {
                Ok(done)
            },
        }
    }
}

/// Whether settings export the side that shows the original image, which
/// has no output format.
pub open spec fn exports_original(s: SettingsView) -> bool {
    !(s.export_side < s.sides.len() && s.sides[s.export_side as int].format is Some)
}

/// What starting an export does.
#[derive(Debug)]
pub enum ExportPlan {
    /// Convert these images with these settings, in order.
    Start(Vec<BatchTask>),
    /// There is no image to export.
    Empty,
    /// The exceptions of an exported image no longer resolve.
    Refused(SettingsError),
    /// An exported image would export the original side.
    NoFormat,
}

/// An [`ExportPlan`] as values.
pub enum ExportPlanView {
    Start(Seq<(u64, SettingsView)>),
    Empty,
    Refused(SettingsErrorView),
    NoFormat,
}

impl View for ExportPlan {
    type V = ExportPlanView;

    open spec fn view(&self) -> ExportPlanView {
        match self {
            ExportPlan::Start(v) => ExportPlanView::Start(tasks_view(v@)),
            ExportPlan::Empty => ExportPlanView::Empty,
            ExportPlan::Refused(e) => ExportPlanView::Refused(e@),
            ExportPlan::NoFormat => ExportPlanView::NoFormat,
        }
    }
}

/// What starting an export does: each exported image is resolved in
/// order, and the first that fails stops the export; then an export of no
/// image does nothing, and one where an image would export the original
/// side is refused.
pub open spec fn spec_plan_export(
    common: SettingsView,
    ex: Seq<(u64, Seq<(FieldView, ValueView)>)>,
    selected: Option<usize>,
    all: bool,
) -> ExportPlanView {
    match resolve_exported(common, ex, selected, all) {
        Err(e) => ExportPlanView::Refused(e),
        Ok(t) => if t.len() == 0 {
            ExportPlanView::Empty
        } else if exists|i: int| 0 <= i < t.len() && exports_original(#[trigger] t[i].1) {
            ExportPlanView::NoFormat
        } else {
            ExportPlanView::Start(t)
        },
    }
}

proof fn lemma_resolve_exported_stops(
    common: SettingsView,
    ex: Seq<(u64, Seq<(FieldView, ValueView)>)>,
    selected: Option<usize>,
    all: bool,
    i: int,
)
    requires
        0 <= i <= ex.len(),
        resolve_exported(common, ex.take(i), selected, all) is Err,
    ensures
        resolve_exported(common, ex, selected, all) == resolve_exported(common, ex.take(i), selected, all),
    decreases ex.len() - i,
{
    if i == ex.len() {
        assert(ex.take(i) =~= ex);
    } else {
        let d = ex.drop_last();
        assert(d.take(i) =~= ex.take(i));
        lemma_resolve_exported_stops(common, d, selected, all, i);
    }
}

/// Plans an export of the images with ids and exceptions `images` over the
/// common settings; see [`spec_plan_export`].
pub fn plan_export(common: &Settings, images: &Vec<(u64, Overrides)>, selected: Option<usize>, all: bool) -> (out:
    ExportPlan)
    ensures
        out@ == spec_plan_export(common@, exceptions_view(images@), selected, all),
{
    let ghost ex = exceptions_view(images@);
    let mut tasks: Vec<BatchTask> = Vec::new();
    let mut i: usize = 0;
    assert(ex.take(0) =~= Seq::<(u64, Seq<(FieldView, ValueView)>)>::empty());
    assert(tasks_view(tasks@) =~= Seq::<(u64, SettingsView)>::empty());
    while i < images.len()
        invariant
            i <= images@.len(),
            ex == exceptions_view(images@),
            resolve_exported(common@, ex.take(i as int), selected, all) == Ok::<
                Seq<(u64, SettingsView)>,
                SettingsErrorView,
            >(tasks_view(tasks@)),
        decreases images@.len() - i,
    {
        let ghost prefix = ex.take(i + 1);
        assert(prefix.drop_last() =~= ex.take(i as int));
        assert(prefix.last() == (images@[i as int].0, images@[i as int].1@));
        let chosen = all || match selected {
            Some(k) => k == i,
            None => false,
        };
        if chosen {
            match images[i].1.resolve(common) {
                Ok(settings) => {
                    let ghost before = tasks@;
                    tasks.push(BatchTask { id: images[i].0, settings });
                    assert(tasks_view(tasks@) =~= tasks_view(before).push(
                        (images@[i as int].0, tasks@.last().settings@),
                    ));
                },
                Err(e) => {
                    proof {
                        lemma_resolve_exported_stops(common@, ex, selected, all, i + 1);
                    }
                    return ExportPlan::Refused(e);
                },
            }
        }
        i += 1;
    }
    assert(ex.take(i as int) =~= ex);
    if tasks.len() == 0 {
        return ExportPlan::Empty;
    }
    let ghost t = tasks_view(tasks@);
    let mut j: usize = 0;
    while j < tasks.len()
        invariant
            j <= tasks@.len(),
            t == tasks_view(tasks@),
            t.len() > 0,
            resolve_exported(common@, exceptions_view(images@), selected, all) == Ok::<
                Seq<(u64, SettingsView)>,
                SettingsErrorView,
            >(t),
            forall|k: int| 0 <= k < j ==> !exports_original(#[trigger] t[k].1),
        decreases tasks@.len() - j,
    {
        let side = tasks[j].settings.export_side;
        assert(t[j as int].1 == tasks@[j as int].settings@);
        let original = side >= 2 || tasks[j].settings.sides[side].format.is_none();
        if original {
            assert(exports_original(t[j as int].1));
            return ExportPlan::NoFormat;
        }
        j += 1;
    }
    ExportPlan::Start(tasks)
}

/// "Export all" exports every image whatever the selection: when every
/// image's exceptions resolve, each image is exported, in order, with its
/// resolved settings.
pub proof fn lemma_export_all_takes_every_image(
    common: SettingsView,
    ex: Seq<(u64, Seq<(FieldView, ValueView)>)>,
    selected: Option<usize>,
)
    requires
        forall|i: int| 0 <= i < ex.len() ==> (#[trigger] spec_resolve(ex[i].1, common)) is Ok,
    ensures
        resolve_exported(common, ex, selected, true) matches Ok(t) && t.len() == ex.len() && forall|i: int|
            0 <= i < ex.len() ==> (#[trigger] t[i]).0 == ex[i].0 && t[i].1 == spec_resolve(ex[i].1, common)->Ok_0,
    decreases ex.len(),
{
    if ex.len() > 0 {
        let d = ex.drop_last();
        assert forall|i: int| 0 <= i < d.len() implies (#[trigger] spec_resolve(d[i].1, common)) is Ok by {
            assert(d[i] == ex[i]);
        }
        lemma_export_all_takes_every_image(common, d, selected);
        assert(spec_resolve(ex[ex.len() - 1].1, common) is Ok);
        let t0 = resolve_exported(common, d, selected, true)->Ok_0;
        let t = resolve_exported(common, ex, selected, true)->Ok_0;
        assert forall|i: int| 0 <= i < ex.len() implies (#[trigger] t[i]).0 == ex[i].0 && t[i].1 == spec_resolve(
            ex[i].1,
            common,
        )->Ok_0 by {
            if i < d.len() {
                assert(t[i] == t0[i] && d[i] == ex[i]);
            }
        }
    }
}

/// Exporting the selected image alone exports at most that image: every
/// exported item is the selected one.
pub proof fn lemma_export_selected_takes_it_alone(
    common: SettingsView,
    ex: Seq<(u64, Seq<(FieldView, ValueView)>)>,
    selected: Option<usize>,
)
    requires
        resolve_exported(common, ex, selected, false) is Ok,
    ensures
        ({
            let t = resolve_exported(common, ex, selected, false)->Ok_0;
            &&& t.len() <= 1
            &&& t.len() == 1 ==> (selected matches Some(k) && k < ex.len() && t[0].0 == ex[k as int].0)
            &&& selected is None ==> t.len() == 0
        }),
    decreases ex.len(),
{
    if ex.len() > 0 {
        let d = ex.drop_last();
        lemma_export_selected_takes_it_alone(common, d, selected);
        let t0 = resolve_exported(common, d, selected, false)->Ok_0;
        if exported(ex.len() - 1, selected, false) {
            if t0.len() == 1 {
                assert(selected matches Some(k) && k < d.len());
            }
        }
    }
}

/// "Export all" starts one task per image, in order, whatever the
/// selection, when every image resolves to settings that export a format.
pub proof fn lemma_export_all_starts_every_image(
    common: SettingsView,
    ex: Seq<(u64, Seq<(FieldView, ValueView)>)>,
    selected: Option<usize>,
)
    requires
        ex.len() > 0,
        forall|i: int| 0 <= i < ex.len() ==> (#[trigger] spec_resolve(ex[i].1, common)) is Ok,
        forall|i: int| 0 <= i < ex.len() ==> !exports_original(#[trigger] spec_resolve(ex[i].1, common)->Ok_0),
    ensures
        spec_plan_export(common, ex, selected, true) matches ExportPlanView::Start(t) && t.len() == ex.len()
            && forall|i: int| 0 <= i < ex.len() ==> (#[trigger] t[i]).0 == ex[i].0,
{
    lemma_export_all_takes_every_image(common, ex, selected);
    let t = resolve_exported(common, ex, selected, true)->Ok_0;
    assert forall|i: int| 0 <= i < t.len() implies !exports_original(#[trigger] t[i].1) by {
        assert(t[i].1 == spec_resolve(ex[i].1, common)->Ok_0);
    }
}

} // verus!
