//! The decisions of the window on what the worker reports: which imported
//! paths join the list, which previews are stale, which thumbnails stay
//! in memory, and how a batch is counted.
use vstd::prelude::*;

verus! {

/// The most thumbnails kept in memory.
pub const MAX_THUMBNAILS: usize = 128;

/// What the window keeps of the image list and of the work under way:
/// the images (id and path), the selected one, the next id, the generation
/// of the latest preview request, the images whose thumbnail is kept (least
/// recently shown first), whether a batch runs, its images and its counts.
#[derive(Debug)]
pub struct Session {
    entries: Vec<(u64, String)>,
    selected: Option<usize>,
    running: bool,
    next_id: u64,
    generation: u64,
    thumbnails: Vec<u64>,
    batch_ids: Vec<u64>,
    done: u64,
    failed: u64,
}

/// A [`Session`] as values.
pub struct SessionView {
    pub entries: Seq<(u64, Seq<char>)>,
    pub selected: Option<usize>,
    pub running: bool,
    pub next_id: u64,
    pub generation: u64,
    pub thumbnails: Seq<u64>,
    pub batch_ids: Seq<u64>,
    pub done: u64,
    pub failed: u64,
}

/// The ids and paths of image entries.
pub open spec fn entries_view(v: Seq<(u64, String)>) -> Seq<(u64, Seq<char>)> {
    v.map_values(|e: (u64, String)| (e.0, e.1@))
}

/// No two images share an id or a path, and every id is below the next.
pub open spec fn distinct_entries(es: Seq<(u64, Seq<char>)>, next_id: u64) -> bool {
    &&& forall|i: int, j: int|
        #![trigger es[i], es[j]]
        0 <= i < j < es.len() ==> es[i].0 != es[j].0 && es[i].1 != es[j].1
    &&& forall|i: int| 0 <= i < es.len() ==> (#[trigger] es[i]).0 < next_id
}

/// What holds of every session: the images are distinct, the selection is
/// one of them, and at most [`MAX_THUMBNAILS`] thumbnails are kept.
pub open spec fn session_ok(s: SessionView) -> bool {
    &&& distinct_entries(s.entries, s.next_id)
    &&& (s.selected matches Some(i) ==> i < s.entries.len())
    &&& s.thumbnails.len() <= MAX_THUMBNAILS
}

impl Session {
    #[verifier::type_invariant]
    spec fn well_formed(self) -> bool {
        session_ok(self@)
    }
}

impl View for Session {
    type V = SessionView;

    closed spec fn view(&self) -> SessionView {
        SessionView {
            entries: entries_view(self.entries@),
            selected: self.selected,
            running: self.running,
            next_id: self.next_id,
            generation: self.generation,
            thumbnails: self.thumbnails@,
            batch_ids: self.batch_ids@,
            done: self.done,
            failed: self.failed,
        }
    }
}

/// What the worker reported, as the window's decisions need it.
pub enum EventView {
    /// An import found these paths.
    Imported(Vec<String>),
    /// The thumbnail of this image is ready.
    Inspected(u64),
    /// The preview of this generation is ready.
    Preview(u64),
    /// The preview of this generation failed.
    PreviewError(u64),
    /// A batch item ended, converted or not.
    Finished { id: u64, ok: bool },
    /// The batch ended.
    BatchDone { cancelled: bool },
}

/// What the window does after an event.
#[derive(Debug)]
pub enum Effect {
    /// Add this image to the list and ask for its thumbnail.
    Inspect { id: u64, path: String },
    /// Keep the thumbnail of this image.
    KeepThumbnail(u64),
    /// Free the thumbnail of this image.
    DropThumbnail(u64),
    /// Show the preview that came.
    ShowPreview,
    /// Show the preview's error.
    ShowPreviewError,
    /// Show the outcome of this batch item.
    Record(u64),
    /// This batch item was not converted: the batch was stopped first.
    Cancelled(u64),
    /// The batch ended, with its counts.
    BatchEnded { cancelled: bool, done: u64, failed: u64 },
}

/// An [`Effect`] as values.
pub enum EffectView {
    Inspect(u64, Seq<char>),
    KeepThumbnail(u64),
    DropThumbnail(u64),
    ShowPreview,
    ShowPreviewError,
    Record(u64),
    Cancelled(u64),
    BatchEnded(bool, u64, u64),
}

impl View for Effect {
    type V = EffectView;

    open spec fn view(&self) -> EffectView {
        match self {
            Effect::Inspect { id, path } => EffectView::Inspect(*id, path@),
            Effect::KeepThumbnail(id) => EffectView::KeepThumbnail(*id),
            Effect::DropThumbnail(id) => EffectView::DropThumbnail(*id),
            Effect::ShowPreview => EffectView::ShowPreview,
            Effect::ShowPreviewError => EffectView::ShowPreviewError,
            Effect::Record(id) => EffectView::Record(*id),
            Effect::Cancelled(id) => EffectView::Cancelled(*id),
            Effect::BatchEnded { cancelled, done, failed } => EffectView::BatchEnded(
                *cancelled,
                *done,
                *failed,
            ),
        }
    }
}

/// The effects as values.
pub open spec fn effects_view(v: Seq<Effect>) -> Seq<EffectView> {
    v.map_values(|e: Effect| e@)
}

/// Whether an entry has path `p`.
pub open spec fn listed(es: Seq<(u64, Seq<char>)>, p: Seq<char>) -> bool {
    exists|j: int| 0 <= j < es.len() && #[trigger] es[j].1 == p
}

/// Whether an entry has id `id`.
pub open spec fn has_id(es: Seq<(u64, Seq<char>)>, id: u64) -> bool {
    exists|j: int| 0 <= j < es.len() && #[trigger] es[j].0 == id
}

/// The entries after importing `ps` in order: each path joins with the
/// next id unless it is listed already (also by an earlier path of `ps`).
pub open spec fn import_all(es: Seq<(u64, Seq<char>)>, next: nat, ps: Seq<Seq<char>>) -> (
    Seq<(u64, Seq<char>)>,
    nat,
)
    decreases ps.len(),
{
    if ps.len() == 0 {
        (es, next)
    } else {
        let (e1, n1) = import_all(es, next, ps.drop_last());
        if listed(e1, ps.last()) {
            (e1, n1)
        } else {
            (e1.push((n1 as u64, ps.last())), n1 + 1)
        }
    }
}

/// `t` without `id`.
pub open spec fn without(t: Seq<u64>, id: u64) -> Seq<u64>
    decreases t.len(),
{
    if t.len() == 0 {
        t
    } else if t.last() == id {
        without(t.drop_last(), id)
    } else {
        without(t.drop_last(), id).push(t.last())
    }
}

/// The thumbnails that leave when more than [`MAX_THUMBNAILS`] are kept:
/// the least recently shown.
pub open spec fn evicted(t: Seq<u64>) -> Seq<u64> {
    if t.len() > 128 {
        t.take(t.len() - 128)
    } else {
        Seq::empty()
    }
}

/// The thumbnails that stay.
pub open spec fn kept(t: Seq<u64>) -> Seq<u64> {
    if t.len() > 128 {
        t.skip(t.len() - 128)
    } else {
        t
    }
}

/// The thumbnails after the one of image `id` is shown: it becomes the
/// most recent when the image is listed, then the least recently shown
/// leave beyond [`MAX_THUMBNAILS`].
pub open spec fn touched(es: Seq<(u64, Seq<char>)>, t: Seq<u64>, id: u64) -> Seq<u64> {
    if has_id(es, id) {
        without(t, id).push(id)
    } else {
        t
    }
}

/// What an event does to a session and which effects follow.
pub open spec fn spec_on_event(s: SessionView, e: EventView) -> (SessionView, Seq<EffectView>) {
    match e {
        EventView::Imported(ps) => {
            let (es, next) = import_all(s.entries, s.next_id as nat, ps@.map_values(|p: String| p@));
            let added = es.skip(s.entries.len() as int);
            let selected = if s.selected is None && es.len() > 0 {
                Some(0usize)
            } else {
                s.selected
            };
            (
                SessionView { entries: es, next_id: next as u64, selected, ..s },
                added.map_values(|a: (u64, Seq<char>)| EffectView::Inspect(a.0, a.1)),
            )
        },
        EventView::Inspected(id) => {
            let t = touched(s.entries, s.thumbnails, id);
            let keep = if has_id(s.entries, id) {
                seq![EffectView::KeepThumbnail(id)]
            } else {
                Seq::empty()
            };
            (
                SessionView { thumbnails: kept(t), ..s },
                keep + evicted(t).map_values(|d: u64| EffectView::DropThumbnail(d)),
            )
        },
        EventView::Preview(g) => (
            s,
            if g == s.generation {
                seq![EffectView::ShowPreview]
            } else {
                Seq::empty()
            },
        ),
        EventView::PreviewError(g) => (
            s,
            if g == s.generation {
                seq![EffectView::ShowPreviewError]
            } else {
                Seq::empty()
            },
        ),
        EventView::Finished { id, ok } => (
            SessionView {
                batch_ids: without(s.batch_ids, id),
                done: (s.done + 1) as u64,
                failed: (s.failed + if ok {
                    0int
                } else {
                    1int
                }) as u64,
                ..s
            },
            seq![EffectView::Record(id)],
        ),
        EventView::BatchDone { cancelled } => (
            SessionView { batch_ids: Seq::empty(), running: false, ..s },
            s.batch_ids.map_values(|i: u64| EffectView::Cancelled(i)).push(
                EffectView::BatchEnded(cancelled, s.done, s.failed),
            ),
        ),
    }
}

fn listed_exec(es: &Vec<(u64, String)>, p: &String) -> (out: bool)
    ensures
        out == listed(entries_view(es@), p@),
{
    let ghost v = entries_view(es@);
    let mut i: usize = 0;
    while i < es.len()
        invariant
            i <= es@.len(),
            v == entries_view(es@),
            forall|j: int| 0 <= j < i ==> #[trigger] v[j].1 != p@,
        decreases es@.len() - i,
    {
        if es[i].1 == *p {
            assert(v[i as int].1 == p@);
            return true;
        }
        i += 1;
    }
    false
}

fn has_id_exec(es: &Vec<(u64, String)>, id: u64) -> (out: bool)
    ensures
        out == has_id(entries_view(es@), id),
{
    let ghost v = entries_view(es@);
    let mut i: usize = 0;
    while i < es.len()
        invariant
            i <= es@.len(),
            v == entries_view(es@),
            forall|j: int| 0 <= j < i ==> #[trigger] v[j].0 != id,
        decreases es@.len() - i,
    {
        if es[i].0 == id {
            assert(v[i as int].0 == id);
            return true;
        }
        i += 1;
    }
    false
}

fn without_exec(t: &Vec<u64>, id: u64) -> (out: Vec<u64>)
    ensures
        out@ == without(t@, id),
{
    let mut out: Vec<u64> = Vec::new();
    let mut i: usize = 0;
    while i < t.len()
        invariant
            i <= t@.len(),
            out@ == without(t@.take(i as int), id),
        decreases t@.len() - i,
    {
        assert(t@.take(i + 1).drop_last() =~= t@.take(i as int));
        if t[i] != id {
            out.push(t[i]);
        }
        i += 1;
    }
    assert(t@.take(i as int) =~= t@);
    out
}

proof fn lemma_without_len(t: Seq<u64>, id: u64)
    ensures
        without(t, id).len() <= t.len(),
    decreases t.len(),
{
    if t.len() > 0 {
        lemma_without_len(t.drop_last(), id);
    }
}

impl Session {
    /// No image, no request, no batch.
    pub fn new() -> (out: Session)
        ensures
            out@.entries == Seq::<(u64, Seq<char>)>::empty(),
            out@.selected is None,
            !out@.running,
            out@.next_id == 0,
            out@.generation == 0,
            out@.thumbnails == Seq::<u64>::empty(),
            out@.batch_ids == Seq::<u64>::empty(),
            out@.done == 0,
            out@.failed == 0,
    {
        let out = Session {
            entries: Vec::new(),
            selected: None,
            running: false,
            next_id: 0,
            generation: 0,
            thumbnails: Vec::new(),
            batch_ids: Vec::new(),
            done: 0,
            failed: 0,
        };
        assert(out@.entries =~= Seq::<(u64, Seq<char>)>::empty());
        out
    }

    /// The generation of the latest preview request.
    pub fn generation(&self) -> (out: u64)
        ensures
            out == self@.generation,
    {
        self.generation
    }

    /// The id that the next imported image gets.
    pub fn next_id(&self) -> (out: u64)
        ensures
            out == self@.next_id,
    {
        self.next_id
    }

    /// Items of the running batch that ended, and those that failed.
    pub fn counts(&self) -> (out: (u64, u64))
        ensures
            out == (self@.done, self@.failed),
    {
        (self.done, self.failed)
    }

    /// A new preview request: results of older ones are stale from now on.
    pub fn next_generation(&mut self) -> (out: u64)
        requires
            old(self)@.generation < u64::MAX,
        ensures
            out == old(self)@.generation + 1,
            final(self)@ == (SessionView { generation: out, ..old(self)@ }),
    {
        proof {
            use_type_invariant(&*self);
        }
        self.generation = self.generation + 1;
        self.generation
    }

    /// The selected image, if any.
    pub fn selected(&self) -> (out: Option<usize>)
        ensures
            out == self@.selected,
            session_ok(self@),
    {
        proof {
            use_type_invariant(self);
        }
        self.selected
    }

    /// Whether a batch runs.
    pub fn running(&self) -> (out: bool)
        ensures
            out == self@.running,
    {
        self.running
    }

    /// Selects image `index`; `false`, with nothing changed, when there is
    /// no such image.
    pub fn select(&mut self, index: usize) -> (out: bool)
        ensures
            out == (index < old(self)@.entries.len()),
            out ==> final(self)@ == (SessionView { selected: Some(index), ..old(self)@ }),
            !out ==> final(self)@ == old(self)@,
    {
        proof {
            use_type_invariant(&*self);
        }
        if index < self.entries.len() {
            self.selected = Some(index);
            true
        } else {
            false
        }
    }

    /// Takes image `index` off the list, unless a batch runs or there is no
    /// such image (`false`, nothing changed). The image selected next is the
    /// one that took its place, else the new last one, or none when the
    /// list is empty. Its path may be imported again.
    pub fn remove(&mut self, index: usize) -> (out: bool)
        ensures
            out == (!old(self)@.running && index < old(self)@.entries.len()),
            out ==> final(self)@ == (SessionView {
                entries: old(self)@.entries.remove(index as int),
                selected: if old(self)@.entries.len() == 1 {
                    None
                } else if index + 1 < old(self)@.entries.len() {
                    Some(index)
                } else {
                    Some((old(self)@.entries.len() - 2) as usize)
                },
                ..old(self)@
            }),
            !out ==> final(self)@ == old(self)@,
            session_ok(final(self)@),
    {
        proof {
            use_type_invariant(&*self);
        }
        if self.running || index >= self.entries.len() {
            return false;
        }
        let ghost before = self.entries@;
        let ghost ev = entries_view(before);
        self.selected = None;
        let mut entries: Vec<(u64, String)> = Vec::new();
        std::mem::swap(&mut entries, &mut self.entries);
        let _ = entries.remove(index);
        proof {
            let r = entries_view(entries@);
            assert(r =~= ev.remove(index as int));
            assert forall|i: int, j: int| #![trigger r[i], r[j]] 0 <= i < j < r.len() implies r[i].0 != r[j].0
                && r[i].1 != r[j].1 by {
                let a = if i < index { i } else { i + 1 };
                let b = if j < index { j } else { j + 1 };
                assert(r[i] == ev[a] && r[j] == ev[b]);
            }
            assert forall|i: int| 0 <= i < r.len() implies (#[trigger] r[i]).0 < self.next_id by {
                let a = if i < index { i } else { i + 1 };
                assert(r[i] == ev[a]);
            }
        }
        self.entries = entries;
        let n = self.entries.len();
        self.selected = if n == 0 {
            None
        } else if index < n {
            Some(index)
        } else {
            Some(n - 1)
        };
        proof {
            use_type_invariant(&*self);
        }
        true
    }

    /// Empties the list, the selection and the thumbnails, unless a batch
    /// runs (`false`, nothing changed).
    pub fn clear(&mut self) -> (out: bool)
        ensures
            out == !old(self)@.running,
            out ==> final(self)@ == (SessionView {
                entries: Seq::empty(),
                selected: None,
                thumbnails: Seq::empty(),
                ..old(self)@
            }),
            !out ==> final(self)@ == old(self)@,
    {
        proof {
            use_type_invariant(&*self);
        }
        if self.running {
            return false;
        }
        self.selected = None;
        self.entries = Vec::new();
        self.thumbnails = Vec::new();
        assert(entries_view(self.entries@) =~= Seq::<(u64, Seq<char>)>::empty());
        true
    }

    /// A batch of these images starts, with its counts at zero.
    pub fn start_batch(&mut self, ids: Vec<u64>)
        ensures
            final(self)@ == (SessionView { batch_ids: ids@, done: 0, failed: 0, running: true, ..old(self)@ }),
    {
        proof {
            use_type_invariant(&*self);
        }
        self.batch_ids = ids;
        self.done = 0;
        self.failed = 0;
        self.running = true;
    }

    fn import(&mut self, paths: Vec<String>) -> (out: Vec<Effect>)
        requires
            old(self)@.next_id + paths@.len() <= u64::MAX,
        ensures
            (final(self)@, effects_view(out@)) == spec_on_event(old(self)@, EventView::Imported(paths)),
            final(self)@.entries.take(old(self)@.entries.len() as int) == old(self)@.entries,
            forall|j: int|
                old(self)@.entries.len() <= j < final(self)@.entries.len() ==> !listed(
                    old(self)@.entries,
                    #[trigger] final(self)@.entries[j].1,
                ),
    {
        proof {
            use_type_invariant(&*self);
        }
        let ghost s0 = self@;
        let ghost ps = paths@.map_values(|p: String| p@);
        let mut out: Vec<Effect> = Vec::new();
        let mut i: usize = 0;
        while i < paths.len()
            invariant
                i <= paths@.len(),
                ps == paths@.map_values(|p: String| p@),
                s0.next_id + paths@.len() <= u64::MAX,
                s0.thumbnails.len() <= MAX_THUMBNAILS,
                (self@.entries, self@.next_id as nat) == import_all(s0.entries, s0.next_id as nat, ps.take(i as int)),
                self@.next_id <= s0.next_id + i,
                self@ == (SessionView { entries: self@.entries, next_id: self@.next_id, ..s0 }),
                session_ok(self@),
                self@.entries.len() >= s0.entries.len(),
                self@.entries.take(s0.entries.len() as int) == s0.entries,
                forall|j: int|
                    s0.entries.len() <= j < self@.entries.len() ==> !listed(s0.entries, #[trigger] self@.entries[j].1),
                effects_view(out@) == self@.entries.skip(s0.entries.len() as int).map_values(
                    |a: (u64, Seq<char>)| EffectView::Inspect(a.0, a.1),
                ),
            decreases paths@.len() - i,
        {
            let p = paths[i].clone();
            assert(ps.take(i + 1).drop_last() =~= ps.take(i as int));
            assert(ps.take(i + 1).last() == p@);
            let ghost before = self@.entries;
            if !listed_exec(&self.entries, &p) {
                let id = self.next_id;
                let sel = self.selected;
                self.selected = None;
                self.next_id = self.next_id + 1;
                let mut entries: Vec<(u64, String)> = Vec::new();
                std::mem::swap(&mut entries, &mut self.entries);
                entries.push((id, p.clone()));
                proof {
                    let r = entries_view(entries@);
                    assert(r =~= before.push((id, p@)));
                    assert forall|a: int, b: int| #![trigger r[a], r[b]] 0 <= a < b < r.len() implies r[a].0
                        != r[b].0 && r[a].1 != r[b].1 by {
                        if b == before.len() {
                            assert(r[a] == before[a]);
                            assert(before[a].1 != p@);
                        } else {
                            assert(r[a] == before[a] && r[b] == before[b]);
                        }
                    }
                    assert forall|a: int| 0 <= a < r.len() implies (#[trigger] r[a]).0 < self.next_id by {
                        if a < before.len() {
                            assert(r[a] == before[a]);
                        }
                    }
                }
                self.entries = entries;
                self.selected = sel;
                let ghost prev = out@;
                out.push(Effect::Inspect { id, path: p });
                assert(out@ =~= prev.push(Effect::Inspect { id, path: p }));
                assert(effects_view(out@) =~= effects_view(prev).push(EffectView::Inspect(id, p@)));
                assert(self@.entries =~= before.push((id, p@)));
                assert(self@.entries.take(s0.entries.len() as int) =~= s0.entries);
                assert forall|j: int|
                    s0.entries.len() <= j < self@.entries.len() implies !listed(
                        s0.entries,
                        #[trigger] self@.entries[j].1,
                    ) by {
                    if j == before.len() {
                        if listed(s0.entries, p@) {
                            let k = choose|k: int| 0 <= k < s0.entries.len() && #[trigger] s0.entries[k].1 == p@;
                            assert(before[k] == s0.entries[k]);
                        }
                    } else {
                        assert(self@.entries[j] == before[j]);
                    }
                }
                assert(self@.entries.skip(s0.entries.len() as int) =~= before.skip(
                    s0.entries.len() as int,
                ).push((id, p@)));
                assert(effects_view(out@) =~= self@.entries.skip(s0.entries.len() as int).map_values(
                    |a: (u64, Seq<char>)| EffectView::Inspect(a.0, a.1),
                ));
            }
            i += 1;
        }
        assert(ps.take(i as int) =~= ps);
        if self.selected.is_none() && self.entries.len() > 0 {
            self.selected = Some(0);
        }
        out
    }

    fn inspected(&mut self, id: u64) -> (out: Vec<Effect>)
        ensures
            (final(self)@, effects_view(out@)) == spec_on_event(old(self)@, EventView::Inspected(id)),
    {
        proof {
            use_type_invariant(&*self);
        }
        let ghost s0 = self@;
        let mut out: Vec<Effect> = Vec::new();
        let mut t = if has_id_exec(&self.entries, id) {
            out.push(Effect::KeepThumbnail(id));
            let mut w = without_exec(&self.thumbnails, id);
            w.push(id);
            w
        } else {
            let mut w: Vec<u64> = Vec::new();
            let mut k: usize = 0;
            while k < self.thumbnails.len()
                invariant
                    k <= self.thumbnails@.len(),
                    w@ == self.thumbnails@.take(k as int),
                decreases self.thumbnails@.len() - k,
            {
                w.push(self.thumbnails[k]);
                k += 1;
                assert(w@ =~= self.thumbnails@.take(k as int));
            }
            assert(self.thumbnails@.take(k as int) =~= self.thumbnails@);
            w
        };
        let ghost tt = t@;
        assert(tt == touched(s0.entries, s0.thumbnails, id));
        let ghost keep = effects_view(out@);
        let extra: usize = if t.len() > MAX_THUMBNAILS {
            t.len() - MAX_THUMBNAILS
        } else {
            0
        };
        let mut i: usize = 0;
        while i < extra
            invariant
                i <= extra,
                extra <= tt.len(),
                extra == (if tt.len() > 128 { tt.len() - 128 } else { 0 }),
                t@ == tt,
                effects_view(out@) == keep + tt.take(i as int).map_values(|d: u64| EffectView::DropThumbnail(d)),
            decreases extra - i,
        {
            let ghost prev = out@;
            out.push(Effect::DropThumbnail(t[i]));
            assert(effects_view(out@) =~= effects_view(prev).push(EffectView::DropThumbnail(tt[i as int])));
            assert(tt.take(i + 1) =~= tt.take(i as int).push(tt[i as int]));
            i += 1;
            assert(effects_view(out@) =~= keep + tt.take(i as int).map_values(|d: u64| EffectView::DropThumbnail(d)));
        }
        let mut rest: Vec<u64> = Vec::new();
        let mut j: usize = extra;
        while j < t.len()
            invariant
                extra <= j <= tt.len(),
                t@ == tt,
                rest@ == tt.subrange(extra as int, j as int),
            decreases tt.len() - j,
        {
            rest.push(t[j]);
            j += 1;
            assert(rest@ =~= tt.subrange(extra as int, j as int));
        }
        assert(rest@ =~= kept(tt));
        proof {
            if tt.len() <= 128 {
                assert(tt.take(0) =~= evicted(tt));
            }
        }
        self.thumbnails = rest;
        assert(self@ == (SessionView { thumbnails: kept(tt), ..s0 }));
        out
    }

}

    /// What an event does to the session, and what the window does next; see
    /// [`spec_on_event`]. A stale preview result leaves the session as it
    /// was; an import adds only paths that are not listed yet; at most
    /// [`MAX_THUMBNAILS`] thumbnails stay, the least recently shown leaving
    /// first; each ended batch item counts once, and once more as failed
    /// when it failed.
    pub fn on_event(state: &mut Session, event: EventView) -> (out: Vec<Effect>)
        requires
            event matches EventView::Imported(ps) ==> old(state)@.next_id + ps@.len() <= u64::MAX,
            event is Finished ==> old(state)@.done < u64::MAX && old(state)@.failed < u64::MAX,
        ensures
            (final(state)@, effects_view(out@)) == spec_on_event(old(state)@, event),
            session_ok(final(state)@),
            event matches EventView::Finished { ok, .. } ==> final(state)@.done == old(state)@.done + 1
                && final(state)@.failed == old(state)@.failed + if ok {
                0int
            } else {
                1int
            },
            (event is Preview && event->Preview_0 != old(state)@.generation) ==> final(state)@ == old(state)@
                && out@.len() == 0,
            (event is PreviewError && event->PreviewError_0 != old(state)@.generation) ==> final(state)@
                == old(state)@ && out@.len() == 0,
            event is Imported ==> final(state)@.entries.take(old(state)@.entries.len() as int)
                == old(state)@.entries,
            event is Imported ==> forall|j: int|
                old(state)@.entries.len() <= j < final(state)@.entries.len() ==> !listed(
                    old(state)@.entries,
                    #[trigger] final(state)@.entries[j].1,
                ),
    {
        proof {
            use_type_invariant(&*state);
        }
        let out = match event {
            EventView::Imported(paths) => state.import(paths),
            EventView::Inspected(id) => {
                let out = state.inspected(id);
                proof {
                    let t = touched(old(state)@.entries, old(state)@.thumbnails, id);
                    if t.len() > 128 {
                        assert(kept(t).len() == 128);
                    }
                }
                out
            },
            EventView::Preview(g) => {
                if g == state.generation {
                    let out = vec![Effect::ShowPreview];
                    assert(effects_view(out@) =~= seq![EffectView::ShowPreview]);
                    out
                } else {
                    let out: Vec<Effect> = Vec::new();
                    assert(effects_view(out@) =~= Seq::<EffectView>::empty());
                    out
                }
            },
            EventView::PreviewError(g) => {
                if g == state.generation {
                    let out = vec![Effect::ShowPreviewError];
                    assert(effects_view(out@) =~= seq![EffectView::ShowPreviewError]);
                    out
                } else {
                    let out: Vec<Effect> = Vec::new();
                    assert(effects_view(out@) =~= Seq::<EffectView>::empty());
                    out
                }
            },
            EventView::Finished { id, ok } => {
                state.batch_ids = without_exec(&state.batch_ids, id);
                state.done = state.done + 1;
                if !ok {
                    state.failed = state.failed + 1;
                }
                let out = vec![Effect::Record(id)];
                assert(effects_view(out@) =~= seq![EffectView::Record(id)]);
                out
            },
            EventView::BatchDone { cancelled } => {
                let mut out: Vec<Effect> = Vec::new();
                let mut i: usize = 0;
                while i < state.batch_ids.len()
                    invariant
                        i <= state.batch_ids@.len(),
                        state@ == old(state)@,
                        effects_view(out@) == state.batch_ids@.take(i as int).map_values(
                            |b: u64| EffectView::Cancelled(b),
                        ),
                    decreases state.batch_ids@.len() - i,
                {
                    let ghost prev = out@;
                    out.push(Effect::Cancelled(state.batch_ids[i]));
                    assert(effects_view(out@) =~= effects_view(prev).push(
                        EffectView::Cancelled(state.batch_ids@[i as int]),
                    ));
                    assert(state.batch_ids@.take(i + 1) =~= state.batch_ids@.take(i as int).push(
                        state.batch_ids@[i as int],
                    ));
                    i += 1;
                    assert(effects_view(out@) =~= state.batch_ids@.take(i as int).map_values(
                        |b: u64| EffectView::Cancelled(b),
                    ));
                }
                assert(state.batch_ids@.take(i as int) =~= state.batch_ids@);
                out.push(Effect::BatchEnded { cancelled, done: state.done, failed: state.failed });
                state.batch_ids = Vec::new();
                state.running = false;
                assert(state@.batch_ids =~= Seq::<u64>::empty());
                assert(effects_view(out@) =~= old(state)@.batch_ids.map_values(
                    |b: u64| EffectView::Cancelled(b),
                ).push(EffectView::BatchEnded(cancelled, old(state)@.done, old(state)@.failed)));
                out
            },
        };
        proof {
            use_type_invariant(&*state);
        }
        out
    }

} // verus!
