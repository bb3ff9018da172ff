use vstd::prelude::*;

use crate::image_io::{
    ascii_upper, format_for_upper, format_from_str, is_ascii_text, uppercase_of, ExportFormat,
};

verus! {

/// Where one image of the workspace stands: not loaded yet, loaded and waiting
/// for its first preview (`Processing` holds the original), shown (the
/// original and its display handle), or failed with a message.
pub enum LoadState<I, T> {
    NotLoaded,
    Processing(I),
    Loaded { original: I, display: T },
    Failed(String),
}

/// Whether an image has finished loading, one way or the other.
pub open spec fn is_finished<I, T>(state: LoadState<I, T>) -> bool {
    state is Loaded || state is Failed
}

/// The loaded original that a state holds, if any.
pub open spec fn original_of<I, T>(state: LoadState<I, T>) -> Option<I> {
    match state {
        LoadState::Processing(original) => Some(original),
        LoadState::Loaded { original, .. } => Some(original),
        _ => None,
    }
}

/// The number of images that have finished loading.
pub open spec fn finished_count<P, I, T>(images: Seq<(P, LoadState<I, T>)>) -> nat
    decreases images.len(),
{
    if images.len() == 0 {
        0
    } else {
        finished_count(images.drop_last()) + if is_finished(images.last().1) {
            1nat
        } else {
            0nat
        }
    }
}

/// The index after a step forward: the next image, or the same one at the end.
pub open spec fn next_index(current: int, len: int) -> int {
    if current + 1 < len {
        current + 1
    } else {
        current
    }
}

/// The index after a step back: the previous image, or the same one at the start.
pub open spec fn prev_index(current: int) -> int {
    if current > 0 {
        current - 1
    } else {
        current
    }
}

/// The workspace: the images being worked on, which one is shown, how many
/// have finished loading, whether work is running, and the export format.
/// `P` is the type of a path, `I` of a loaded original and `T` of a display
/// handle.
pub struct AppState<P, I, T> {
    pub currently_busy: bool,
    pub export_format: String,
    pub current_image: usize,
    pub images: Vec<(P, LoadState<I, T>)>,
    pub loaded_count: usize,
}

/// What to do with a freshly rendered preview.
#[derive(Clone, Copy, Debug, PartialEq, Eq, Structural)]
pub enum PreviewKind {
    /// The image waits for its first preview: create a display for it.
    CreateDisplay,
    /// The image is shown already: refresh its display.
    RefreshDisplay,
    /// The image is not waiting for a preview: drop it.
    Discard,
}

/// What the status bar reports.
#[derive(Clone, Copy, Debug, PartialEq, Eq, Structural)]
pub enum Status {
    /// Work is running; `done` of `total` images have finished loading.
    Loading { done: usize, total: usize },
    /// Image `position` (counted from 1) of `total` is shown.
    Viewing { position: usize, total: usize },
    /// Nothing has been loaded.
    Ready,
}

/// A scroll step, as the navigation reads it.
#[derive(Clone, Copy, Debug, PartialEq, Eq, Structural)]
pub enum Scroll {
    /// Scrolled up: go back.
    Back,
    /// Scrolled down: go forward.
    Forward,
    /// No scrolling.
    Still,
}

impl<P, I, T> AppState<P, I, T> {
    /// The shown index is in range (or 0 when there are no images).
    pub open spec fn wf(&self) -> bool {
        self.current_image == 0 || self.current_image < self.images@.len()
    }

    /// The counter of finished images agrees with the images.
    pub open spec fn counts_consistent(&self) -> bool {
        self.loaded_count == finished_count(self.images@)
    }

    /// The state of the image at `idx`.
    pub open spec fn state_at(&self, idx: int) -> LoadState<I, T> {
        self.images@[idx].1
    }

    /// The shown image is loaded and displayed.
    pub open spec fn current_is_loaded(&self) -> bool {
        self.current_image < self.images@.len() && self.state_at(self.current_image as int) is Loaded
    }
}


proof fn lemma_finished_count_update<P, I, T>(
    s: Seq<(P, LoadState<I, T>)>,
    i: int,
    x: (P, LoadState<I, T>),
)
    requires
        0 <= i < s.len(),
    ensures
        finished_count(s.update(i, x)) + (if is_finished(s[i].1) { 1int } else { 0int })
            == finished_count(s) + (if is_finished(x.1) { 1int } else { 0int }),
    decreases s.len(),
{
    if i == s.len() - 1 {
        assert(s.update(i, x).drop_last() =~= s.drop_last());
    } else {
        lemma_finished_count_update(s.drop_last(), i, x);
        assert(s.update(i, x).drop_last() =~= s.drop_last().update(i, x));
    }
}

proof fn lemma_finished_count_bounds<P, I, T>(s: Seq<(P, LoadState<I, T>)>)
    ensures
        finished_count(s) <= s.len(),
        finished_count(s) == s.len() <==> forall|j: int|
            0 <= j < s.len() ==> #[trigger] is_finished(s[j].1),
        finished_count(s) == 0 <==> forall|j: int|
            0 <= j < s.len() ==> !#[trigger] is_finished(s[j].1),
    decreases s.len(),
{
    if s.len() > 0 {
        let t = s.drop_last();
        lemma_finished_count_bounds(t);
        assert forall|j: int| 0 <= j < t.len() implies t[j] == s[j] by {}
        if finished_count(s) == s.len() {
            assert forall|j: int| 0 <= j < s.len() implies #[trigger] is_finished(s[j].1) by {
                if j < t.len() {
                    assert(t[j] == s[j]);
                }
            }
        }
        if forall|j: int| 0 <= j < s.len() ==> #[trigger] is_finished(s[j].1) {
            assert forall|j: int| 0 <= j < t.len() implies #[trigger] is_finished(t[j].1) by {
                assert(t[j] == s[j]);
                assert(is_finished(s[j].1));
            }
            assert(is_finished(s[s.len() - 1].1));
        }
        if finished_count(s) == 0 {
            assert forall|j: int| 0 <= j < s.len() implies !#[trigger] is_finished(s[j].1) by {
                if j < t.len() {
                    assert(t[j] == s[j]);
                }
            }
        }
        if forall|j: int| 0 <= j < s.len() ==> !#[trigger] is_finished(s[j].1) {
            assert forall|j: int| 0 <= j < t.len() implies !#[trigger] is_finished(t[j].1) by {
                assert(t[j] == s[j]);
                assert(!is_finished(s[j].1));
            }
            assert(!is_finished(s[s.len() - 1].1));
        }
    }
}


impl<P, I, T> Default for AppState<P, I, T> {
    /// An empty workspace that exports PNG.
    fn default() -> (s: Self)
        ensures
            !s.currently_busy,
            s.export_format@ == "PNG"@,
            s.current_image == 0,
            s.images@.len() == 0,
            s.loaded_count == 0,
    {
        AppState {
            currently_busy: false,
            export_format: String::from_str("PNG"),
            current_image: 0,
            images: Vec::new(),
            loaded_count: 0,
        }
    }
}

impl<P, I, T> AppState<P, I, T> {
    /// Starts a new batch: forgets the previous images and marks the
    /// workspace busy.
    fn reset_workspace(&mut self)
        ensures
            final(self).images@.len() == 0,
            final(self).current_image == 0,
            final(self).loaded_count == 0,
            final(self).currently_busy,
            final(self).export_format == old(self).export_format,
    {
        self.images.clear();
        self.current_image = 0;
        self.loaded_count = 0;
        self.currently_busy = true;
    }

    /// Replaces the workspace with the given files, none of them loaded yet,
    /// and marks it busy; an empty list changes nothing. Returns whether the
    /// files were taken, in which case each of them is to be loaded.
    pub fn open_files(&mut self, paths: Vec<P>) -> (opened: bool)
        ensures
            opened == (paths@.len() > 0),
            !opened ==> *final(self) == *old(self),
            opened ==> {
                &&& final(self).images@.len() == paths@.len()
                &&& forall|i: int|
                    0 <= i < paths@.len() ==> #[trigger] final(self).images@[i] == (
                        paths@[i],
                        LoadState::<I, T>::NotLoaded,
                    )
                &&& final(self).current_image == 0
                &&& final(self).loaded_count == 0
                &&& final(self).currently_busy
                &&& final(self).export_format == old(self).export_format
            },
            opened ==> final(self).wf() && final(self).counts_consistent(),
    {
        if paths.len() == 0 {
            return false;
        }
        self.reset_workspace();
        let ghost all = paths@;
        let mut images: Vec<(P, LoadState<I, T>)> = Vec::new();
        for p in it: paths.into_iter()
            invariant
                it.seq() == all,
                images@.len() == it.index(),
                forall|j: int|
                    0 <= j < it.index() ==> #[trigger] images@[j] == (
                        all[j],
                        LoadState::<I, T>::NotLoaded,
                    ),
        {
            images.push((p, LoadState::NotLoaded));
        }
        self.images = images;
        proof {
            lemma_finished_count_bounds(self.images@);
        }
        true
    }

    /// Steps to the next image, staying on the last one.
    pub fn go_next(&mut self)
        ensures
            final(self).current_image == next_index(
                old(self).current_image as int,
                old(self).images@.len() as int,
            ),
            final(self).images == old(self).images,
            final(self).loaded_count == old(self).loaded_count,
            final(self).currently_busy == old(self).currently_busy,
            final(self).export_format == old(self).export_format,
            old(self).wf() ==> final(self).wf(),
    {
        if self.images.len() > 0 && self.current_image < self.images.len() - 1 {
            self.current_image = self.current_image + 1;
        }
    }

    /// Steps to the previous image, staying on the first one.
    pub fn go_prev(&mut self)
        ensures
            final(self).current_image == prev_index(old(self).current_image as int),
            final(self).images == old(self).images,
            final(self).loaded_count == old(self).loaded_count,
            final(self).currently_busy == old(self).currently_busy,
            final(self).export_format == old(self).export_format,
            old(self).wf() ==> final(self).wf(),
    {
        if self.current_image > 0 {
            self.current_image = self.current_image - 1;
        }
    }
}


impl<P, I, T> AppState<P, I, T> {
    /// The image whose preview should be rendered again: the shown one, if it
    /// is loaded.
    pub fn update_preview(&self) -> (target: Option<usize>)
        ensures
            target is Some <==> self.current_image < self.images@.len()
                && self.images@[self.current_image as int].1 is Loaded,
            target matches Some(idx) ==> idx == self.current_image
                && self.images@[idx as int].1 is Loaded,
            self.current_image < self.images@.len() && (self.images@[self.current_image as int].1 is Failed
                || self.images@[self.current_image as int].1 is NotLoaded
                || self.images@[self.current_image as int].1 is Processing) ==> target is None,
    {
        if self.current_image < self.images.len() {
            if let LoadState::Loaded { .. } = &self.images[self.current_image].1 {
                return Some(self.current_image);
            }
        }
        None
    }

    /// Starts exporting the shown image if it is loaded: marks the workspace
    /// busy and returns the image and the format chosen by `export_format`.
    /// Otherwise nothing changes.
    pub fn start_export(&mut self) -> (job: Option<(usize, ExportFormat)>)
        ensures
            job is Some <==> old(self).current_image < old(self).images@.len()
                && old(self).images@[old(self).current_image as int].1 is Loaded,
            job matches Some((idx, format)) ==> {
                &&& idx == old(self).current_image
                &&& old(self).images@[idx as int].1 is Loaded
                &&& format == format_for_upper(uppercase_of(old(self).export_format@)).0
                &&& final(self).currently_busy
                &&& final(self).images == old(self).images
                &&& final(self).current_image == old(self).current_image
                &&& final(self).loaded_count == old(self).loaded_count
                &&& final(self).export_format == old(self).export_format
            },
            job is None ==> *final(self) == *old(self),
            old(self).current_image < old(self).images@.len() && (old(self).images@[old(
                self,
            ).current_image as int].1 is Failed || old(self).images@[old(
                self,
            ).current_image as int].1 is NotLoaded || old(self).images@[old(
                self,
            ).current_image as int].1 is Processing) ==> job is None && *final(self) == *old(self),
            job is Some && is_ascii_text(old(self).export_format@) ==> job == Some(
                (
                    old(self).current_image,
                    format_for_upper(
                        old(self).export_format@.map_values(|c: char| ascii_upper(c)),
                    ).0,
                ),
            ),
    {
        match self.update_preview() {
            Some(idx) => {
                let (format, _) = format_from_str(self.export_format.as_str());
                self.currently_busy = true;
                Some((idx, format))
            },
            None => None,
        }
    }

    /// Records the outcome of loading image `idx`. A loaded original waits for
    /// its first preview, and the caller is to render it (the result is
    /// `true`); a failure finishes the image, and once as many images have
    /// finished as there are, the workspace is no longer busy.
    pub fn on_image_loaded(&mut self, idx: usize, result: Result<I, String>) -> (render: bool)
        requires
            idx < old(self).images@.len(),
            result is Err ==> old(self).loaded_count < usize::MAX,
        ensures
            render == result is Ok,
            final(self).current_image == old(self).current_image,
            final(self).export_format == old(self).export_format,
            final(self).images@.len() == old(self).images@.len(),
            match result {
                Ok(original) => {
                    &&& final(self).images@ == old(self).images@.update(
                        idx as int,
                        (old(self).images@[idx as int].0, LoadState::Processing(original)),
                    )
                    &&& final(self).loaded_count == old(self).loaded_count
                    &&& final(self).currently_busy == old(self).currently_busy
                },
                Err(message) => {
                    &&& final(self).images@ == old(self).images@.update(
                        idx as int,
                        (old(self).images@[idx as int].0, LoadState::Failed(message)),
                    )
                    &&& final(self).loaded_count == old(self).loaded_count + 1
                    &&& final(self).currently_busy == (old(self).currently_busy
                        && old(self).loaded_count + 1 < old(self).images@.len())
                },
            },
            old(self).wf() ==> final(self).wf(),
            old(self).counts_consistent() && !is_finished(old(self).state_at(idx as int))
                ==> final(self).counts_consistent(),
            old(self).counts_consistent() && !is_finished(old(self).state_at(idx as int)) && (
            forall|j: int|
                0 <= j < final(self).images@.len() ==> #[trigger] is_finished(
                    final(self).images@[j].1,
                )) ==> !final(self).currently_busy,
    {
        let ghost before = self.images@;
        match result {
            Ok(original) => {
                self.images[idx].1 = LoadState::Processing(original);
                proof {
                    lemma_finished_count_update(before, idx as int, self.images@[idx as int]);
                    lemma_finished_count_bounds(self.images@);
                }
                true
            },
            Err(message) => {
                self.images[idx].1 = LoadState::Failed(message);
                self.loaded_count = self.loaded_count + 1;
                if self.loaded_count >= self.images.len() {
                    self.currently_busy = false;
                }
                proof {
                    lemma_finished_count_update(before, idx as int, self.images@[idx as int]);
                    lemma_finished_count_bounds(self.images@);
                }
                false
            },
        }
    }

    /// What to do with a preview rendered for image `idx`.
    pub fn preview_kind(&self, idx: usize) -> (kind: PreviewKind)
        ensures
            kind == if idx < self.images@.len() && self.state_at(idx as int) is Processing {
                PreviewKind::CreateDisplay
            } else if idx < self.images@.len() && self.state_at(idx as int) is Loaded {
                PreviewKind::RefreshDisplay
            } else {
                PreviewKind::Discard
            },
    {
        if idx < self.images.len() {
            match &self.images[idx].1 {
                LoadState::Processing(_) => PreviewKind::CreateDisplay,
                LoadState::Loaded { .. } => PreviewKind::RefreshDisplay,
                _ => PreviewKind::Discard,
            }
        } else {
            PreviewKind::Discard
        }
    }

    /// Gives image `idx`, which waits for its first preview, the display made
    /// from it: the image is then loaded and finished, and once as many
    /// images have finished as there are, the workspace is no longer busy.
    /// For an image in any other state nothing changes and the display is
    /// dropped.
    pub fn attach_display(&mut self, idx: usize, display: T) -> (attached: bool)
        requires
            idx < old(self).images@.len() && old(self).state_at(idx as int) is Processing
                ==> old(self).loaded_count < usize::MAX,
        ensures
            attached == (idx < old(self).images@.len() && old(self).state_at(
                idx as int,
            ) is Processing),
            attached ==> {
                &&& final(self).images@ == old(self).images@.update(
                    idx as int,
                    (
                        old(self).images@[idx as int].0,
                        LoadState::Loaded {
                            original: old(self).state_at(idx as int)->Processing_0,
                            display,
                        },
                    ),
                )
                &&& final(self).loaded_count == old(self).loaded_count + 1
                &&& final(self).currently_busy == (old(self).currently_busy
                    && old(self).loaded_count + 1 < old(self).images@.len())
                &&& final(self).current_image == old(self).current_image
                &&& final(self).export_format == old(self).export_format
            },
            !attached ==> *final(self) == *old(self),
            old(self).wf() ==> final(self).wf(),
            old(self).counts_consistent() ==> final(self).counts_consistent(),
            attached && old(self).counts_consistent() && (forall|j: int|
                0 <= j < final(self).images@.len() ==> #[trigger] is_finished(
                    final(self).images@[j].1,
                )) ==> !final(self).currently_busy,
    {
        if idx >= self.images.len() {
            return false;
        }
        if let LoadState::Processing(_) = &self.images[idx].1 {
        } else {
            return false;
        }
        let ghost before = self.images@;
        let mut taken: LoadState<I, T> = LoadState::NotLoaded;
        std::mem::swap(&mut taken, &mut self.images[idx].1);
        match taken {
            LoadState::Processing(original) => {
                self.images[idx].1 = LoadState::Loaded { original, display };
            },
            other => {
                self.images[idx].1 = other;
            },
        }
        self.loaded_count = self.loaded_count + 1;
        if self.loaded_count >= self.images.len() {
            self.currently_busy = false;
        }
        proof {
            assert(self.images@ =~= before.update(idx as int, self.images@[idx as int]));
            lemma_finished_count_update(before, idx as int, self.images@[idx as int]);
            lemma_finished_count_bounds(self.images@);
        }
        true
    }

    /// An export has ended, successfully or not: the workspace is no longer
    /// busy.
    pub fn on_export_finished(&mut self)
        ensures
            !final(self).currently_busy,
            final(self).images == old(self).images,
            final(self).current_image == old(self).current_image,
            final(self).loaded_count == old(self).loaded_count,
            final(self).export_format == old(self).export_format,
    {
        self.currently_busy = false;
    }
}


impl<P, I, T> AppState<P, I, T> {
    /// The path of image `idx`.
    pub fn path_at(&self, idx: usize) -> (path: Option<&P>)
        ensures
            path is Some <==> idx < self.images@.len(),
            path matches Some(p) ==> *p == self.images@[idx as int].0,
    {
        if idx < self.images.len() {
            Some(&self.images[idx].0)
        } else {
            None
        }
    }

    /// The loaded original of image `idx`, while it waits for its first
    /// preview or is shown.
    pub fn original_at(&self, idx: usize) -> (original: Option<&I>)
        ensures
            original is Some <==> idx < self.images@.len() && original_of(self.state_at(idx as int)) is Some,
            original matches Some(o) ==> *o == original_of(self.state_at(idx as int))->0,
    {
        if idx < self.images.len() {
            match &self.images[idx].1 {
                LoadState::Processing(o) => Some(o),
                LoadState::Loaded { original, .. } => Some(original),
                _ => None,
            }
        } else {
            None
        }
    }

    /// The display of image `idx`, once it is shown.
    pub fn display_at(&self, idx: usize) -> (display: Option<&T>)
        ensures
            display is Some <==> idx < self.images@.len() && self.state_at(idx as int) is Loaded,
            display matches Some(d) ==> *d == self.state_at(idx as int)->Loaded_display,
    {
        if idx < self.images.len() {
            match &self.images[idx].1 {
                LoadState::Loaded { display, .. } => Some(display),
                _ => None,
            }
        } else {
            None
        }
    }

    /// The state of the shown image, if there is one.
    pub fn current_state(&self) -> (state: Option<&LoadState<I, T>>)
        ensures
            state is Some <==> self.current_image < self.images@.len(),
            state matches Some(s) ==> *s == self.state_at(self.current_image as int),
    {
        if self.current_image < self.images.len() {
            Some(&self.images[self.current_image].1)
        } else {
            None
        }
    }

    /// What the status bar reports: loading progress while busy, else the
    /// position of the shown image once something has loaded, else ready.
    pub fn status(&self) -> (status: Status)
        requires
            self.current_image < usize::MAX,
        ensures
            status == if self.currently_busy {
                Status::Loading { done: self.loaded_count, total: self.images@.len() as usize }
            } else if self.loaded_count > 0 {
                Status::Viewing {
                    position: (self.current_image + 1) as usize,
                    total: self.images@.len() as usize,
                }
            } else {
                Status::Ready
            },
    {
        if self.currently_busy {
            Status::Loading { done: self.loaded_count, total: self.images.len() }
        } else if self.loaded_count > 0 {
            Status::Viewing { position: self.current_image + 1, total: self.images.len() }
        } else {
            Status::Ready
        }
    }

    /// Moves through the images on input: forward for the next key, back for
    /// the previous key, then back for scrolling up and forward for
    /// scrolling down.
    pub fn handle_navigation(&mut self, next_pressed: bool, prev_pressed: bool, scroll: Scroll)
        ensures
            ({
                let len = old(self).images@.len() as int;
                let c0 = old(self).current_image as int;
                let c1 = if next_pressed { next_index(c0, len) } else { c0 };
                let c2 = if prev_pressed { prev_index(c1) } else { c1 };
                final(self).current_image == match scroll {
                    Scroll::Back => prev_index(c2),
                    Scroll::Forward => next_index(c2, len),
                    Scroll::Still => c2,
                }
            }),
            final(self).images == old(self).images,
            final(self).loaded_count == old(self).loaded_count,
            final(self).currently_busy == old(self).currently_busy,
            final(self).export_format == old(self).export_format,
            old(self).wf() ==> final(self).wf(),
    {
        if next_pressed {
            self.go_next();
        }
        if prev_pressed {
            self.go_prev();
        }
        match scroll {
            Scroll::Back => self.go_prev(),
            Scroll::Forward => self.go_next(),
            Scroll::Still => {},
        }
    }
}

/// The counter of finished images never exceeds the number of images, and it
/// reaches that number exactly when every image has finished.
pub proof fn lemma_loaded_count_bounded<P, I, T>(state: AppState<P, I, T>)
    requires
        state.counts_consistent(),
    ensures
        state.loaded_count <= state.images@.len(),
        state.loaded_count == state.images@.len() <==> forall|j: int|
            0 <= j < state.images@.len() ==> #[trigger] is_finished(state.images@[j].1),
{
    lemma_finished_count_bounds(state.images@);
}

/// The shown image counts as loaded exactly when it exists and its state is
/// `Loaded`; a failed, unloaded or still processing image does not.
pub proof fn lemma_current_loaded_means_loaded_state<P, I, T>(state: AppState<P, I, T>)
    ensures
        state.current_is_loaded() <==> state.current_image < state.images@.len()
            && state.images@[state.current_image as int].1 is Loaded,
        state.current_image < state.images@.len() && !(state.images@[state.current_image as int].1 is Loaded)
            ==> !state.current_is_loaded(),
{
}

/// Stepping forward or back keeps the shown index in range.
pub proof fn lemma_navigation_in_range(current: int, len: int)
    requires
        0 <= current,
        current == 0 || current < len,
    ensures
        0 <= next_index(current, len),
        next_index(current, len) == 0 || next_index(current, len) < len,
        0 <= prev_index(current),
        prev_index(current) == 0 || prev_index(current) < len,
{
}

/// A step forward that moved is undone by a step back, and a step back that
/// moved is undone by a step forward.
pub proof fn lemma_navigation_round_trip(current: int, len: int)
    requires
        0 <= current < len,
    ensures
        current + 1 < len ==> prev_index(next_index(current, len)) == current,
        current > 0 ==> next_index(prev_index(current), len) == current,
{
}

/// Stepping forward from the last image, or back from the first, stays put.
pub proof fn lemma_navigation_stops_at_ends(len: int)
    requires
        len > 0,
    ensures
        next_index(len - 1, len) == len - 1,
        prev_index(0) == 0,
{
}

/// Calls `num_cpus::get`, the number of CPUs this process may use. The result
/// depends on the machine; nothing is claimed of it.
#[verifier::external_body]
fn available_cpus() -> usize {
    num_cpus::get()
}

/// The worker threads for a machine with `cpus` CPUs: half of them, at
/// least one.
pub fn pool_size_for(cpus: usize) -> (n: usize)
    ensures
        n == if cpus / 2 > 1 { cpus / 2 } else { 1 },
        n >= 1,
{
    let half = cpus / 2;
    if half > 1 {
        half
    } else {
        1
    }
}

/// The worker threads for this machine: half of its CPUs, at least one.
pub fn pool_size() -> (n: usize)
    ensures
        n >= 1,
{
    pool_size_for(available_cpus())
}

} // verus!
