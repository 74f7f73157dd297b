//! Time-series playback state: a static mesh imported from the first file,
//! per-frame scalar data from every file, and the frame cursor that play,
//! pause, stop and stepping move.
//!
//! The per-frame payload `S` is whatever the renderer colours vertices from
//! (scalar values); this module never looks inside it.
use vstd::prelude::*;

verus! {

/// Scalar data of one frame of the series.
pub struct TimeStepData<S> {
    /// Values for this frame.
    pub scalars: S,
    /// Position of the source file in the series.
    pub time_step: usize,
    /// File the frame was read from.
    pub file_path: String,
}

/// State of a loaded (or loading) time series.
pub struct TimeSeriesAsset<S> {
    /// First file of the series, waiting to be imported as the static model.
    pub pending_first_file: Option<String>,
    /// The first file is ready to be imported.
    pub is_step1_ready: bool,
    /// The static model has been imported.
    pub is_step1_complete: bool,
    /// All files of the series, in playback order.
    pub all_file_paths: Vec<String>,
    /// Per-frame data of the files that could be read.
    pub time_steps: Vec<TimeStepData<S>>,
    /// Per-frame data has been read.
    pub is_step2_complete: bool,
    /// Triangle indices of the static model.
    pub indices: Vec<u32>,
    /// Frame being shown.
    pub current_time_step: usize,
    /// The series is fully loaded.
    pub is_loaded: bool,
    /// Playback is running.
    pub is_playing: bool,
    /// Playback wraps around at either end.
    pub loop_animation: bool,
    /// Vertex colours must be refreshed from the current frame.
    pub colors_need_update: bool,
}

/// Frame after `cur` in a series of `len` frames: the next one, or the
/// first one after the last when looping, or `cur` itself.
pub open spec fn spec_next_step(len: int, cur: int, looping: bool) -> int {
    if len == 0 {
        cur
    } else if cur < len - 1 {
        cur + 1
    } else if looping {
        0
    } else {
        cur
    }
}

/// Frame before `cur`: the previous one, or the last one before the first
/// when looping, or `cur` itself.
pub open spec fn spec_prev_step(len: int, cur: int, looping: bool) -> int {
    if len == 0 {
        cur
    } else if cur > 0 {
        cur - 1
    } else if looping {
        len - 1
    } else {
        cur
    }
}

/// Frame reached from `cur` after `k` steps forward.
pub open spec fn steps_forward(len: int, cur: int, looping: bool, k: nat) -> int
    decreases k,
{
    if k == 0 {
        cur
    } else {
        spec_next_step(len, steps_forward(len, cur, looping, (k - 1) as nat), looping)
    }
}

/// Frames read from the files of a series: one per file whose data could be
/// read (`Some`), in file order, each tagged with its file's position and
/// path.
pub open spec fn loaded_time_steps<S>(paths: Seq<String>, loaded: Seq<Option<S>>) -> Seq<TimeStepData<S>>
    decreases loaded.len(),
{
    if loaded.len() == 0 {
        Seq::empty()
    } else {
        let i = loaded.len() - 1;
        let before = loaded_time_steps(paths, loaded.drop_last());
        match loaded.last() {
            Some(s) => before.push(TimeStepData { scalars: s, time_step: i as usize, file_path: paths[i] }),
            None => before,
        }
    }
}

/// Number of `Some` entries.
pub open spec fn count_loaded<S>(loaded: Seq<Option<S>>) -> nat
    decreases loaded.len(),
{
    if loaded.len() == 0 {
        0
    } else {
        count_loaded(loaded.drop_last()) + if loaded.last() is Some { 1nat } else { 0nat }
    }
}

proof fn lemma_loaded_len<S>(paths: Seq<String>, loaded: Seq<Option<S>>)
    ensures
        loaded_time_steps(paths, loaded).len() == count_loaded(loaded),
        count_loaded(loaded) <= loaded.len(),
    decreases loaded.len(),
{
    if loaded.len() > 0 {
        lemma_loaded_len(paths, loaded.drop_last());
    }
}

impl<S> TimeSeriesAsset<S> {
    /// The frame cursor points at a frame, or is at 0 when there are none.
    pub open spec fn wf(&self) -> bool {
        self.current_time_step == 0 || self.current_time_step < self.time_steps.len()
    }

    /// The state of an asset with nothing loaded: no files, no frames, frame
    /// 0, stopped, looping on.
    pub open spec fn is_empty_state(&self) -> bool {
        &&& self.pending_first_file is None
        &&& !self.is_step1_ready
        &&& !self.is_step1_complete
        &&& self.all_file_paths@.len() == 0
        &&& self.time_steps@.len() == 0
        &&& !self.is_step2_complete
        &&& self.indices@.len() == 0
        &&& self.current_time_step == 0
        &&& !self.is_loaded
        &&& !self.is_playing
        &&& self.loop_animation
        &&& !self.colors_need_update
    }

    /// Starts loading a series: everything is reset, the paths are kept for
    /// reading frames, and the first path (if any) is queued for import as
    /// the static model.
    pub fn start_loading(&mut self, file_paths: Vec<String>)
        ensures
            final(self).all_file_paths@ == file_paths@,
            file_paths@.len() > 0 ==> final(self).pending_first_file == Some(file_paths@[0]),
            file_paths@.len() == 0 ==> final(self).pending_first_file is None,
            final(self).is_step1_ready == (file_paths@.len() > 0),
            !final(self).is_step1_complete,
            final(self).time_steps@.len() == 0,
            !final(self).is_step2_complete,
            final(self).indices@.len() == 0,
            final(self).current_time_step == 0,
            !final(self).is_loaded,
            !final(self).is_playing,
            final(self).loop_animation,
            !final(self).colors_need_update,
            final(self).wf(),
    {
        *self = Self::default();
        if file_paths.len() > 0 {
            let first_file = file_paths[0].clone();
            self.pending_first_file = Some(first_file);
            self.is_step1_ready = true;
        }
        self.all_file_paths = file_paths;
    }

    /// Data of the frame being shown, if the cursor points at one.
    pub fn get_current_time_step_data(&self) -> (data: Option<&TimeStepData<S>>)
        ensures
            self.current_time_step < self.time_steps@.len() ==> data == Some(&self.time_steps@[self.current_time_step as int]),
            self.current_time_step >= self.time_steps@.len() ==> data is None,
    {
        if self.current_time_step < self.time_steps.len() {
            Some(&self.time_steps[self.current_time_step])
        } else {
            None
        }
    }

    /// Starts playback once frames are loaded; a running start asks for a
    /// colour refresh. Without loaded frames nothing changes.
    pub fn play(&mut self)
        ensures
            (old(self).is_step2_complete && old(self).time_steps@.len() > 0) ==> {
                &&& final(self).is_playing
                &&& final(self).colors_need_update
            },
            !(old(self).is_step2_complete && old(self).time_steps@.len() > 0) ==> {
                &&& final(self).is_playing == old(self).is_playing
                &&& final(self).colors_need_update == old(self).colors_need_update
            },
            *final(self) == (TimeSeriesAsset {
                is_playing: final(self).is_playing,
                colors_need_update: final(self).colors_need_update,
                ..*old(self)
            }),
            old(self).wf() ==> final(self).wf(),
    {
        if self.is_step2_complete && self.time_steps.len() > 0 {
            self.is_playing = true;
            self.colors_need_update = true;
        }
    }

    /// Pauses playback on the current frame.
    pub fn pause(&mut self)
        ensures
            *final(self) == (TimeSeriesAsset { is_playing: false, ..*old(self) }),
            old(self).wf() ==> final(self).wf(),
    {
        self.is_playing = false;
    }

    /// Stops playback and returns to the first frame; leaving another frame
    /// asks for a colour refresh, so that the first frame is shown.
    pub fn stop(&mut self)
        ensures
            *final(self) == (TimeSeriesAsset {
                is_playing: false,
                current_time_step: 0,
                colors_need_update: old(self).colors_need_update || old(self).current_time_step != 0,
                ..*old(self)
            }),
            final(self).wf(),
    {
        self.is_playing = false;
        if self.current_time_step != 0 {
            self.current_time_step = 0;
            self.colors_need_update = true;
        }
    }

    /// Jumps to frame `step` if it exists and is not the current one (and
    /// then asks for a colour refresh); otherwise nothing changes.
    pub fn set_time_step(&mut self, step: usize)
        ensures
            (step < old(self).time_steps@.len() && step != old(self).current_time_step) ==> {
                &&& final(self).current_time_step == step
                &&& final(self).colors_need_update
            },
            !(step < old(self).time_steps@.len() && step != old(self).current_time_step) ==> {
                &&& final(self).current_time_step == old(self).current_time_step
                &&& final(self).colors_need_update == old(self).colors_need_update
            },
            *final(self) == (TimeSeriesAsset {
                current_time_step: final(self).current_time_step,
                colors_need_update: final(self).colors_need_update,
                ..*old(self)
            }),
            old(self).wf() ==> final(self).wf(),
    {
        if step < self.time_steps.len() && step != self.current_time_step {
            self.current_time_step = step;
            self.colors_need_update = true;
        }
    }

    /// Moves to the next frame; after the last one it wraps to the first
    /// when looping and otherwise stops playback. A frame change asks for a
    /// colour refresh.
    pub fn next_time_step(&mut self)
        ensures
            final(self).current_time_step == spec_next_step(
                old(self).time_steps@.len() as int,
                old(self).current_time_step as int,
                old(self).loop_animation,
            ),
            final(self).is_playing == (old(self).is_playing && !(old(self).time_steps@.len() > 0
                && old(self).current_time_step >= old(self).time_steps@.len() - 1 && !old(self).loop_animation)),
            final(self).colors_need_update == (old(self).colors_need_update
                || final(self).current_time_step != old(self).current_time_step),
            *final(self) == (TimeSeriesAsset {
                current_time_step: final(self).current_time_step,
                is_playing: final(self).is_playing,
                colors_need_update: final(self).colors_need_update,
                ..*old(self)
            }),
            old(self).wf() ==> final(self).wf(),
    {
        if self.time_steps.len() > 0 {
            let old_step = self.current_time_step;
            if self.current_time_step < self.time_steps.len() - 1 {
                self.current_time_step = self.current_time_step + 1;
            } else if self.loop_animation {
                self.current_time_step = 0;
            } else {
                self.is_playing = false;
            }
            if old_step != self.current_time_step {
                self.colors_need_update = true;
            }
        }
    }

    /// Moves to the previous frame; before the first one it wraps to the
    /// last when looping. A frame change asks for a colour refresh.
    pub fn prev_time_step(&mut self)
        ensures
            final(self).current_time_step == spec_prev_step(
                old(self).time_steps@.len() as int,
                old(self).current_time_step as int,
                old(self).loop_animation,
            ),
            final(self).colors_need_update == (old(self).colors_need_update
                || final(self).current_time_step != old(self).current_time_step),
            *final(self) == (TimeSeriesAsset {
                current_time_step: final(self).current_time_step,
                colors_need_update: final(self).colors_need_update,
                ..*old(self)
            }),
            old(self).wf() ==> final(self).wf(),
    {
        if self.time_steps.len() > 0 {
            let old_step = self.current_time_step;
            if self.current_time_step > 0 {
                self.current_time_step = self.current_time_step - 1;
            } else if self.loop_animation {
                self.current_time_step = self.time_steps.len() - 1;
            }
            if old_step != self.current_time_step {
                self.colors_need_update = true;
            }
        }
    }

    /// Number of loaded frames.
    pub fn get_total_time_steps(&self) -> (n: usize)
        ensures
            n == self.time_steps@.len(),
    {
        self.time_steps.len()
    }

    /// Playback advances on timer ticks only while playing a loaded series.
    pub fn is_advancing(&self) -> (b: bool)
        ensures
            b == (self.is_playing && self.is_step2_complete),
    {
        self.is_playing && self.is_step2_complete
    }

    /// The static model is in and the per-frame data has not been read yet.
    pub fn awaiting_time_series_data(&self) -> (b: bool)
        ensures
            b == (self.is_step1_complete && !self.is_step2_complete),
    {
        self.is_step1_complete && !self.is_step2_complete
    }

    /// Frame whose colours must be applied now: the current frame, when the
    /// series is loaded and a refresh is pending.
    pub fn pending_color_frame(&self) -> (data: Option<&TimeStepData<S>>)
        ensures
            (self.is_step2_complete && self.colors_need_update && self.current_time_step < self.time_steps@.len())
                ==> data == Some(&self.time_steps@[self.current_time_step as int]),
            !(self.is_step2_complete && self.colors_need_update && self.current_time_step < self.time_steps@.len())
                ==> data is None,
    {
        if !self.is_step2_complete || self.time_steps.len() == 0 || !self.colors_need_update {
            return None;
        }
        self.get_current_time_step_data()
    }

    /// Records that the pending colours were applied to `mesh_count` meshes;
    /// with no mesh to colour the refresh stays pending.
    pub fn finish_color_update(&mut self, mesh_count: usize)
        ensures
            final(self).colors_need_update == (old(self).colors_need_update && mesh_count == 0),
            *final(self) == (TimeSeriesAsset {
                colors_need_update: final(self).colors_need_update,
                ..*old(self)
            }),
            old(self).wf() ==> final(self).wf(),
    {
        if mesh_count > 0 {
            self.colors_need_update = false;
        }
    }
}

impl<S> Default for TimeSeriesAsset<S> {
    /// An asset with nothing loaded.
    fn default() -> (asset: Self)
        ensures
            asset.is_empty_state(),
            asset.wf(),
    {
        TimeSeriesAsset {
            pending_first_file: None,
            is_step1_ready: false,
            is_step1_complete: false,
            all_file_paths: Vec::new(),
            time_steps: Vec::new(),
            is_step2_complete: false,
            indices: Vec::new(),
            current_time_step: 0,
            is_loaded: false,
            is_playing: false,
            loop_animation: true,
            colors_need_update: false,
        }
    }
}

/// Step 1 of loading: hands out the first file for import as the static
/// model, once, while it is ready and the model is not in yet.
pub fn trigger_first_frame_import<S>(asset: &mut TimeSeriesAsset<S>) -> (path: Option<String>)
    ensures
        (old(asset).is_step1_ready && !old(asset).is_step1_complete && old(asset).pending_first_file is Some) ==> {
            &&& path == old(asset).pending_first_file
            &&& !final(asset).is_step1_ready
        },
        !(old(asset).is_step1_ready && !old(asset).is_step1_complete && old(asset).pending_first_file is Some) ==> {
            &&& path is None
            &&& final(asset).is_step1_ready == old(asset).is_step1_ready
        },
        *final(asset) == (TimeSeriesAsset { is_step1_ready: final(asset).is_step1_ready, ..*old(asset) }),
        old(asset).wf() ==> final(asset).wf(),
{
    if asset.is_step1_ready && !asset.is_step1_complete {
        match &asset.pending_first_file {
            Some(first_file_path) => {
                let path = first_file_path.clone();
                asset.is_step1_ready = false;
                return Some(path);
            },
            None => {},
        }
    }
    None
}

/// Step 1 completion: once a model entity exists and the imported geometry
/// is available, marks the static model as imported and keeps its triangle
/// indices. Returns whether this call completed step 1.
pub fn detect_step1_completion<S>(
    asset: &mut TimeSeriesAsset<S>,
    has_model_entity: bool,
    geometry_indices: Option<&Vec<u32>>,
) -> (completed: bool)
    ensures
        completed == (!old(asset).is_step1_complete && has_model_entity && geometry_indices is Some),
        completed ==> final(asset).is_step1_complete && final(asset).indices@ == geometry_indices.unwrap()@,
        !completed ==> final(asset).is_step1_complete == old(asset).is_step1_complete
            && final(asset).indices@ == old(asset).indices@,
        *final(asset) == (TimeSeriesAsset {
            is_step1_complete: final(asset).is_step1_complete,
            indices: final(asset).indices,
            ..*old(asset)
        }),
        old(asset).wf() ==> final(asset).wf(),
{
    if !asset.is_step1_complete {
        if has_model_entity {
            match geometry_indices {
                Some(indices) => {
                    asset.is_step1_complete = true;
                    let kept = indices.clone();
                    assert(kept@ =~= indices@);
                    asset.indices = kept;
                    return true;
                },
                None => {},
            }
        }
    }
    false
}

/// Step 2 of loading: records the per-frame data read from each file of the
/// series (`loaded[i]` for `all_file_paths[i]`, `None` where the file could
/// not be read), marks the series loaded and returns how many frames were
/// kept. Outside step 2 (static model not in yet, or frames already read)
/// nothing changes and 0 is returned.
pub fn load_all_time_series_data<S>(asset: &mut TimeSeriesAsset<S>, loaded: Vec<Option<S>>) -> (count: usize)
    requires
        loaded@.len() == old(asset).all_file_paths@.len(),
    ensures
        (old(asset).is_step1_complete && !old(asset).is_step2_complete) ==> {
            &&& final(asset).time_steps@ == old(asset).time_steps@ + loaded_time_steps(old(asset).all_file_paths@, loaded@)
            &&& count == count_loaded(loaded@)
            &&& final(asset).is_step2_complete
            &&& final(asset).is_loaded
        },
        !(old(asset).is_step1_complete && !old(asset).is_step2_complete) ==> {
            &&& final(asset).time_steps@ == old(asset).time_steps@
            &&& count == 0
            &&& final(asset).is_step2_complete == old(asset).is_step2_complete
            &&& final(asset).is_loaded == old(asset).is_loaded
        },
        *final(asset) == (TimeSeriesAsset {
            time_steps: final(asset).time_steps,
            is_step2_complete: final(asset).is_step2_complete,
            is_loaded: final(asset).is_loaded,
            ..*old(asset)
        }),
        old(asset).wf() ==> final(asset).wf(),
{
    if !(asset.is_step1_complete && !asset.is_step2_complete) {
        return 0;
    }
    let ghost orig = loaded@;
    let ghost paths = asset.all_file_paths@;
    let ghost start = asset.time_steps@;
    let n = loaded.len();
    let mut loaded = loaded;
    // Reverse the results so that popping yields them in file order.
    let mut reversed: Vec<Option<S>> = Vec::new();
    while loaded.len() > 0
        invariant
            loaded@ == orig.subrange(0, loaded@.len() as int),
            reversed@.len() + loaded@.len() == n,
            n == orig.len(),
            forall|j: int| 0 <= j < reversed@.len() ==> #[trigger] reversed@[j] == orig[n - 1 - j],
        decreases loaded@.len(),
    {
        let item = loaded.pop().unwrap();
        reversed.push(item);
    }
    let mut i: usize = 0;
    let mut count: usize = 0;
    while i < n
        invariant
            n == orig.len(),
            n == paths.len(),
            asset.all_file_paths@ == paths,
            i <= n,
            reversed@.len() == n - i,
            forall|j: int| 0 <= j < reversed@.len() ==> #[trigger] reversed@[j] == orig[n - 1 - j],
            asset.time_steps@ == start + loaded_time_steps(paths, orig.subrange(0, i as int)),
            count == count_loaded(orig.subrange(0, i as int)),
            *asset == (TimeSeriesAsset { time_steps: asset.time_steps, ..*old(asset) }),
            start == old(asset).time_steps@,
        decreases n - i,
    {
        proof {
            lemma_loaded_len(paths, orig.subrange(0, i as int));
            assert(orig.subrange(0, i + 1).drop_last() =~= orig.subrange(0, i as int));
        }
        let item = reversed.pop().unwrap();
        match item {
            Some(scalars) => {
                let file_path = asset.all_file_paths[i].clone();
                asset.time_steps.push(TimeStepData { scalars, time_step: i, file_path });
                count = count + 1;
            },
            None => {},
        }
        i = i + 1;
    }
    assert(orig.subrange(0, n as int) =~= orig);
    asset.is_step2_complete = true;
    asset.is_loaded = true;
    count
}

/// Looped playback steps through every frame and returns to where it
/// started: `len` steps forward from any frame of a `len`-frame series come
/// back to it.
pub proof fn law_looped_playback_cycles(len: nat, cur: nat)
    requires
        cur < len,
    ensures
        steps_forward(len as int, cur as int, true, len) == cur,
{
    lemma_steps_forward_mod(len as int, cur as int, len);
    assert(((cur + len) as int) % (len as int) == cur) by (nonlinear_arith)
        requires
            cur < len,
    ;
}

proof fn lemma_steps_forward_mod(len: int, cur: int, k: nat)
    requires
        0 <= cur < len,
    ensures
        steps_forward(len, cur, true, k) == (cur + k) % len,
    decreases k,
{
    if k == 0 {
        assert(cur % len == cur) by (nonlinear_arith)
            requires
                0 <= cur < len,
        ;
    } else {
        lemma_steps_forward_mod(len, cur, (k - 1) as nat);
        let prev = (cur + k - 1) % len;
        assert(0 <= prev < len) by (nonlinear_arith)
            requires
                len > 0,
                prev == (cur + k - 1) % len,
        ;
        if prev < len - 1 {
            assert((cur + k) % len == prev + 1) by (nonlinear_arith)
                requires
                    len > 0,
                    prev == (cur + k - 1) % len,
                    prev < len - 1,
                    cur + k - 1 >= 0,
            ;
        } else {
            assert((cur + k) % len == 0) by (nonlinear_arith)
                requires
                    len > 0,
                    prev == (cur + k - 1) % len,
                    prev == len - 1,
                    cur + k - 1 >= 0,
            ;
        }
    }
}

/// Stepping forward and then back returns to the same frame, and so does
/// stepping back and then forward, whenever the step did not stop at an end
/// of a non-looping series.
pub proof fn law_step_round_trip(len: nat, cur: nat, looping: bool)
    requires
        cur < len,
    ensures
        (looping || cur + 1 < len) ==> spec_prev_step(len as int, spec_next_step(len as int, cur as int, looping), looping) == cur,
        (looping || cur > 0) ==> spec_next_step(len as int, spec_prev_step(len as int, cur as int, looping), looping) == cur,
{
}

/// Every playback operation keeps the frame cursor on a frame (or at 0 with
/// no frames): stepping from a valid cursor lands on a valid frame.
pub proof fn law_steps_stay_in_range(len: nat, cur: nat, looping: bool)
    requires
        cur < len,
    ensures
        0 <= spec_next_step(len as int, cur as int, looping) < len,
        0 <= spec_prev_step(len as int, cur as int, looping) < len,
{
}


/// `c` is an ASCII decimal digit.
pub open spec fn is_digit(c: char) -> bool {
    '0' <= c && c <= '9'
}

/// Value of a string of decimal digits.
pub open spec fn decimal_value(s: Seq<char>) -> int
    decreases s.len(),
{
    if s.len() == 0 {
        0
    } else {
        decimal_value(s.drop_last()) * 10 + (s.last() as int - '0' as int)
    }
}

/// `s` without one leading `+`, if it has one.
pub open spec fn unsigned_digits(s: Seq<char>) -> Seq<char> {
    if s.len() > 0 && s[0] == '+' {
        s.drop_first()
    } else {
        s
    }
}

/// Value of a non-empty string of decimal digits that fits in 32 bits, or
/// `None` for any other string.
pub open spec fn digits_value(body: Seq<char>) -> Option<u32> {
    if body.len() > 0 && (forall|i: int| 0 <= i < body.len() ==> is_digit(#[trigger] body[i]))
        && decimal_value(body) <= u32::MAX {
        Some(decimal_value(body) as u32)
    } else {
        None
    }
}

/// Reading of `s` as an unsigned 32-bit number: an optional `+` followed
/// by at least one decimal digit, and nothing else, with a value that fits.
pub open spec fn spec_parse_u32(s: Seq<char>) -> Option<u32> {
    digits_value(unsigned_digits(s))
}

/// Position of the last `_` among the first `n` characters, or -1.
pub open spec fn last_underscore(s: Seq<char>, n: int) -> int
    decreases n,
{
    if n <= 0 {
        -1
    } else if s[n - 1] == '_' {
        n - 1
    } else {
        last_underscore(s, n - 1)
    }
}

/// Frame number of a file stem: the number after its last `_`, or the
/// whole stem read as a number when it has no `_`.
pub open spec fn spec_frame_number(stem: Seq<char>) -> Option<u32> {
    spec_parse_u32(stem.subrange(last_underscore(stem, stem.len() as int) + 1, stem.len() as int))
}

proof fn lemma_decimal_value_grows(s: Seq<char>, m: int)
    requires
        0 <= m <= s.len(),
        forall|i: int| 0 <= i < s.len() ==> is_digit(#[trigger] s[i]),
    ensures
        decimal_value(s) >= decimal_value(s.subrange(0, m)),
        decimal_value(s) >= 0,
    decreases s.len(),
{
    if s.len() > 0 {
        assert forall|i: int| 0 <= i < s.drop_last().len() implies is_digit(#[trigger] s.drop_last()[i]) by {
            assert(s.drop_last()[i] == s[i]);
        }
        if m == s.len() {
            assert(s.subrange(0, m) =~= s);
            lemma_decimal_value_grows(s.drop_last(), 0);
        } else {
            lemma_decimal_value_grows(s.drop_last(), m);
            assert(s.drop_last().subrange(0, m) =~= s.subrange(0, m));
        }
        assert(is_digit(s.last()));
    } else {
        assert(s.subrange(0, m) =~= s);
    }
}

proof fn lemma_last_underscore(s: Seq<char>, n: int)
    requires
        0 <= n <= s.len(),
    ensures
        -1 <= last_underscore(s, n) < n,
        last_underscore(s, n) >= 0 ==> s[last_underscore(s, n)] == '_',
        forall|j: int| last_underscore(s, n) < j < n ==> s[j] != '_',
    decreases n,
{
    if n > 0 {
        lemma_last_underscore(s, n - 1);
    }
}

/// The number a time-series file is ordered by: the digits after the last
/// `_` of its stem (or the whole stem without `_`), given as characters.
pub fn frame_number(stem: &Vec<char>) -> (number: Option<u32>)
    ensures
        number == spec_frame_number(stem@),
{
    let len = stem.len();
    let mut i = len;
    let mut found = false;
    while i > 0 && !found
        invariant
            len == stem@.len(),
            i <= len,
            found ==> i > 0 && stem@[i - 1] == '_',
            forall|j: int| i <= j < len ==> stem@[j] != '_',
            !found ==> last_underscore(stem@, len as int) == last_underscore(stem@, i as int),
            found ==> last_underscore(stem@, len as int) == i - 1,
        decreases i, if found { 0int } else { 1int },
    {
        if stem[i - 1] == '_' {
            found = true;
        } else {
            i = i - 1;
        }
    }
    let start = if found {
        i
    } else {
        0
    };
    assert(start == last_underscore(stem@, len as int) + 1);
    let ghost suffix = stem@.subrange(start as int, len as int);
    let mut k = start;
    if k < len && stem[k] == '+' {
        k = k + 1;
    }
    let k0 = k;
    let ghost body = unsigned_digits(suffix);
    assert(body =~= stem@.subrange(k0 as int, len as int));
    assert(spec_frame_number(stem@) == spec_parse_u32(suffix));
    if k0 == len {
        return None;
    }
    let mut value: u64 = 0;
    while k < len
        invariant
            len == stem@.len(),
            k0 <= k <= len,
            k0 < len,
            body =~= stem@.subrange(k0 as int, len as int),
            forall|i: int| 0 <= i < k - k0 ==> is_digit(#[trigger] body[i]),
            value == decimal_value(body.subrange(0, k - k0)),
            value <= u32::MAX,
            body.len() > 0,
            spec_frame_number(stem@) == digits_value(body),
        decreases len - k,
    {
        let c = stem[k];
        assert(body[k - k0] == c);
        if c < '0' || c > '9' {
            assert(!is_digit(body[k - k0]));
            return None;
        }
        let digit = (c as u32 - '0' as u32) as u64;
        assert(body.subrange(0, k + 1 - k0).drop_last() =~= body.subrange(0, k - k0));
        assert(body.subrange(0, k + 1 - k0).last() == c);
        assert(decimal_value(body.subrange(0, k + 1 - k0)) == value * 10 + digit);
        value = value * 10 + digit;
        if value > 0xffff_ffff {
            proof {
                if forall|i: int| 0 <= i < body.len() ==> is_digit(#[trigger] body[i]) {
                    lemma_decimal_value_grows(body, k + 1 - k0);
                }
            }
            return None;
        }
        k = k + 1;
    }
    assert(body.subrange(0, len - k0) =~= body);
    Some(value as u32)
}

/// Relative order of two time-series files by their frame numbers:
/// numbered files come first, by number; files without numbers come last
/// and are ordered by name.
#[derive(Debug, Clone, Copy, PartialEq, Eq)]
pub enum FrameOrder {
    /// The first file comes first.
    Earlier,
    /// Both files have the same number.
    Same,
    /// The first file comes later.
    Later,
    /// Neither file has a number: order them by name.
    ByName,
}

/// Compares two files by their frame numbers (see [`FrameOrder`]).
pub fn compare_frames(a: Option<u32>, b: Option<u32>) -> (order: FrameOrder)
    ensures
        order == match (a, b) {
            (Some(x), Some(y)) => if x < y {
                FrameOrder::Earlier
            } else if x == y {
                FrameOrder::Same
            } else {
                FrameOrder::Later
            },
            (Some(_), None) => FrameOrder::Earlier,
            (None, Some(_)) => FrameOrder::Later,
            (None, None) => FrameOrder::ByName,
        },
{
    match (a, b) {
        (Some(x), Some(y)) => if x < y {
            FrameOrder::Earlier
        } else if x == y {
            FrameOrder::Same
        } else {
            FrameOrder::Later
        },
        (Some(_), None) => FrameOrder::Earlier,
        (None, Some(_)) => FrameOrder::Later,
        (None, None) => FrameOrder::ByName,
    }
}

} // verus!
