//! Composite pipelines. A pipeline is an ordered job graph over the media bus:
//! a notion flows through stages (2D image → 3D mesh → engine place, or
//! text → voice) with each stage handed to a backend. This module owns the
//! *shape* of a build and the per-stage state that a run records.
use vstd::prelude::*;
use crate::text::{chars_of, chars_eq, contains_seq, contains_str, matches_at, lemma_find_from_bounds};

verus! {

/// What a stage produces / the backend family it needs.
#[derive(Clone, Copy, Debug, PartialEq, Eq, Structural)]
pub enum StageKind {
    /// text → image (local ComfyUI)
    Image,
    /// image → textured 3D mesh (Tripo)
    Mesh,
    /// text → voice line (ElevenLabs)
    Voice,
    /// copy the latest asset into the engine tree under a topic
    Place,
}

impl StageKind {
    /// The glyph shown next to a stage of this kind.
    pub fn glyph(&self) -> (r: &'static str)
        ensures
            r@ == (match *self {
                StageKind::Image => "🖼"@,
                StageKind::Mesh => "🧊"@,
                StageKind::Voice => "🎙"@,
                StageKind::Place => "📦"@,
            }),
    {
        match self {
            StageKind::Image => "🖼",
            StageKind::Mesh => "🧊",
            StageKind::Voice => "🎙",
            StageKind::Place => "📦",
        }
    }

    /// The lowercase name of this kind.
    pub fn label(&self) -> (r: &'static str)
        ensures
            r@ == (match *self {
                StageKind::Image => "image"@,
                StageKind::Mesh => "mesh"@,
                StageKind::Voice => "voice"@,
                StageKind::Place => "place"@,
            }),
    {
        match self {
            StageKind::Image => "image",
            StageKind::Mesh => "mesh",
            StageKind::Voice => "voice",
            StageKind::Place => "place",
        }
    }
}

/// One stage template within a pipeline definition.
#[derive(Clone, Copy, Debug)]
pub struct StageDef {
    pub kind: StageKind,
    pub backend: &'static str,
    /// For Place stages: the engine topic (Characters/Props/Weapons/…).
    pub topic: &'static str,
}

/// A named, ordered composite build.
#[derive(Clone, Debug)]
pub struct PipelineDef {
    pub name: &'static str,
    pub description: &'static str,
    pub stages: Vec<StageDef>,
}

/// A stage template as plain values: (kind, backend, topic).
pub open spec fn stage_view(s: StageDef) -> (StageKind, Seq<char>, Seq<char>) {
    (s.kind, s.backend@, s.topic@)
}

/// A pipeline definition as plain values: (name, description, stages).
pub open spec fn pipeline_view(p: PipelineDef) -> (Seq<char>, Seq<char>, Seq<(StageKind, Seq<char>, Seq<char>)>) {
    (p.name@, p.description@, p.stages@.map_values(|s: StageDef| stage_view(s)))
}

/// The built-in pipeline catalogue.
pub open spec fn builtin_spec() -> Seq<(Seq<char>, Seq<char>, Seq<(StageKind, Seq<char>, Seq<char>)>)> {
    seq![
        (
            "Character → 3D"@,
            "Concept image → textured mesh → placed under Characters."@,
            seq![
                (StageKind::Image, "comfy_local"@, ""@),
                (StageKind::Mesh, "tripo"@, ""@),
                (StageKind::Place, ""@, "Characters"@),
            ],
        ),
        (
            "Prop → 3D"@,
            "Prop/weapon concept → mesh → placed under Props."@,
            seq![
                (StageKind::Image, "comfy_local"@, ""@),
                (StageKind::Mesh, "tripo"@, ""@),
                (StageKind::Place, ""@, "Props"@),
            ],
        ),
        (
            "Concept art"@,
            "Single high-quality concept image into the asset vault."@,
            seq![(StageKind::Image, "comfy_local"@, ""@)],
        ),
        (
            "Voice line"@,
            "Text → spoken line (ElevenLabs) into the asset vault."@,
            seq![(StageKind::Voice, "elevenlabs"@, ""@)],
        ),
    ]
}

fn stage(kind: StageKind, backend: &'static str, topic: &'static str) -> (s: StageDef)
    ensures
        stage_view(s) == (kind, backend@, topic@),
{
    StageDef { kind, backend, topic }
}

/// The built-in pipeline catalogue. Each is a canonical prompt→asset route the
/// IP forge knows how to run end-to-end.
pub fn builtin() -> (r: Vec<PipelineDef>)
    ensures
        r@.map_values(|p: PipelineDef| pipeline_view(p)) == builtin_spec(),
{
    let mut r: Vec<PipelineDef> = Vec::new();
    let s1 = vec![
        stage(StageKind::Image, "comfy_local", ""),
        stage(StageKind::Mesh, "tripo", ""),
        stage(StageKind::Place, "", "Characters"),
    ];
    r.push(
        PipelineDef {
            name: "Character → 3D",
            description: "Concept image → textured mesh → placed under Characters.",
            stages: s1,
        },
    );
    let s2 = vec![
        stage(StageKind::Image, "comfy_local", ""),
        stage(StageKind::Mesh, "tripo", ""),
        stage(StageKind::Place, "", "Props"),
    ];
    r.push(
        PipelineDef {
            name: "Prop → 3D",
            description: "Prop/weapon concept → mesh → placed under Props.",
            stages: s2,
        },
    );
    let s3 = vec![stage(StageKind::Image, "comfy_local", "")];
    r.push(
        PipelineDef {
            name: "Concept art",
            description: "Single high-quality concept image into the asset vault.",
            stages: s3,
        },
    );
    let s4 = vec![stage(StageKind::Voice, "elevenlabs", "")];
    r.push(
        PipelineDef {
            name: "Voice line",
            description: "Text → spoken line (ElevenLabs) into the asset vault.",
            stages: s4,
        },
    );
    assert(r@.map_values(|p: PipelineDef| pipeline_view(p)) =~= builtin_spec()) by {
        assert(r@[0].stages@.map_values(|s: StageDef| stage_view(s)) =~= builtin_spec()[0].2);
        assert(r@[1].stages@.map_values(|s: StageDef| stage_view(s)) =~= builtin_spec()[1].2);
        assert(r@[2].stages@.map_values(|s: StageDef| stage_view(s)) =~= builtin_spec()[2].2);
        assert(r@[3].stages@.map_values(|s: StageDef| stage_view(s)) =~= builtin_spec()[3].2);
    }
    r
}

/// A copy of a definition.
fn copy_def(p: &PipelineDef) -> (r: PipelineDef)
    ensures
        pipeline_view(r) == pipeline_view(*p),
{
    let mut stages: Vec<StageDef> = Vec::new();
    let mut i: usize = 0;
    while i < p.stages.len()
        invariant
            i <= p.stages@.len(),
            stages@ == p.stages@.take(i as int),
        decreases p.stages@.len() - i,
    {
        stages.push(p.stages[i]);
        assert(p.stages@.take(i + 1) =~= p.stages@.take(i as int).push(p.stages@[i as int]));
        i += 1;
    }
    assert(p.stages@.take(p.stages@.len() as int) =~= p.stages@);
    PipelineDef { name: p.name, description: p.description, stages }
}

/// The built-in pipeline with the given name (the first, if several share it).
pub fn by_name(name: &str) -> (r: Option<PipelineDef>)
    ensures
        r matches Some(p) ==> exists|i: int|
            0 <= i < builtin_spec().len() && pipeline_view(p) == builtin_spec()[i]
                && builtin_spec()[i].0 == name@ && (forall|j: int|
                0 <= j < i ==> #[trigger] builtin_spec()[j].0 != name@),
        r is None ==> forall|j: int|
            0 <= j < builtin_spec().len() ==> #[trigger] builtin_spec()[j].0 != name@,
{
    let all = builtin();
    let nv = chars_of(name);
    let mut i: usize = 0;
    let ghost views = all@.map_values(|p: PipelineDef| pipeline_view(p));
    while i < all.len()
        invariant
            i <= all@.len(),
            views == all@.map_values(|p: PipelineDef| pipeline_view(p)),
            views == builtin_spec(),
            nv@ == name@,
            forall|j: int| 0 <= j < i ==> #[trigger] builtin_spec()[j].0 != name@,
        decreases all@.len() - i,
    {
        let pn = chars_of(all[i].name);
        assert(views[i as int] == pipeline_view(all@[i as int]));
        if chars_eq(&pn, &nv) {
            return Some(copy_def(&all[i]));
        }
        i += 1;
    }
    None
}

/// Runtime state of one stage, serialised into the pipelines.stages column.
#[derive(Clone, Debug)]
pub struct StageState {
    pub kind: StageKind,
    pub backend: String,
    pub topic: String,
    /// pending | running | done | blocked | failed
    pub status: String,
    pub detail: String,
    /// asset id produced by this stage (0 if none yet).
    pub asset_id: i64,
}

/// The state a stage starts in: its template's kind, backend and topic,
/// `pending`, no detail, no asset.
pub open spec fn initial_state_of(d: StageDef, s: StageState) -> bool {
    &&& s.kind == d.kind
    &&& s.backend@ == d.backend@
    &&& s.topic@ == d.topic@
    &&& s.status@ == "pending"@
    &&& s.detail@ == Seq::<char>::empty()
    &&& s.asset_id == 0
}

impl StageState {
    /// The initial state of a stage built from its template.
    pub fn from_def(d: &StageDef) -> (s: Self)
        ensures
            initial_state_of(*d, s),
    {
        StageState {
            kind: d.kind,
            backend: d.backend.to_owned(),
            topic: d.topic.to_owned(),
            status: "pending".to_owned(),
            detail: String::new(),
            asset_id: 0,
        }
    }
}

/// Expand a definition into its initial per-stage state list.
pub fn initial_states(def: &PipelineDef) -> (r: Vec<StageState>)
    ensures
        r@.len() == def.stages@.len(),
        forall|i: int| 0 <= i < r@.len() ==> initial_state_of(def.stages@[i], #[trigger] r@[i]),
{
    let mut r: Vec<StageState> = Vec::new();
    let mut i: usize = 0;
    while i < def.stages.len()
        invariant
            i <= def.stages@.len(),
            r@.len() == i,
            forall|j: int| 0 <= j < i ==> initial_state_of(def.stages@[j], #[trigger] r@[j]),
        decreases def.stages@.len() - i,
    {
        r.push(StageState::from_def(&def.stages[i]));
        i += 1;
    }
    r
}


// ---------------------------------------------------------------------------
// Running a pipeline
// ---------------------------------------------------------------------------

/// What the runner has to do to carry out the current stage.
#[derive(Debug)]
pub enum StageWork {
    /// generate an image from the run's request
    Image,
    /// turn the last image of the run into a mesh
    Mesh,
    /// speak the run's prompt
    Voice,
    /// copy `asset` into the engine tree under `topic`
    Place { asset: i64, topic: String },
}

/// What a stage of the given kind needs before it can run: a Mesh stage needs
/// the Tripo key and an upstream image, a Voice stage the ElevenLabs key and
/// voice, a Place stage an upstream asset.
pub open spec fn plan_spec(
    kind: StageKind,
    last_asset: i64,
    has_image: bool,
    tripo_ok: bool,
    eleven_ok: bool,
) -> Result<StageKind, Seq<char>> {
    match kind {
        StageKind::Image => Ok(StageKind::Image),
        StageKind::Mesh => if !tripo_ok {
            Err("Tripo key not set (Settings)"@)
        } else if !has_image {
            Err("no upstream image to mesh"@)
        } else {
            Ok(StageKind::Mesh)
        },
        StageKind::Voice => if !eleven_ok {
            Err("ElevenLabs key/voice not set (Settings)"@)
        } else {
            Ok(StageKind::Voice)
        },
        StageKind::Place => if last_asset == 0 {
            Err("no upstream asset to place"@)
        } else {
            Ok(StageKind::Place)
        },
    }
}

/// The kind of stage a piece of work carries out.
pub open spec fn work_kind(w: StageWork) -> StageKind {
    match w {
        StageWork::Image => StageKind::Image,
        StageWork::Mesh => StageKind::Mesh,
        StageWork::Voice => StageKind::Voice,
        StageWork::Place { .. } => StageKind::Place,
    }
}

/// A stage error that means a backend is not configured (rather than a
/// backend that ran and failed).
pub open spec fn is_blocking(e: Seq<char>) -> bool {
    contains_seq(e, "not set"@) || contains_seq(e, "no engine"@)
}

/// The status a failed stage (and its run) ends in.
pub open spec fn failure_status(e: Seq<char>) -> Seq<char> {
    if is_blocking(e) {
        "blocked"@
    } else {
        "failed"@
    }
}

/// A run in progress: its stage states, the stage it stands at, what the
/// stages before produced, and how it ends so far.
#[derive(Debug)]
pub struct PipelineRunner {
    pub states: Vec<StageState>,
    /// index of the current stage
    pub next: usize,
    /// asset id produced by the last finished stage (0 if none)
    pub last_asset: i64,
    /// an earlier stage produced an image
    pub has_image: bool,
    /// done | blocked | failed
    pub overall: String,
    /// a stage failed; nothing more runs
    pub stopped: bool,
}

impl PipelineRunner {
    /// The runner's invariant: stages before the current one are done (the
    /// last asset is what the previous stage produced, and an image exists iff
    /// one of them was an Image stage); the stages after it are pending; a
    /// stopped run stands at the failed stage, whose status is the run's.
    pub open spec fn wf(&self) -> bool {
        &&& self.next <= self.states@.len()
        &&& forall|j: int| 0 <= j < self.next ==> (#[trigger] self.states@[j]).status@ == "done"@
        &&& forall|j: int| self.next < j < self.states@.len() ==> (#[trigger] self.states@[j]).status@ == "pending"@
        &&& self.last_asset == (if self.next == 0 { 0 } else { self.states@[self.next - 1].asset_id })
        &&& self.has_image == (exists|j: int| 0 <= j < self.next && (#[trigger] self.states@[j]).kind == StageKind::Image)
        &&& self.stopped ==> self.next < self.states@.len()
            && self.states@[self.next as int].status@ == self.overall@
            && (self.overall@ == "blocked"@ || self.overall@ == "failed"@)
        &&& !self.stopped ==> self.overall@ == "done"@
        &&& !self.stopped && self.next < self.states@.len() ==> (self.states@[self.next as int].status@ == "pending"@
            || self.states@[self.next as int].status@ == "running"@)
    }

    /// The run has no stage left to start.
    pub open spec fn finished(&self) -> bool {
        self.stopped || self.next >= self.states@.len()
    }

    /// A fresh run of `def`: every stage pending, nothing produced, `done` so far.
    pub fn start(def: &PipelineDef) -> (r: Self)
        ensures
            r.wf(),
            r.next == 0,
            !r.stopped,
            r.states@.len() == def.stages@.len(),
            forall|i: int| 0 <= i < r.states@.len() ==> initial_state_of(def.stages@[i], #[trigger] r.states@[i]),
    {
        let states = initial_states(def);
        let r = PipelineRunner {
            states,
            next: 0,
            last_asset: 0,
            has_image: false,
            overall: "done".to_owned(),
            stopped: false,
        };
        proof {
            reveal_strlit("done");
            reveal_strlit("pending");
        }
        r
    }

    /// Starts the current stage: marks it `running` and says what it needs
    /// done, or why it cannot run (which the caller then reports through
    /// [`PipelineRunner::finish`]). `None` once the run is over.
    pub fn begin(&mut self, tripo_ok: bool, eleven_ok: bool) -> (r: Option<Result<StageWork, String>>)
        requires
            old(self).wf(),
        ensures
            final(self).wf(),
            old(self).finished() ==> r is None && *final(self) == *old(self),
            !old(self).finished() ==> {
                let i = old(self).next as int;
                let st = old(self).states@[i];
                &&& r is Some
                &&& final(self).next == old(self).next
                &&& final(self).last_asset == old(self).last_asset
                &&& final(self).has_image == old(self).has_image
                &&& final(self).stopped == old(self).stopped
                &&& final(self).overall@ == old(self).overall@
                &&& final(self).states@.len() == old(self).states@.len()
                &&& final(self).states@[i].status@ == "running"@
                &&& (final(self).states@[i].kind, final(self).states@[i].backend@, final(self).states@[i].topic@,
                    final(self).states@[i].detail@, final(self).states@[i].asset_id)
                    == (st.kind, st.backend@, st.topic@, st.detail@, st.asset_id)
                &&& forall|j: int| 0 <= j < old(self).states@.len() && j != i ==> final(self).states@[j] == old(self).states@[j]
                &&& match r {
                    Some(Ok(w)) => plan_spec(st.kind, old(self).last_asset, old(self).has_image, tripo_ok, eleven_ok)
                        == Ok::<StageKind, Seq<char>>(work_kind(w))
                        && (w matches StageWork::Place { asset, topic } ==> asset == old(self).last_asset && topic@ == st.topic@),
                    Some(Err(e)) => plan_spec(st.kind, old(self).last_asset, old(self).has_image, tripo_ok, eleven_ok)
                        == Err::<StageKind, Seq<char>>(e@),
                    None => false,
                }
            },
    {
        if self.stopped || self.next >= self.states.len() {
            return None;
        }
        let i = self.next;
        let cur = &self.states[i];
        let kind = cur.kind;
        let topic = cur.topic.clone();
        let running = StageState {
            kind,
            backend: cur.backend.clone(),
            topic: cur.topic.clone(),
            status: "running".to_owned(),
            detail: cur.detail.clone(),
            asset_id: cur.asset_id,
        };
        self.states.set(i, running);
        proof {
            reveal_strlit("running");
            reveal_strlit("pending");
            reveal_strlit("done");
            assert forall|j: int| 0 <= j < self.next implies #[trigger] self.states@[j] == old(self).states@[j] by {}
            if old(self).has_image {
                let w = choose|j: int| 0 <= j < old(self).next && (#[trigger] old(self).states@[j]).kind == StageKind::Image;
                assert(self.states@[w] == old(self).states@[w]);
            }
        }
        let plan: Result<StageWork, String> = match kind {
            StageKind::Image => Ok(StageWork::Image),
            StageKind::Mesh => if !tripo_ok {
                Err("Tripo key not set (Settings)".to_owned())
            } else if !self.has_image {
                Err("no upstream image to mesh".to_owned())
            } else {
                Ok(StageWork::Mesh)
            },
            StageKind::Voice => if !eleven_ok {
                Err("ElevenLabs key/voice not set (Settings)".to_owned())
            } else {
                Ok(StageWork::Voice)
            },
            StageKind::Place => if self.last_asset == 0 {
                Err("no upstream asset to place".to_owned())
            } else {
                Ok(StageWork::Place { asset: self.last_asset, topic })
            },
        };
        Some(plan)
    }

    /// Records how the current (running) stage ended. Success marks it `done`
    /// with the asset it produced and moves on; an error marks it, and the
    /// run, `blocked` (a backend is not configured) or `failed`, keeps the
    /// error as the stage's detail, and stops the run.
    pub fn finish(&mut self, outcome: Result<i64, String>)
        requires
            old(self).wf(),
            !old(self).finished(),
            old(self).states@[old(self).next as int].status@ == "running"@,
        ensures
            final(self).wf(),
            final(self).states@.len() == old(self).states@.len(),
            forall|j: int| 0 <= j < old(self).states@.len() && j != old(self).next ==> final(self).states@[j] == old(self).states@[j],
            ({
                let i = old(self).next as int;
                let st = old(self).states@[i];
                let fs = final(self).states@[i];
                &&& (fs.kind, fs.backend@, fs.topic@) == (st.kind, st.backend@, st.topic@)
                &&& match outcome {
                    Ok(id) => {
                        &&& fs.status@ == "done"@ && fs.asset_id == id && fs.detail@ == st.detail@
                        &&& final(self).next == old(self).next + 1
                        &&& final(self).last_asset == id
                        &&& !final(self).stopped
                        &&& final(self).overall@ == "done"@
                    },
                    Err(e) => {
                        &&& fs.status@ == failure_status(e@) && fs.detail@ == e@ && fs.asset_id == st.asset_id
                        &&& final(self).next == old(self).next
                        &&& final(self).last_asset == old(self).last_asset
                        &&& final(self).stopped
                        &&& final(self).overall@ == failure_status(e@)
                        &&& final(self).finished()
                    },
                }
            }),
    {
        let i = self.next;
        let n = self.states.len();
        assert(i < n);
        let cur = &self.states[i];
        let kind = cur.kind;
        proof {
            reveal_strlit("running");
            reveal_strlit("pending");
            reveal_strlit("done");
            reveal_strlit("blocked");
            reveal_strlit("failed");
            reveal_strlit("not set");
            reveal_strlit("no engine");
        }
        match outcome {
            Ok(id) => {
                let done = StageState {
                    kind,
                    backend: cur.backend.clone(),
                    topic: cur.topic.clone(),
                    status: "done".to_owned(),
                    detail: cur.detail.clone(),
                    asset_id: id,
                };
                self.states.set(i, done);
                self.next = i + 1;
                self.last_asset = id;
                if kind == StageKind::Image {
                    self.has_image = true;
                }
                proof {
                    assert forall|j: int| 0 <= j < self.next implies (#[trigger] self.states@[j]).status@ == "done"@ by {
                        if j < i {
                            assert(self.states@[j] == old(self).states@[j]);
                        }
                    }
                    assert(self.has_image == (exists|j: int| 0 <= j < self.next && (#[trigger] self.states@[j]).kind == StageKind::Image)) by {
                        if kind == StageKind::Image {
                            assert(self.states@[i as int].kind == StageKind::Image);
                        } else if old(self).has_image {
                            let w = choose|j: int| 0 <= j < old(self).next && (#[trigger] old(self).states@[j]).kind == StageKind::Image;
                            assert(self.states@[w] == old(self).states@[w]);
                        } else {
                            assert forall|j: int| 0 <= j < self.next implies (#[trigger] self.states@[j]).kind != StageKind::Image by {
                                if j < i {
                                    assert(self.states@[j] == old(self).states@[j]);
                                }
                            }
                        }
                    }
                }
            },
            Err(e) => {
                let ev = chars_of(e.as_str());
                let blocked = contains_str(&ev, "not set") || contains_str(&ev, "no engine");
                let status = if blocked { "blocked" } else { "failed" };
                let failed = StageState {
                    kind,
                    backend: cur.backend.clone(),
                    topic: cur.topic.clone(),
                    status: status.to_owned(),
                    detail: e,
                    asset_id: cur.asset_id,
                };
                self.states.set(i, failed);
                self.overall = status.to_owned();
                self.stopped = true;
                proof {
                    assert forall|j: int| 0 <= j < self.next implies #[trigger] self.states@[j] == old(self).states@[j] by {}
                    if old(self).has_image {
                        let w = choose|j: int| 0 <= j < old(self).next && (#[trigger] old(self).states@[j]).kind == StageKind::Image;
                        assert(self.states@[w] == old(self).states@[w]);
                    }
                }
            },
        }
    }
}

/// A run that is over without a failure has every stage `done` and ends
/// `done`; a run that stopped ends in the status of the stage that failed
/// (`blocked` or `failed`), with every stage before it `done` and every stage
/// after it still `pending`.
pub proof fn law_run_outcome(r: PipelineRunner)
    requires
        r.wf(),
        r.finished(),
    ensures
        !r.stopped ==> r.overall@ == "done"@ && forall|j: int| 0 <= j < r.states@.len() ==> (#[trigger] r.states@[j]).status@ == "done"@,
        r.stopped ==> {
            &&& r.states@[r.next as int].status@ == r.overall@
            &&& (r.overall@ == "blocked"@ || r.overall@ == "failed"@)
            &&& forall|j: int| 0 <= j < r.next ==> (#[trigger] r.states@[j]).status@ == "done"@
            &&& forall|j: int| r.next < j < r.states@.len() ==> (#[trigger] r.states@[j]).status@ == "pending"@
        },
{
}

/// A run never carries out a Mesh stage before an Image stage has produced
/// an image, nor a Place stage before some stage has produced an asset; a
/// Voice or Mesh stage whose backend is not configured is refused with a
/// reason that marks the run blocked.
pub proof fn law_stage_prerequisites(kind: StageKind, last_asset: i64, has_image: bool, tripo_ok: bool, eleven_ok: bool)
    ensures
        plan_spec(kind, last_asset, has_image, tripo_ok, eleven_ok) == Ok::<StageKind, Seq<char>>(StageKind::Mesh)
            ==> has_image && tripo_ok,
        plan_spec(kind, last_asset, has_image, tripo_ok, eleven_ok) == Ok::<StageKind, Seq<char>>(StageKind::Place)
            ==> last_asset != 0,
        plan_spec(kind, last_asset, has_image, tripo_ok, eleven_ok) is Ok ==>
            plan_spec(kind, last_asset, has_image, tripo_ok, eleven_ok) == Ok::<StageKind, Seq<char>>(kind),
        (kind == StageKind::Mesh && !tripo_ok) || (kind == StageKind::Voice && !eleven_ok) ==> (
            plan_spec(kind, last_asset, has_image, tripo_ok, eleven_ok) matches Err(e) && failure_status(e) == "blocked"@),
{
    reveal_strlit("Tripo key not set (Settings)");
    reveal_strlit("ElevenLabs key/voice not set (Settings)");
    reveal_strlit("not set");
    assert("Tripo key not set (Settings)"@.subrange(10, 17) =~= "not set"@);
    assert("ElevenLabs key/voice not set (Settings)"@.subrange(21, 28) =~= "not set"@);
    assert(matches_at("Tripo key not set (Settings)"@, "not set"@, 10));
    assert(matches_at("ElevenLabs key/voice not set (Settings)"@, "not set"@, 21));
    lemma_find_from_bounds("Tripo key not set (Settings)"@, "not set"@, 0);
    lemma_find_from_bounds("ElevenLabs key/voice not set (Settings)"@, "not set"@, 0);
}

/// Every built-in chain that makes a mesh or places an asset starts from an
/// image (there is nothing to mesh or place otherwise), and every built-in
/// pipeline has at least one stage.
pub proof fn law_builtin_chains_start_with_image()
    ensures
        builtin_spec().len() >= 4,
        forall|i: int|
            0 <= i < builtin_spec().len() ==> (#[trigger] builtin_spec()[i]).2.len() > 0,
        forall|i: int, j: int|
            0 <= i < builtin_spec().len() && 0 <= j < builtin_spec()[i].2.len() && (
            #[trigger] builtin_spec()[i].2[j].0 == StageKind::Mesh || builtin_spec()[i].2[j].0
                == StageKind::Place) ==> builtin_spec()[i].2[0].0 == StageKind::Image,
{
}

} // verus!
