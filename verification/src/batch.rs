//! The vertex arena and the command list.
//!
//! Allocated at init, never during a frame. Draw calls append into the arena;
//! when it fills, its contents become a chunk and the arena keeps going from
//! empty. Nothing is dropped and nothing is reallocated once the chunk pool is
//! warm, so a pathological frame degrades into a second chunk rather than into
//! a missing trajectory.
use vstd::prelude::*;

verus! {

/// Which of the two pipelines a batch of vertices belongs to.
#[derive(Clone, Copy, PartialEq, Eq, Structural, Debug, Hash)]
pub enum Topology {
    /// Textured triangles: quads, glyphs, filled polygons, billboarded points.
    Triangles,
    /// Untextured line segments: trajectories, grids, axis triads, wireframes.
    Lines,
}

/// A texture that a run of vertices samples: the handle the renderer binds,
/// and the key by which two runs are known to sample the same one.
#[derive(Debug)]
pub struct TextureSlot<T> {
    /// Identity of the texture; equal keys mean the same GPU allocation.
    pub key: u64,
    /// What the renderer binds.
    pub handle: T,
}

/// One contiguous run of vertices sharing a pipeline, a viewport and a texture.
#[derive(Debug)]
pub struct Cmd<T> {
    /// The pipeline.
    pub topology: Topology,
    /// Pixel rectangle `[x, y, w, h]`, as the bit patterns of its coordinates.
    pub viewport: [u32; 4],
    /// `None` means the font/white atlas.
    pub texture: Option<TextureSlot<T>>,
    /// The chunk that holds this run.
    pub chunk: u32,
    /// First vertex of the run within its chunk.
    pub start: u32,
    /// Number of vertices in the run.
    pub count: u32,
}

/// The state a vertex is drawn with: everything but the handle itself.
pub struct DrawKey {
    /// The pipeline.
    pub topology: Topology,
    /// The viewport bits.
    pub viewport: [u32; 4],
    /// The texture key, `None` for the atlas.
    pub texture: Option<u64>,
}

/// The key of a texture slot, `None` for the atlas.
pub open spec fn slot_key<T>(t: Option<TextureSlot<T>>) -> Option<u64> {
    match t {
        Some(s) => Some(s.key),
        None => None,
    }
}

/// The state a command draws its vertices with.
pub open spec fn cmd_key<T>(c: Cmd<T>) -> DrawKey {
    DrawKey { topology: c.topology, viewport: c.viewport, texture: slot_key(c.texture) }
}

/// One past the last vertex a command covers.
pub open spec fn cmd_end<T>(c: Cmd<T>) -> int {
    c.start as int + c.count as int
}

/// Command `n` is command `o` with vertices appended at its end: the same
/// pipeline, viewport, texture, chunk and start, and no fewer vertices.
pub open spec fn grown<T>(o: Cmd<T>, n: Cmd<T>) -> bool {
    &&& n.topology == o.topology
    &&& n.viewport == o.viewport
    &&& n.texture == o.texture
    &&& n.chunk == o.chunk
    &&& n.start == o.start
    &&& o.count <= n.count
}

/// One step of replaying the command list into a render pass.
#[derive(Clone, Copy, PartialEq, Eq, Debug)]
pub enum RenderOp {
    /// Bind chunk `c`'s vertex buffer.
    Chunk(u32),
    /// Set viewport and scissor to this rectangle (coordinate bits).
    Viewport([u32; 4]),
    /// Switch to this pipeline.
    Pipeline(Topology),
    /// Bind the texture of command `i`, or the atlas when it has none.
    Texture(usize),
    /// Draw vertices `start..end` of the bound chunk.
    Draw(u32, u32),
}

/// What a render pass has bound, `None` where nothing is bound yet.
pub struct Bound {
    /// The bound chunk buffer.
    pub chunk: Option<u32>,
    /// The viewport in force.
    pub viewport: Option<[u32; 4]>,
    /// The pipeline in force.
    pub topology: Option<Topology>,
    /// The texture key in force; `Some(None)` is the atlas.
    pub texture: Option<Option<u64>>,
}

/// A fresh render pass.
pub open spec fn unbound() -> Bound {
    Bound { chunk: None, viewport: None, topology: None, texture: None }
}

/// What a pass has bound after drawing command `c`.
pub open spec fn bound_of<T>(c: Cmd<T>) -> Bound {
    Bound {
        chunk: Some(c.chunk),
        viewport: Some(c.viewport),
        topology: Some(c.topology),
        texture: Some(slot_key(c.texture)),
    }
}

/// The ops that draw command `c` (number `i`) from bound state `st`: each
/// binding only where it differs, then the draw.
pub open spec fn step_ops<T>(st: Bound, c: Cmd<T>, i: int) -> Seq<RenderOp> {
    (if st.chunk == Some(c.chunk) {
        Seq::empty()
    } else {
        seq![RenderOp::Chunk(c.chunk)]
    }) + (if st.viewport == Some(c.viewport) {
        Seq::empty()
    } else {
        seq![RenderOp::Viewport(c.viewport)]
    }) + (if st.topology == Some(c.topology) {
        Seq::empty()
    } else {
        seq![RenderOp::Pipeline(c.topology)]
    }) + (if st.texture == Some(slot_key(c.texture)) {
        Seq::empty()
    } else {
        seq![RenderOp::Texture(i as usize)]
    }) + seq![RenderOp::Draw(c.start, (c.start + c.count) as u32)]
}

/// The replay of the first `n` commands over a pool of `pool` chunk buffers,
/// and what it leaves bound. A command whose chunk has no buffer is skipped.
pub open spec fn plan<T>(cmds: Seq<Cmd<T>>, pool: nat, n: int) -> (Seq<RenderOp>, Bound)
    decreases n,
{
    if n <= 0 {
        (Seq::empty(), unbound())
    } else {
        let (ops, st) = plan(cmds, pool, n - 1);
        let c = cmds[n - 1];
        if c.chunk >= pool {
            (ops, st)
        } else {
            (ops + step_ops(st, c, n - 1), bound_of(c))
        }
    }
}

/// The state a render pass has after one op; `Draw` changes nothing.
pub open spec fn apply_op<T>(cmds: Seq<Cmd<T>>, st: Bound, op: RenderOp) -> Bound {
    match op {
        RenderOp::Chunk(c) => Bound { chunk: Some(c), ..st },
        RenderOp::Viewport(v) => Bound { viewport: Some(v), ..st },
        RenderOp::Pipeline(t) => Bound { topology: Some(t), ..st },
        RenderOp::Texture(i) => Bound { texture: Some(slot_key(cmds[i as int].texture)), ..st },
        RenderOp::Draw(_, _) => st,
    }
}

/// Replaying `ops` from state `st`: each draw, with the state it runs under.
pub open spec fn run_ops<T>(cmds: Seq<Cmd<T>>, st: Bound, ops: Seq<RenderOp>) -> Seq<
    (Bound, u32, u32),
>
    decreases ops.len(),
{
    if ops.len() == 0 {
        Seq::empty()
    } else {
        match ops[0] {
            RenderOp::Draw(s, e) => seq![(st, s, e)] + run_ops(cmds, st, ops.drop_first()),
            _ => run_ops(cmds, apply_op(cmds, st, ops[0]), ops.drop_first()),
        }
    }
}

/// The state replaying `ops` from `st` leaves bound.
pub open spec fn end_state<T>(cmds: Seq<Cmd<T>>, st: Bound, ops: Seq<RenderOp>) -> Bound
    decreases ops.len(),
{
    if ops.len() == 0 {
        st
    } else {
        end_state(cmds, apply_op(cmds, st, ops[0]), ops.drop_first())
    }
}

/// The draws the first `n` commands should produce: every command whose
/// chunk has a buffer, with its own state and range, in order.
pub open spec fn expected_draws<T>(cmds: Seq<Cmd<T>>, pool: nat, n: int) -> Seq<(Bound, u32, u32)>
    decreases n,
{
    if n <= 0 {
        Seq::empty()
    } else {
        let c = cmds[n - 1];
        if c.chunk >= pool {
            expected_draws(cmds, pool, n - 1)
        } else {
            expected_draws(cmds, pool, n - 1).push(
                (bound_of(c), c.start, (c.start + c.count) as u32),
            )
        }
    }
}

proof fn lemma_run_append<T>(cmds: Seq<Cmd<T>>, st: Bound, a: Seq<RenderOp>, b: Seq<RenderOp>)
    ensures
        run_ops(cmds, st, a + b) == run_ops(cmds, st, a) + run_ops(cmds, end_state(cmds, st, a), b),
        end_state(cmds, st, a + b) == end_state(cmds, end_state(cmds, st, a), b),
    decreases a.len(),
{
    if a.len() == 0 {
        assert(a + b =~= b);
    } else {
        assert((a + b).drop_first() =~= a.drop_first() + b);
        assert((a + b)[0] == a[0]);
        lemma_run_append(cmds, apply_op(cmds, st, a[0]), a.drop_first(), b);
        match a[0] {
            RenderOp::Draw(s, e) => {
                assert(run_ops(cmds, st, a + b) =~= seq![(st, s, e)] + run_ops(
                    cmds,
                    st,
                    a.drop_first() + b,
                ));
            },
            _ => {},
        }
    }
}

proof fn lemma_run_single<T>(cmds: Seq<Cmd<T>>, st: Bound, op: RenderOp)
    ensures
        end_state(cmds, st, seq![op]) == apply_op(cmds, st, op),
        run_ops(cmds, st, seq![op]) == (match op {
            RenderOp::Draw(s, e) => seq![(st, s, e)],
            _ => Seq::empty(),
        }),
{
    assert(seq![op].drop_first() =~= Seq::<RenderOp>::empty());
    assert(seq![op][0] == op);
    assert(run_ops(cmds, apply_op(cmds, st, op), Seq::<RenderOp>::empty()) =~= Seq::empty());
    assert(end_state(cmds, apply_op(cmds, st, op), Seq::<RenderOp>::empty()) == apply_op(cmds, st, op));
}

proof fn lemma_run_maybe<T>(cmds: Seq<Cmd<T>>, st: Bound, skip: bool, op: RenderOp)
    requires
        !(op is Draw),
    ensures
        ({
            let ops = if skip {
                Seq::empty()
            } else {
                seq![op]
            };
            &&& run_ops(cmds, st, ops) == Seq::<(Bound, u32, u32)>::empty()
            &&& end_state(cmds, st, ops) == if skip {
                st
            } else {
                apply_op(cmds, st, op)
            }
        }),
{
    lemma_run_single(cmds, st, op);
}

proof fn lemma_step<T>(cmds: Seq<Cmd<T>>, st: Bound, i: int)
    requires
        0 <= i < cmds.len(),
        i <= usize::MAX,
    ensures
        run_ops(cmds, st, step_ops(st, cmds[i], i)) == seq![
            (bound_of(cmds[i]), cmds[i].start, (cmds[i].start + cmds[i].count) as u32),
        ],
        end_state(cmds, st, step_ops(st, cmds[i], i)) == bound_of(cmds[i]),
{
    let c = cmds[i];
    let o1 = if st.chunk == Some(c.chunk) {
        Seq::empty()
    } else {
        seq![RenderOp::Chunk(c.chunk)]
    };
    let o2 = if st.viewport == Some(c.viewport) {
        Seq::empty()
    } else {
        seq![RenderOp::Viewport(c.viewport)]
    };
    let o3 = if st.topology == Some(c.topology) {
        Seq::empty()
    } else {
        seq![RenderOp::Pipeline(c.topology)]
    };
    let o4 = if st.texture == Some(slot_key(c.texture)) {
        Seq::empty()
    } else {
        seq![RenderOp::Texture(i as usize)]
    };
    let o5 = seq![RenderOp::Draw(c.start, (c.start + c.count) as u32)];
    assert(step_ops(st, c, i) == o1 + o2 + o3 + o4 + o5);
    lemma_run_maybe(cmds, st, st.chunk == Some(c.chunk), RenderOp::Chunk(c.chunk));
    let s1 = end_state(cmds, st, o1);
    lemma_run_maybe(cmds, s1, st.viewport == Some(c.viewport), RenderOp::Viewport(c.viewport));
    let s2 = end_state(cmds, s1, o2);
    lemma_run_maybe(cmds, s2, st.topology == Some(c.topology), RenderOp::Pipeline(c.topology));
    let s3 = end_state(cmds, s2, o3);
    lemma_run_maybe(
        cmds,
        s3,
        st.texture == Some(slot_key(c.texture)),
        RenderOp::Texture(i as usize),
    );
    let s4 = end_state(cmds, s3, o4);
    lemma_run_single(cmds, s4, RenderOp::Draw(c.start, (c.start + c.count) as u32));
    lemma_run_append(cmds, st, o1, o2);
    lemma_run_append(cmds, st, o1 + o2, o3);
    lemma_run_append(cmds, st, o1 + o2 + o3, o4);
    lemma_run_append(cmds, st, o1 + o2 + o3 + o4, o5);
    assert(s4 == bound_of(c));
    assert(run_ops(cmds, st, step_ops(st, c, i)) =~= seq![
        (bound_of(c), c.start, (c.start + c.count) as u32),
    ]);
}

/// Replaying the render plan from a fresh pass draws every command whose
/// chunk has a buffer exactly once, in order, over its own range, with its
/// own chunk, viewport, pipeline and texture bound; and the plan leaves bound
/// what it says it does.
pub proof fn lemma_plan_replays_commands<T>(cmds: Seq<Cmd<T>>, pool: nat, n: int)
    requires
        0 <= n <= cmds.len(),
        cmds.len() <= usize::MAX,
    ensures
        run_ops(cmds, unbound(), plan(cmds, pool, n).0) == expected_draws(cmds, pool, n),
        end_state(cmds, unbound(), plan(cmds, pool, n).0) == plan(cmds, pool, n).1,
    decreases n,
{
    if n > 0 {
        lemma_plan_replays_commands(cmds, pool, n - 1);
        let (ops, st) = plan(cmds, pool, n - 1);
        if cmds[n - 1].chunk < pool {
            lemma_run_append(cmds, unbound(), ops, step_ops(st, cmds[n - 1], n - 1));
            lemma_step(cmds, st, n - 1);
        }
    }
}

/// Whether two viewports are the same rectangle, bit for bit.
pub fn same_rect(a: &[u32; 4], b: &[u32; 4]) -> (r: bool)
    ensures
        r == (*a == *b),
{
    let r = a[0] == b[0] && a[1] == b[1] && a[2] == b[2] && a[3] == b[3];
    proof {
        if r {
            assert(*a =~= *b);
        }
        if *a == *b {
            assert(a[0] == b[0] && a[1] == b[1] && a[2] == b[2] && a[3] == b[3]);
        }
    }
    r
}

/// Packs draw calls into vertices, and vertices into chunks.
#[derive(Debug)]
pub struct Batcher<V, T> {
    arena: Vec<V>,
    chunks: Vec<Vec<V>>,
    cmds: Vec<Cmd<T>>,
    chunk: u32,
    capacity: usize,
    peak: usize,
}

/// How many vertices one arena, and so one chunk, holds by default.
pub const DEFAULT_ARENA: usize = 65536;

/// The smallest arena a batcher is ever given.
pub const MIN_ARENA: usize = 1024;

impl<V, T> Batcher<V, T> {
    /// Vertices of chunk `c`: a filled chunk, or the arena for the current one.
    pub closed spec fn data(self, c: int) -> Seq<V> {
        if c < self.chunk {
            self.chunks@[c]@
        } else {
            self.arena@
        }
    }

    /// The vertices command `i` has received so far.
    pub closed spec fn cmd_verts(self, i: int) -> Seq<V> {
        let c = self.cmds@[i];
        let d = self.data(c.chunk as int);
        let e = if cmd_end(c) <= d.len() {
            cmd_end(c)
        } else {
            d.len() as int
        };
        d.subrange(c.start as int, e)
    }

    /// Command `i`'s vertices, each with the state it is drawn with.
    pub closed spec fn tagged(self, i: int) -> Seq<(DrawKey, V)> {
        let k = cmd_key(self.cmds@[i]);
        self.cmd_verts(i).map_values(|v: V| (k, v))
    }

    /// What the first `n` commands draw, in order.
    pub closed spec fn drawn_upto(self, n: int) -> Seq<(DrawKey, V)>
        decreases n,
    {
        if n <= 0 {
            Seq::empty()
        } else {
            self.drawn_upto(n - 1) + self.tagged(n - 1)
        }
    }

    /// Everything this frame draws, in order: each vertex with its state.
    pub closed spec fn view(self) -> Seq<(DrawKey, V)> {
        self.drawn_upto(self.cmds@.len() as int)
    }

    /// Whether the last command is still open in the arena.
    pub open spec fn last_open(self) -> bool {
        self.commands().len() > 0 && self.commands().last().chunk == self.chunk_count()
    }

    /// Vertices reserved by the last `begin` and not yet pushed.
    pub open spec fn pending(self) -> nat {
        if self.last_open() {
            (cmd_end(self.commands().last()) - self.arena_len()) as nat
        } else {
            0
        }
    }

    /// The state the next pushed vertex is drawn with.
    pub open spec fn open_key(self) -> DrawKey {
        cmd_key(self.commands().last())
    }

    /// How many vertices fit in one batch.
    pub closed spec fn limit(self) -> nat {
        self.capacity as nat
    }

    /// Vertices already handed to chunks this frame.
    pub closed spec fn spec_peak(self) -> nat {
        self.peak as nat
    }

    /// Number of chunks filled this frame.
    pub closed spec fn chunk_count(self) -> nat {
        self.chunk as nat
    }

    /// The commands of this frame.
    pub closed spec fn commands(self) -> Seq<Cmd<T>> {
        self.cmds@
    }

    /// The vertices of filled chunk `c`.
    pub closed spec fn chunk_data(self, c: int) -> Seq<V> {
        self.chunks@[c]@
    }

    /// Vertices in the arena.
    pub closed spec fn arena_len(self) -> nat {
        self.arena@.len()
    }

    /// The batcher's invariant.
    pub closed spec fn wf(self) -> bool {
        &&& MIN_ARENA <= self.capacity <= u32::MAX
        &&& self.arena@.len() <= self.capacity
        &&& self.chunk <= self.chunks@.len()
        &&& self.chunk <= self.peak
        &&& self.peak + self.arena@.len() == self.view().len()
        &&& self.view().len() + self.pending() <= u32::MAX
        &&& forall|i: int| 0 <= i < self.cmds@.len() ==> {
            &&& #[trigger] self.cmds@[i].chunk <= self.chunk
            &&& cmd_end(self.cmds@[i]) <= self.capacity
            &&& (self.cmds@[i].chunk < self.chunk ==> cmd_end(self.cmds@[i]) <= self.data(
                self.cmds@[i].chunk as int).len())
            &&& (self.cmds@[i].chunk == self.chunk && i + 1 < self.cmds@.len()
                ==> cmd_end(self.cmds@[i]) <= self.arena@.len())
        }
        &&& forall|i: int, j: int|
            0 <= i < j < self.cmds@.len() ==> (#[trigger] self.cmds@[i]).chunk < (
            #[trigger] self.cmds@[j]).chunk || (self.cmds@[i].chunk == self.cmds@[j].chunk
                && cmd_end(self.cmds@[i]) <= self.cmds@[j].start)
        &&& (self.last_open() ==> self.cmds@.last().start <= self.arena@.len() <= cmd_end(
            self.cmds@.last(),
        ))
        &&& (self.cmds@.len() > 0 && !self.last_open() ==> self.arena@.len() == 0)
    }

    /// Whether every reserved vertex has been pushed.
    pub open spec fn idle(self) -> bool {
        self.pending() == 0
    }

    /// What the invariant guarantees a caller: the batch limit's range, and
    /// that reserved vertices fit both the arena and the frame.
    pub proof fn lemma_bounds(self)
        requires
            self.wf(),
        ensures
            MIN_ARENA <= self.limit() <= u32::MAX,
            self.arena_len() + self.pending() <= self.limit(),
            self.view().len() + self.pending() <= u32::MAX,
    {
    }

    /// Two batchers with the same first `n` runs draw the same first `n` runs.
    proof fn lemma_drawn_ext(a: Self, b: Self, n: int)
        requires
            0 <= n <= a.cmds@.len(),
            n <= b.cmds@.len(),
            forall|i: int| 0 <= i < n ==> #[trigger] a.tagged(i) == b.tagged(i),
        ensures
            a.drawn_upto(n) == b.drawn_upto(n),
        decreases n,
    {
        if n > 0 {
            Self::lemma_drawn_ext(a, b, n - 1);
            assert(a.tagged(n - 1) == b.tagged(n - 1));
        }
    }

    /// A batcher with no commands draws nothing.
    proof fn lemma_empty_view(self)
        requires
            self.cmds@.len() == 0,
        ensures
            self.view() == Seq::<(DrawKey, V)>::empty(),
    {
    }

    /// Start with room for `capacity` vertices per chunk, never fewer than
    /// `MIN_ARENA`.
    pub fn new(capacity: usize) -> (b: Self)
        requires
            capacity <= u32::MAX,
        ensures
            b.wf(),
            b.idle(),
            b.view() == Seq::<(DrawKey, V)>::empty(),
            b.limit() == (if capacity < MIN_ARENA {
                MIN_ARENA
            } else {
                capacity
            }),
            b.spec_peak() == 0,
            b.chunk_count() == 0,
            b.commands().len() == 0,
    {
        let capacity = if capacity < MIN_ARENA {
            MIN_ARENA
        } else {
            capacity
        };
        let b = Batcher {
            arena: Vec::with_capacity(capacity),
            chunks: Vec::with_capacity(2),
            cmds: Vec::with_capacity(256),
            chunk: 0,
            capacity,
            peak: 0,
        };
        proof {
            b.lemma_empty_view();
        }
        b
    }

    /// How many vertices fit in one batch. Primitives longer than this split
    /// themselves across several, which is why no draw call has a size limit.
    pub fn batch_limit(&self) -> (n: usize)
        ensures
            n == self.limit(),
    {
        self.capacity
    }

    /// Vertices handed to chunks so far this frame; after `render`, every
    /// vertex the frame packed.
    pub fn peak(&self) -> (n: usize)
        ensures
            n == self.spec_peak(),
    {
        self.peak
    }

    /// Vertices packed so far this frame, in chunks and in the arena.
    pub fn packed(&self) -> (n: usize)
        requires
            self.wf(),
        ensures
            n == self.view().len(),
    {
        self.peak + self.arena.len()
    }

    /// Number of chunks filled this frame.
    pub fn chunks_used(&self) -> (n: u32)
        ensures
            n == self.chunk_count(),
    {
        self.chunk
    }

    /// The vertices of filled chunk `c`, for upload.
    pub fn chunk_vertices(&self, c: u32) -> (s: &[V])
        requires
            self.wf(),
            c < self.chunk_count(),
        ensures
            s@ == self.chunk_data(c as int),
    {
        self.chunks[c as usize].as_slice()
    }

    /// The command list, for replay.
    pub fn cmds(&self) -> (s: &[Cmd<T>])
        ensures
            s@ == self.commands(),
    {
        self.cmds.as_slice()
    }


    /// Whether a `begin` with this state and count extends the last command
    /// rather than opening a new one.
    pub open spec fn merges(self, k: DrawKey, count: nat) -> bool {
        &&& self.arena_len() + count <= self.limit()
        &&& self.last_open()
        &&& cmd_key(self.commands().last()) == k
    }

    /// Whether a `begin` of `count` vertices first hands the arena to a chunk.
    pub open spec fn spills(self, count: nat) -> bool {
        self.arena_len() + count > self.limit()
    }

    /// What drawing with state `k` leaves of the frame before it: the batch
    /// limit, every filled chunk and every pool buffer, every command but the
    /// last as it was, the last one at most grown (and grown only when it
    /// draws with `k`), and every command added drawing with `k`.
    pub open spec fn keeps(self, next: Self, k: DrawKey) -> bool {
        &&& next.limit() == self.limit()
        &&& self.chunk_count() <= next.chunk_count()
        &&& self.pool() <= next.pool()
        &&& self.spec_peak() <= next.spec_peak()
        &&& forall|c: int|
            0 <= c < self.chunk_count() ==> #[trigger] next.chunk_data(c) == self.chunk_data(c)
        &&& self.commands().len() <= next.commands().len()
        &&& forall|i: int|
            0 <= i < self.commands().len() - 1 ==> #[trigger] next.commands()[i]
                == self.commands()[i]
        &&& (self.commands().len() > 0 ==> {
            let j = self.commands().len() - 1;
            &&& grown(self.commands()[j], next.commands()[j])
            &&& (next.commands()[j].count != self.commands()[j].count ==> cmd_key(
                self.commands()[j],
            ) == k)
        })
        &&& forall|i: int|
            self.commands().len() <= i < next.commands().len() ==> cmd_key(
                #[trigger] next.commands()[i],
            ) == k
    }

    /// `next` is this batcher after one `push` of `v`: the vertex is drawn
    /// with the open state, one fewer is pending, and nothing else moves.
    pub open spec fn pushed(self, next: Self, v: V) -> bool {
        &&& next.wf()
        &&& next.view() == self.view().push((self.open_key(), v))
        &&& next.pending() == self.pending() - 1
        &&& next.open_key() == self.open_key()
        &&& next.limit() == self.limit()
        &&& next.spec_peak() == self.spec_peak()
        &&& next.chunk_count() == self.chunk_count()
        &&& next.commands() == self.commands()
        &&& next.arena_len() == self.arena_len() + 1
        &&& self.keeps(next, self.open_key())
    }

    /// `next` is this batcher after `begin` with state `k` and `count`
    /// vertices: the arena spills to a new chunk when they do not fit, the
    /// last command grows by `count` when it merges, and otherwise one new
    /// command of `count` vertices opens where the arena stands.
    pub open spec fn began(self, next: Self, k: DrawKey, count: nat) -> bool {
        &&& next.wf()
        &&& next.view() == self.view()
        &&& next.pending() == count
        &&& next.open_key() == k
        &&& self.keeps(next, k)
        &&& next.spec_peak() == self.spec_peak() + (if self.spills(count) {
            self.arena_len()
        } else {
            0
        })
        &&& next.arena_len() == (if self.spills(count) {
            0
        } else {
            self.arena_len()
        })
        &&& if self.merges(k, count) {
            &&& next.commands().len() == self.commands().len()
            &&& next.commands().last().count == self.commands().last().count + count
            &&& next.chunk_count() == self.chunk_count()
        } else {
            &&& next.commands().len() == self.commands().len() + 1
            &&& next.commands().last().count == count
            &&& next.commands().last().start == next.arena_len()
            &&& next.commands().last().chunk == next.chunk_count()
            &&& next.chunk_count() == self.chunk_count() + (if self.spills(count) {
                1int
            } else {
                0int
            })
            &&& (self.commands().len() > 0 ==> next.commands()[self.commands().len() - 1]
                == self.commands().last())
        }
    }

    /// Keeping the frame composes: two stretches of drawing with state `k`,
    /// one after the other, keep what came before the first.
    pub proof fn lemma_keeps_trans(a: Self, b: Self, c: Self, k: DrawKey)
        requires
            a.keeps(b, k),
            b.keeps(c, k),
        ensures
            a.keeps(c, k),
    {
        let la = a.commands().len() as int;
        let lb = b.commands().len() as int;
        if la > 0 {
            let j = la - 1;
            if j < lb - 1 {
                assert(c.commands()[j] == b.commands()[j]);
            }
        }
        assert forall|i: int| la <= i < c.commands().len() implies cmd_key(
            #[trigger] c.commands()[i],
        ) == k by {
            if i < lb - 1 {
                assert(c.commands()[i] == b.commands()[i]);
            } else if i == lb - 1 {
                assert(grown(b.commands()[i], c.commands()[i]));
            }
        }
    }

    /// Drawing nothing keeps the frame.
    pub proof fn lemma_keeps_refl(a: Self, k: DrawKey)
        ensures
            a.keeps(a, k),
    {
    }

    /// Append one vertex to the open command. `begin` has already guaranteed
    /// the room, so this never reallocates and never reaches a chunk.
    pub fn push(&mut self, v: V)
        requires
            old(self).wf(),
            old(self).pending() > 0,
        ensures
            old(self).pushed(*final(self), v),
    {
        self.arena.push(v);
        proof {
            let o = *old(self);
            let n = *self;
            let len = o.cmds@.len() as int;
            assert forall|i: int| 0 <= i < len - 1 implies #[trigger] n.tagged(i) == o.tagged(i) by {
                let c = o.cmds@[i];
                if c.chunk < o.chunk {
                    assert(n.data(c.chunk as int) == o.data(c.chunk as int));
                } else {
                    assert(cmd_end(c) <= o.arena@.len());
                    assert(n.cmd_verts(i) =~= o.cmd_verts(i));
                }
            }
            Self::lemma_drawn_ext(n, o, len - 1);
            assert(n.cmd_verts(len - 1) =~= o.cmd_verts(len - 1).push(v));
            assert(n.tagged(len - 1) =~= o.tagged(len - 1).push((o.open_key(), v)));
            assert(n.view() =~= o.view().push((o.open_key(), v)));
        }
    }

    /// Hand the filled arena to a chunk and continue from empty.
    fn flush(&mut self)
        requires
            old(self).wf(),
            old(self).idle(),
        ensures
            final(self).wf(),
            final(self).idle(),
            final(self).view() == old(self).view(),
            final(self).arena@.len() == 0,
            final(self).limit() == old(self).limit(),
            final(self).commands() == old(self).commands(),
            old(self).pool() <= final(self).pool(),
            final(self).spec_peak() == old(self).spec_peak() + old(self).arena@.len(),
            final(self).chunk_count() == old(self).chunk_count() + (if old(self).arena@.len() == 0 {
                0int
            } else {
                1int
            }),
            forall|c: int| 0 <= c < old(self).chunk_count() ==> #[trigger] final(self).chunk_data(c)
                == old(self).chunk_data(c),
            old(self).arena@.len() > 0 ==> final(self).chunk_data(old(self).chunk_count() as int)
                == old(self).arena@,
    {
        if self.arena.len() == 0 {
            return ;
        }
        self.peak = self.peak + self.arena.len();
        let c = self.chunk as usize;
        if self.chunks.len() <= c {
            self.chunks.push(Vec::with_capacity(self.capacity));
        }
        let mut full: Vec<V> = Vec::new();
        std::mem::swap(&mut full, &mut self.arena);
        self.chunks.set_and_swap(c, &mut full);
        full.clear();
        self.arena = full;
        self.chunk = self.chunk + 1;
        proof {
            let o = *old(self);
            let n = *self;
            let len = o.cmds@.len() as int;
            assert forall|i: int| 0 <= i < len implies #[trigger] n.tagged(i) == o.tagged(i) by {
                let ch = o.cmds@[i].chunk as int;
                assert(n.data(ch) == o.data(ch));
            }
            Self::lemma_drawn_ext(n, o, len);
            assert forall|i: int| 0 <= i < len implies {
                &&& #[trigger] n.cmds@[i].chunk <= n.chunk
                &&& cmd_end(n.cmds@[i]) <= n.capacity
                &&& (n.cmds@[i].chunk < n.chunk ==> cmd_end(n.cmds@[i]) <= n.data(
                    n.cmds@[i].chunk as int).len())
                &&& (n.cmds@[i].chunk == n.chunk && i + 1 < n.cmds@.len()
                    ==> cmd_end(n.cmds@[i]) <= n.arena@.len())
            } by {
                let ch = o.cmds@[i].chunk as int;
                assert(n.data(ch) == o.data(ch));
            }
        }
    }


    /// Whether the last command is open, ends at `start`, and draws with the
    /// given state.
    fn extends_last(
        &self,
        topology: Topology,
        texture: &Option<TextureSlot<T>>,
        viewport: [u32; 4],
        start: usize,
    ) -> (b: bool)
        requires
            self.wf(),
        ensures
            b == (self.last_open() && cmd_end(self.cmds@.last()) == start && cmd_key(
                self.cmds@.last(),
            ) == (DrawKey { topology, viewport, texture: slot_key(*texture) })),
    {
        let n = self.cmds.len();
        if n == 0 {
            return false;
        }
        let last = &self.cmds[n - 1];
        let same_texture = match (&last.texture, texture) {
            (None, None) => true,
            (Some(a), Some(b)) => a.key == b.key,
            _ => false,
        };
        let same_viewport = last.viewport[0] == viewport[0] && last.viewport[1] == viewport[1]
            && last.viewport[2] == viewport[2] && last.viewport[3] == viewport[3];
        proof {
            if same_viewport {
                assert(last.viewport =~= viewport);
            }
            if last.viewport == viewport {
                assert(last.viewport[0] == viewport[0] && last.viewport[1] == viewport[1]
                    && last.viewport[2] == viewport[2] && last.viewport[3] == viewport[3]);
            }
        }
        last.topology == topology && same_viewport && last.chunk == self.chunk && last.start as usize
            + last.count as usize == start && same_texture
    }

    /// Make room for `count` more vertices and open a batch to receive them.
    ///
    /// Merges into the previous command when the pipeline, the viewport, the
    /// texture and the chunk all match, so a hundred line segments in a row
    /// cost one draw call, not a hundred.
    #[verifier::rlimit(40)]
    pub fn begin(
        &mut self,
        topology: Topology,
        texture: Option<TextureSlot<T>>,
        viewport: [u32; 4],
        count: usize,
    )
        requires
            old(self).wf(),
            old(self).idle(),
            count <= old(self).limit(),
            old(self).view().len() + count <= u32::MAX,
        ensures
            old(self).began(
                *final(self),
                DrawKey { topology, viewport, texture: slot_key(texture) },
                count as nat,
            ),
            !old(self).merges(DrawKey { topology, viewport, texture: slot_key(texture) }, count as nat)
                ==> final(self).commands().last().texture == texture,
    {
        let ghost k = DrawKey { topology, viewport, texture: slot_key(texture) };
        if self.arena.len() + count > self.capacity {
            self.flush();
        }
        let ghost mid = *self;
        let start = self.arena.len();
        let n = self.cmds.len();
        let mergeable = self.extends_last(topology, &texture, viewport, start);
        if mergeable {
            let c = self.cmds[n - 1].count + count as u32;
            self.cmds[n - 1].count = c;
            proof {
                let o = mid;
                let nw = *self;
                let len = o.cmds@.len() as int;
                assert forall|i: int| 0 <= i < len implies #[trigger] nw.tagged(i) == o.tagged(i) by {
                    if i == len - 1 {
                        assert(nw.cmd_verts(i) =~= o.cmd_verts(i));
                    }
                }
                Self::lemma_drawn_ext(nw, o, len);
            }
        } else {
            self.cmds.push(
                Cmd { topology, viewport, texture, chunk: self.chunk, start: start as u32, count: count as u32 },
            );
            proof {
                let o = mid;
                let nw = *self;
                let len = o.cmds@.len() as int;
                assert forall|i: int| 0 <= i < len implies #[trigger] nw.tagged(i) == o.tagged(i) by {
                    assert(nw.cmds@[i] == o.cmds@[i]);
                }
                Self::lemma_drawn_ext(nw, o, len);
                assert(nw.cmd_verts(len) =~= Seq::<V>::empty());
                assert(nw.view() =~= o.view());
            }
        }
        assert forall|c: int| 0 <= c < old(self).chunk_count() implies #[trigger] self.chunk_data(c)
            == old(self).chunk_data(c) by {
            assert(self.chunk_data(c) == mid.chunk_data(c));
        }
    }

    /// A `begin` merges only into a contiguous last command of the same
    /// state: one into a frame with no command yet, with a pipeline, viewport
    /// or texture other than the last command's, whose vertices do not fit
    /// beside it in the arena, or not contiguous with it (the last command in
    /// an earlier chunk, or ending elsewhere than the arena does) opens a new
    /// command of its own, drawing with its state, for its `count` vertices,
    /// and leaves the previous last command as it was.
    pub proof fn lemma_other_state_opens_a_command(self, next: Self, k: DrawKey, count: nat)
        requires
            self.wf(),
            self.idle(),
            self.began(next, k, count),
            self.commands().len() == 0 || cmd_key(self.commands().last()) != k
                || self.commands().last().chunk != self.chunk_count() || cmd_end(
                self.commands().last(),
            ) != self.arena_len() || self.spills(count),
        ensures
            next.commands().len() == self.commands().len() + 1,
            cmd_key(next.commands().last()) == k,
            next.commands().last().count == count,
            next.commands().last().chunk == next.chunk_count(),
            next.commands().last().start == next.arena_len(),
            self.commands().len() > 0 ==> next.commands()[self.commands().len() - 1]
                == self.commands().last(),
    {
        assert(!self.merges(k, count));
        assert(cmd_key(next.commands()[next.commands().len() - 1]) == k);
    }

    /// The state before round `i` of a run of rounds that starts at `start`:
    /// `start` itself, then the state the previous round ended in.
    pub open spec fn round_start(start: Self, rounds: Seq<Seq<Self>>, i: int) -> Self {
        if i <= 0 {
            start
        } else {
            rounds[i - 1].last()
        }
    }

    /// One round's pushes, of `vs`: from its `begin`, each push keeps the commands,
    /// the chunks and the peak, and fills one more of the reserved vertices.
    proof fn lemma_round_pushes(r: Seq<Self>, vs: Seq<V>, count: nat, t: int)
        requires
            r.len() == count + 1,
            r[0].wf(),
            r[0].pending() == count,
            0 <= t <= count,
            forall|u: int| 0 <= u < count ==> r[u].pushed(r[u + 1], #[trigger] vs[u]),
        ensures
            r[t].wf(),
            r[t].commands() == r[0].commands(),
            r[t].chunk_count() == r[0].chunk_count(),
            r[t].spec_peak() == r[0].spec_peak(),
            r[t].limit() == r[0].limit(),
            r[t].pending() == count - t,
            r[t].view().len() == r[0].view().len() + t,
        decreases t,
    {
        if t > 0 {
            Self::lemma_round_pushes(r, vs, count, t - 1);
            assert(r[t - 1].pushed(r[t], vs[t - 1]));
        }
    }

    /// What the first `i` rounds of same-state begins leave: one command of
    /// `i * count` vertices at the start of chunk 0, nothing pending.
    proof fn lemma_rounds_upto(
        start: Self,
        rounds: Seq<Seq<Self>>,
        vertices: Seq<Seq<V>>,
        k: DrawKey,
        count: nat,
        i: int,
    )
        requires
            start.wf(),
            start.view().len() == 0,
            start.spec_peak() == 0,
            start.chunk_count() == 0,
            start.commands().len() == 0,
            rounds.len() * count <= start.limit(),
            forall|j: int| 0 <= j < rounds.len() ==> #[trigger] rounds[j].len() == count + 1,
            forall|j: int|
                0 <= j < rounds.len() ==> Self::round_start(start, rounds, j).began(
                    #[trigger] rounds[j][0],
                    k,
                    count,
                ),
            forall|j: int, u: int|
                0 <= j < rounds.len() && 0 <= u < count ==> rounds[j][u].pushed(
                    rounds[j][u + 1],
                    #[trigger] vertices[j][u],
                ),
            0 <= i <= rounds.len(),
        ensures
            ({
                let s = Self::round_start(start, rounds, i);
                &&& s.wf()
                &&& s.idle()
                &&& s.spec_peak() == 0
                &&& s.chunk_count() == 0
                &&& s.limit() == start.limit()
                &&& s.view().len() == i * count
                &&& (i == 0 ==> s.commands().len() == 0)
                &&& (i > 0 ==> {
                    &&& s.commands().len() == 1
                    &&& cmd_key(s.commands()[0]) == k
                    &&& s.commands()[0].chunk == 0
                    &&& s.commands()[0].start == 0
                    &&& s.commands()[0].count == i * count
                })
            }),
        decreases i,
    {
        if i > 0 {
            let j = i - 1;
            Self::lemma_rounds_upto(start, rounds, vertices, k, count, j);
            let s = Self::round_start(start, rounds, j);
            let r = rounds[j];
            assert(s.began(r[0], k, count));
            assert(j * count + count == i * count) by (nonlinear_arith)
                requires
                    i == j + 1,
            ;
            assert(i * count <= rounds.len() * count) by (nonlinear_arith)
                requires
                    i <= rounds.len(),
            ;
            assert(s.arena_len() == j * count);
            assert(!s.spills(count));
            if j == 0 {
                assert(!s.merges(k, count));
                assert(cmd_key(r[0].commands()[0]) == k);
            } else {
                assert(s.merges(k, count));
                assert(grown(s.commands()[0], r[0].commands()[0]));
                assert(cmd_key(r[0].commands()[0]) == cmd_key(s.commands()[0]));
            }
            assert forall|u: int| 0 <= u < count implies r[u].pushed(
                r[u + 1],
                #[trigger] vertices[j][u],
            ) by {
                assert(rounds[j][u] == r[u]);
            }
            Self::lemma_round_pushes(r, vertices[j], count, count as int);
            assert(Self::round_start(start, rounds, i) == r[count as int]);
        }
    }

    /// Back-to-back begins with the same state collapse into one command.
    /// On a fresh frame, `rounds.len()` rounds, each a `begin` of `count`
    /// vertices drawn with state `k` followed by its `count` pushes, leave
    /// exactly one command: drawn with `k`, from the start of chunk 0, over
    /// all `rounds.len() * count` vertices — one draw call, not one per
    /// round — as long as those vertices fit in one batch. Round `j` pushes
    /// `vertices[j]`.
    pub proof fn lemma_same_state_begins_merge(
        start: Self,
        rounds: Seq<Seq<Self>>,
        vertices: Seq<Seq<V>>,
        k: DrawKey,
        count: nat,
    )
        requires
            start.wf(),
            start.view().len() == 0,
            start.spec_peak() == 0,
            start.chunk_count() == 0,
            start.commands().len() == 0,
            rounds.len() >= 1,
            rounds.len() * count <= start.limit(),
            forall|j: int| 0 <= j < rounds.len() ==> #[trigger] rounds[j].len() == count + 1,
            forall|j: int|
                0 <= j < rounds.len() ==> Self::round_start(start, rounds, j).began(
                    #[trigger] rounds[j][0],
                    k,
                    count,
                ),
            forall|j: int, u: int|
                0 <= j < rounds.len() && 0 <= u < count ==> rounds[j][u].pushed(
                    rounds[j][u + 1],
                    #[trigger] vertices[j][u],
                ),
        ensures
            ({
                let end = rounds.last().last();
                &&& end.idle()
                &&& end.chunk_count() == 0
                &&& end.commands().len() == 1
                &&& cmd_key(end.commands()[0]) == k
                &&& end.commands()[0].chunk == 0
                &&& end.commands()[0].start == 0
                &&& end.commands()[0].count == rounds.len() * count
            }),
    {
        Self::lemma_rounds_upto(start, rounds, vertices, k, count, rounds.len() as int);
    }

    /// What the GPU reads for a list of draws: each draw's range of its
    /// chunk buffer, each vertex with the state bound at the draw.
    pub closed spec fn replayed(self, draws: Seq<(Bound, u32, u32)>) -> Seq<(DrawKey, V)>
        decreases draws.len(),
    {
        if draws.len() == 0 {
            Seq::empty()
        } else {
            let (st, s, e) = draws.last();
            let k = DrawKey {
                topology: st.topology->0,
                viewport: st.viewport->0,
                texture: st.texture->0,
            };
            self.replayed(draws.drop_last()) + self.chunks@[st.chunk->0 as int]@.subrange(
                s as int,
                e as int,
            ).map_values(|v: V| (k, v))
        }
    }

    proof fn lemma_replayed_expected(self, n: int)
        requires
            self.wf(),
            self.idle(),
            self.arena@.len() == 0,
            0 <= n <= self.cmds@.len(),
        ensures
            self.replayed(expected_draws(self.cmds@, self.pool(), n)) == self.drawn_upto(n),
        decreases n,
    {
        if n > 0 {
            self.lemma_replayed_expected(n - 1);
            let c = self.cmds@[n - 1];
            let prev = expected_draws(self.cmds@, self.pool(), n - 1);
            if c.chunk < self.chunk {
                let d = expected_draws(self.cmds@, self.pool(), n);
                assert(d.drop_last() == prev);
                assert(self.replayed(d) =~= self.drawn_upto(n));
            } else {
                assert(c.chunk == self.chunk);
                assert(self.cmd_verts(n - 1) =~= Seq::<V>::empty());
                assert(self.drawn_upto(n) =~= self.drawn_upto(n - 1));
                if c.chunk < self.pool() {
                    let d = expected_draws(self.cmds@, self.pool(), n);
                    assert(d.drop_last() == prev);
                    assert(cmd_end(c) == 0);
                    assert(self.replayed(d) =~= self.replayed(prev));
                }
            }
        }
    }

    /// Once the tail is flushed, replaying the render plan reads back from
    /// the chunk buffers exactly what the frame packed: every vertex pushed,
    /// in order, drawn with the pipeline, viewport and texture it was pushed
    /// under. A frame that overflows the arena still draws everything.
    pub proof fn lemma_render_draws_the_frame(self, ops: Seq<RenderOp>)
        requires
            self.wf(),
            self.idle(),
            self.arena_len() == 0,
            ops == plan(self.commands(), self.pool(), self.commands().len() as int).0,
        ensures
            self.replayed(run_ops(self.commands(), unbound(), ops)) == self.view(),
    {
        assert(self.cmds@.len() == self.cmds.len());
        lemma_plan_replays_commands(self.cmds@, self.pool(), self.cmds@.len() as int);
        self.lemma_replayed_expected(self.cmds@.len() as int);
    }

    /// Number of chunk buffers the pool holds; it only ever grows.
    pub closed spec fn pool(self) -> nat {
        self.chunks@.len()
    }

    /// Number of chunk buffers in the pool, for the renderer to match.
    pub fn pool_size(&self) -> (n: usize)
        ensures
            n == self.pool(),
    {
        self.chunks.len()
    }

    /// Flush the tail, then replay every command: the bindings each one needs,
    /// and its draw.
    #[verifier::rlimit(40)]
    pub fn render(&mut self) -> (ops: Vec<RenderOp>)
        requires
            old(self).wf(),
            old(self).idle(),
        ensures
            final(self).wf(),
            final(self).idle(),
            final(self).view() == old(self).view(),
            final(self).arena_len() == 0,
            final(self).spec_peak() == old(self).view().len(),
            final(self).commands() == old(self).commands(),
            final(self).limit() == old(self).limit(),
            ops@ == plan(final(self).commands(), final(self).pool(), final(self).commands().len() as int).0,
    {
        self.flush();
        let mut ops: Vec<RenderOp> = Vec::new();
        let mut bound_chunk: Option<u32> = None;
        let mut bound_viewport: Option<[u32; 4]> = None;
        let mut bound_topology: Option<Topology> = None;
        let mut bound_texture: Option<Option<u64>> = None;
        let pool = self.chunks.len();
        let mut i: usize = 0;
        while i < self.cmds.len()
            invariant
                self.wf(),
                pool == self.pool(),
                0 <= i <= self.cmds@.len(),
                ({
                    let (p, st) = plan(self.cmds@, self.pool(), i as int);
                    &&& ops@ == p
                    &&& st == (Bound {
                        chunk: bound_chunk,
                        viewport: bound_viewport,
                        topology: bound_topology,
                        texture: bound_texture,
                    })
                }),
            decreases self.cmds@.len() - i,
        {
            let c = &self.cmds[i];
            if (c.chunk as usize) < pool {
                let ghost before = ops@;
                let ghost st = Bound {
                    chunk: bound_chunk,
                    viewport: bound_viewport,
                    topology: bound_topology,
                    texture: bound_texture,
                };
                let ghost mid0 = ops@;
                if bound_chunk != Some(c.chunk) {
                    ops.push(RenderOp::Chunk(c.chunk));
                    bound_chunk = Some(c.chunk);
                }
                let ghost mid1 = ops@;
                let same_viewport = match bound_viewport {
                    Some(v) => same_rect(&v, &c.viewport),
                    None => false,
                };
                if !same_viewport {
                    ops.push(RenderOp::Viewport(c.viewport));
                    bound_viewport = Some(c.viewport);
                }
                let ghost mid2 = ops@;
                if bound_topology != Some(c.topology) {
                    ops.push(RenderOp::Pipeline(c.topology));
                    bound_topology = Some(c.topology);
                }
                let ghost mid3 = ops@;
                let key = match &c.texture {
                    Some(t) => Some(t.key),
                    None => None,
                };
                if bound_texture != Some(key) {
                    ops.push(RenderOp::Texture(i));
                    bound_texture = Some(key);
                }
                let ghost mid4 = ops@;
                ops.push(RenderOp::Draw(c.start, c.start + c.count));
                proof {
                    assert(cmd_end(*c) <= self.capacity);
                    match st.viewport {
                        Some(v) => {
                            if v == c.viewport {
                                assert(same_viewport);
                            }
                        },
                        None => {},
                    }
                    assert(mid1 =~= mid0 + (if st.chunk == Some(c.chunk) {
                        Seq::<RenderOp>::empty()
                    } else {
                        seq![RenderOp::Chunk(c.chunk)]
                    }));
                    assert(mid2 =~= mid1 + (if st.viewport == Some(c.viewport) {
                        Seq::<RenderOp>::empty()
                    } else {
                        seq![RenderOp::Viewport(c.viewport)]
                    }));
                    assert(ops@ =~= before + step_ops(st, *c, i as int));
                    assert(bound_viewport == Some(c.viewport));
                }
            }
            i = i + 1;
        }
        ops
    }

    /// Forget the previous frame, keeping every allocation.
    pub fn begin_frame(&mut self)
        requires
            old(self).wf(),
        ensures
            final(self).wf(),
            final(self).idle(),
            final(self).view() == Seq::<(DrawKey, V)>::empty(),
            final(self).limit() == old(self).limit(),
            final(self).spec_peak() == 0,
            final(self).chunk_count() == 0,
            final(self).commands().len() == 0,
            final(self).arena_len() == 0,
            final(self).pool() == old(self).pool(),
            forall|c: int|
                0 <= c < old(self).pool() ==> #[trigger] final(self).chunk_data(c) == old(
                    self,
                ).chunk_data(c),
    {
        self.arena.clear();
        self.cmds.clear();
        self.chunk = 0;
        self.peak = 0;
        proof {
            self.lemma_empty_view();
        }
    }
}

} // verus!
