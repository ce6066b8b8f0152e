use vstd::prelude::*;
use crate::color::channel;

verus! {

/// The most quads that one frame holds; draws beyond it are dropped.
pub const MAX_QUADS: usize = 10000;

/// The most vertices that one frame holds: four for each quad.
pub const MAX_VERTICES: usize = MAX_QUADS * 4;

/// The length of the index pattern: six indices for each quad.
pub const MAX_INDICES: usize = MAX_QUADS * 6;

/// The 32-bit words of one vertex.
pub const WORDS_PER_VERTEX: usize = 8;

/// The 32-bit words of one quad.
pub const WORDS_PER_QUAD: usize = 32;

/// One vertex as the words that are uploaded: each field holds the bit
/// pattern of a 32-bit float. Position, texture coordinate, colour.
#[derive(Debug, Clone, Copy, PartialEq, Eq, Structural)]
pub struct VertexWords {
    pub x: u32,
    pub y: u32,
    pub u: u32,
    pub v: u32,
    pub r: u32,
    pub g: u32,
    pub b: u32,
    pub a: u32,
}

/// The words of a vertex in upload order.
pub open spec fn vertex_words(vertex: VertexWords) -> Seq<u32> {
    seq![vertex.x, vertex.y, vertex.u, vertex.v, vertex.r, vertex.g, vertex.b, vertex.a]
}

/// The words of the four corners of a quad in upload order.
pub open spec fn quad_words(quad: [VertexWords; 4]) -> Seq<u32> {
    vertex_words(quad@[0]) + vertex_words(quad@[1]) + vertex_words(quad@[2]) + vertex_words(
        quad@[3],
    )
}

/// The mathematical state of a batch.
pub struct BatchState {
    /// The words of all vertices recorded since the frame began.
    pub words: Seq<u32>,
    /// The quads recorded since the frame began.
    pub quad_count: nat,
}

impl BatchState {
    /// The state at the start of a frame.
    pub open spec fn empty() -> Self {
        BatchState { words: Seq::empty(), quad_count: 0 }
    }

    pub open spec fn wf(self) -> bool {
        &&& self.quad_count <= MAX_QUADS
        &&& self.words.len() == WORDS_PER_QUAD * self.quad_count
    }

    pub open spec fn is_full(self) -> bool {
        self.quad_count >= MAX_QUADS
    }

    /// The state after one draw: unchanged when the batch is full.
    pub open spec fn push_quad(self, quad: [VertexWords; 4]) -> Self {
        if self.is_full() {
            self
        } else {
            BatchState { words: self.words + quad_words(quad), quad_count: self.quad_count + 1 }
        }
    }

    /// The state after the draws of `quads`, the first one first.
    pub open spec fn push_quads(self, quads: Seq<[VertexWords; 4]>) -> Self
        decreases quads.len(),
    {
        if quads.len() == 0 {
            self
        } else {
            self.push_quads(quads.drop_last()).push_quad(quads.last())
        }
    }
}

/// Between the start of a frame and its flush, exactly the first
/// `MAX_QUADS` draws are recorded: after `n` draws the batch holds `n` quads,
/// or `MAX_QUADS` if `n` is more, and each draw beyond the cap changes
/// nothing.
pub proof fn law_draws_beyond_cap_are_dropped(quads: Seq<[VertexWords; 4]>)
    ensures
        BatchState::empty().push_quads(quads).wf(),
        BatchState::empty().push_quads(quads).quad_count == if quads.len() <= MAX_QUADS {
            quads.len()
        } else {
            MAX_QUADS as nat
        },
        quads.len() > MAX_QUADS ==> BatchState::empty().push_quads(quads)
            == BatchState::empty().push_quads(quads.take(MAX_QUADS as int)),
    decreases quads.len(),
{
    if quads.len() > 0 {
        law_draws_beyond_cap_are_dropped(quads.drop_last());
        if quads.len() > MAX_QUADS {
            if quads.len() - 1 > MAX_QUADS {
                assert(quads.drop_last().take(MAX_QUADS as int) =~= quads.take(MAX_QUADS as int));
            } else {
                assert(quads.drop_last() =~= quads.take(MAX_QUADS as int));
            }
        }
    }
}

/// The bytes of 32-bit words with the lowest byte of each word first.
pub open spec fn word_bytes_le(words: Seq<u32>) -> Seq<u8> {
    Seq::new(4 * words.len(), |i: int| channel(words[i / 4], (8 * (i % 4)) as nat) as u8)
}

/// The bytes of 32-bit words with the highest byte of each word first.
pub open spec fn word_bytes_be(words: Seq<u32>) -> Seq<u8> {
    Seq::new(4 * words.len(), |i: int| channel(words[i / 4], (8 * (3 - i % 4)) as nat) as u8)
}

/// Whether `bytes` is what a machine holds in memory for `words`: the bytes
/// of each word in the machine's byte order, the words in sequence.
pub open spec fn is_word_image(bytes: Seq<u8>, words: Seq<u32>) -> bool {
    bytes == word_bytes_le(words) || bytes == word_bytes_be(words)
}

/// The bytes of 16-bit indices with the low byte of each index first.
pub open spec fn index_bytes_le(indices: Seq<u16>) -> Seq<u8> {
    Seq::new(
        2 * indices.len(),
        |i: int| channel(indices[i / 2] as u32, (8 * (i % 2)) as nat) as u8,
    )
}

/// The bytes of 16-bit indices with the high byte of each index first.
pub open spec fn index_bytes_be(indices: Seq<u16>) -> Seq<u8> {
    Seq::new(
        2 * indices.len(),
        |i: int| channel(indices[i / 2] as u32, (8 * (1 - i % 2)) as nat) as u8,
    )
}

/// Whether `bytes` is what a machine holds in memory for `indices`.
pub open spec fn is_index_image(bytes: Seq<u8>, indices: Seq<u16>) -> bool {
    bytes == index_bytes_le(indices) || bytes == index_bytes_be(indices)
}

/// `bytemuck::cast_slice` from 32-bit words to bytes: the same memory read
/// as bytes, four for each word. Which byte of a word comes first is the
/// machine's choice, so the contract leaves both orders open.
#[verifier::external_body]
fn words_as_bytes(words: &[u32]) -> (bytes: &[u8])
    ensures
        bytes@.len() == 4 * words@.len(),
        is_word_image(bytes@, words@),
{
    bytemuck::cast_slice(words)
}

/// `bytemuck::cast_slice` from 16-bit indices to bytes: the same memory read
/// as bytes, two for each index, in the machine's byte order.
#[verifier::external_body]
fn indices_as_bytes(indices: &[u16]) -> (bytes: &[u8])
    ensures
        bytes@.len() == 2 * indices@.len(),
        is_index_image(bytes@, indices@),
{
    bytemuck::cast_slice(indices)
}

/// What a flush hands to the GPU: the vertex data to upload, once, and the
/// one indexed draw that covers every recorded quad.
pub struct DrawCall<'a> {
    /// The bytes of the recorded vertices, in upload order.
    pub vertex_bytes: &'a [u8],
    /// The number of indices to draw, from the start of the index pattern.
    pub index_count: u32,
}

/// The vertices of the quads drawn in the current frame.
pub struct QuadBatch {
    words: Vec<u32>,
    quad_count: usize,
}

impl QuadBatch {
    pub closed spec fn view(&self) -> BatchState {
        BatchState { words: self.words@, quad_count: self.quad_count as nat }
    }

    /// An empty batch.
    pub fn new() -> (batch: Self)
        ensures
            batch@ == BatchState::empty(),
            batch@.wf(),
    {
        QuadBatch { words: Vec::new(), quad_count: 0 }
    }

    /// Starts a frame: forgets every recorded quad.
    pub fn begin(&mut self)
        ensures
            final(self)@ == BatchState::empty(),
            final(self)@.wf(),
    {
        self.words.clear();
        self.quad_count = 0;
    }

    /// The quads recorded since the frame began.
    pub fn quad_count(&self) -> (n: usize)
        ensures
            n == self@.quad_count,
    {
        self.quad_count
    }

    /// Whether the cap is reached, so that further draws are dropped.
    pub fn is_full(&self) -> (full: bool)
        ensures
            full == self@.is_full(),
    {
        self.quad_count >= MAX_QUADS
    }

    /// Records one quad by its four corners, unless the batch is full: then
    /// the draw is dropped and nothing changes. Returns whether the quad was
    /// recorded.
    pub fn push_quad(&mut self, quad: [VertexWords; 4]) -> (recorded: bool)
        requires
            old(self)@.wf(),
        ensures
            final(self)@.wf(),
            recorded == !old(self)@.is_full(),
            final(self)@ == old(self)@.push_quad(quad),
    {
        if self.quad_count >= MAX_QUADS {
            return false;
        }
        let mut i: usize = 0;
        while i < 4
            invariant
                i <= 4,
                self.quad_count == old(self).quad_count,
                self.words@ == old(self).words@ + if i == 0 {
                    Seq::<u32>::empty()
                } else if i == 1 {
                    vertex_words(quad@[0])
                } else if i == 2 {
                    vertex_words(quad@[0]) + vertex_words(quad@[1])
                } else if i == 3 {
                    vertex_words(quad@[0]) + vertex_words(quad@[1]) + vertex_words(quad@[2])
                } else {
                    quad_words(quad)
                },
            decreases 4 - i,
        {
            let ghost before = self.words@;
            let vertex = quad[i];
            self.words.push(vertex.x);
            self.words.push(vertex.y);
            self.words.push(vertex.u);
            self.words.push(vertex.v);
            self.words.push(vertex.r);
            self.words.push(vertex.g);
            self.words.push(vertex.b);
            self.words.push(vertex.a);
            assert(self.words@ =~= before + vertex_words(vertex));
            assert(self.words@ =~= old(self).words@ + if i == 0 {
                vertex_words(quad@[0])
            } else if i == 1 {
                vertex_words(quad@[0]) + vertex_words(quad@[1])
            } else if i == 2 {
                vertex_words(quad@[0]) + vertex_words(quad@[1]) + vertex_words(quad@[2])
            } else {
                quad_words(quad)
            });
            i = i + 1;
        }
        self.quad_count = self.quad_count + 1;
        true
    }

    /// The number of indices that the flush draws: six for each quad.
    pub fn index_count(&self) -> (n: u32)
        requires
            self@.wf(),
        ensures
            n == 6 * self@.quad_count,
    {
        (self.quad_count * 6) as u32
    }

    /// The recorded vertex words, in upload order.
    pub fn words(&self) -> (words: &[u32])
        ensures
            words@ == self@.words,
    {
        self.words.as_slice()
    }

    /// The end of a frame: nothing to do if no quad was recorded, else one
    /// upload and one draw call for all of them.
    pub fn flush(&self) -> (call: Option<DrawCall<'_>>)
        requires
            self@.wf(),
        ensures
            match call {
                Some(call) => {
                    &&& self@.quad_count > 0
                    &&& call.index_count == 6 * self@.quad_count
                    &&& call.vertex_bytes@.len() == 128 * self@.quad_count
                    &&& is_word_image(call.vertex_bytes@, self@.words)
                },
                None => self@.quad_count == 0,
            },
    {
        if self.quad_count == 0 {
            None
        } else {
            Some(
                DrawCall { vertex_bytes: self.vertex_bytes(), index_count: self.index_count() },
            )
        }
    }

    /// The recorded vertices as the bytes to upload: four for each word.
    pub fn vertex_bytes(&self) -> (bytes: &[u8])
        ensures
            bytes@.len() == 4 * self@.words.len(),
            is_word_image(bytes@, self@.words),
    {
        words_as_bytes(self.words.as_slice())
    }
}

/// The sign of each coordinate of corner `i` of a quad about its centre:
/// bottom left, bottom right, top right, top left.
pub open spec fn corner_signs_spec(i: int) -> (int, int) {
    (if i == 0 || i == 3 { -1 } else { 1 }, if i == 0 || i == 1 { -1 } else { 1 })
}

/// The texture coordinate of corner `i` in the unit square: the bottom
/// corners lie at v = 1, the top corners at v = 0.
pub open spec fn corner_uv_spec(i: int) -> (int, int) {
    (if i == 0 || i == 3 { 0 } else { 1 }, if i == 0 || i == 1 { 1 } else { 0 })
}

pub fn corner_signs(i: usize) -> (signs: (i8, i8))
    requires
        i < 4,
    ensures
        (signs.0 as int, signs.1 as int) == corner_signs_spec(i as int),
{
    if i == 0 {
        (-1, -1)
    } else if i == 1 {
        (1, -1)
    } else if i == 2 {
        (1, 1)
    } else {
        (-1, 1)
    }
}

pub fn corner_uv(i: usize) -> (uv: (u8, u8))
    requires
        i < 4,
    ensures
        (uv.0 as int, uv.1 as int) == corner_uv_spec(i as int),
{
    if i == 0 {
        (0, 1)
    } else if i == 1 {
        (1, 1)
    } else if i == 2 {
        (1, 0)
    } else {
        (0, 0)
    }
}

/// Index `k` of the static index pattern: quad `k / 6` is drawn as the two
/// triangles (0, 1, 2) and (0, 2, 3) of its four vertices.
pub open spec fn quad_index_spec(k: int) -> int {
    let base = 4 * (k / 6);
    let corner = k % 6;
    base + if corner == 0 || corner == 3 {
        0int
    } else if corner == 1 {
        1
    } else if corner == 2 || corner == 4 {
        2
    } else {
        3
    }
}

/// The static index pattern for every quad slot up to the cap.
pub fn quad_indices() -> (indices: Vec<u16>)
    ensures
        indices@.len() == MAX_INDICES,
        forall|k: int| 0 <= k < MAX_INDICES ==> #[trigger] indices@[k] == quad_index_spec(k),
{
    let mut indices: Vec<u16> = Vec::with_capacity(MAX_INDICES);
    let mut i: usize = 0;
    while i < MAX_QUADS
        invariant
            i <= MAX_QUADS,
            indices@.len() == 6 * i,
            forall|k: int| 0 <= k < 6 * i ==> #[trigger] indices@[k] == quad_index_spec(k),
        decreases MAX_QUADS - i,
    {
        let base: u16 = (i * 4) as u16;
        let ghost before = indices@;
        indices.push(base);
        indices.push(base + 1);
        indices.push(base + 2);
        indices.push(base);
        indices.push(base + 2);
        indices.push(base + 3);
        proof {
            assert forall|k: int| 0 <= k < 6 * (i + 1) implies #[trigger] indices@[k]
                == quad_index_spec(k) by {
                if k < 6 * i {
                    assert(indices@[k] == before[k]);
                } else {
                    assert(k / 6 == i as int && k % 6 == k - 6 * i) by (nonlinear_arith)
                        requires
                            6 * i <= k < 6 * (i + 1),
                    ;
                }
            }
        }
        i = i + 1;
    }
    indices
}

/// The static index pattern as the bytes to upload: two for each index.
pub fn quad_index_bytes(indices: &Vec<u16>) -> (bytes: &[u8])
    ensures
        bytes@.len() == 2 * indices@.len(),
        is_index_image(bytes@, indices@),
{
    indices_as_bytes(indices.as_slice())
}

} // verus!
