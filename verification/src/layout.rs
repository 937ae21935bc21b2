//! The mesh as the bytes of GPU buffers.

use vstd::prelude::*;

use crate::mesh::{GpuPrimitive, GpuTransform, GpuVertex, TessellationData};

verus! {

/// The bytes that a vertex takes up in the vertex buffer: two coordinates
/// of four bytes and the index of its primitive.
pub const VERTEX_SIZE: u64 = 12;

/// The bytes that a primitive takes up in the table of primitives: the
/// index of its transform and the four channels of its colour.
pub const PRIMITIVE_SIZE: u64 = 8;

/// The bytes that a transform takes up in the table of transforms: two
/// rows of four single-precision numbers.
pub const TRANSFORM_SIZE: u64 = 32;

/// The four bytes of a word, the lowest first.
pub open spec fn low_first(w: u32) -> Seq<u8> {
    seq![
        (w & 0xff) as u8,
        ((w >> 8) & 0xff) as u8,
        ((w >> 16) & 0xff) as u8,
        ((w >> 24) & 0xff) as u8,
    ]
}

/// The four bytes of a word, the highest first.
pub open spec fn high_first(w: u32) -> Seq<u8> {
    seq![
        ((w >> 24) & 0xff) as u8,
        ((w >> 16) & 0xff) as u8,
        ((w >> 8) & 0xff) as u8,
        (w & 0xff) as u8,
    ]
}

/// The four bytes of a word as they lie in memory on a machine that stores
/// the lowest byte of a word first (`little`) or the highest.
pub open spec fn word_bytes(w: u32, little: bool) -> Seq<u8> {
    if little {
        low_first(w)
    } else {
        high_first(w)
    }
}

/// The bytes of `words` as they lie in memory, word after word.
pub open spec fn in_memory(words: Seq<u32>, little: bool) -> Seq<u8> {
    Seq::new(4 * words.len(), |i: int| word_bytes(words[i / 4], little)[i % 4])
}

/// `bytes` are `words` as they lie in memory, in one byte order or the
/// other.
pub open spec fn is_memory_of(bytes: Seq<u8>, words: Seq<u32>) -> bool {
    bytes == in_memory(words, true) || bytes == in_memory(words, false)
}

/// The words of a vertex buffer: for each vertex its two coordinates and
/// the index of its primitive.
pub open spec fn vertex_words(vertices: Seq<GpuVertex>) -> Seq<u32> {
    Seq::new(
        3 * vertices.len(),
        |i: int|
            {
                let v = vertices[i / 3];
                if i % 3 == 0 {
                    v.position[0]
                } else if i % 3 == 1 {
                    v.position[1]
                } else {
                    v.prim_id
                }
            },
    )
}

/// The words of a table of transforms: for each transform its first row
/// and then its second.
pub open spec fn transform_words(transforms: Seq<GpuTransform>) -> Seq<u32> {
    Seq::new(
        8 * transforms.len(),
        |i: int|
            {
                let t = transforms[i / 8];
                if i % 8 < 4 {
                    t.data0[i % 8]
                } else {
                    t.data1[i % 8 - 4]
                }
            },
    )
}

/// The words that the primitives refer to their transforms with.
pub open spec fn transform_indices(primitives: Seq<GpuPrimitive>) -> Seq<u32> {
    Seq::new(primitives.len(), |i: int| primitives[i].transform)
}

/// The bytes of a table of primitives as they lie in memory: for each
/// primitive the four bytes of the index of its transform, and then its red,
/// green, blue and alpha.
pub open spec fn primitive_table(primitives: Seq<GpuPrimitive>, little: bool) -> Seq<u8> {
    Seq::new(
        8 * primitives.len(),
        |i: int|
            {
                let p = primitives[i / 8];
                if i % 8 < 4 {
                    word_bytes(p.transform, little)[i % 8]
                } else if i % 8 == 4 {
                    p.color.red
                } else if i % 8 == 5 {
                    p.color.green
                } else if i % 8 == 6 {
                    p.color.blue
                } else {
                    p.color.alpha
                }
            },
    )
}

/// Calls `bytemuck::cast_slice`, from words of 32 bits to bytes, and copies
/// what it gives. The cast hands out the memory of the words as bytes: the
/// contract claims that these are four bytes for each word, in the order of
/// the words, and within each word in the byte order of the machine. This
/// cast cannot fail: a byte needs no alignment and leaves no remainder.
#[verifier::external_body]
fn words_as_bytes(words: &Vec<u32>) -> (bytes: Vec<u8>)
    ensures
        is_memory_of(bytes@, words@),
{
    bytemuck::cast_slice::<u32, u8>(words.as_slice()).to_vec()
}

/// The size of a table of `len` entries of `entry` bytes each, unless it
/// is more than 64 bits can hold.
fn table_size(len: usize, entry: u64) -> (size: Option<u64>)
    ensures
        size == if len * entry <= u64::MAX {
            Some((len * entry) as u64)
        } else {
            None
        },
{
    (len as u64).checked_mul(entry)
}

impl TessellationData {
    /// The vertices as the words of the vertex buffer.
    pub fn vertex_words(&self) -> (words: Vec<u32>)
        ensures
            words@ == vertex_words(self.vertices@),
    {
        let mut words: Vec<u32> = Vec::new();
        let mut i: usize = 0;
        while i < self.vertices.len()
            invariant
                i <= self.vertices.len(),
                words@ == vertex_words(self.vertices@.take(i as int)),
            decreases self.vertices.len() - i,
        {
            let v = self.vertices[i];
            let ghost before = words@;
            words.push(v.position[0]);
            words.push(v.position[1]);
            words.push(v.prim_id);
            proof {
                let now = self.vertices@.take(i + 1);
                assert forall|j: int| 0 <= j < 3 * (i + 1) implies words@[j] == vertex_words(now)[j] by {
                    if j < 3 * i {
                        assert(before[j] == vertex_words(self.vertices@.take(i as int))[j]);
                        assert(self.vertices@.take(i as int)[j / 3] == now[j / 3]);
                    } else {
                        assert(j / 3 == i);
                    }
                }
                assert(words@ == vertex_words(now));
            }
            i = i + 1;
        }
        assert(self.vertices@.take(i as int) == self.vertices@);
        words
    }

    /// The contents of the vertex buffer: twelve bytes for each vertex.
    pub fn vertex_bytes(&self) -> (bytes: Vec<u8>)
        ensures
            is_memory_of(bytes@, vertex_words(self.vertices@)),
            bytes@.len() == VERTEX_SIZE * self.vertices@.len(),
    {
        let words = self.vertex_words();
        words_as_bytes(&words)
    }

    /// The contents of the index buffer: four bytes for each index.
    pub fn index_bytes(&self) -> (bytes: Vec<u8>)
        ensures
            is_memory_of(bytes@, self.indices@),
            bytes@.len() == 4 * self.indices@.len(),
    {
        words_as_bytes(&self.indices)
    }

    /// The transforms as the words of the table of transforms.
    pub fn transform_words(&self) -> (words: Vec<u32>)
        ensures
            words@ == transform_words(self.transforms@),
    {
        let mut words: Vec<u32> = Vec::new();
        let mut i: usize = 0;
        while i < self.transforms.len()
            invariant
                i <= self.transforms.len(),
                words@ == transform_words(self.transforms@.take(i as int)),
            decreases self.transforms.len() - i,
        {
            let t = self.transforms[i];
            let ghost before = words@;
            words.push(t.data0[0]);
            words.push(t.data0[1]);
            words.push(t.data0[2]);
            words.push(t.data0[3]);
            words.push(t.data1[0]);
            words.push(t.data1[1]);
            words.push(t.data1[2]);
            words.push(t.data1[3]);
            proof {
                let now = self.transforms@.take(i + 1);
                assert forall|j: int| 0 <= j < 8 * (i + 1) implies words@[j] == transform_words(now)[j] by {
                    if j < 8 * i {
                        assert(before[j] == transform_words(self.transforms@.take(i as int))[j]);
                        assert(self.transforms@.take(i as int)[j / 8] == now[j / 8]);
                    } else {
                        assert(j / 8 == i);
                    }
                }
                assert(words@ == transform_words(now));
            }
            i = i + 1;
        }
        assert(self.transforms@.take(i as int) == self.transforms@);
        words
    }

    /// The contents of the table of transforms: thirty-two bytes for each
    /// transform.
    pub fn transform_bytes(&self) -> (bytes: Vec<u8>)
        ensures
            is_memory_of(bytes@, transform_words(self.transforms@)),
            bytes@.len() == TRANSFORM_SIZE * self.transforms@.len(),
    {
        let words = self.transform_words();
        words_as_bytes(&words)
    }

    /// The contents of the table of primitives: eight bytes for each
    /// primitive, in one byte order or the other.
    pub fn primitive_bytes(&self) -> (bytes: Vec<u8>)
        ensures
            bytes@ == primitive_table(self.primitives@, true) || bytes@ == primitive_table(
                self.primitives@,
                false,
            ),
            bytes@.len() == PRIMITIVE_SIZE * self.primitives@.len(),
    {
        let mut indices: Vec<u32> = Vec::new();
        let mut i: usize = 0;
        while i < self.primitives.len()
            invariant
                i <= self.primitives.len(),
                indices@ == transform_indices(self.primitives@.take(i as int)),
            decreases self.primitives.len() - i,
        {
            indices.push(self.primitives[i].transform);
            i = i + 1;
        }
        assert(self.primitives@.take(i as int) == self.primitives@);
        let index_bytes = words_as_bytes(&indices);
        let ghost little = index_bytes@ == in_memory(indices@, true);
        let total: usize = index_bytes.len();
        let mut bytes: Vec<u8> = Vec::new();
        let mut k: usize = 0;
        while k < self.primitives.len()
            invariant
                k <= self.primitives.len(),
                indices@ == transform_indices(self.primitives@),
                index_bytes@ == in_memory(indices@, little),
                total == 4 * self.primitives@.len(),
                bytes@ == primitive_table(self.primitives@.take(k as int), little),
            decreases self.primitives.len() - k,
        {
            let p = self.primitives[k];
            let ghost before = bytes@;
            bytes.push(index_bytes[4 * k]);
            bytes.push(index_bytes[4 * k + 1]);
            bytes.push(index_bytes[4 * k + 2]);
            bytes.push(index_bytes[4 * k + 3]);
            bytes.push(p.color.red);
            bytes.push(p.color.green);
            bytes.push(p.color.blue);
            bytes.push(p.color.alpha);
            proof {
                let now = self.primitives@.take(k + 1);
                assert forall|j: int| 0 <= j < 8 * (k + 1) implies bytes@[j] == primitive_table(
                    now,
                    little,
                )[j] by {
                    if j < 8 * k {
                        assert(before[j] == primitive_table(
                            self.primitives@.take(k as int),
                            little,
                        )[j]);
                        assert(self.primitives@.take(k as int)[j / 8] == now[j / 8]);
                    } else {
                        assert(j / 8 == k);
                        if j % 8 < 4 {
                            let at = 4 * k + j % 8;
                            assert(at / 4 == k && at % 4 == j % 8);
                            assert(index_bytes@[at] == word_bytes(indices@[k as int], little)[j % 8]);
                        }
                    }
                }
                assert(bytes@ == primitive_table(now, little));
            }
            k = k + 1;
        }
        assert(self.primitives@.take(k as int) == self.primitives@);
        bytes
    }

    /// The size in bytes of the table of primitives, unless it is more than
    /// 64 bits can hold.
    pub fn primitives_size(&self) -> (size: Option<u64>)
        ensures
            size == if self.primitives@.len() * PRIMITIVE_SIZE <= u64::MAX {
                Some((self.primitives@.len() * PRIMITIVE_SIZE) as u64)
            } else {
                None
            },
    {
        table_size(self.primitives.len(), PRIMITIVE_SIZE)
    }

    /// The size in bytes of the table of transforms, unless it is more than
    /// 64 bits can hold.
    pub fn transforms_size(&self) -> (size: Option<u64>)
        ensures
            size == if self.transforms@.len() * TRANSFORM_SIZE <= u64::MAX {
                Some((self.transforms@.len() * TRANSFORM_SIZE) as u64)
            } else {
                None
            },
    {
        table_size(self.transforms.len(), TRANSFORM_SIZE)
    }
}

} // verus!
