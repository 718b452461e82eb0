//! The layout builder and the interleaving byte sequence.
//!
//! A `RuntimeVertexBuilder` accumulates attribute descriptors paired with
//! their source bytes, computing each member's byte offset and element count
//! in registration order.  Finalizing it checks that all sources agree on
//! the vertex count (the strict policy: a disagreement is reported as
//! `VertexCountMismatch`, and nothing is emitted) and produces the layout
//! descriptor together with a `RuntimeVertexIter`, a pull-based sequence
//! over the interleaved output bytes.

use crate::format::Format;
use crate::info::{VertexBufferInfo, VertexInputRate, VertexMemberInfo};
use crate::layout::{
    counts_agree, covers, interleaved, lemma_counts_agree_covers, lemma_covers_mono,
    lemma_interleaved_index, lemma_interleaved_len, lemma_offset_in_range, lemma_owner_unique,
    lemma_record_index, lemma_total_size_pos, lemma_total_size_snoc, member_count, owns,
    sizes_pos, total_size, wf_members, MemberView,
};
use vstd::arithmetic::div_mod::{
    lemma_div_nonincreasing, lemma_div_pos_is_pos, lemma_fundamental_div_mod,
    lemma_fundamental_div_mod_converse, lemma_mod_bound, lemma_multiply_divide_lt,
};
use vstd::prelude::*;
use vstd::string::StringExecFns;

verus! {

/// One named, typed slot of the output record: the attribute's name and the
/// element format its bytes are declared as.
#[derive(Debug, Hash, PartialEq, Eq)]
pub struct VertexAttribute {
    pub name: String,
    pub format: Format,
}

impl VertexAttribute {
    /// A new attribute descriptor with the given name and element format.
    pub fn new(name: &str, format: Format) -> (r: Self)
        ensures
            r.name@ == name@,
            r.format == format,
    {
        VertexAttribute { name: String::from_str(name), format }
    }
}

/// Reported when finalizing a builder whose attribute arrays disagree on the
/// number of vertices they hold.
#[derive(Clone, Copy, Debug, PartialEq, Eq, Structural)]
pub enum BuildError {
    VertexCountMismatch,
}

/// Accumulates attribute descriptors paired with their source bytes, and
/// computes each member's byte offset within one interleaved record.
pub struct RuntimeVertexBuilder {
    members: Vec<(String, VertexMemberInfo)>,
    slices: Vec<(Vec<u8>, usize)>,
    offset: usize,
}

/// Relies on `bytemuck::cast_slice`: reinterprets a slice of plain-old-data
/// values as its raw bytes, `size_of::<T>()` bytes per element; the call
/// rejects zero-sized element types, which the `requires` leaves out.
#[verifier::external_body]
fn pod_slice_bytes<T: bytemuck::Pod>(data: &[T]) -> (r: Vec<u8>)
    requires
        vstd::layout::size_of::<T>() > 0,
    ensures
        r@.len() == data@.len() * vstd::layout::size_of::<T>(),
{
    bytemuck::cast_slice(data).to_vec()
}

impl RuntimeVertexBuilder {
    /// The registered members as mathematical values, in registration order.
    pub closed spec fn model(self) -> Seq<MemberView> {
        Seq::new(
            self.slices@.len(),
            |i: int|
                MemberView {
                    offset: self.members@[i].1.offset as int,
                    size: self.slices@[i].1 as int,
                    data: self.slices@[i].0@,
                },
        )
    }

    /// The registered members' names and layout metadata, in registration
    /// order.
    pub closed spec fn members_spec(self) -> Seq<(String, VertexMemberInfo)> {
        self.members@
    }

    /// The running offset: the sum of the registered field sizes.
    pub closed spec fn offset_spec(self) -> int {
        self.offset as int
    }

    /// The builder's bookkeeping is consistent: members and sources pair up,
    /// offsets are prefix sums of the field sizes, the running offset is
    /// their total and fits a `u32` stride, and each member's element count
    /// times its format's element byte size gives back its field size.
    pub closed spec fn wf(self) -> bool {
        &&& self.members@.len() == self.slices@.len()
        &&& wf_members(self.model())
        &&& self.offset as int == total_size(self.model())
        &&& self.offset <= u32::MAX
        &&& forall|i: int|
            0 <= i < self.members@.len() ==> {
                let info = (#[trigger] self.members@[i]).1;
                &&& info.offset as int == self.model()[i].offset
                &&& info.format.byte_size_spec() is Some
                &&& info.num_elements as int * info.format.byte_size_spec().unwrap() as int
                    == self.slices@[i].1 as int
            }
    }

    /// A fresh builder with no members and offset accumulator zero.
    pub fn new() -> (r: Self)
        ensures
            r.wf(),
            r.model() == Seq::<MemberView>::empty(),
            r.members_spec() == Seq::<(String, VertexMemberInfo)>::empty(),
            r.offset_spec() == 0,
    {
        let r = RuntimeVertexBuilder { members: Vec::new(), slices: Vec::new(), offset: 0 };
        proof {
            assert(r.model() =~= Seq::<MemberView>::empty());
            assert(r.members_spec() =~= Seq::<(String, VertexMemberInfo)>::empty());
            assert(total_size(r.model()) == 0);
        }
        r
    }

    /// Whether a field of `field_size` bytes can be expressed as a whole
    /// number of elements of `format`: the format has a known element size and
    /// that size divides the field size evenly.  Registering an attribute
    /// demands this of its element type.
    pub fn fits_format(format: Format, field_size: usize) -> (r: bool)
        ensures
            r == (format.byte_size_spec() matches Some(bs) && field_size as int % bs as int
                == 0),
    {
        proof {
            format.lemma_byte_size_positive();
        }
        match format.byte_size() {
            Some(bs) => field_size % (bs as usize) == 0,
            None => false,
        }
    }

    /// Registers one attribute from its raw source bytes: appends a member
    /// at the current running offset holding the attribute's name, format
    /// and element count, pairs it with the source bytes, and advances the
    /// offset by the field's byte size.
    ///
    /// One field of `field_size` bytes is read from `data` per vertex.  The
    /// field must be a whole number of format elements wide — anything else
    /// is a construction contract violation — and the grown record must
    /// still fit a `u32` stride.
    pub fn add_bytes(self, attribute: VertexAttribute, data: Vec<u8>, field_size: usize) -> (r:
        Self)
        requires
            self.wf(),
            0 < field_size,
            attribute.format.byte_size_spec() matches Some(bs) && field_size as int % bs as int
                == 0,
            self.offset_spec() + field_size <= u32::MAX,
        ensures
            r.wf(),
            r.model() == self.model().push(
                MemberView { offset: self.offset_spec(), size: field_size as int, data: data@ },
            ),
            r.members_spec() == self.members_spec().push(
                (
                    attribute.name,
                    VertexMemberInfo {
                        offset: self.offset_spec() as u32,
                        format: attribute.format,
                        num_elements: (field_size as int
                            / attribute.format.byte_size_spec().unwrap() as int) as u32,
                    },
                ),
            ),
            r.offset_spec() == self.offset_spec() + field_size,
    {
        let mut b = self;
        let format_size = attribute.format.byte_size().unwrap();
        proof {
            attribute.format.lemma_byte_size_positive();
            lemma_div_nonincreasing(field_size as int, format_size as int);
            lemma_div_pos_is_pos(field_size as int, format_size as int);
        }
        let num_elements = (field_size / (format_size as usize)) as u32;
        let member_info = VertexMemberInfo {
            offset: b.offset as u32,
            format: attribute.format,
            num_elements,
        };
        b.members.push((attribute.name, member_info));
        b.slices.push((data, field_size));
        b.offset = b.offset + field_size;
        proof {
            let old_m = self.model();
            let mv = MemberView {
                offset: self.offset_spec(),
                size: field_size as int,
                data: b.slices@.last().0@,
            };
            assert(b.model() =~= old_m.push(mv));
            assert(b.members_spec() =~= self.members_spec().push(
                (attribute.name, member_info),
            ));
            lemma_total_size_snoc(old_m, mv);
            assert(wf_members(b.model())) by {
                assert forall|j: int| 0 <= j < b.model().len() implies (#[trigger] b.model()[j]).size
                    > 0 && b.model()[j].offset == total_size(b.model().subrange(0, j)) by {
                    if j < old_m.len() {
                        assert(b.model().subrange(0, j) =~= old_m.subrange(0, j));
                        assert(b.model()[j] == old_m[j]);
                    } else {
                        assert(b.model().subrange(0, j) =~= old_m);
                        assert(b.model()[j] == mv);
                    }
                }
            }
            // The element count times the element byte size gives back the field size.
            let bs = attribute.format.byte_size_spec().unwrap() as int;
            lemma_fundamental_div_mod(field_size as int, bs);
            assert(bs * (field_size as int / bs) == (field_size as int / bs) * bs)
                by (nonlinear_arith);
            assert(num_elements as int * bs == field_size as int);
        }
        b
    }

    /// Registers one attribute from a typed slice of plain-old-data
    /// elements, one element per vertex, reading each element's raw bytes as
    /// the attribute's field.
    pub fn add<T: bytemuck::Pod>(self, attribute: VertexAttribute, data: &[T]) -> (r: Self)
        requires
            self.wf(),
            0 < vstd::layout::size_of::<T>(),
            attribute.format.byte_size_spec() matches Some(bs) && vstd::layout::size_of::<T>()
                as int % bs as int == 0,
            self.offset_spec() + vstd::layout::size_of::<T>() <= u32::MAX,
        ensures
            r.wf(),
            r.model().len() == self.model().len() + 1,
            r.model().subrange(0, self.model().len() as int) == self.model(),
            r.model().last().offset == self.offset_spec(),
            r.model().last().size == vstd::layout::size_of::<T>(),
            r.model().last().data.len() == data@.len() * vstd::layout::size_of::<T>(),
            r.members_spec() == self.members_spec().push(
                (
                    attribute.name,
                    VertexMemberInfo {
                        offset: self.offset_spec() as u32,
                        format: attribute.format,
                        num_elements: (vstd::layout::size_of::<T>() as int
                            / attribute.format.byte_size_spec().unwrap() as int) as u32,
                    },
                ),
            ),
            r.offset_spec() == self.offset_spec() + vstd::layout::size_of::<T>(),
    {
        let bytes = pod_slice_bytes(data);
        let field_size = core::mem::size_of::<T>();
        let r = self.add_bytes(attribute, bytes, field_size);
        proof {
            assert(r.model().subrange(0, self.model().len() as int) =~= self.model());
        }
        r
    }

    /// Finalizes the builder under the strict vertex-count policy: every
    /// member's source must report the same whole-vertex count — the count
    /// is not silently truncated to a minimum, a disagreement is reported as
    /// `VertexCountMismatch` and nothing is emitted.  On success, produces
    /// the interleaving sequence over those vertices together with the
    /// finalized layout descriptor.
    pub fn build(self) -> (r: Result<(RuntimeVertexIter, VertexBufferInfo), BuildError>)
        requires
            self.wf(),
            self.model().len() > 0,
            counts_agree(self.model()) ==> member_count(self.model()[0]) * self.offset_spec()
                <= usize::MAX,
        ensures
            match r {
                Ok(pair) => {
                    &&& counts_agree(self.model())
                    &&& total_size(self.model()) == self.offset_spec()
                    &&& pair.0.wf()
                    &&& pair.0.stride_spec() == self.offset_spec()
                    &&& pair.0.model() == self.model()
                    &&& pair.0.index_spec() == 0
                    &&& pair.0.count_spec() == member_count(self.model()[0])
                    &&& pair.0.total_spec() == member_count(self.model()[0]) * total_size(
                        self.model(),
                    )
                    &&& pair.1.members@ == self.members_spec()
                    &&& pair.1.stride as int == total_size(self.model())
                    &&& pair.1.input_rate == VertexInputRate::Vertex
                },
                Err(e) => {
                    &&& e == BuildError::VertexCountMismatch
                    &&& !counts_agree(self.model())
                },
            },
    {
        let ghost m = self.model();
        let n = self.slices.len();
        proof {
            assert(sizes_pos(m));
        }
        let num_vertices = self.slices[0].0.len() / self.slices[0].1;
        let mut i: usize = 1;
        while i < n
            invariant
                1 <= i <= n,
                self.wf(),
                m == self.model(),
                n == self.slices@.len(),
                num_vertices as int == member_count(m[0]),
                forall|k: int| 0 <= k < i ==> member_count(#[trigger] m[k]) == num_vertices as int,
            decreases n - i,
        {
            proof {
                assert(m[i as int].size > 0);
            }
            let c = self.slices[i].0.len() / self.slices[i].1;
            if c != num_vertices {
                proof {
                    assert(member_count(m[i as int]) != member_count(m[0]));
                }
                return Err(BuildError::VertexCountMismatch);
            }
            i += 1;
        }
        proof {
            assert(counts_agree(m));
            lemma_counts_agree_covers(m);
            lemma_total_size_pos(m);
        }
        let stride_us = self.offset;
        let data_length = num_vertices * stride_us;
        let mut member_ranges: Vec<(usize, usize)> = Vec::new();
        let mut j: usize = 0;
        while j < n
            invariant
                0 <= j <= n,
                self.wf(),
                m == self.model(),
                n == self.slices@.len(),
                member_ranges@.len() == j,
                forall|k: int|
                    0 <= k < j ==> (#[trigger] member_ranges@[k]).0 as int == m[k].offset
                        && member_ranges@[k].1 as int == m[k].offset + m[k].size,
            decreases n - j,
        {
            proof {
                lemma_offset_in_range(m, j as int);
            }
            let start = self.members[j].1.offset as usize;
            let end = start + self.slices[j].1;
            member_ranges.push((start, end));
            j += 1;
        }
        let RuntimeVertexBuilder { members, slices, offset } = self;
        let iter = RuntimeVertexIter {
            member_ranges,
            member_slices: slices,
            stride: offset as u32,
            data_length,
            data_index: 0,
            member_index: 0,
        };
        let info = VertexBufferInfo {
            members,
            stride: offset as u32,
            input_rate: VertexInputRate::Vertex,
        };
        proof {
            assert(iter.model() =~= m);
            let c = member_count(m[0]);
            let t = total_size(m);
            lemma_fundamental_div_mod_converse(data_length as int, t, c, 0);
            assert(iter.count_spec() == c);
            assert(iter.wf());
        }
        Ok((iter, info))
    }
}

/// A lazy, pull-based producer of the interleaved byte stream: one byte per
/// pull, exactly `stride * vertex_count` bytes in all, vertex-major and in
/// attribute registration order within each record.
pub struct RuntimeVertexIter {
    member_ranges: Vec<(usize, usize)>,
    member_slices: Vec<(Vec<u8>, usize)>,
    stride: u32,
    data_length: usize,
    data_index: usize,
    member_index: usize,
}

impl RuntimeVertexIter {
    /// The members driving the sequence, as mathematical values.
    pub closed spec fn model(self) -> Seq<MemberView> {
        Seq::new(
            self.member_slices@.len(),
            |i: int|
                MemberView {
                    offset: self.member_ranges@[i].0 as int,
                    size: self.member_slices@[i].1 as int,
                    data: self.member_slices@[i].0@,
                },
        )
    }

    /// The position of the next byte to produce.
    pub closed spec fn index_spec(self) -> int {
        self.data_index as int
    }

    /// The total number of bytes the sequence produces.
    pub closed spec fn total_spec(self) -> int {
        self.data_length as int
    }

    /// The record stride in bytes.
    pub closed spec fn stride_spec(self) -> int {
        self.stride as int
    }

    /// The number of vertices the sequence covers.
    pub closed spec fn count_spec(self) -> int {
        self.data_length as int / self.stride as int
    }

    /// The byte stream this sequence produces in full.
    pub open spec fn stream(self) -> Seq<u8> {
        interleaved(self.model(), self.count_spec())
    }

    /// The sequence's bookkeeping is consistent: ranges and sources pair up
    /// into well-formed members whose total is the stride, the total length
    /// is a whole number of records all covered by the sources, the cursor
    /// has not passed the end, and the cached member index owns the last
    /// produced position.
    pub closed spec fn wf(self) -> bool {
        &&& self.member_ranges@.len() == self.member_slices@.len()
        &&& self.member_slices@.len() > 0
        &&& wf_members(self.model())
        &&& forall|i: int|
            0 <= i < self.member_ranges@.len() ==> (#[trigger] self.member_ranges@[i]).1 as int
                == self.member_ranges@[i].0 as int + self.member_slices@[i].1 as int
        &&& 0 < self.stride
        &&& self.stride as int == total_size(self.model())
        &&& self.data_length as int == self.count_spec() * self.stride as int
        &&& covers(self.model(), self.count_spec())
        &&& self.data_index <= self.data_length
        &&& (self.member_index as int) < self.model().len()
        &&& (self.data_index == 0 ==> self.member_index == 0)
        &&& (self.data_index > 0 ==> owns(
            self.model(),
            self.member_index as int,
            (self.data_index as int - 1) % (self.stride as int),
        ))
    }

    /// Number of bytes the sequence has yet to produce.
    pub fn len(&self) -> (r: usize)
        requires
            self.wf(),
        ensures
            r as int == self.total_spec() - self.index_spec(),
    {
        self.data_length - self.data_index
    }

    /// Produces the next byte of the interleaved stream, or `None` once
    /// every byte has been produced; after exhaustion each further call
    /// changes nothing and keeps returning `None`.
    pub fn next(&mut self) -> (r: Option<u8>)
        requires
            old(self).wf(),
        ensures
            final(self).wf(),
            final(self).model() == old(self).model(),
            final(self).total_spec() == old(self).total_spec(),
            final(self).stride_spec() == old(self).stride_spec(),
            final(self).count_spec() == old(self).count_spec(),
            old(self).index_spec() < old(self).total_spec() ==> {
                &&& r == Some(old(self).stream()[old(self).index_spec()])
                &&& final(self).index_spec() == old(self).index_spec() + 1
            },
            old(self).index_spec() >= old(self).total_spec() ==> {
                &&& r is None
                &&& final(self).index_spec() == old(self).index_spec()
            },
    {
        if self.data_length == self.data_index {
            return None;
        }
        let ghost m = self.model();
        let ghost t = self.stride as int;
        let ghost di = self.data_index as int;
        let ghost count = self.count_spec();
        let stride = self.stride as usize;
        let vertex_index = self.data_index / stride;
        let data_offset = self.data_index % stride;
        proof {
            lemma_mod_bound(di, t);
            assert(t * count == count * t) by (nonlinear_arith);
            lemma_multiply_divide_lt(di, t, count);
            lemma_div_pos_is_pos(di, t);
            assert(m.subrange(0, 0) =~= Seq::<MemberView>::empty());
            assert(total_size(Seq::<MemberView>::empty()) == 0);
            assert(m[0].offset == 0);
            assert(m[0].size > 0);
        }
        if self.member_ranges[self.member_index].1 <= data_offset || self.member_ranges[
            self.member_index
        ].0 > data_offset {
            proof {
                if di == 0 {
                    vstd::arithmetic::div_mod::lemma_small_mod(0nat, t as nat);
                    assert(di % t == 0);
                    assert(owns(m, 0, 0));
                    assert(false);
                }
                lemma_cache_advances(m, t, di, self.member_index as int);
            }
            let n_members = self.member_ranges.len();
            self.member_index = self.member_index + 1;
            if self.member_index == n_members {
                self.member_index = 0;
            }
        } else {
            proof {
                assert(owns(m, self.member_index as int, data_offset as int));
            }
        }
        let ghost mi = self.member_index as int;
        proof {
            assert(owns(m, mi, data_offset as int));
        }
        let start = self.member_ranges[self.member_index].0;
        let end = self.member_ranges[self.member_index].1;
        let field_size = end - start;
        let member_offset = data_offset - start;
        proof {
            assert(field_size as int == m[mi].size);
            lemma_covers_mono(m, vertex_index as int + 1, count);
            assert(vertex_index as int * m[mi].size + m[mi].size == (vertex_index as int + 1)
                * m[mi].size && 0 <= vertex_index as int * m[mi].size) by (nonlinear_arith)
                requires 0 <= vertex_index as int, 0 < m[mi].size;
            assert((vertex_index as int + 1) * m[mi].size <= m[mi].data.len());
        }
        let dlen = self.member_slices[self.member_index].0.len();
        proof {
            assert(dlen as int == m[mi].data.len());
            assert((vertex_index as int) * (field_size as int) + (member_offset as int) < dlen);
        }
        let b = self.member_slices[self.member_index].0[vertex_index * field_size + member_offset];
        proof {
            lemma_interleaved_index(m, count, di);
            lemma_record_index(m, vertex_index as int, mi, data_offset as int);
            lemma_fundamental_div_mod(di, t);
        }
        self.data_index = self.data_index + 1;
        proof {
            assert(self.model() =~= m);
            assert(owns(m, mi, (self.data_index as int - 1) % t));
        }
        Some(b)
    }

    /// Drains the sequence into a contiguous buffer: produces every
    /// remaining byte, in order, leaving the sequence exhausted.
    pub fn collect_bytes(&mut self) -> (r: Vec<u8>)
        requires
            old(self).wf(),
        ensures
            final(self).wf(),
            final(self).model() == old(self).model(),
            final(self).total_spec() == old(self).total_spec(),
            final(self).count_spec() == old(self).count_spec(),
            final(self).index_spec() == final(self).total_spec(),
            r@ == old(self).stream().subrange(old(self).index_spec(), old(self).total_spec()),
    {
        let ghost start = self.index_spec();
        let ghost full = old(self).stream();
        let mut out: Vec<u8> = Vec::new();
        proof {
            lemma_stream_len(*self);
            assert(out@ =~= full.subrange(start, start));
        }
        while self.data_index < self.data_length
            invariant
                self.wf(),
                self.model() == old(self).model(),
                self.total_spec() == old(self).total_spec(),
                self.count_spec() == old(self).count_spec(),
                self.stream() == full,
                full.len() == self.total_spec(),
                0 <= start <= self.index_spec() <= self.total_spec(),
                out@ == full.subrange(start, self.index_spec()),
            decreases self.total_spec() - self.index_spec(),
        {
            let ghost idx = self.index_spec();
            let b = self.next();
            let x = match b {
                Some(x) => x,
                None => {
                    proof {
                        assert(false);
                    }
                    0
                },
            };
            out.push(x);
            proof {
                assert(full.subrange(start, idx + 1) =~= full.subrange(start, idx).push(full[idx]));
            }
        }
        out
    }
}

/// What holds of every well-formed sequence: its members are well formed
/// and cover its vertex count, its stride is their total size, and it
/// produces exactly `stride * vertex_count` bytes.
pub proof fn lemma_stream_len(it: RuntimeVertexIter)
    requires
        it.wf(),
    ensures
        wf_members(it.model()),
        covers(it.model(), it.count_spec()),
        0 <= it.count_spec(),
        total_size(it.model()) == it.stride_spec(),
        it.total_spec() == it.count_spec() * it.stride_spec(),
        it.stream().len() == it.total_spec(),
{
    assert(sizes_pos(it.model()));
    assert(0 <= it.count_spec()) by {
        lemma_div_pos_is_pos(it.total_spec(), it.stride_spec());
    }
    lemma_interleaved_len(it.model(), it.count_spec());
}

/// When the cached member's range does not contain the cursor's offset
/// within its record, the owner of that offset is the member after the
/// cached one — or the first member again, at a record boundary.
proof fn lemma_cache_advances(m: Seq<MemberView>, t: int, di: int, mi: int)
    requires
        wf_members(m),
        m.len() > 0,
        t == total_size(m),
        0 < t,
        0 <= mi < m.len(),
        0 < di,
        owns(m, mi, (di - 1) % t),
        !owns(m, mi, di % t),
    ensures
        mi + 1 == m.len() ==> owns(m, 0, di % t),
        mi + 1 < m.len() ==> owns(m, mi + 1, di % t),
{
    let off = di % t;
    let prev = (di - 1) % t;
    lemma_mod_bound(di, t);
    lemma_mod_bound(di - 1, t);
    lemma_fundamental_div_mod(di, t);
    let q = di / t;
    assert(t * q == q * t && (q - 1) * t == q * t - t) by (nonlinear_arith);
    assert(di == q * t + off);
    assert(m.subrange(0, 0) =~= Seq::<MemberView>::empty());
    assert(total_size(Seq::<MemberView>::empty()) == 0);
    assert(m[0].offset == 0);
    // Member ends are exact prefix sums: each member starts where the one
    // before it ends, and the last one ends at the stride.
    assert(m.subrange(0, m.len() as int) =~= m.subrange(0, m.len() - 1).push(m[m.len() - 1]));
    assert(m.subrange(0, m.len() as int) =~= m);
    lemma_total_size_snoc(m.subrange(0, m.len() - 1), m[m.len() - 1]);
    assert(m[m.len() - 1].offset + m[m.len() - 1].size == t);
    if off == 0 {
        // Record boundary: the previous position was the last byte of the
        // previous record, owned by the last member.
        assert(q * t == di);
        assert(0 < q) by (nonlinear_arith)
            requires q * t == di, 0 < di, 0 < t;
        lemma_fundamental_div_mod_converse(di - 1, t, q - 1, t - 1);
        assert(prev == t - 1);
        assert(owns(m, m.len() - 1, t - 1));
        lemma_owner_unique(m, t - 1, mi, m.len() - 1);
        assert(owns(m, 0, 0));
    } else {
        // Within a record the cursor moved one byte past the cached
        // member's end, into the member that starts exactly there.
        lemma_fundamental_div_mod_converse(di - 1, t, q, off - 1);
        assert(prev == off - 1);
        assert(off == m[mi].offset + m[mi].size);
        if mi + 1 == m.len() {
            assert(false);
        } else {
            assert(m.subrange(0, mi + 1) =~= m.subrange(0, mi).push(m[mi]));
            lemma_total_size_snoc(m.subrange(0, mi), m[mi]);
            assert(m[mi + 1].offset == m[mi].offset + m[mi].size);
            assert(owns(m, mi + 1, off));
        }
    }
}

} // verus!
