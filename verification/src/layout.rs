//! Mathematical model of an interleaved vertex layout.
//!
//! A layout is a sequence of members, each with a byte offset inside one
//! interleaved record, a field byte size, and the source bytes it is fed
//! from.  The model defines the record one vertex produces and the full
//! interleaved stream, and proves the structural laws of that layout: the
//! member ranges tile the record, extracting a record or a field from the
//! stream gives back exactly the source bytes, and a single-member layout
//! degenerates to a plain copy of its source.

use vstd::arithmetic::div_mod::{
    lemma_fundamental_div_mod, lemma_fundamental_div_mod_converse,
};
use vstd::prelude::*;

verus! {

/// One registered member of an interleaved layout, as a mathematical value:
/// its byte offset inside a record, the byte size of its field in one
/// record, and the source bytes it reads from.
pub struct MemberView {
    pub offset: int,
    pub size: int,
    pub data: Seq<u8>,
}

/// Sum of the field byte sizes of all members: the stride of one record.
pub open spec fn total_size(m: Seq<MemberView>) -> int
    decreases m.len(),
{
    if m.len() == 0 {
        0
    } else {
        m[0].size + total_size(m.drop_first())
    }
}

/// Every member's field is at least one byte wide.
pub open spec fn sizes_pos(m: Seq<MemberView>) -> bool {
    forall|j: int| 0 <= j < m.len() ==> (#[trigger] m[j]).size > 0
}

/// The members are well formed: fields are at least one byte wide and each
/// offset is the sum of the sizes of the members registered before it.
pub open spec fn wf_members(m: Seq<MemberView>) -> bool {
    forall|j: int| 0 <= j < m.len() ==> (#[trigger] m[j]).size > 0 && m[j].offset == total_size(
        m.subrange(0, j),
    )
}

/// Every member's source holds at least `count` whole fields.
pub open spec fn covers(m: Seq<MemberView>, count: int) -> bool {
    forall|j: int| 0 <= j < m.len() ==> count * (#[trigger] m[j]).size <= m[j].data.len()
}

/// Member `j`'s byte range inside a record contains position `off`.
pub open spec fn owns(m: Seq<MemberView>, j: int, off: int) -> bool {
    &&& 0 <= j < m.len()
    &&& m[j].offset <= off < m[j].offset + m[j].size
}

/// The bytes member `j` contributes to vertex `v`'s record.
pub open spec fn field_bytes(m: Seq<MemberView>, j: int, v: int) -> Seq<u8> {
    m[j].data.subrange(v * m[j].size, v * m[j].size + m[j].size)
}

/// Vertex `v`'s interleaved record: each member's field bytes, in
/// registration order.
pub open spec fn record_bytes(m: Seq<MemberView>, v: int) -> Seq<u8>
    decreases m.len(),
{
    if m.len() == 0 {
        Seq::empty()
    } else {
        field_bytes(m, 0, v) + record_bytes(m.drop_first(), v)
    }
}

/// The whole interleaved stream over vertices `0 .. count`: one record per
/// vertex, in vertex order.
pub open spec fn interleaved(m: Seq<MemberView>, count: int) -> Seq<u8>
    decreases count,
{
    if count <= 0 {
        Seq::empty()
    } else {
        interleaved(m, count - 1) + record_bytes(m, count - 1)
    }
}

/// The number of whole fields member `mv`'s source holds.
pub open spec fn member_count(mv: MemberView) -> int {
    mv.data.len() as int / mv.size
}

/// All members' sources hold the same number of whole fields.
pub open spec fn counts_agree(m: Seq<MemberView>) -> bool {
    forall|j: int| 0 <= j < m.len() ==> member_count(#[trigger] m[j]) == member_count(m[0])
}

/// When all members agree on the vertex count, every source covers that
/// many whole fields.
pub proof fn lemma_counts_agree_covers(m: Seq<MemberView>)
    requires
        sizes_pos(m),
        counts_agree(m),
        m.len() > 0,
    ensures
        0 <= member_count(m[0]),
        covers(m, member_count(m[0])),
{
    let c = member_count(m[0]);
    assert(0 <= c) by {
        vstd::arithmetic::div_mod::lemma_div_pos_is_pos(m[0].data.len() as int, m[0].size);
    }
    assert forall|j: int| 0 <= j < m.len() implies c * (#[trigger] m[j]).size
        <= m[j].data.len() by {
        let len = m[j].data.len() as int;
        let s = m[j].size;
        lemma_fundamental_div_mod(len, s);
        vstd::arithmetic::div_mod::lemma_mod_bound(len, s);
        assert(c == len / s);
        assert(c * s == s * c) by (nonlinear_arith);
    }
}

/// The stride accumulates over concatenation.
pub proof fn lemma_total_size_concat(a: Seq<MemberView>, b: Seq<MemberView>)
    ensures
        total_size(a + b) == total_size(a) + total_size(b),
    decreases a.len(),
{
    if a.len() == 0 {
        assert(a + b =~= b);
    } else {
        assert((a + b).drop_first() =~= a.drop_first() + b);
        lemma_total_size_concat(a.drop_first(), b);
    }
}

/// Appending one member grows the stride by that member's size.
pub proof fn lemma_total_size_snoc(m: Seq<MemberView>, x: MemberView)
    ensures
        total_size(m.push(x)) == total_size(m) + x.size,
    decreases m.len(),
{
    if m.len() == 0 {
        assert(m.push(x)[0] == x);
        assert(m.push(x).drop_first() =~= Seq::<MemberView>::empty());
        assert(total_size(m.push(x).drop_first()) == 0);
    } else {
        assert(m.push(x)[0] == m[0]);
        assert(m.push(x).drop_first() =~= m.drop_first().push(x));
        lemma_total_size_snoc(m.drop_first(), x);
    }
}

/// The stride of a layout with positive field sizes is at least its member
/// count.
pub proof fn lemma_total_size_pos(m: Seq<MemberView>)
    requires
        sizes_pos(m),
    ensures
        total_size(m) >= m.len(),
    decreases m.len(),
{
    if m.len() > 0 {
        assert(sizes_pos(m.drop_first()));
        lemma_total_size_pos(m.drop_first());
    }
}

/// Under well-formed members, an earlier member's range ends no later than a
/// later member's range begins.
pub proof fn lemma_offset_monotone(m: Seq<MemberView>, j1: int, j2: int)
    requires
        wf_members(m),
        0 <= j1 < j2 < m.len(),
    ensures
        m[j1].offset + m[j1].size <= m[j2].offset,
{
    assert(m.subrange(0, j2) =~= m.subrange(0, j1).push(m[j1]) + m.subrange(j1 + 1, j2));
    lemma_total_size_concat(m.subrange(0, j1).push(m[j1]), m.subrange(j1 + 1, j2));
    lemma_total_size_snoc(m.subrange(0, j1), m[j1]);
    assert(sizes_pos(m.subrange(j1 + 1, j2)));
    lemma_total_size_pos(m.subrange(j1 + 1, j2));
}

/// Under well-formed members, every member's range lies inside
/// `[0, total_size)`.
pub proof fn lemma_offset_in_range(m: Seq<MemberView>, j: int)
    requires
        wf_members(m),
        0 <= j < m.len(),
    ensures
        0 <= m[j].offset,
        m[j].offset + m[j].size <= total_size(m),
{
    assert(m =~= m.subrange(0, j).push(m[j]) + m.subrange(j + 1, m.len() as int));
    lemma_total_size_concat(m.subrange(0, j).push(m[j]), m.subrange(j + 1, m.len() as int));
    lemma_total_size_snoc(m.subrange(0, j), m[j]);
    assert(sizes_pos(m.subrange(0, j)));
    lemma_total_size_pos(m.subrange(0, j));
    assert(sizes_pos(m.subrange(j + 1, m.len() as int)));
    lemma_total_size_pos(m.subrange(j + 1, m.len() as int));
}

/// Scanning forward from a member whose offset is at most `off` finds an
/// owner for `off`.
proof fn lemma_owner_from(m: Seq<MemberView>, off: int, j: int)
    requires
        wf_members(m),
        0 <= j < m.len(),
        m[j].offset <= off < total_size(m),
    ensures
        exists|k: int| owns(m, k, off),
    decreases m.len() - j,
{
    if off < m[j].offset + m[j].size {
        assert(owns(m, j, off));
    } else if j + 1 == m.len() {
        assert(m.subrange(0, j).push(m[j]) =~= m);
        lemma_total_size_snoc(m.subrange(0, j), m[j]);
        assert(false);
    } else {
        // The next member starts exactly where member `j` ends.
        assert(m.subrange(0, j + 1) =~= m.subrange(0, j).push(m[j]));
        lemma_total_size_snoc(m.subrange(0, j), m[j]);
        assert(m[j + 1].offset == m[j].offset + m[j].size);
        lemma_owner_from(m, off, j + 1);
    }
}

/// Every byte position below the stride has an owning member.
pub proof fn lemma_owner_exists(m: Seq<MemberView>, off: int)
    requires
        wf_members(m),
        0 <= off < total_size(m),
    ensures
        exists|k: int| owns(m, k, off),
{
    if m.len() == 0 {
        assert(false);
    } else {
        assert(m.subrange(0, 0) =~= Seq::<MemberView>::empty());
        lemma_owner_from(m, off, 0);
    }
}

/// No byte position has two owning members.
pub proof fn lemma_owner_unique(m: Seq<MemberView>, off: int, j1: int, j2: int)
    requires
        wf_members(m),
        owns(m, j1, off),
        owns(m, j2, off),
    ensures
        j1 == j2,
{
    if j1 < j2 {
        lemma_offset_monotone(m, j1, j2);
    } else if j2 < j1 {
        lemma_offset_monotone(m, j2, j1);
    }
}

/// A record holds exactly one stride's worth of bytes.
pub proof fn lemma_record_len(m: Seq<MemberView>, v: int)
    requires
        sizes_pos(m),
        covers(m, v + 1),
        0 <= v,
    ensures
        record_bytes(m, v).len() == total_size(m),
    decreases m.len(),
{
    if m.len() > 0 {
        assert((v + 1) * m[0].size <= m[0].data.len());
        assert(0 <= v * m[0].size && v * m[0].size + m[0].size == (v + 1) * m[0].size)
            by (nonlinear_arith)
            requires 0 <= v, 0 < m[0].size;
        assert(field_bytes(m, 0, v).len() == m[0].size);
        assert(sizes_pos(m.drop_first()));
        assert(covers(m.drop_first(), v + 1)) by {
            assert(forall|j: int| 0 <= j < m.drop_first().len() ==> m.drop_first()[j] == m[j + 1]);
        }
        lemma_record_len(m.drop_first(), v);
    }
}

/// Relative offset of member `j`: the sum of the sizes of the members before
/// it in the sequence.
pub open spec fn rel_off(m: Seq<MemberView>, j: int) -> int {
    total_size(m.subrange(0, j))
}

/// A member's relative byte range lies inside `[0, total_size)`.
proof fn lemma_rel_off_bound(m: Seq<MemberView>, j: int)
    requires
        sizes_pos(m),
        0 <= j < m.len(),
    ensures
        0 <= rel_off(m, j),
        rel_off(m, j) + m[j].size <= total_size(m),
{
    assert(m =~= m.subrange(0, j).push(m[j]) + m.subrange(j + 1, m.len() as int));
    lemma_total_size_concat(m.subrange(0, j).push(m[j]), m.subrange(j + 1, m.len() as int));
    lemma_total_size_snoc(m.subrange(0, j), m[j]);
    assert(sizes_pos(m.subrange(0, j)));
    lemma_total_size_pos(m.subrange(0, j));
    assert(sizes_pos(m.subrange(j + 1, m.len() as int)));
    lemma_total_size_pos(m.subrange(j + 1, m.len() as int));
}

/// The byte of a record at a position inside member `j`'s range is read from
/// member `j`'s source at the matching field position.
proof fn lemma_record_index_inner(m: Seq<MemberView>, v: int, j: int, off: int)
    requires
        sizes_pos(m),
        covers(m, v + 1),
        0 <= v,
        0 <= j < m.len(),
        rel_off(m, j) <= off < rel_off(m, j) + m[j].size,
    ensures
        record_bytes(m, v)[off] == m[j].data[v * m[j].size + (off - rel_off(m, j))],
    decreases j,
{
    assert((v + 1) * m[0].size <= m[0].data.len());
    assert(0 <= v * m[0].size && v * m[0].size + m[0].size == (v + 1) * m[0].size)
        by (nonlinear_arith)
        requires 0 <= v, 0 < m[0].size;
    assert(field_bytes(m, 0, v).len() == m[0].size);
    let tail = m.drop_first();
    assert(forall|i: int| 0 <= i < tail.len() ==> tail[i] == m[i + 1]);
    assert(sizes_pos(tail));
    assert(covers(tail, v + 1));
    if j == 0 {
        assert(m.subrange(0, 0) =~= Seq::<MemberView>::empty());
        assert(rel_off(m, 0) == 0);
        assert(record_bytes(m, v)[off] == field_bytes(m, 0, v)[off]);
        assert(field_bytes(m, 0, v)[off] == m[0].data[v * m[0].size + off]);
    } else {
        // The prefix sum splits off the head member's size.
        assert(m.subrange(0, j)[0] == m[0]);
        assert(m.subrange(0, j).drop_first() =~= tail.subrange(0, j - 1));
        assert(rel_off(m, j) == m[0].size + rel_off(tail, j - 1));
        assert(tail[j - 1] == m[j]);
        lemma_rel_off_bound(tail, j - 1);
        lemma_record_len(tail, v);
        lemma_record_index_inner(tail, v, j - 1, off - m[0].size);
        assert(record_bytes(m, v)[off] == record_bytes(tail, v)[off - m[0].size]);
    }
}

/// The byte of a record at a position owned by member `j` is read from
/// member `j`'s source at the matching field position.
pub proof fn lemma_record_index(m: Seq<MemberView>, v: int, j: int, off: int)
    requires
        wf_members(m),
        covers(m, v + 1),
        0 <= v,
        owns(m, j, off),
    ensures
        record_bytes(m, v)[off] == m[j].data[v * m[j].size + (off - m[j].offset)],
{
    lemma_record_index_inner(m, v, j, off);
}

/// `covers` is monotone downward in the vertex count.
pub proof fn lemma_covers_mono(m: Seq<MemberView>, c1: int, c2: int)
    requires
        sizes_pos(m),
        covers(m, c2),
        0 <= c1 <= c2,
    ensures
        covers(m, c1),
{
    assert forall|j: int| 0 <= j < m.len() implies c1 * (#[trigger] m[j]).size
        <= m[j].data.len() by {
        assert(c1 * m[j].size <= c2 * m[j].size) by (nonlinear_arith)
            requires c1 <= c2, 0 < m[j].size;
    }
}

/// The interleaved stream holds exactly `count` records' worth of bytes.
pub proof fn lemma_interleaved_len(m: Seq<MemberView>, count: int)
    requires
        sizes_pos(m),
        covers(m, count),
        0 <= count,
    ensures
        interleaved(m, count).len() == count * total_size(m),
    decreases count,
{
    let t = total_size(m);
    if count == 0 {
        assert(0 * t == 0) by (nonlinear_arith);
    } else {
        lemma_covers_mono(m, count - 1, count);
        lemma_interleaved_len(m, count - 1);
        lemma_record_len(m, count - 1);
        assert((count - 1) * t + t == count * t) by (nonlinear_arith);
    }
}

/// Each byte of the interleaved stream comes from the record of the vertex
/// its position falls in, at the position's offset within that record.
pub proof fn lemma_interleaved_index(m: Seq<MemberView>, count: int, p: int)
    requires
        wf_members(m),
        covers(m, count),
        0 <= p < count * total_size(m),
    ensures
        interleaved(m, count)[p] == record_bytes(m, p / total_size(m))[p % total_size(m)],
    decreases count,
{
    let t = total_size(m);
    if m.len() == 0 {
        assert(0 <= p < count * 0) by (nonlinear_arith)
            requires 0 <= p < count * t, t == 0;
        assert(false);
    } else {
        lemma_total_size_pos(m);
        if count <= 0 {
            assert(count * t <= 0) by (nonlinear_arith)
                requires count <= 0, t > 0;
            assert(false);
        } else {
            lemma_covers_mono(m, count - 1, count);
            lemma_interleaved_len(m, count - 1);
            lemma_record_len(m, count - 1);
            if p < (count - 1) * t {
                lemma_interleaved_index(m, count - 1, p);
            } else {
                let r = p - (count - 1) * t;
                assert(r < t) by (nonlinear_arith)
                    requires p < count * t, r == p - (count - 1) * t;
                assert(interleaved(m, count)[p] == record_bytes(m, count - 1)[r]);
                lemma_fundamental_div_mod_converse(p, t, count - 1, r);
            }
        }
    }
}

/// The member byte ranges tile one record exactly: every byte position below
/// the stride lies in exactly one member's `[offset, offset + size)` range.
pub proof fn lemma_ranges_partition(m: Seq<MemberView>, off: int)
    requires
        wf_members(m),
        0 <= off < total_size(m),
    ensures
        exists|j: int| owns(m, j, off),
        forall|j1: int, j2: int| owns(m, j1, off) && owns(m, j2, off) ==> j1 == j2,
{
    lemma_owner_exists(m, off);
    assert forall|j1: int, j2: int| owns(m, j1, off) && owns(m, j2, off) implies j1 == j2 by {
        lemma_owner_unique(m, off, j1, j2);
    }
}

/// Order preservation: slicing the interleaved stream at vertex `v`'s record
/// boundaries gives back exactly that vertex's record, the concatenation of
/// the members' field bytes in registration order.
pub proof fn lemma_record_extraction(m: Seq<MemberView>, count: int, v: int)
    requires
        wf_members(m),
        covers(m, count),
        0 <= v < count,
    ensures
        interleaved(m, count).subrange(
            v * total_size(m),
            v * total_size(m) + total_size(m),
        ) =~= record_bytes(m, v),
{
    let t = total_size(m);
    lemma_interleaved_len(m, count);
    lemma_covers_mono(m, v + 1, count);
    lemma_record_len(m, v);
    if m.len() == 0 {
        assert(t == 0);
        assert(v * t == 0 && v * t + t == 0 && count * t == 0) by (nonlinear_arith)
            requires t == 0;
        assert(interleaved(m, count).subrange(0, 0) =~= record_bytes(m, v));
    } else {
        lemma_total_size_pos(m);
        assert(0 <= v * t && v * t + t <= count * t) by (nonlinear_arith)
            requires 0 <= v < count, t > 0;
        let sub = interleaved(m, count).subrange(v * t, v * t + t);
        assert forall|k: int| 0 <= k < t implies sub[k] == record_bytes(m, v)[k] by {
            lemma_fundamental_div_mod_converse(v * t + k, t, v, k);
            lemma_interleaved_index(m, count, v * t + k);
        }
    }
}

/// Round trip: slicing member `j`'s byte range out of vertex `v`'s record in
/// the interleaved stream gives back exactly the bytes of field `v` of that
/// member's source.
pub proof fn lemma_round_trip(m: Seq<MemberView>, count: int, j: int, v: int)
    requires
        wf_members(m),
        covers(m, count),
        0 <= v < count,
        0 <= j < m.len(),
    ensures
        interleaved(m, count).subrange(
            v * total_size(m) + m[j].offset,
            v * total_size(m) + m[j].offset + m[j].size,
        ) =~= field_bytes(m, j, v),
{
    let t = total_size(m);
    lemma_total_size_pos(m);
    lemma_interleaved_len(m, count);
    lemma_covers_mono(m, v + 1, count);
    lemma_offset_in_range(m, j);
    assert(0 <= v * t && v * t + t <= count * t) by (nonlinear_arith)
        requires 0 <= v < count, t > 0;
    assert((v + 1) * m[j].size <= m[j].data.len());
    assert(0 <= v * m[j].size && v * m[j].size + m[j].size == (v + 1) * m[j].size)
        by (nonlinear_arith)
        requires 0 <= v, 0 < m[j].size;
    let sub = interleaved(m, count).subrange(
        v * t + m[j].offset,
        v * t + m[j].offset + m[j].size,
    );
    assert forall|k: int| 0 <= k < m[j].size implies sub[k] == field_bytes(m, j, v)[k] by {
        lemma_fundamental_div_mod_converse(v * t + m[j].offset + k, t, v, m[j].offset + k);
        lemma_interleaved_index(m, count, v * t + m[j].offset + k);
        assert(owns(m, j, m[j].offset + k));
        lemma_record_index(m, v, j, m[j].offset + k);
    }
}

/// Boundary: a layout with a single member has that member's field size as
/// its stride, and its interleaved stream is a plain prefix copy of the
/// member's source bytes.
pub proof fn lemma_single_member(m: Seq<MemberView>, count: int)
    requires
        wf_members(m),
        m.len() == 1,
        covers(m, count),
        0 <= count,
    ensures
        total_size(m) == m[0].size,
        interleaved(m, count) =~= m[0].data.subrange(0, count * m[0].size),
{
    let t = total_size(m);
    assert(m.drop_first().len() == 0);
    assert(total_size(m.drop_first()) == 0);
    assert(t == m[0].size);
    assert(m.subrange(0, 0) =~= Seq::<MemberView>::empty());
    assert(total_size(Seq::<MemberView>::empty()) == 0);
    assert(m[0].offset == 0);
    lemma_total_size_pos(m);
    lemma_interleaved_len(m, count);
    assert forall|p: int| 0 <= p < count * t implies interleaved(m, count)[p] == m[0].data[p] by {
        lemma_interleaved_index(m, count, p);
        lemma_fundamental_div_mod(p, t);
        let v = p / t;
        let r = p % t;
        assert(0 <= v < count) by (nonlinear_arith)
            requires 0 <= p < count * t, t > 0, p == v * t + r, 0 <= r < t;
        lemma_covers_mono(m, v + 1, count);
        assert(owns(m, 0, r));
        lemma_record_index(m, v, 0, r);
        assert(v * m[0].size + r == p);
    }
}

} // verus!
