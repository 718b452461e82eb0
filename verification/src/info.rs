//! Layout metadata describing an interleaved vertex buffer.

use crate::format::Format;
use vstd::prelude::*;

verus! {

/// Whether an attribute advances once per vertex or once per instance.
#[derive(Clone, Copy, Debug, PartialEq, Eq, Structural)]
pub enum VertexInputRate {
    Vertex,
    Instance,
}

/// One member of a vertex layout: its byte offset within a record, its
/// element format, and how many format elements the field holds.
#[derive(Clone, Copy, Debug, PartialEq, Eq, Structural)]
pub struct VertexMemberInfo {
    pub offset: u32,
    pub format: Format,
    pub num_elements: u32,
}

/// Finalized layout descriptor of an interleaved vertex buffer: the named
/// members in registration order, the record stride in bytes, and the input
/// rate.
pub struct VertexBufferInfo {
    pub members: Vec<(String, VertexMemberInfo)>,
    pub stride: u32,
    pub input_rate: VertexInputRate,
}

/// The first member of `s` carrying `name`, searched in registration order.
pub open spec fn find_member(s: Seq<(String, VertexMemberInfo)>, name: Seq<char>) -> Option<
    VertexMemberInfo,
>
    decreases s.len(),
{
    if s.len() == 0 {
        None
    } else if s[0].0@ == name {
        Some(s[0].1)
    } else {
        find_member(s.drop_first(), name)
    }
}

/// A search may skip a prefix in which no pair carries the name.
proof fn lemma_find_member_skip(s: Seq<(String, VertexMemberInfo)>, name: Seq<char>, i: int)
    requires
        0 <= i <= s.len(),
        forall|k: int| 0 <= k < i ==> (#[trigger] s[k]).0@ != name,
    ensures
        find_member(s, name) == find_member(s.subrange(i, s.len() as int), name),
    decreases i,
{
    if i == 0 {
        assert(s.subrange(0, s.len() as int) =~= s);
    } else {
        assert(s.drop_first().subrange(i - 1, s.drop_first().len() as int) =~= s.subrange(
            i,
            s.len() as int,
        ));
        assert(forall|k: int|
            0 <= k < i - 1 ==> (#[trigger] s.drop_first()[k]) == s[k + 1]);
        lemma_find_member_skip(s.drop_first(), name, i - 1);
    }
}

impl Clone for VertexBufferInfo {
    /// An exact copy: same members in the same order, same stride, same
    /// input rate.
    fn clone(&self) -> (r: Self)
        ensures
            r.members@ == self.members@,
            r.stride == self.stride,
            r.input_rate == self.input_rate,
    {
        let n = self.members.len();
        let mut members: Vec<(String, VertexMemberInfo)> = Vec::new();
        let mut i: usize = 0;
        while i < n
            invariant
                0 <= i <= n,
                n == self.members@.len(),
                members@ == self.members@.subrange(0, i as int),
            decreases n - i,
        {
            let name = self.members[i].0.clone();
            let info = self.members[i].1;
            members.push((name, info));
            proof {
                assert(self.members@.subrange(0, i + 1) =~= self.members@.subrange(
                    0,
                    i as int,
                ).push(self.members@[i as int]));
            }
            i += 1;
        }
        proof {
            assert(self.members@.subrange(0, n as int) =~= self.members@);
        }
        VertexBufferInfo { members, stride: self.stride, input_rate: self.input_rate }
    }
}

impl VertexBufferInfo {
    /// Looks a member up by its attribute name; the members registered
    /// earlier win when a name was registered twice.
    pub fn member(&self, name: &String) -> (r: Option<VertexMemberInfo>)
        ensures
            r == find_member(self.members@, name@),
    {
        let n = self.members.len();
        let mut i: usize = 0;
        while i < n
            invariant
                0 <= i <= n,
                n == self.members@.len(),
                forall|k: int| 0 <= k < i ==> (#[trigger] self.members@[k]).0@ != name@,
            decreases n - i,
        {
            if self.members[i].0 == *name {
                proof {
                    lemma_find_member_skip(self.members@, name@, i as int);
                    let suffix = self.members@.subrange(i as int, n as int);
                    assert(suffix[0] == self.members@[i as int]);
                    assert(find_member(suffix, name@) == Some(self.members@[i as int].1));
                }
                return Some(self.members[i].1);
            }
            i += 1;
        }
        proof {
            lemma_find_member_skip(self.members@, name@, n as int);
            assert(self.members@.subrange(n as int, n as int) =~= Seq::<(
                String,
                VertexMemberInfo,
            )>::empty());
        }
        None
    }
}

} // verus!
