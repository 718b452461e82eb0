//! Vertex-attribute interleaving: packs several independently stored
//! per-vertex attribute arrays into one tightly packed byte stream, one
//! interleaved record per vertex, together with the layout metadata
//! (per-attribute byte offset, element format, element count, stride,
//! input rate) that describes the produced layout.

mod definition;
mod format;
mod info;
mod layout;
mod runtime;

pub use definition::{
    entry_error, entry_matches, interface_compatible, IncompatibleVertexDefinitionError,
    ShaderInterface, ShaderInterfaceEntry, VertexDefinition,
};
pub use format::Format;
pub use info::{find_member, VertexBufferInfo, VertexInputRate, VertexMemberInfo};
pub use layout::{
    counts_agree, covers, field_bytes, interleaved, lemma_ranges_partition,
    lemma_record_extraction, lemma_round_trip, lemma_single_member, member_count, owns,
    record_bytes, sizes_pos, total_size, wf_members, MemberView,
};
pub use runtime::{
    lemma_stream_len, BuildError, RuntimeVertexBuilder, RuntimeVertexIter, VertexAttribute,
};
