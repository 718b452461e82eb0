//! Matching a finalized vertex layout against a vertex shader's expected
//! input interface.

use crate::format::Format;
use crate::info::{find_member, VertexBufferInfo, VertexMemberInfo};
use vstd::prelude::*;

verus! {

/// One input the vertex shader expects: an attribute name and the element
/// format it is declared with.
#[derive(Debug)]
pub struct ShaderInterfaceEntry {
    pub name: String,
    pub format: Format,
}

/// A vertex shader's expected input interface: the entries a vertex layout
/// must supply.
pub struct ShaderInterface {
    pub entries: Vec<ShaderInterfaceEntry>,
}

/// Error that can happen when the vertex definition doesn't match the input
/// of the vertex shader.
#[derive(Clone, Debug, PartialEq, Eq)]
pub enum IncompatibleVertexDefinitionError {
    /// An attribute of the vertex shader is missing in the vertex source.
    MissingAttribute {
        /// Name of the missing attribute.
        attribute: String,
    },
    /// The format of an attribute does not match.
    FormatMismatch {
        /// Name of the attribute.
        attribute: String,
        /// The format in the vertex shader.
        shader: Format,
        /// The member in the vertex definition.
        definition: VertexMemberInfo,
    },
}

impl IncompatibleVertexDefinitionError {
    /// A short description of the failure.
    pub fn message(&self) -> (r: &'static str)
        ensures
            self matches IncompatibleVertexDefinitionError::MissingAttribute { .. } ==> r@
                == "an attribute is missing"@,
            self matches IncompatibleVertexDefinitionError::FormatMismatch { .. } ==> r@
                == "the format of an attribute does not match"@,
    {
        match self {
            IncompatibleVertexDefinitionError::MissingAttribute { .. } => "an attribute is missing",
            IncompatibleVertexDefinitionError::FormatMismatch {
                ..
            } => "the format of an attribute does not match",
        }
    }
}

/// The layout's members satisfy interface entry `e`: a member carries the
/// entry's name and is declared with the entry's format.
pub open spec fn entry_matches(
    members: Seq<(String, VertexMemberInfo)>,
    e: ShaderInterfaceEntry,
) -> bool {
    find_member(members, e.name@) matches Some(info) && info.format == e.format
}

/// The layout supplies every entry of the interface, each with the format
/// the shader declares.
pub open spec fn interface_compatible(
    members: Seq<(String, VertexMemberInfo)>,
    entries: Seq<ShaderInterfaceEntry>,
) -> bool {
    forall|i: int| 0 <= i < entries.len() ==> entry_matches(members, #[trigger] entries[i])
}

/// The failure a layout reports for interface entry `e`: the attribute is
/// missing altogether, or it is present under a different format.
pub open spec fn entry_error(
    members: Seq<(String, VertexMemberInfo)>,
    e: ShaderInterfaceEntry,
) -> IncompatibleVertexDefinitionError {
    match find_member(members, e.name@) {
        Option::None => IncompatibleVertexDefinitionError::MissingAttribute { attribute: e.name },
        Option::Some(info) => IncompatibleVertexDefinitionError::FormatMismatch {
            attribute: e.name,
            shader: e.format,
            definition: info,
        },
    }
}

/// Trait for types that can produce the vertex layout to link against a
/// vertex shader's input interface, or report why they cannot.
pub trait VertexDefinition {
    /// Builds the vertex definition to use to link this definition to a
    /// vertex shader's input interface.
    fn definition(&self, interface: &ShaderInterface) -> Result<
        VertexBufferInfo,
        IncompatibleVertexDefinitionError,
    >;
}

impl VertexBufferInfo {
    /// Checks this layout against a shader's input interface: every entry
    /// must be present by name and carry the format the shader declares.
    /// The first failing entry, in interface order, is reported.
    pub fn check_interface(&self, interface: &ShaderInterface) -> (r: Result<
        (),
        IncompatibleVertexDefinitionError,
    >)
        ensures
            r is Ok <==> interface_compatible(self.members@, interface.entries@),
            r matches Err(e) ==> exists|i: int|
                {
                    &&& 0 <= i < interface.entries@.len()
                    &&& forall|k: int|
                        0 <= k < i ==> entry_matches(
                            self.members@,
                            #[trigger] interface.entries@[k],
                        )
                    &&& !entry_matches(self.members@, #[trigger] interface.entries@[i])
                    &&& e == entry_error(self.members@, interface.entries@[i])
                },
    {
        let n = interface.entries.len();
        let mut i: usize = 0;
        while i < n
            invariant
                0 <= i <= n,
                n == interface.entries@.len(),
                forall|k: int|
                    0 <= k < i ==> entry_matches(self.members@, #[trigger] interface.entries@[k]),
            decreases n - i,
        {
            let entry = &interface.entries[i];
            match self.member(&entry.name) {
                Option::None => {
                    return Err(
                        IncompatibleVertexDefinitionError::MissingAttribute {
                            attribute: entry.name.clone(),
                        },
                    );
                },
                Option::Some(info) => {
                    if info.format != entry.format {
                        return Err(
                            IncompatibleVertexDefinitionError::FormatMismatch {
                                attribute: entry.name.clone(),
                                shader: entry.format,
                                definition: info,
                            },
                        );
                    }
                },
            }
            i += 1;
        }
        Ok(())
    }
}

impl VertexDefinition for VertexBufferInfo {
    /// A finalized layout is its own vertex definition: it is returned
    /// unchanged when it satisfies the interface.
    fn definition(&self, interface: &ShaderInterface) -> Result<
        VertexBufferInfo,
        IncompatibleVertexDefinitionError,
    > {
        match self.check_interface(interface) {
            Ok(()) => Ok(self.clone()),
            Err(e) => Err(e),
        }
    }
}

} // verus!
