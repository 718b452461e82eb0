use vertex_interleave::{
    BuildError, Format, IncompatibleVertexDefinitionError, RuntimeVertexBuilder, ShaderInterface,
    ShaderInterfaceEntry, VertexAttribute, VertexDefinition, VertexInputRate,
};

#[test]
fn runtime_vertex_builder() {
    let pos_0 = [0.1f32, 1.2, 2.3];
    let pos_1 = [3.4f32, 4.5, 5.6];
    let positions = [pos_0, pos_1];
    let uv_0 = [0.15f32, 1.0];
    let uv_1 = [0.72f32, 0.0];
    let uvs = [uv_0, uv_1];

    let (iter, info) = RuntimeVertexBuilder::new()
        .add(
            VertexAttribute::new("position", Format::R32G32B32_SFLOAT),
            &positions,
        )
        .add(VertexAttribute::new("uvs", Format::R32G32_SFLOAT), &uvs)
        .build()
        .unwrap();

    let mut iter = iter;
    let data: Vec<u8> = iter.collect_bytes();
    let mut expected = bytemuck::cast_slice::<f32, u8>(&pos_0).to_vec();
    expected.append(&mut bytemuck::cast_slice::<f32, u8>(&uv_0).to_vec());
    expected.append(&mut bytemuck::cast_slice::<f32, u8>(&pos_1).to_vec());
    expected.append(&mut bytemuck::cast_slice::<f32, u8>(&uv_1).to_vec());

    assert_eq!(info.stride, 3 * 4 + 2 * 4);
    assert_eq!(data.len(), expected.len());
    assert_eq!(
        data.len(),
        data.iter()
            .zip(expected.iter())
            .filter(|&(a, b)| a == b)
            .count()
    );
}

fn f32_bytes(values: &[f32]) -> Vec<u8> {
    let mut out = Vec::new();
    for v in values {
        out.extend_from_slice(&v.to_ne_bytes());
    }
    out
}

#[test]
fn position_and_uv_scenario() {
    // position: 3 x 32-bit float, 12 bytes per vertex, 2 vertices.
    let positions = f32_bytes(&[0.1, 1.2, 2.3, 3.4, 4.5, 5.6]);
    // uv: 2 x 32-bit float, 8 bytes per vertex, the same 2 vertices.
    let uvs = f32_bytes(&[0.15, 1.0, 0.72, 0.0]);

    let (mut iter, info) = RuntimeVertexBuilder::new()
        .add_bytes(
            VertexAttribute::new("position", Format::R32G32B32_SFLOAT),
            positions.clone(),
            12,
        )
        .add_bytes(
            VertexAttribute::new("uv", Format::R32G32_SFLOAT),
            uvs.clone(),
            8,
        )
        .build()
        .unwrap();

    assert_eq!(info.stride, 20);
    assert_eq!(info.input_rate, VertexInputRate::Vertex);

    let position = info.member(&"position".to_string()).unwrap();
    assert_eq!(position.offset, 0);
    assert_eq!(position.num_elements, 3);
    assert_eq!(position.format, Format::R32G32B32_SFLOAT);

    let uv = info.member(&"uv".to_string()).unwrap();
    assert_eq!(uv.offset, 12);
    assert_eq!(uv.num_elements, 2);
    assert_eq!(uv.format, Format::R32G32_SFLOAT);

    assert_eq!(info.member(&"normal".to_string()), None);

    // The two ranges tile the record: [0, 12) then [12, 20), no gap, no
    // overlap, ending exactly at the stride.
    assert_eq!(position.offset + 12, uv.offset);
    assert_eq!(uv.offset + 8, info.stride);

    assert_eq!(iter.len(), 40);
    let data = iter.collect_bytes();
    let mut expected = positions[0..12].to_vec();
    expected.extend_from_slice(&uvs[0..8]);
    expected.extend_from_slice(&positions[12..24]);
    expected.extend_from_slice(&uvs[8..16]);
    assert_eq!(data, expected);
}

#[test]
fn round_trip_de_interleaving() {
    let a = vec![1u8, 2, 3, 4, 5, 6, 7, 8, 9, 10, 11, 12];
    let b = vec![101u8, 102, 103, 104, 105, 106];
    let (mut iter, info) = RuntimeVertexBuilder::new()
        .add_bytes(VertexAttribute::new("a", Format::R32_UINT), a.clone(), 4)
        .add_bytes(VertexAttribute::new("b", Format::R8G8B8A8_UNORM), b.clone(), 2)
        .build()
        .unwrap();

    let stride = info.stride as usize;
    assert_eq!(stride, 6);
    let data = iter.collect_bytes();
    assert_eq!(data.len(), stride * 3);

    // Slicing each record at the members' offsets reproduces the sources.
    let a_info = info.member(&"a".to_string()).unwrap();
    let b_info = info.member(&"b".to_string()).unwrap();
    let mut a_back = Vec::new();
    let mut b_back = Vec::new();
    for v in 0..3 {
        let record = &data[v * stride..(v + 1) * stride];
        a_back.extend_from_slice(&record[a_info.offset as usize..a_info.offset as usize + 4]);
        b_back.extend_from_slice(&record[b_info.offset as usize..b_info.offset as usize + 2]);
    }
    assert_eq!(a_back, a);
    assert_eq!(b_back, b);
}

#[test]
fn single_attribute_is_plain_copy() {
    let source = vec![10u8, 20, 30, 40, 50, 60, 70, 80];
    let (mut iter, info) = RuntimeVertexBuilder::new()
        .add_bytes(
            VertexAttribute::new("color", Format::R8G8B8A8_UNORM),
            source.clone(),
            4,
        )
        .build()
        .unwrap();
    assert_eq!(info.stride, 4);
    assert_eq!(iter.len(), 8);
    let data = iter.collect_bytes();
    assert_eq!(data, source);
}

#[test]
fn vertex_count_mismatch_is_reported() {
    // 3 vertices of 4 bytes against 2 vertices of 2 bytes.
    let a = vec![0u8; 12];
    let b = vec![0u8; 4];
    let r = RuntimeVertexBuilder::new()
        .add_bytes(VertexAttribute::new("a", Format::R32_SFLOAT), a, 4)
        .add_bytes(VertexAttribute::new("b", Format::R8G8B8A8_UNORM), b, 2)
        .build();
    match r {
        Err(BuildError::VertexCountMismatch) => {}
        Ok(_) => panic!("mismatched vertex counts must not build"),
    }
}

#[test]
fn exhaustion_is_idempotent() {
    let source = vec![1u8, 2, 3, 4];
    let (mut iter, _info) = RuntimeVertexBuilder::new()
        .add_bytes(VertexAttribute::new("x", Format::R32_UINT), source, 4)
        .build()
        .unwrap();
    let mut produced = Vec::new();
    while let Some(b) = iter.next() {
        produced.push(b);
    }
    assert_eq!(produced, vec![1u8, 2, 3, 4]);
    assert_eq!(iter.len(), 0);
    assert_eq!(iter.next(), None);
    assert_eq!(iter.next(), None);
    assert_eq!(iter.len(), 0);
    assert_eq!(iter.collect_bytes(), Vec::<u8>::new());
}

#[test]
fn len_reports_remaining_bytes() {
    let source = vec![9u8; 12];
    let (mut iter, _info) = RuntimeVertexBuilder::new()
        .add_bytes(VertexAttribute::new("p", Format::R32_SFLOAT), source, 4)
        .build()
        .unwrap();
    assert_eq!(iter.len(), 12);
    iter.next();
    assert_eq!(iter.len(), 11);
    iter.next();
    assert_eq!(iter.len(), 10);
}

#[test]
fn fits_format_checks_divisibility() {
    // 12 bytes is exactly one 3 x f32 element.
    assert!(RuntimeVertexBuilder::fits_format(Format::R32G32B32_SFLOAT, 12));
    // 12 bytes is exactly three f32 elements.
    assert!(RuntimeVertexBuilder::fits_format(Format::R32_SFLOAT, 12));
    // 6 bytes is one and a half f32 elements: a contract violation.
    assert!(!RuntimeVertexBuilder::fits_format(Format::R32_SFLOAT, 6));
    // A multi-planar format has no element size at all.
    assert!(!RuntimeVertexBuilder::fits_format(
        Format::G8_B8_R8_3PLANE_420_UNORM,
        12
    ));
}

#[test]
fn format_byte_sizes() {
    assert_eq!(Format::R32_SFLOAT.byte_size(), Some(4));
    assert_eq!(Format::R32G32_SFLOAT.byte_size(), Some(4));
    assert_eq!(Format::R32G32B32_SFLOAT.byte_size(), Some(4));
    assert_eq!(Format::R32G32B32A32_SFLOAT.byte_size(), Some(4));
    assert_eq!(Format::R8G8B8A8_UNORM.byte_size(), Some(1));
    assert_eq!(Format::G8_B8_R8_3PLANE_420_UNORM.byte_size(), None);
}

fn two_member_info() -> vertex_interleave::VertexBufferInfo {
    let positions = vec![0u8; 24];
    let uvs = vec![0u8; 16];
    let (_iter, info) = RuntimeVertexBuilder::new()
        .add_bytes(
            VertexAttribute::new("position", Format::R32G32B32_SFLOAT),
            positions,
            12,
        )
        .add_bytes(VertexAttribute::new("uv", Format::R32G32_SFLOAT), uvs, 8)
        .build()
        .unwrap();
    info
}

#[test]
fn definition_accepts_matching_interface() {
    let info = two_member_info();
    let interface = ShaderInterface {
        entries: vec![
            ShaderInterfaceEntry {
                name: "uv".to_string(),
                format: Format::R32G32_SFLOAT,
            },
            ShaderInterfaceEntry {
                name: "position".to_string(),
                format: Format::R32G32B32_SFLOAT,
            },
        ],
    };
    assert!(info.check_interface(&interface).is_ok());
    let again = info.definition(&interface).unwrap();
    assert_eq!(again.stride, info.stride);
    assert_eq!(again.members, info.members);
}

#[test]
fn definition_reports_missing_attribute() {
    let info = two_member_info();
    let interface = ShaderInterface {
        entries: vec![ShaderInterfaceEntry {
            name: "normal".to_string(),
            format: Format::R32G32B32_SFLOAT,
        }],
    };
    match info.definition(&interface) {
        Err(IncompatibleVertexDefinitionError::MissingAttribute { attribute }) => {
            assert_eq!(attribute, "normal");
        }
        _ => panic!("a missing attribute must be reported"),
    }
    let err = info.check_interface(&interface).unwrap_err();
    assert_eq!(err.message(), "an attribute is missing");
}

#[test]
fn definition_reports_format_mismatch() {
    let info = two_member_info();
    let interface = ShaderInterface {
        entries: vec![ShaderInterfaceEntry {
            name: "uv".to_string(),
            format: Format::R32G32B32A32_SFLOAT,
        }],
    };
    match info.definition(&interface) {
        Err(IncompatibleVertexDefinitionError::FormatMismatch {
            attribute,
            shader,
            definition,
        }) => {
            assert_eq!(attribute, "uv");
            assert_eq!(shader, Format::R32G32B32A32_SFLOAT);
            assert_eq!(definition.format, Format::R32G32_SFLOAT);
            assert_eq!(definition.offset, 12);
        }
        _ => panic!("a format mismatch must be reported"),
    }
    let err = info.check_interface(&interface).unwrap_err();
    assert_eq!(err.message(), "the format of an attribute does not match");
}
