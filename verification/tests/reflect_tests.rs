use shader_core::error::Error;
use shader_core::error::LayoutError;
use shader_core::reflect::BlockDeclaration;
use shader_core::reflect::BlockField;
use shader_core::reflect::BlockStorage;
use shader_core::reflect::TypeTag;
use shader_core::reflect::VariableDeclaration;
use shader_core::reflect::ShaderReflection;
use shader_core::reflect::WorkgroupShape;

fn field(type_ident: &[u8]) -> BlockField {
    BlockField { name: b"f".to_vec(), type_ident: type_ident.to_vec(), offset: None, dimensions: None }
}

fn block_of(fields: Vec<BlockField>) -> BlockDeclaration {
    BlockDeclaration {
        name: b"B".to_vec(),
        identifier: None,
        storage: BlockStorage::UniformBuffer,
        binding: None,
        set: None,
        push_constant: false,
        std140: false,
        fields,
    }
}

#[test]
fn byte_size_documented_values() {
    let expect: [(&[u8], u32); 24] = [
        (b"void", 1),
        (b"bool", 1),
        (b"int", 4),
        (b"uint", 4),
        (b"float", 4),
        (b"double", 8),
        (b"vec2", 8),
        (b"vec3", 12),
        (b"vec4", 16),
        (b"ivec2", 8),
        (b"ivec3", 12),
        (b"ivec4", 16),
        (b"uvec2", 8),
        (b"uvec3", 12),
        (b"uvec4", 16),
        (b"mat2", 16),
        (b"mat3", 36),
        (b"mat4", 64),
        (b"mat2x3", 24),
        (b"mat2x4", 32),
        (b"mat3x2", 24),
        (b"mat3x4", 48),
        (b"mat4x2", 32),
        (b"mat4x3", 48),
    ];
    for (spelling, size) in expect {
        assert_eq!(field(spelling).byte_size(), Some(size));
    }
}

#[test]
fn byte_size_unknown_tag() {
    let f = field(b"sampler2D");
    assert_eq!(f.tag(), TypeTag::Other);
    assert_eq!(f.byte_size(), None);
}

#[test]
fn block_size_sums_fields() {
    let b = block_of(vec![field(b"bool"), field(b"float"), field(b"vec4")]);
    assert_eq!(b.byte_size(), Some(1 + 4 + 16));
    assert_eq!(b.allocation_size().unwrap(), 21);
}

#[test]
fn block_size_unknown_field_poisons() {
    let b = block_of(vec![field(b"float"), field(b"mystery")]);
    assert_eq!(b.byte_size(), None);
    match b.allocation_size() {
        Err(Error::Layout(LayoutError::BlockSizeUnknown { block })) => {
            assert_eq!(block, b"B".to_vec());
        }
        other => panic!("expected BlockSizeUnknown, got {:?}", other),
    }
}

#[test]
fn empty_block_never_allocates_zero_bytes() {
    let b = block_of(vec![]);
    assert_eq!(b.byte_size(), Some(0));
    assert!(matches!(
        b.allocation_size(),
        Err(Error::Layout(LayoutError::BlockSizeUnknown { .. }))
    ));
}

#[test]
fn checked_set_defaults_to_zero() {
    let mut b = block_of(vec![]);
    assert_eq!(b.checked_set(), 0);
    b.set = Some(2);
    assert_eq!(b.checked_set(), 2);
    let v = VariableDeclaration {
        name: b"tex".to_vec(),
        type_ident: b"sampler2D".to_vec(),
        binding: Some(0),
        set: None,
        type_format: None,
    };
    assert_eq!(v.checked_set(), 0);
}

#[test]
fn declaration_lookup_by_name() {
    let refl = ShaderReflection {
        local_size: WorkgroupShape { x: 1, y: 1, z: 1 },
        variable_declarations: vec![VariableDeclaration {
            name: b"tex".to_vec(),
            type_ident: b"sampler2D".to_vec(),
            binding: Some(0),
            set: Some(1),
            type_format: None,
        }],
        block_declarations: vec![BlockDeclaration {
            name: b"FrameData".to_vec(),
            identifier: Some(b"frame".to_vec()),
            storage: BlockStorage::UniformBuffer,
            binding: Some(0),
            set: Some(0),
            push_constant: false,
            std140: true,
            fields: vec![],
        }],
    };
    assert_eq!(refl.variable_declaration(b"tex").unwrap().binding, Some(0));
    assert!(matches!(
        refl.variable_declaration(b"absent"),
        Err(Error::Layout(LayoutError::DeclarationNotFound { .. }))
    ));
    // Blocks are addressed by their instance identifier, not the block name.
    assert_eq!(refl.block_declaration(b"frame").unwrap().name, b"FrameData".to_vec());
    assert!(matches!(
        refl.block_declaration(b"FrameData"),
        Err(Error::Layout(LayoutError::DeclarationNotFound { .. }))
    ));
}
