use shader_core::error::Error;
use shader_core::error::ParseError;
use shader_core::lex::Token;
use shader_core::parse::analyze_shader;
use shader_core::reflect::BlockStorage;
use shader_core::reflect::TypeTag;

#[test]
fn no_global_defaults_to_unit_shape() {
    let refl = analyze_shader(b"void main() { }").unwrap();
    assert_eq!(refl.local_size.x, 1);
    assert_eq!(refl.local_size.y, 1);
    assert_eq!(refl.local_size.z, 1);
}

#[test]
fn local_size_x_alone() {
    let refl = analyze_shader(b"layout(local_size_x = 64) in;\nvoid main() { }").unwrap();
    assert_eq!(refl.local_size.x, 64);
    assert_eq!(refl.local_size.y, 1);
    assert_eq!(refl.local_size.z, 1);
}

#[test]
fn local_size_all_axes() {
    let refl = analyze_shader(b"layout(local_size_x = 8, local_size_y = 4, local_size_z = 2) in;")
        .unwrap();
    assert_eq!(refl.local_size.x, 8);
    assert_eq!(refl.local_size.y, 4);
    assert_eq!(refl.local_size.z, 2);
}

#[test]
fn zero_workgroup_size_rejected() {
    let r = analyze_shader(b"layout(local_size_x = 0) in;");
    assert!(matches!(r, Err(Error::Parse(ParseError::ZeroWorkgroupSize))));
}

#[test]
fn unknown_global_layout_identifier_rejected() {
    let r = analyze_shader(b"layout(location = 3) in;");
    match r {
        Err(Error::Parse(ParseError::UnknownLayoutIdentifier { name })) => {
            assert_eq!(name, b"location".to_vec());
        }
        other => panic!("expected UnknownLayoutIdentifier, got {:?}", other),
    }
}

#[test]
fn missing_layout_value_rejected() {
    let r = analyze_shader(b"layout(local_size_x) in;");
    assert!(matches!(r, Err(Error::Parse(ParseError::MissingLayoutValue { .. }))));
}

#[test]
fn sampler_uniform_declaration() {
    let refl = analyze_shader(b"layout(set = 1, binding = 0) uniform sampler2D foo;").unwrap();
    assert_eq!(refl.variable_declarations.len(), 1);
    let v = &refl.variable_declarations[0];
    assert_eq!(v.name, b"foo".to_vec());
    assert_eq!(v.type_ident, b"sampler2D".to_vec());
    assert_eq!(v.binding, Some(0));
    assert_eq!(v.set, Some(1));
    assert_eq!(v.type_format, None);
}

#[test]
fn image_uniform_with_format() {
    let refl = analyze_shader(b"layout(binding = 2, rgba32f) uniform image2D img;").unwrap();
    let v = &refl.variable_declarations[0];
    assert_eq!(v.type_format, Some(b"rgba32f".to_vec()));
    assert_eq!(v.binding, Some(2));
    assert_eq!(v.set, None);
}

#[test]
fn const_variable_is_skipped() {
    let refl = analyze_shader(b"const float PI = 3.14159;\nvoid main() { }").unwrap();
    assert_eq!(refl.variable_declarations.len(), 0);
    assert_eq!(refl.block_declarations.len(), 0);
}

#[test]
fn uniform_with_initializer_rejected() {
    let r = analyze_shader(b"uniform float threshold = 0.5;");
    assert!(matches!(r, Err(Error::Parse(ParseError::UnexpectedInitializer { .. }))));
}

#[test]
fn uniform_array_rejected() {
    let r = analyze_shader(b"layout(binding = 0) uniform sampler2D maps[4];");
    assert!(matches!(r, Err(Error::Parse(ParseError::UnexpectedArraySpecifier { .. }))));
}

#[test]
fn extra_declarators_rejected() {
    let r = analyze_shader(b"uniform float a, b;");
    assert!(matches!(r, Err(Error::Parse(ParseError::UnexpectedDeclaratorTail { .. }))));
}

#[test]
fn unqualified_global_variable_rejected() {
    let r = analyze_shader(b"float stray;");
    assert!(matches!(r, Err(Error::Parse(ParseError::UnqualifiedDeclaration))));
}

#[test]
fn out_qualified_variable_rejected() {
    let r = analyze_shader(b"out vec4 color_out;");
    assert!(matches!(r, Err(Error::Parse(ParseError::UnexpectedVariableQualifier))));
}

#[test]
fn uniform_block_with_fields() {
    let src = b"layout(std140, set = 0, binding = 1) uniform FrameData {\n\
        layout(offset = 0) float time;\n\
        vec2 resolution;\n\
        bool beat;\n\
    } frame;\n";
    let refl = analyze_shader(src).unwrap();
    assert_eq!(refl.block_declarations.len(), 1);
    let b = &refl.block_declarations[0];
    assert_eq!(b.name, b"FrameData".to_vec());
    assert_eq!(b.identifier, Some(b"frame".to_vec()));
    assert_eq!(b.storage, BlockStorage::UniformBuffer);
    assert_eq!(b.binding, Some(1));
    assert_eq!(b.set, Some(0));
    assert!(b.std140);
    assert!(!b.push_constant);
    assert_eq!(b.fields.len(), 3);
    assert_eq!(b.fields[0].name, b"time".to_vec());
    assert_eq!(b.fields[0].tag(), TypeTag::Float);
    assert_eq!(b.fields[0].offset, Some(0));
    assert_eq!(b.fields[1].tag(), TypeTag::Vec2);
    assert_eq!(b.fields[2].tag(), TypeTag::Bool);
    assert_eq!(b.byte_size(), Some(4 + 8 + 1));
}

#[test]
fn storage_buffer_block() {
    let src = b"layout(set = 0, binding = 3) buffer Samples { float values[]; } samples;";
    let refl = analyze_shader(src).unwrap();
    let b = &refl.block_declarations[0];
    assert_eq!(b.storage, BlockStorage::StorageBuffer);
    assert_eq!(b.fields[0].dimensions, Some(vec![None]));
}

#[test]
fn push_constant_block_without_set() {
    let src = b"layout(push_constant) uniform PushConstants { bool is_beat; float now; } push;";
    let refl = analyze_shader(src).unwrap();
    let b = &refl.block_declarations[0];
    assert!(b.push_constant);
    assert_eq!(b.set, None);
    assert_eq!(b.checked_set(), 0);
    assert_eq!(b.fields.len(), 2);
}

#[test]
fn block_without_storage_rejected() {
    let r = analyze_shader(b"layout(binding = 0) NoStorage { float x; } ns;");
    assert!(matches!(r, Err(Error::Parse(ParseError::MissingStorageQualifier))));
}

#[test]
fn block_field_unknown_type_carried_as_other() {
    let refl = analyze_shader(b"layout(binding = 0) uniform B { mat3x3 weird; } b;").unwrap();
    let b = &refl.block_declarations[0];
    assert_eq!(b.fields[0].tag(), TypeTag::Other);
    assert_eq!(b.fields[0].type_ident, b"mat3x3".to_vec());
    assert_eq!(b.byte_size(), None);
}

#[test]
fn functions_prototypes_and_preprocessor_skipped() {
    let src = b"#version 450\n\
        precision highp float;\n\
        // a comment\n\
        /* a block\n comment */\n\
        float helper(float x);\n\
        layout(local_size_x = 16) in;\n\
        float helper(float x) { return x * 2.0; }\n\
        void main() { vec2 v = vec2(1.0, 2.0); }\n";
    let refl = analyze_shader(src).unwrap();
    assert_eq!(refl.local_size.x, 16);
    assert_eq!(refl.variable_declarations.len(), 0);
    assert_eq!(refl.block_declarations.len(), 0);
}

#[test]
fn unterminated_comment_rejected() {
    let r = analyze_shader(b"void main() { } /* open");
    assert!(matches!(r, Err(Error::Parse(ParseError::UnterminatedComment))));
}

#[test]
fn unprintable_byte_rejected() {
    let r = analyze_shader(b"void main\x01() { }");
    assert!(matches!(r, Err(Error::Parse(ParseError::UnexpectedByte { .. }))));
}

#[test]
fn layout_value_too_large_rejected() {
    let r = analyze_shader(b"layout(binding = 99999999999999999999) uniform sampler2D s;");
    assert!(matches!(r, Err(Error::Parse(ParseError::IntegerTooLarge))));
}

#[test]
fn function_with_nested_blocks_skipped() {
    let src = b"layout(local_size_x = 4) in;\n\
        void main() {\n\
            if (true) { for (int i = 0; i < 4; i = i + 1) { } }\n\
            vec2 v = vec2(1.0, 2.0);\n\
        }\n";
    let refl = analyze_shader(src).unwrap();
    assert_eq!(refl.local_size.x, 4);
}

#[test]
fn const_with_comma_initializer_skipped() {
    let refl = analyze_shader(b"const vec2 center = vec2(0.5, 0.5);").unwrap();
    assert_eq!(refl.variable_declarations.len(), 0);
}

#[test]
fn stray_semicolons_ignored() {
    let refl = analyze_shader(b";;\nlayout(binding = 0) uniform sampler2D s;;").unwrap();
    assert_eq!(refl.variable_declarations.len(), 1);
}

#[test]
fn later_workgroup_global_wins() {
    let src = b"layout(local_size_x = 8) in;\nlayout(local_size_x = 16) in;";
    let refl = analyze_shader(src).unwrap();
    assert_eq!(refl.local_size.x, 16);
}

#[test]
fn split_layout_lists_combine() {
    let src = b"layout(local_size_x = 8) layout(local_size_y = 2) in;";
    let refl = analyze_shader(src).unwrap();
    assert_eq!((refl.local_size.x, refl.local_size.y), (8, 2));
}

#[test]
fn lexer_tokens_and_comments() {
    let tokens = shader_core::lex::lex(b"#version 450\nlayout(set = 12) // end\n/* x */ in;").unwrap();
    assert_eq!(
        tokens,
        vec![
            Token::Ident(b"layout".to_vec()),
            Token::Sym(b'('),
            Token::Ident(b"set".to_vec()),
            Token::Sym(b'='),
            Token::Int { value: 12, overflow: false },
            Token::Sym(b')'),
            Token::Ident(b"in".to_vec()),
            Token::Sym(b';'),
        ]
    );
    assert!(matches!(
        shader_core::lex::lex(b"99999999999999999999").unwrap()[0],
        Token::Int { overflow: true, .. }
    ));
}
