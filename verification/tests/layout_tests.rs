use shader_core::descriptor::build_set_layouts;
use shader_core::descriptor::descriptor_pool_sizes;
use shader_core::descriptor::resolve_ref;
use shader_core::descriptor::DescriptorKind;
use shader_core::descriptor::KindResolution;
use shader_core::error::Error;
use shader_core::error::LayoutError;
use shader_core::layout::synthesize_binding_table;
use shader_core::layout::BindingRef;
use shader_core::parse::analyze_shader;

#[test]
fn binding_table_two_sets() {
    // Declarations split across sets {0, 2}: the table holds exactly two
    // entries, each containing only its own declarations.
    let src = b"layout(set = 2, binding = 0) uniform sampler2D tex;\n\
        layout(set = 0, binding = 0) uniform FrameData { float time; } frame;\n\
        layout(set = 2, binding = 1) uniform sampler2D prev;\n\
        layout(set = 0, binding = 1) buffer Samples { vec4 data; } samples;\n";
    let refl = analyze_shader(src).unwrap();
    let (table, diagnostics) = synthesize_binding_table(&refl);
    assert_eq!(diagnostics.len(), 0);
    assert_eq!(table.sets.len(), 2);
    // Variables come first, so set 2 is seen first.
    assert_eq!(table.sets[0].set_index, 2);
    assert_eq!(table.sets[1].set_index, 0);
    assert_eq!(
        table.sets[0].declarations,
        vec![BindingRef::Image { index: 0 }, BindingRef::Image { index: 1 }]
    );
    assert_eq!(
        table.sets[1].declarations,
        vec![BindingRef::Block { index: 0 }, BindingRef::Block { index: 1 }]
    );
}

#[test]
fn pool_sized_per_type_times_replicas() {
    let src = b"layout(set = 2, binding = 0) uniform sampler2D tex;\n\
        layout(set = 0, binding = 0) uniform FrameData { float time; } frame;\n\
        layout(set = 2, binding = 1) uniform sampler2D prev;\n\
        layout(set = 0, binding = 1) buffer Samples { vec4 data; } samples;\n";
    let refl = analyze_shader(src).unwrap();
    let (table, _) = synthesize_binding_table(&refl);
    let layouts = build_set_layouts(&refl, &table).unwrap();
    assert_eq!(layouts.len(), 2);
    assert_eq!(layouts[0].set_index, 2);
    assert_eq!(
        layouts[0].kinds,
        vec![DescriptorKind::CombinedImageSampler, DescriptorKind::CombinedImageSampler]
    );
    assert_eq!(
        layouts[1].kinds,
        vec![DescriptorKind::UniformBuffer, DescriptorKind::StorageBuffer]
    );
    let sizes = descriptor_pool_sizes(&layouts, 3).unwrap();
    assert_eq!(sizes.len(), 3);
    assert_eq!(sizes[0].kind, DescriptorKind::UniformBuffer);
    assert_eq!(sizes[0].descriptor_count, 1 * 3);
    assert_eq!(sizes[1].kind, DescriptorKind::StorageBuffer);
    assert_eq!(sizes[1].descriptor_count, 1 * 3);
    assert_eq!(sizes[2].kind, DescriptorKind::CombinedImageSampler);
    assert_eq!(sizes[2].descriptor_count, 2 * 3);
}

#[test]
fn defaulted_set_reported_and_grouped_with_zero() {
    // The scenario: a sampler in set 1 and a push-constant block with no
    // set.  The table holds sets {0, 1}; the block's default is reported.
    let src = b"layout(set = 1, binding = 0) uniform sampler2D foo;\n\
        layout(push_constant) uniform PushConstants { bool is_beat; float now; } push;\n";
    let refl = analyze_shader(src).unwrap();
    let (table, diagnostics) = synthesize_binding_table(&refl);
    assert_eq!(diagnostics, vec![b"PushConstants".to_vec()]);
    assert_eq!(table.sets.len(), 2);
    assert_eq!(table.sets[0].set_index, 1);
    assert_eq!(table.sets[0].declarations, vec![BindingRef::Image { index: 0 }]);
    assert_eq!(table.sets[1].set_index, 0);
    assert_eq!(table.sets[1].declarations, vec![BindingRef::Block { index: 0 }]);
}

#[test]
fn push_constant_block_needs_no_descriptor() {
    let src = b"layout(push_constant) uniform PushConstants { float now; } push;";
    let refl = analyze_shader(src).unwrap();
    assert_eq!(
        resolve_ref(&refl, BindingRef::Block { index: 0 }),
        KindResolution::PushConstant
    );
    let (table, _) = synthesize_binding_table(&refl);
    let layouts = build_set_layouts(&refl, &table).unwrap();
    assert_eq!(layouts.len(), 1);
    assert_eq!(layouts[0].kinds.len(), 0);
    let sizes = descriptor_pool_sizes(&layouts, 3).unwrap();
    assert_eq!(sizes.len(), 0);
}

#[test]
fn storage_image_resolutions() {
    let src = b"layout(binding = 0, rgba32f) uniform image2D img;\n\
        layout(binding = 1) uniform image2D plain_img;\n";
    let refl = analyze_shader(src).unwrap();
    assert_eq!(
        resolve_ref(&refl, BindingRef::Image { index: 0 }),
        KindResolution::Descriptor(DescriptorKind::StorageImage)
    );
    assert_eq!(
        resolve_ref(&refl, BindingRef::Image { index: 1 }),
        KindResolution::Descriptor(DescriptorKind::StorageImage)
    );
}

#[test]
fn unresolvable_binding_fails_allocator() {
    let src = b"layout(binding = 0) uniform sampler3D vol;";
    let refl = analyze_shader(src).unwrap();
    let (table, _) = synthesize_binding_table(&refl);
    match build_set_layouts(&refl, &table) {
        Err(Error::Layout(LayoutError::UnresolvedDescriptorKind { name })) => {
            assert_eq!(name, b"vol".to_vec());
        }
        other => panic!("expected UnresolvedDescriptorKind, got {:?}", other),
    }
}

#[test]
fn descriptor_plan_combines_table_layouts_and_pool() {
    let src = b"layout(set = 1, binding = 0) uniform sampler2D foo;\n\
        layout(push_constant) uniform PushConstants { bool is_beat; float now; } push;\n\
        layout(set = 0, binding = 0) uniform FrameData { float time; } frame;\n";
    let refl = analyze_shader(src).unwrap();
    let plan = shader_core::descriptor::plan_descriptors(&refl, 3).unwrap();
    assert_eq!(plan.defaulted_names, vec![b"PushConstants".to_vec()]);
    assert_eq!(plan.table.sets.len(), 2);
    assert_eq!(plan.set_layouts.len(), 2);
    assert_eq!(plan.pool_sizes.len(), 2);
    assert_eq!(plan.pool_sizes[0].kind, DescriptorKind::UniformBuffer);
    assert_eq!(plan.pool_sizes[0].descriptor_count, 3);
    assert_eq!(plan.pool_sizes[1].kind, DescriptorKind::CombinedImageSampler);
    assert_eq!(plan.pool_sizes[1].descriptor_count, 3);
}
