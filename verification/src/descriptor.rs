//! Descriptor-type resolution and pool sizing.
//!
//! Each binding-table entry becomes one set layout listing that set's
//! bindings with their resolved descriptor type, a multiplicity of 1 each.
//! The pool is sized to hold, for each descriptor type, the count of that
//! type across all bindings multiplied by the replica count: computed, not
//! guessed.  A binding that resolves to no supported descriptor type fails
//! the allocator; a push-constant block needs no descriptor and is skipped.

use vstd::prelude::*;
use vstd::string::*;

use crate::error::Error;
use crate::error::LayoutError;
use crate::layout::BindingRef;
use crate::layout::BindingTable;
use crate::layout::spec_ref_valid;
use crate::reflect::BlockStorage;
use crate::reflect::ShaderReflection;
use crate::reflect::VariableDeclaration;

verus! {

/// The descriptor types this allocator can serve.
#[derive(Debug, Clone, Copy, PartialEq, Eq, Structural)]
pub enum DescriptorKind {
    UniformBuffer,
    StorageBuffer,
    CombinedImageSampler,
    StorageImage,
}

/// What one declaration resolves to.
#[derive(Debug, Clone, Copy, PartialEq, Eq, Structural)]
pub enum KindResolution {
    /// A descriptor-backed binding of this type.
    Descriptor(DescriptorKind),
    /// A push-constant block: no descriptor is allocated for it.
    PushConstant,
    /// No supported descriptor type fits; the allocator fails rather than
    /// guessing.
    Unsupported,
}

/// How an image/sampler variable resolves: a declared storage format
/// (`rgba32f`) marks a storage image, a `sampler2D` a combined image
/// sampler, an `image2D` without format a storage image; anything else is
/// unsupported.
pub open spec fn spec_resolve_variable(decl: VariableDeclaration) -> KindResolution {
    if decl.type_format is Some {
        KindResolution::Descriptor(DescriptorKind::StorageImage)
    } else if decl.type_ident@ == "sampler2D".spec_bytes() {
        KindResolution::Descriptor(DescriptorKind::CombinedImageSampler)
    } else if decl.type_ident@ == "image2D".spec_bytes() {
        KindResolution::Descriptor(DescriptorKind::StorageImage)
    } else {
        KindResolution::Unsupported
    }
}

/// How a declaration referenced from the binding table resolves.
pub open spec fn spec_resolve_ref(reflection: ShaderReflection, r: BindingRef) -> KindResolution {
    match r {
        BindingRef::Image { index } => spec_resolve_variable(
            reflection.variable_declarations@[index as int],
        ),
        BindingRef::Block { index } => {
            let block = reflection.block_declarations@[index as int];
            if block.push_constant {
                KindResolution::PushConstant
            } else {
                match block.storage {
                    BlockStorage::UniformBuffer => KindResolution::Descriptor(
                        DescriptorKind::UniformBuffer,
                    ),
                    BlockStorage::StorageBuffer => KindResolution::Descriptor(
                        DescriptorKind::StorageBuffer,
                    ),
                }
            }
        },
    }
}

/// Resolve one referenced declaration.
pub fn resolve_ref(reflection: &ShaderReflection, r: BindingRef) -> (resolution: KindResolution)
    requires
        spec_ref_valid(*reflection, r),
    ensures
        resolution == spec_resolve_ref(*reflection, r),
{
    match r {
        BindingRef::Image { index } => {
            let decl = &reflection.variable_declarations[index];
            if decl.type_format.is_some() {
                KindResolution::Descriptor(DescriptorKind::StorageImage)
            } else if crate::text::bytes_eq(decl.type_ident.as_slice(), "sampler2D".as_bytes()) {
                KindResolution::Descriptor(DescriptorKind::CombinedImageSampler)
            } else if crate::text::bytes_eq(decl.type_ident.as_slice(), "image2D".as_bytes()) {
                KindResolution::Descriptor(DescriptorKind::StorageImage)
            } else {
                KindResolution::Unsupported
            }
        },
        BindingRef::Block { index } => {
            let block = &reflection.block_declarations[index];
            if block.push_constant {
                KindResolution::PushConstant
            } else {
                match block.storage {
                    BlockStorage::UniformBuffer => KindResolution::Descriptor(
                        DescriptorKind::UniformBuffer,
                    ),
                    BlockStorage::StorageBuffer => KindResolution::Descriptor(
                        DescriptorKind::StorageBuffer,
                    ),
                }
            }
        },
    }
}

/// The descriptor types of one set's bindings, in binding order, skipping
/// push-constant blocks.
pub open spec fn spec_set_kinds(reflection: ShaderReflection, refs: Seq<BindingRef>) -> Seq<
    DescriptorKind,
>
    decreases refs.len(),
{
    if refs.len() == 0 {
        Seq::empty()
    } else {
        let prefix = spec_set_kinds(reflection, refs.drop_last());
        match spec_resolve_ref(reflection, refs.last()) {
            KindResolution::Descriptor(kind) => prefix.push(kind),
            _ => prefix,
        }
    }
}

/// Whether any referenced declaration is unsupported.
pub open spec fn spec_any_unsupported(reflection: ShaderReflection, refs: Seq<BindingRef>) -> bool {
    exists|i: int| 0 <= i < refs.len() && spec_resolve_ref(reflection, #[trigger] refs[i])
        is Unsupported
}

/// Whether every reference of the table indexes an existing declaration.
pub open spec fn spec_table_valid(reflection: ShaderReflection, table: BindingTable) -> bool {
    forall|p: int, i: int| 0 <= p < table.sets@.len() && 0 <= i
        < table.sets@[p].declarations@.len() ==> spec_ref_valid(
        reflection,
        #[trigger] table.sets@[p].declarations@[i],
    )
}

/// One set layout: the set index and the resolved descriptor type of each
/// of the set's descriptor-backed bindings, one entry (multiplicity 1) per
/// binding.
#[derive(Debug, Clone, PartialEq, Eq)]
pub struct SetLayout {
    pub set_index: usize,
    pub kinds: Vec<DescriptorKind>,
}

/// Resolve every binding of the table: one set layout per table entry, in
/// table order.  Fails with the offending declaration's name if any
/// binding resolves to no supported descriptor type.
pub fn build_set_layouts(reflection: &ShaderReflection, table: &BindingTable) -> (r: Result<
    Vec<SetLayout>,
    Error,
>)
    requires
        spec_table_valid(*reflection, *table),
    ensures
        match r {
            Ok(layouts) => {
                &&& forall|p: int| 0 <= p < table.sets@.len()
                    ==> !spec_any_unsupported(
                        *reflection,
                        (#[trigger] table.sets@[p]).declarations@,
                    )
                &&& layouts@.len() == table.sets@.len()
                &&& forall|p: int| 0 <= p < table.sets@.len()
                    ==> (#[trigger] layouts@[p]).set_index == table.sets@[p].set_index
                &&& forall|p: int| 0 <= p < table.sets@.len()
                    ==> (#[trigger] layouts@[p]).kinds@ =~= spec_set_kinds(
                        *reflection,
                        table.sets@[p].declarations@,
                    )
            },
            Err(e) => exists|p: int, i: int|
                0 <= p < table.sets@.len() && 0 <= i < table.sets@[p].declarations@.len()
                    && spec_resolve_ref(*reflection, #[trigger] table.sets@[p].declarations@[i])
                        is Unsupported
                    && (e matches Error::Layout(LayoutError::UnresolvedDescriptorKind { name })
                        && name@ == crate::layout::spec_ref_name(
                            *reflection,
                            table.sets@[p].declarations@[i],
                        )),
        },
{
    let mut layouts: Vec<SetLayout> = Vec::new();
    let mut p: usize = 0;
    while p < table.sets.len()
        invariant
            p <= table.sets@.len(),
            spec_table_valid(*reflection, *table),
            layouts@.len() == p,
            forall|q: int| 0 <= q < p ==> !spec_any_unsupported(
                *reflection,
                (#[trigger] table.sets@[q]).declarations@,
            ),
            forall|q: int| 0 <= q < p ==> (#[trigger] layouts@[q]).set_index
                == table.sets@[q].set_index,
            forall|q: int| 0 <= q < p ==> (#[trigger] layouts@[q]).kinds@ =~= spec_set_kinds(
                *reflection,
                table.sets@[q].declarations@,
            ),
        decreases table.sets@.len() - p,
    {
        let entry = &table.sets[p];
        let mut kinds: Vec<DescriptorKind> = Vec::new();
        let mut i: usize = 0;
        while i < entry.declarations.len()
            invariant
                i <= entry.declarations@.len(),
                entry == &table.sets@[p as int],
                p < table.sets@.len(),
                spec_table_valid(*reflection, *table),
                kinds@ =~= spec_set_kinds(*reflection, entry.declarations@.take(i as int)),
                forall|j: int| 0 <= j < i ==> !(spec_resolve_ref(
                    *reflection,
                    #[trigger] entry.declarations@[j],
                ) is Unsupported),
            decreases entry.declarations@.len() - i,
        {
            let r0 = entry.declarations[i];
            proof {
                assert(entry.declarations@.take(i + 1).drop_last() =~= entry.declarations@.take(
                    i as int,
                ));
                assert(entry.declarations@.take(i + 1).last() == entry.declarations@[i as int]);
            }
            match resolve_ref(reflection, r0) {
                KindResolution::Descriptor(kind) => {
                    kinds.push(kind);
                },
                KindResolution::PushConstant => {},
                KindResolution::Unsupported => {
                    let name = match r0 {
                        BindingRef::Image { index } => reflection.variable_declarations[index]
                            .name
                            .clone(),
                        BindingRef::Block { index } => reflection.block_declarations[index]
                            .name
                            .clone(),
                    };
                    return Err(Error::Layout(LayoutError::UnresolvedDescriptorKind { name }));
                },
            }
            i += 1;
        }
        proof {
            assert(entry.declarations@.take(entry.declarations@.len() as int)
                =~= entry.declarations@);
        }
        layouts.push(SetLayout { set_index: entry.set_index, kinds });
        p += 1;
    }
    Ok(layouts)
}

/// How many bindings of one set layout's list carry descriptor type `kind`.
pub open spec fn spec_count_in(kinds: Seq<DescriptorKind>, kind: DescriptorKind) -> int
    decreases kinds.len(),
{
    if kinds.len() == 0 {
        0int
    } else {
        spec_count_in(kinds.drop_last(), kind) + if kinds.last() == kind {
            1int
        } else {
            0int
        }
    }
}

/// How many bindings across all set layouts carry descriptor type `kind`.
pub open spec fn spec_kind_count(layouts: Seq<SetLayout>, kind: DescriptorKind) -> int
    decreases layouts.len(),
{
    if layouts.len() == 0 {
        0int
    } else {
        spec_kind_count(layouts.drop_last(), kind) + spec_count_in(layouts.last().kinds@, kind)
    }
}

/// One entry of the pool-size list: a descriptor type and the number of
/// descriptors the pool must hold for it.
#[derive(Debug, Clone, Copy, PartialEq, Eq, Structural)]
pub struct PoolSize {
    pub kind: DescriptorKind,
    pub descriptor_count: u32,
}

/// The pool-size entry for `kind`: count x replica_count descriptors, or
/// nothing when no binding carries the type.
pub open spec fn spec_pool_entry(
    layouts: Seq<SetLayout>,
    replica_count: u32,
    kind: DescriptorKind,
) -> Seq<PoolSize> {
    let count = spec_kind_count(layouts, kind);
    if count > 0 {
        seq![
            PoolSize { kind, descriptor_count: (count * replica_count) as u32 },
        ]
    } else {
        Seq::empty()
    }
}

/// The pool sizes, one entry per descriptor type that occurs, in a fixed
/// type order.
pub open spec fn spec_pool_sizes(layouts: Seq<SetLayout>, replica_count: u32) -> Seq<PoolSize> {
    spec_pool_entry(layouts, replica_count, DescriptorKind::UniformBuffer) + spec_pool_entry(
        layouts,
        replica_count,
        DescriptorKind::StorageBuffer,
    ) + spec_pool_entry(layouts, replica_count, DescriptorKind::CombinedImageSampler)
        + spec_pool_entry(layouts, replica_count, DescriptorKind::StorageImage)
}

/// A prefix of the binding list never counts more than the whole.
proof fn lemma_count_in_take_le(kinds: Seq<DescriptorKind>, kind: DescriptorKind, j: int)
    requires
        0 <= j <= kinds.len(),
    ensures
        spec_count_in(kinds.take(j), kind) <= spec_count_in(kinds, kind),
        spec_count_in(kinds, kind) >= 0,
    decreases kinds.len() - j,
{
    if j == kinds.len() {
        assert(kinds.take(j) =~= kinds);
        lemma_count_in_nonneg(kinds, kind);
    } else {
        assert(kinds.take(j + 1).drop_last() =~= kinds.take(j));
        lemma_count_in_take_le(kinds, kind, j + 1);
    }
}

proof fn lemma_count_in_nonneg(kinds: Seq<DescriptorKind>, kind: DescriptorKind)
    ensures
        spec_count_in(kinds, kind) >= 0,
    decreases kinds.len(),
{
    if kinds.len() > 0 {
        lemma_count_in_nonneg(kinds.drop_last(), kind)
    }
}

/// A prefix of the layout list never counts more than the whole; the count
/// is never negative.
proof fn lemma_kind_count_take_le(layouts: Seq<SetLayout>, kind: DescriptorKind, p: int)
    requires
        0 <= p <= layouts.len(),
    ensures
        spec_kind_count(layouts.take(p), kind) <= spec_kind_count(layouts, kind),
        spec_kind_count(layouts, kind) >= 0,
    decreases layouts.len() - p,
{
    if p == layouts.len() {
        assert(layouts.take(p) =~= layouts);
        lemma_kind_count_nonneg(layouts, kind);
    } else {
        assert(layouts.take(p + 1).drop_last() =~= layouts.take(p));
        lemma_count_in_nonneg(layouts[p].kinds@, kind);
        lemma_kind_count_take_le(layouts, kind, p + 1);
    }
}

proof fn lemma_kind_count_nonneg(layouts: Seq<SetLayout>, kind: DescriptorKind)
    ensures
        spec_kind_count(layouts, kind) >= 0,
    decreases layouts.len(),
{
    if layouts.len() > 0 {
        lemma_kind_count_nonneg(layouts.drop_last(), kind);
        lemma_count_in_nonneg(layouts.last().kinds@, kind);
    }
}

/// Count the bindings of each descriptor type across all set layouts.
/// Fails with a pool-size overflow as soon as a count cannot fit the
/// 32-bit descriptor count.
fn count_kind(layouts: &Vec<SetLayout>, kind: DescriptorKind) -> (r: Result<u64, Error>)
    ensures
        match r {
            Ok(count) => count == spec_kind_count(layouts@, kind) && count <= u32::MAX,
            Err(e) => e == Error::Layout(LayoutError::PoolSizeOverflow) && spec_kind_count(
                layouts@,
                kind,
            ) > u32::MAX,
        },
{
    let mut count: u64 = 0;
    let mut p: usize = 0;
    while p < layouts.len()
        invariant
            p <= layouts@.len(),
            count == spec_kind_count(layouts@.take(p as int), kind),
            count <= u32::MAX,
        decreases layouts@.len() - p,
    {
        let entry = &layouts[p];
        let mut i: usize = 0;
        proof {
            assert(entry.kinds@.take(0) =~= Seq::<DescriptorKind>::empty());
        }
        let mut inner: u64 = 0;
        while i < entry.kinds.len()
            invariant
                i <= entry.kinds@.len(),
                entry == &layouts@[p as int],
                p < layouts@.len(),
                count == spec_kind_count(layouts@.take(p as int), kind),
                count <= u32::MAX,
                inner == spec_count_in(entry.kinds@.take(i as int), kind),
                count + inner <= u32::MAX,
            decreases entry.kinds@.len() - i,
        {
            proof {
                assert(entry.kinds@.take(i + 1).drop_last() =~= entry.kinds@.take(i as int));
                assert(entry.kinds@.take(i + 1).last() == entry.kinds@[i as int]);
            }
            if entry.kinds[i] == kind {
                if count + inner >= u32::MAX as u64 {
                    proof {
                        lemma_count_in_take_le(entry.kinds@, kind, i + 1);
                        lemma_kind_count_take_le(layouts@, kind, p + 1);
                        assert(layouts@.take(p + 1).drop_last() =~= layouts@.take(p as int));
                        assert(layouts@.take(p + 1).last() == layouts@[p as int]);
                    }
                    return Err(Error::Layout(LayoutError::PoolSizeOverflow));
                }
                inner = inner + 1;
            }
            i += 1;
        }
        proof {
            assert(entry.kinds@.take(entry.kinds@.len() as int) =~= entry.kinds@);
            assert(layouts@.take(p + 1).drop_last() =~= layouts@.take(p as int));
            assert(layouts@.take(p + 1).last() == layouts@[p as int]);
        }
        count = count + inner;
        p += 1;
    }
    proof {
        assert(layouts@.take(layouts@.len() as int) =~= layouts@);
    }
    Ok(count)
}

/// Size the descriptor pool: for each descriptor type, the count of that
/// type across all bindings multiplied by the replica count, one entry per
/// type that occurs, in a fixed type order.  Fails with a pool-size
/// overflow if any product cannot fit the 32-bit descriptor count.
pub fn descriptor_pool_sizes(layouts: &Vec<SetLayout>, replica_count: u32) -> (r: Result<
    Vec<PoolSize>,
    Error,
>)
    requires
        replica_count >= 1,
    ensures
        match r {
            Ok(sizes) => (forall|kind: DescriptorKind|
                spec_kind_count(layouts@, kind) * replica_count <= u32::MAX) && sizes@
                =~= spec_pool_sizes(layouts@, replica_count),
            Err(e) => e == Error::Layout(LayoutError::PoolSizeOverflow) && exists|
                kind: DescriptorKind,
            | spec_kind_count(layouts@, kind) * replica_count > u32::MAX,
        },
{
    let mut sizes: Vec<PoolSize> = Vec::new();
    let kinds: [DescriptorKind; 4] = [
        DescriptorKind::UniformBuffer,
        DescriptorKind::StorageBuffer,
        DescriptorKind::CombinedImageSampler,
        DescriptorKind::StorageImage,
    ];
    let mut t: usize = 0;
    while t < 4
        invariant
            t <= 4,
            kinds@ =~= seq![
                DescriptorKind::UniformBuffer,
                DescriptorKind::StorageBuffer,
                DescriptorKind::CombinedImageSampler,
                DescriptorKind::StorageImage,
            ],
            replica_count >= 1,
            forall|q: int| 0 <= q < t ==> spec_kind_count(layouts@, kinds@[q]) * replica_count
                <= u32::MAX,
            sizes@ =~= spec_pool_sizes_prefix(layouts@, replica_count, t as int),
        decreases 4 - t,
    {
        let kind = kinds[t];
        let count = match count_kind(layouts, kind) {
            Ok(count) => count,
            Err(e) => {
                proof {
                    let c = spec_kind_count(layouts@, kind);
                    assert(c * replica_count >= c) by (nonlinear_arith)
                        requires
                            replica_count >= 1,
                            c > u32::MAX,
                    ;
                }
                return Err(e);
            },
        };
        proof {
            assert(count * (replica_count as u64) <= u64::MAX) by (nonlinear_arith)
                requires
                    0 <= count <= u32::MAX,
                    0 <= replica_count <= u32::MAX,
            ;
        }
        let product: u64 = count * (replica_count as u64);
        proof {
            assert(count * (replica_count as u64) == spec_kind_count(layouts@, kind)
                * replica_count) by (nonlinear_arith)
                requires
                    count == spec_kind_count(layouts@, kind),
            ;
        }
        if product > u32::MAX as u64 {
            return Err(Error::Layout(LayoutError::PoolSizeOverflow));
        }
        if count > 0 {
            sizes.push(PoolSize { kind, descriptor_count: product as u32 });
        }
        proof {
            assert(sizes@ =~= spec_pool_sizes_prefix(layouts@, replica_count, t + 1));
        }
        t += 1;
    }
    proof {
        assert(spec_pool_sizes_prefix(layouts@, replica_count, 4) =~= spec_pool_sizes(
            layouts@,
            replica_count,
        ));
        assert forall|kind: DescriptorKind| spec_kind_count(layouts@, kind) * replica_count
            <= u32::MAX by {
            assert(kinds@.contains(kind)) by {
                match kind {
                    DescriptorKind::UniformBuffer => assert(kinds@[0] == kind),
                    DescriptorKind::StorageBuffer => assert(kinds@[1] == kind),
                    DescriptorKind::CombinedImageSampler => assert(kinds@[2] == kind),
                    DescriptorKind::StorageImage => assert(kinds@[3] == kind),
                }
            }
        }
    }
    Ok(sizes)
}

/// The pool sizes for the first `t` descriptor types of the fixed order.
pub open spec fn spec_pool_sizes_prefix(
    layouts: Seq<SetLayout>,
    replica_count: u32,
    t: int,
) -> Seq<PoolSize> {
    let e0 = spec_pool_entry(layouts, replica_count, DescriptorKind::UniformBuffer);
    let e1 = spec_pool_entry(layouts, replica_count, DescriptorKind::StorageBuffer);
    let e2 = spec_pool_entry(layouts, replica_count, DescriptorKind::CombinedImageSampler);
    let e3 = spec_pool_entry(layouts, replica_count, DescriptorKind::StorageImage);
    if t <= 0 {
        Seq::empty()
    } else if t == 1 {
        e0
    } else if t == 2 {
        e0 + e1
    } else if t == 3 {
        e0 + e1 + e2
    } else {
        e0 + e1 + e2 + e3
    }
}


/// An element of a filtered sequence is an element of the sequence.
proof fn lemma_filter_element_of<A>(s: Seq<A>, pred: spec_fn(A) -> bool, i: int)
    requires
        0 <= i < s.filter(pred).len(),
    ensures
        s.contains(s.filter(pred)[i]),
    decreases s.len(),
{
    reveal(Seq::filter);
    if s.len() > 0 {
        let filtered = s.filter(pred);
        let prefix = s.drop_last().filter(pred);
        if pred(s.last()) && i == filtered.len() - 1 {
            assert(s[s.len() - 1] == filtered[i]);
        } else {
            lemma_filter_element_of(s.drop_last(), pred, i);
            let w = choose|w: int| 0 <= w < s.drop_last().len() && s.drop_last()[w] == prefix[i];
            assert(s[w] == filtered[i]);
        }
    }
}

/// A binding table synthesized from the shader's own declarations only
/// references declarations that exist: verified callers may chain the
/// synthesizer and the allocator.
pub proof fn lemma_synthesized_table_valid(reflection: ShaderReflection, table: BindingTable)
    requires
        table.synthesized_from(reflection, crate::layout::spec_all_refs(reflection)),
    ensures
        spec_table_valid(reflection, table),
{
    let all = crate::layout::spec_all_refs(reflection);
    let vlen = reflection.variable_declarations@.len() as int;
    assert forall|p: int, i: int|
        0 <= p < table.sets@.len() && 0 <= i < table.sets@[p].declarations@.len()
        implies spec_ref_valid(reflection, #[trigger] table.sets@[p].declarations@[i]) by {
        let k = table.sets@[p].set_index;
        let pred = |r: BindingRef| crate::layout::spec_ref_set(reflection, r) == k;
        assert(table.sets@[p].declarations@ =~= all.filter(pred));
        lemma_filter_element_of(all, pred, i);
        let w = choose|w: int| 0 <= w < all.len() && all[w] == all.filter(pred)[i];
        if w < vlen {
            assert(all[w] == (BindingRef::Image { index: w as usize }));
        } else {
            assert(all[w] == (BindingRef::Block { index: (w - vlen) as usize }));
        }
    }
}

/// Whether `layouts` is the set-layout list the allocator derives from
/// `table`: one layout per table entry, in order, each listing its set's
/// resolved descriptor kinds.
pub open spec fn spec_layouts_for_table(
    reflection: ShaderReflection,
    table: BindingTable,
    layouts: Seq<SetLayout>,
) -> bool {
    &&& layouts.len() == table.sets@.len()
    &&& forall|p: int| 0 <= p < table.sets@.len() ==> (#[trigger] layouts[p]).set_index
        == table.sets@[p].set_index
    &&& forall|p: int| 0 <= p < table.sets@.len() ==> (#[trigger] layouts[p]).kinds@
        =~= spec_set_kinds(reflection, table.sets@[p].declarations@)
}

/// Whether `e` is an error the descriptor plan of `reflection` owes: some
/// declaration resolves to no supported descriptor kind (and `e` names
/// it), or some per-type descriptor count times the replica count exceeds
/// the 32-bit descriptor count (and `e` is the pool-size overflow).
pub open spec fn spec_plan_error(
    reflection: ShaderReflection,
    replica_count: u32,
    e: Error,
) -> bool {
    exists|table: BindingTable|
        #[trigger] table.synthesized_from(reflection, crate::layout::spec_all_refs(reflection))
            && ((exists|p: int, i: int|
                0 <= p < table.sets@.len() && 0 <= i < table.sets@[p].declarations@.len()
                    && spec_resolve_ref(reflection, #[trigger] table.sets@[p].declarations@[i])
                        is Unsupported
                    && (e matches Error::Layout(LayoutError::UnresolvedDescriptorKind { name })
                        && name@ == crate::layout::spec_ref_name(
                            reflection,
                            table.sets@[p].declarations@[i],
                        ))) || (exists|layouts: Seq<SetLayout>|
                #[trigger] spec_layouts_for_table(reflection, table, layouts)
                    && e == Error::Layout(LayoutError::PoolSizeOverflow)
                    && exists|kind: DescriptorKind|
                        spec_kind_count(layouts, kind) * replica_count > u32::MAX))
}

/// Everything the descriptor allocator derives from one shader: the
/// binding table, the names whose set was defaulted, the per-set layouts
/// and the pool sizes for `replica_count` frames in flight.
pub struct DescriptorPlan {
    pub table: BindingTable,
    pub defaulted_names: Vec<Vec<u8>>,
    pub set_layouts: Vec<SetLayout>,
    pub pool_sizes: Vec<PoolSize>,
}

/// Derive the whole descriptor plan of a shader: group the declarations
/// into the binding table, resolve each binding's descriptor type into the
/// set layouts, and size the pool per type at `replica_count` replicas.
/// Fails — with the allocator's own errors — rather than guessing a type
/// or a size.
pub fn plan_descriptors(reflection: &ShaderReflection, replica_count: u32) -> (r: Result<
    DescriptorPlan,
    Error,
>)
    requires
        replica_count >= 1,
    ensures
        match r {
            Ok(plan) => {
                &&& plan.table.synthesized_from(
                    *reflection,
                    crate::layout::spec_all_refs(*reflection),
                )
                &&& plan.defaulted_names@.map(|i: int, n: Vec<u8>| n@)
                    =~= crate::layout::spec_defaulted_names(
                    *reflection,
                    crate::layout::spec_all_refs(*reflection),
                )
                &&& plan.set_layouts@.len() == plan.table.sets@.len()
                &&& forall|p: int| 0 <= p < plan.table.sets@.len()
                    ==> (#[trigger] plan.set_layouts@[p]).set_index
                        == plan.table.sets@[p].set_index
                &&& forall|p: int| 0 <= p < plan.table.sets@.len()
                    ==> (#[trigger] plan.set_layouts@[p]).kinds@ =~= spec_set_kinds(
                        *reflection,
                        plan.table.sets@[p].declarations@,
                    )
                &&& plan.pool_sizes@ =~= spec_pool_sizes(plan.set_layouts@, replica_count)
            },
            Err(e) => e is Layout && spec_plan_error(*reflection, replica_count, e),
        },
{
    let (table, defaulted_names) = crate::layout::synthesize_binding_table(reflection);
    proof {
        lemma_synthesized_table_valid(*reflection, table);
    }
    let set_layouts = match build_set_layouts(reflection, &table) {
        Ok(layouts) => layouts,
        Err(e) => {
            proof {
                assert(spec_plan_error(*reflection, replica_count, e)) by {
                    assert(table.synthesized_from(
                        *reflection,
                        crate::layout::spec_all_refs(*reflection),
                    ));
                }
            }
            return Err(e);
        },
    };
    let pool_sizes = match descriptor_pool_sizes(&set_layouts, replica_count) {
        Ok(sizes) => sizes,
        Err(e) => {
            proof {
                assert(spec_plan_error(*reflection, replica_count, e)) by {
                    assert(table.synthesized_from(
                        *reflection,
                        crate::layout::spec_all_refs(*reflection),
                    ));
                    assert(spec_layouts_for_table(*reflection, table, set_layouts@));
                }
            }
            return Err(e);
        },
    };
    Ok(DescriptorPlan { table, defaulted_names, set_layouts, pool_sizes })
}

} // verus!
