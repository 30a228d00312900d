//! Layout synthesis and descriptor-pool sizing.
//!
//! All declarations of a shader — image/sampler variables and blocks — are
//! grouped by their resolved set index into a binding table, preserving
//! first-seen order within a set and across sets.  The table is derived: it
//! references the reflection's declarations by index rather than storing
//! copies.  A declaration whose set was defaulted to 0 is reported as a
//! diagnostic, never silently resolved to anything else.
//!
//! The descriptor pool is then sized by counting bindings per descriptor
//! type and multiplying by the replica count; a binding that resolves to no
//! supported descriptor type fails the allocator instead of being guessed.

use vstd::prelude::*;
use vstd::seq_lib::*;

use crate::reflect::ShaderReflection;
use crate::reflect::spec_checked_set;

verus! {

/// A reference to one declaration of a [`ShaderReflection`]: the table
/// points into the reflection instead of owning copies.
#[derive(Debug, Clone, Copy, PartialEq, Eq, Structural)]
pub enum BindingRef {
    /// `reflection.variable_declarations[index]`.
    Image { index: usize },
    /// `reflection.block_declarations[index]`.
    Block { index: usize },
}

/// Whether `r` indexes an existing declaration of `reflection`.
pub open spec fn spec_ref_valid(reflection: ShaderReflection, r: BindingRef) -> bool {
    match r {
        BindingRef::Image { index } => index < reflection.variable_declarations@.len(),
        BindingRef::Block { index } => index < reflection.block_declarations@.len(),
    }
}

/// The set the referenced declaration resolves to (explicit, or 0 by
/// default).
pub open spec fn spec_ref_set(reflection: ShaderReflection, r: BindingRef) -> usize {
    match r {
        BindingRef::Image { index } => spec_checked_set(
            reflection.variable_declarations@[index as int].set,
        ),
        BindingRef::Block { index } => spec_checked_set(
            reflection.block_declarations@[index as int].set,
        ),
    }
}

/// Whether the referenced declaration's set was defaulted (omitted in the
/// shader).
pub open spec fn spec_ref_defaulted(reflection: ShaderReflection, r: BindingRef) -> bool {
    match r {
        BindingRef::Image { index } => reflection.variable_declarations@[index as int].set is None,
        BindingRef::Block { index } => reflection.block_declarations@[index as int].set is None,
    }
}

/// The referenced declaration's name.
pub open spec fn spec_ref_name(reflection: ShaderReflection, r: BindingRef) -> Seq<u8> {
    match r {
        BindingRef::Image { index } => reflection.variable_declarations@[index as int].name@,
        BindingRef::Block { index } => reflection.block_declarations@[index as int].name@,
    }
}

/// All declarations of the shader, image/sampler variables first, then
/// blocks, each in source order.
pub open spec fn spec_all_refs(reflection: ShaderReflection) -> Seq<BindingRef> {
    Seq::new(
        reflection.variable_declarations@.len(),
        |i: int| BindingRef::Image { index: i as usize },
    ) + Seq::new(
        reflection.block_declarations@.len(),
        |i: int| BindingRef::Block { index: i as usize },
    )
}

/// The declarations assigned to set `k`, in first-seen order.
pub open spec fn spec_decls_for_set(
    reflection: ShaderReflection,
    refs: Seq<BindingRef>,
    k: usize,
) -> Seq<BindingRef> {
    refs.filter(|r: BindingRef| spec_ref_set(reflection, r) == k)
}

/// The distinct set indices in order of first occurrence.
pub open spec fn spec_set_order(reflection: ShaderReflection, refs: Seq<BindingRef>) -> Seq<usize>
    decreases refs.len(),
{
    if refs.len() == 0 {
        Seq::empty()
    } else {
        let prefix = spec_set_order(reflection, refs.drop_last());
        let k = spec_ref_set(reflection, refs.last());
        if prefix.contains(k) {
            prefix
        } else {
            prefix.push(k)
        }
    }
}

/// The names of the declarations whose set was defaulted, in order.
pub open spec fn spec_defaulted_names(
    reflection: ShaderReflection,
    refs: Seq<BindingRef>,
) -> Seq<Seq<u8>>
    decreases refs.len(),
{
    if refs.len() == 0 {
        Seq::empty()
    } else {
        let prefix = spec_defaulted_names(reflection, refs.drop_last());
        if spec_ref_defaulted(reflection, refs.last()) {
            prefix.push(spec_ref_name(reflection, refs.last()))
        } else {
            prefix
        }
    }
}

/// One entry of the binding table: a set index and the declarations
/// assigned to it.
#[derive(Debug, Clone, PartialEq, Eq)]
pub struct BindingSet {
    pub set_index: usize,
    pub declarations: Vec<BindingRef>,
}

/// The synthesized binding table: one entry per distinct set index, in
/// first-seen order.
#[derive(Debug, Clone, PartialEq, Eq)]
pub struct BindingTable {
    pub sets: Vec<BindingSet>,
}

impl BindingTable {
    /// The table groups exactly the declarations of `refs` by resolved set.
    pub open spec fn synthesized_from(&self, reflection: ShaderReflection, refs: Seq<BindingRef>) -> bool {
        &&& self.sets@.map(|i: int, s: BindingSet| s.set_index) =~= spec_set_order(reflection, refs)
        &&& forall|p: int| 0 <= p < self.sets@.len()
            ==> (#[trigger] self.sets@[p]).declarations@ =~= spec_decls_for_set(
                reflection,
                refs,
                self.sets@[p].set_index,
            )
    }
}

/// Every declaration lands in exactly one entry of the binding table: the
/// one for its own resolved set, whose list contains it; no other set's
/// list does.
pub proof fn lemma_each_declaration_in_exactly_one_set(
    reflection: ShaderReflection,
    refs: Seq<BindingRef>,
    i: int,
)
    requires
        0 <= i < refs.len(),
    ensures
        spec_set_order(reflection, refs).contains(spec_ref_set(reflection, refs[i])),
        spec_decls_for_set(reflection, refs, spec_ref_set(reflection, refs[i])).contains(refs[i]),
        forall|k: usize| k != spec_ref_set(reflection, refs[i])
            ==> !spec_decls_for_set(reflection, refs, k).contains(refs[i]),
    decreases refs.len(),
{
    let k = spec_ref_set(reflection, refs[i]);
    lemma_set_order_complete(reflection, refs, i);
    refs.lemma_filter_contains(|r: BindingRef| spec_ref_set(reflection, r) == k, i);
    assert forall|k2: usize| k2 != k implies !spec_decls_for_set(reflection, refs, k2).contains(
        refs[i],
    ) by {
        let pred = |r: BindingRef| spec_ref_set(reflection, r) == k2;
        if spec_decls_for_set(reflection, refs, k2).contains(refs[i]) {
            let filtered = refs.filter(pred);
            let j = choose|j: int| 0 <= j < filtered.len() && filtered[j] == refs[i];
            refs.lemma_filter_pred(pred, j);
        }
    }
}

/// A set index occurring among the declarations occurs in the set order.
proof fn lemma_set_order_complete(reflection: ShaderReflection, refs: Seq<BindingRef>, i: int)
    requires
        0 <= i < refs.len(),
    ensures
        spec_set_order(reflection, refs).contains(spec_ref_set(reflection, refs[i])),
    decreases refs.len(),
{
    if i == refs.len() - 1 {
        if !spec_set_order(reflection, refs.drop_last()).contains(
            spec_ref_set(reflection, refs.last()),
        ) {
            assert(spec_set_order(reflection, refs).last() == spec_ref_set(reflection, refs[i]));
        }
    } else {
        lemma_set_order_complete(reflection, refs.drop_last(), i);
        lemma_set_order_prefix_closed(reflection, refs);
    }
}

/// The set order of a sequence contains everything the set order of its
/// prefix contains.
proof fn lemma_set_order_prefix_closed(reflection: ShaderReflection, refs: Seq<BindingRef>)
    requires
        refs.len() > 0,
    ensures
        forall|k: usize| spec_set_order(reflection, refs.drop_last()).contains(k)
            ==> spec_set_order(reflection, refs).contains(k),
{
    let prefix = spec_set_order(reflection, refs.drop_last());
    assert forall|k: usize| prefix.contains(k) implies spec_set_order(reflection, refs).contains(
        k,
    ) by {
        let j = choose|j: int| 0 <= j < prefix.len() && prefix[j] == k;
        if !prefix.contains(spec_ref_set(reflection, refs.last())) {
            assert(spec_set_order(reflection, refs)[j] == k);
        }
    }
}

/// The distinct set indices of the order really are distinct.
pub proof fn lemma_set_order_distinct(reflection: ShaderReflection, refs: Seq<BindingRef>)
    ensures
        forall|p: int, q: int| 0 <= p < q < spec_set_order(reflection, refs).len()
            ==> spec_set_order(reflection, refs)[p] != spec_set_order(reflection, refs)[q],
    decreases refs.len(),
{
    if refs.len() > 0 {
        lemma_set_order_distinct(reflection, refs.drop_last());
        let prefix = spec_set_order(reflection, refs.drop_last());
        let k = spec_ref_set(reflection, refs.last());
        if !prefix.contains(k) {
            assert forall|p: int, q: int| 0 <= p < q < prefix.push(k).len() implies prefix.push(
                k,
            )[p] != prefix.push(k)[q] by {
                if q == prefix.len() {
                    assert(prefix[p] == prefix.push(k)[p]);
                    assert(prefix.contains(prefix[p]));
                }
            }
        }
    }
}

/// The list of all declarations of `reflection`: image/sampler variables
/// first, then blocks, each in source order.
pub fn all_binding_refs(reflection: &ShaderReflection) -> (refs: Vec<BindingRef>)
    ensures
        refs@ =~= spec_all_refs(*reflection),
        forall|i: int| 0 <= i < refs@.len() ==> spec_ref_valid(*reflection, #[trigger] refs@[i]),
{
    let mut refs: Vec<BindingRef> = Vec::new();
    let mut i: usize = 0;
    while i < reflection.variable_declarations.len()
        invariant
            i <= reflection.variable_declarations@.len(),
            refs@.len() == i,
            forall|j: int| 0 <= j < i ==> #[trigger] refs@[j] == (BindingRef::Image {
                index: j as usize,
            }),
        decreases reflection.variable_declarations@.len() - i,
    {
        refs.push(BindingRef::Image { index: i });
        i += 1;
    }
    let mut b: usize = 0;
    while b < reflection.block_declarations.len()
        invariant
            b <= reflection.block_declarations@.len(),
            refs@.len() == reflection.variable_declarations@.len() + b,
            forall|j: int| 0 <= j < reflection.variable_declarations@.len()
                ==> #[trigger] refs@[j] == (BindingRef::Image { index: j as usize }),
            forall|j: int| 0 <= j < b
                ==> #[trigger] refs@[reflection.variable_declarations@.len() + j]
                    == (BindingRef::Block { index: j as usize }),
        decreases reflection.block_declarations@.len() - b,
    {
        refs.push(BindingRef::Block { index: b });
        b += 1;
    }
    proof {
        let all = spec_all_refs(*reflection);
        let vlen = reflection.variable_declarations@.len() as int;
        assert(refs@.len() == all.len());
        assert forall|j: int| 0 <= j < refs@.len() implies refs@[j] == all[j] by {
            if j < vlen {
                assert(all[j] == (BindingRef::Image { index: j as usize }));
            } else {
                assert(all[j] == (BindingRef::Block { index: (j - vlen) as usize }));
                assert(refs@[vlen + (j - vlen)] == (BindingRef::Block {
                    index: (j - vlen) as usize,
                }));
            }
        }
        assert(refs@ =~= all);
        assert forall|i2: int| 0 <= i2 < refs@.len() implies spec_ref_valid(
            *reflection,
            #[trigger] refs@[i2],
        ) by {
            if i2 < vlen {
            } else {
            }
        }
    }
    refs
}

/// The resolved set of the referenced declaration.
pub fn binding_ref_set(reflection: &ShaderReflection, r: BindingRef) -> (set: usize)
    requires
        spec_ref_valid(*reflection, r),
    ensures
        set == spec_ref_set(*reflection, r),
{
    match r {
        BindingRef::Image { index } => reflection.variable_declarations[index].checked_set(),
        BindingRef::Block { index } => reflection.block_declarations[index].checked_set(),
    }
}

/// Group all declarations of the shader by resolved set index, preserving
/// first-seen order within and across sets, and report the names of the
/// declarations whose set was defaulted to 0 (the ambiguity is carried
/// forward as a diagnostic, never silently resolved).
pub fn synthesize_binding_table(reflection: &ShaderReflection) -> (r: (BindingTable, Vec<Vec<u8>>))
    ensures
        r.0.synthesized_from(*reflection, spec_all_refs(*reflection)),
        r.1@.map(|i: int, n: Vec<u8>| n@) =~= spec_defaulted_names(
            *reflection,
            spec_all_refs(*reflection),
        ),
{
    let refs = all_binding_refs(reflection);
    let ghost all = refs@;
    let mut sets: Vec<BindingSet> = Vec::new();
    let mut diagnostics: Vec<Vec<u8>> = Vec::new();
    let mut i: usize = 0;
    proof {
        assert(all.take(0) =~= Seq::<BindingRef>::empty());
        reveal(Seq::filter);
    }
    while i < refs.len()
        invariant
            i <= all.len(),
            refs@ == all,
            forall|j: int| 0 <= j < all.len() ==> spec_ref_valid(*reflection, #[trigger] all[j]),
            sets@.map(|p: int, s: BindingSet| s.set_index) =~= spec_set_order(
                *reflection,
                all.take(i as int),
            ),
            forall|p: int| 0 <= p < sets@.len()
                ==> (#[trigger] sets@[p]).declarations@ =~= spec_decls_for_set(
                    *reflection,
                    all.take(i as int),
                    sets@[p].set_index,
                ),
            diagnostics@.map(|p: int, n: Vec<u8>| n@) =~= spec_defaulted_names(
                *reflection,
                all.take(i as int),
            ),
        decreases all.len() - i,
    {
        let r = refs[i];
        let k = binding_ref_set(reflection, r);
        proof {
            assert(all.take(i + 1).drop_last() =~= all.take(i as int));
            assert(all.take(i + 1).last() == all[i as int]);
            reveal(Seq::filter);
        }
        let ghost old_sets = sets@;
        let ghost old_order = spec_set_order(*reflection, all.take(i as int));
        proof {
            lemma_set_order_distinct(*reflection, all.take(i as int));
        }
        let mut pos: Option<usize> = None;
        let mut p: usize = 0;
        while p < sets.len()
            invariant
                p <= sets@.len(),
                sets@ == old_sets,
                match pos {
                    None => forall|q: int| 0 <= q < p ==> (#[trigger] old_sets[q]).set_index != k,
                    Some(pp) => pp < p && p <= old_sets.len()
                        && old_sets[pp as int].set_index == k,
                },
            decreases sets@.len() - p,
        {
            if sets[p].set_index == k && pos.is_none() {
                pos = Some(p);
            }
            p += 1;
        }
        match pos {
            Some(p_found) => {
                proof {
                    assert(old_sets.map(|q: int, s: BindingSet| s.set_index)[p_found as int]
                        == k);
                    assert(old_order[p_found as int] == k);
                    assert(old_order.contains(k));
                }
                sets[p_found].declarations.push(r);
                proof {
                    assert(spec_set_order(*reflection, all.take(i + 1)) =~= old_order);
                    assert(sets@.map(|q: int, s: BindingSet| s.set_index) =~= old_order);
                    assert forall|q: int| 0 <= q < sets@.len() implies (#[trigger] sets@[q])
                        .declarations@ =~= spec_decls_for_set(
                        *reflection,
                        all.take(i + 1),
                        sets@[q].set_index,
                    ) by {
                        reveal(Seq::filter);
                        assert(all.take(i + 1).drop_last() =~= all.take(i as int));
                        if q == p_found {
                            assert(sets@[q].declarations@ =~= old_sets[q].declarations@.push(r));
                        } else {
                            assert(sets@[q] == old_sets[q]);
                            // set indices are distinct, so this set is not r's set
                            assert(old_order[q] == old_sets[q].set_index);
                            assert(old_order[p_found as int] == k);
                            assert(old_sets[q].set_index != k);
                        }
                    }
                }
            },
            None => {
                proof {
                    assert(!old_order.contains(k)) by {
                        if old_order.contains(k) {
                            let q = choose|q: int|
                                0 <= q < old_order.len() && old_order[q] == k;
                            assert(old_sets.map(|q2: int, s: BindingSet| s.set_index)[q] == k);
                            assert(old_sets[q].set_index == k);
                        }
                    }
                }
                let mut declarations: Vec<BindingRef> = Vec::new();
                declarations.push(r);
                sets.push(BindingSet { set_index: k, declarations });
                proof {
                    assert(spec_set_order(*reflection, all.take(i + 1)) =~= old_order.push(k));
                    assert(sets@.map(|q: int, s: BindingSet| s.set_index) =~= old_order.push(k));
                    assert forall|q: int| 0 <= q < sets@.len() implies (#[trigger] sets@[q])
                        .declarations@ =~= spec_decls_for_set(
                        *reflection,
                        all.take(i + 1),
                        sets@[q].set_index,
                    ) by {
                        reveal(Seq::filter);
                        assert(all.take(i + 1).drop_last() =~= all.take(i as int));
                        if q == sets@.len() - 1 {
                            lemma_filter_membership(*reflection, all.take(i as int), k, old_order);
                            assert(spec_decls_for_set(*reflection, all.take(i as int), k).len()
                                == 0);
                            assert(sets@[q].declarations@ =~= Seq::<BindingRef>::empty().push(r));
                        } else {
                            assert(sets@[q] == old_sets[q]);
                            assert(old_order[q] == old_sets[q].set_index);
                            assert(old_sets[q].set_index != k);
                        }
                    }
                }
            },
        }
        let defaulted = match r {
            BindingRef::Image { index } => reflection.variable_declarations[index].set.is_none(),
            BindingRef::Block { index } => reflection.block_declarations[index].set.is_none(),
        };
        if defaulted {
            let name = match r {
                BindingRef::Image { index } => reflection.variable_declarations[index].name.clone(),
                BindingRef::Block { index } => reflection.block_declarations[index].name.clone(),
            };
            diagnostics.push(name);
        }
        proof {
            assert(diagnostics@.map(|p2: int, n: Vec<u8>| n@) =~= spec_defaulted_names(
                *reflection,
                all.take(i + 1),
            ));
        }
        i += 1;
    }
    proof {
        assert(all.take(all.len() as int) =~= all);
    }
    (BindingTable { sets }, diagnostics)
}

/// Anything the filter for set `k` holds has set `k`; used to show a set
/// absent from the order filters to nothing.
proof fn lemma_filter_membership(
    reflection: ShaderReflection,
    refs: Seq<BindingRef>,
    k: usize,
    order: Seq<usize>,
)
    requires
        order =~= spec_set_order(reflection, refs),
        !order.contains(k),
    ensures
        spec_decls_for_set(reflection, refs, k).len() == 0,
    decreases refs.len(),
{
    reveal(Seq::filter);
    if refs.len() > 0 {
        let prefix_order = spec_set_order(reflection, refs.drop_last());
        assert forall|k2: usize| prefix_order.contains(k2) implies order.contains(k2) by {
            lemma_set_order_prefix_closed(reflection, refs);
        }
        lemma_filter_membership(reflection, refs.drop_last(), k, prefix_order);
        let last_set = spec_ref_set(reflection, refs.last());
        if last_set == k {
            if prefix_order.contains(k) {
                assert(order.contains(k));
            } else {
                assert(order =~= prefix_order.push(k));
                assert(order.last() == k);
                assert(order.contains(k));
            }
        }
    }
}

} // verus!
