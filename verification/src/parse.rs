//! The reflector: a recursive-descent walk over the declaration grammar
//! subset.
//!
//! Only top-level declarations matter: a global `in`-qualified declaration
//! carries the workgroup shape, a single-variable `uniform` declaration an
//! image/sampler binding, a block declaration a uniform / storage-buffer /
//! push-constant block.  Function definitions, prototypes, `precision`
//! statements, preprocessor lines and `const` variables are skipped.
//! Anything else — an unknown layout identifier, an unexpected qualifier,
//! an array specifier or initializer on a binding — is a hard error: the
//! reflector never ignores content it does not understand, since that
//! would silently mis-bind GPU memory.
//!
//! The whole reflection is specified byte for byte: [`spec_reflect`] is
//! the mathematical reflector over the source bytes, and
//! [`analyze_shader`] returns exactly its value — success is owed
//! precisely on sources within the grammar subset.

use vstd::prelude::*;
use vstd::string::*;

use crate::error::Error;
use crate::error::ParseError;
use crate::lex::SpecTok;
use crate::lex::spec_tokens_view;
use crate::lex::Token;
use crate::reflect::BlockDeclaration;
use crate::reflect::BlockField;
use crate::reflect::BlockStorage;
use crate::reflect::ShaderReflection;
use crate::reflect::TypeTag;
use crate::reflect::VariableDeclaration;
use crate::reflect::WorkgroupShape;

verus! {

/// A storage qualifier word, as far as this grammar subset tells them
/// apart.
#[derive(Debug, Clone, Copy, PartialEq, Eq, Structural)]
pub enum StorageWord {
    In,
    Uniform,
    Buffer,
    Const,
    /// Any other qualifier word (`out`, `shared`, precision words, ...):
    /// recognized as a qualifier, supported nowhere.
    Other,
}

/// One identifier of a `layout(...)` qualifier, with its optional integer
/// value.
#[derive(Debug, Clone, PartialEq, Eq)]
pub struct LayoutId {
    pub name: Vec<u8>,
    pub value: Option<u32>,
}

/// One type qualifier: a storage word or a `layout(...)` list.
#[derive(Debug, Clone, PartialEq, Eq)]
pub enum Qualifier {
    Storage(StorageWord),
    LayoutQ(Vec<LayoutId>),
}

// ---------------------------------------------------------------------------
// Workgroup-shape globals: `layout(local_size_x = 64, ...) in;`
// ---------------------------------------------------------------------------

/// Apply one layout identifier to the shape: only `local_size_x/y/z` with a
/// positive value is meaningful; anything else poisons the result.
pub open spec fn spec_shape_apply_id(
    shape: Option<WorkgroupShape>,
    id: LayoutId,
) -> Option<WorkgroupShape> {
    match shape {
        None => None,
        Some(s) => if id.name@ == "local_size_x".spec_bytes() {
            match id.value {
                Some(v) => if v >= 1 {
                    Some(WorkgroupShape { x: v, y: s.y, z: s.z })
                } else {
                    None
                },
                None => None,
            }
        } else if id.name@ == "local_size_y".spec_bytes() {
            match id.value {
                Some(v) => if v >= 1 {
                    Some(WorkgroupShape { x: s.x, y: v, z: s.z })
                } else {
                    None
                },
                None => None,
            }
        } else if id.name@ == "local_size_z".spec_bytes() {
            match id.value {
                Some(v) => if v >= 1 {
                    Some(WorkgroupShape { x: s.x, y: s.y, z: v })
                } else {
                    None
                },
                None => None,
            }
        } else {
            None
        },
    }
}

pub open spec fn spec_shape_apply_ids(
    shape: Option<WorkgroupShape>,
    ids: Seq<LayoutId>,
) -> Option<WorkgroupShape>
    decreases ids.len(),
{
    if ids.len() == 0 {
        shape
    } else {
        spec_shape_apply_id(spec_shape_apply_ids(shape, ids.drop_last()), ids.last())
    }
}

/// Fold the qualifiers of a global declaration over the default shape:
/// `in` storage is expected, layout lists set the axes, any other storage
/// qualifier poisons the result.
pub open spec fn spec_shape_fold(
    shape: Option<WorkgroupShape>,
    quals: Seq<Qualifier>,
) -> Option<WorkgroupShape>
    decreases quals.len(),
{
    if quals.len() == 0 {
        shape
    } else {
        let prev = spec_shape_fold(shape, quals.drop_last());
        match quals.last() {
            Qualifier::Storage(StorageWord::In) => prev,
            Qualifier::Storage(_) => None,
            Qualifier::LayoutQ(ids) => spec_shape_apply_ids(prev, ids@),
        }
    }
}

/// The workgroup shape a global declaration's qualifiers denote, starting
/// from the default (1, 1, 1); `None` when any qualifier is unsupported.
pub open spec fn spec_globals_shape(quals: Seq<Qualifier>) -> Option<WorkgroupShape> {
    spec_shape_fold(Some(WorkgroupShape { x: 1, y: 1, z: 1 }), quals)
}


/// The error one unsupported layout identifier of a global declaration
/// produces: an unknown identifier is named, a known axis without a value
/// is named, and a zero size is rejected as such.
pub open spec fn spec_shape_id_error(id: LayoutId, e: Error) -> bool {
    if id.name@ == "local_size_x".spec_bytes() || id.name@ == "local_size_y".spec_bytes()
        || id.name@ == "local_size_z".spec_bytes() {
        match id.value {
            None => e matches Error::Parse(ParseError::MissingLayoutValue { name })
                && name@ == id.name@,
            Some(v) => v == 0 && e == Error::Parse(ParseError::ZeroWorkgroupSize),
        }
    } else {
        e matches Error::Parse(ParseError::UnknownLayoutIdentifier { name }) && name@ == id.name@
    }
}

/// Whether `e` is the error the first unsupported qualifier produces,
/// with the bad qualifier at position `i`: everything before `i` folds
/// cleanly, and at `i` either an unexpected storage qualifier stands or a
/// layout list whose first bad identifier produces `e`.
pub open spec fn spec_globals_error_at(quals: Seq<Qualifier>, i: int, e: Error) -> bool {
    &&& 0 <= i < quals.len()
    &&& spec_shape_fold(Some(WorkgroupShape { x: 1, y: 1, z: 1 }), quals.take(i)) is Some
    &&& match quals[i] {
        Qualifier::Storage(StorageWord::In) => false,
        Qualifier::Storage(_) => e == Error::Parse(ParseError::UnexpectedGlobalQualifier),
        Qualifier::LayoutQ(ids) => exists|j: int|
            {
                &&& 0 <= j < ids@.len()
                &&& spec_shape_apply_ids(
                    spec_shape_fold(Some(WorkgroupShape { x: 1, y: 1, z: 1 }), quals.take(i)),
                    ids@.take(j),
                ) is Some
                &&& spec_shape_id_error(#[trigger] ids@[j], e)
            },
    }
}

/// Interpret the qualifiers of a global `in` declaration as the workgroup
/// shape.  The shape starts at (1, 1, 1); `local_size_x/y/z` override one
/// axis each and must carry a positive value; any other layout identifier
/// or storage qualifier is a hard error.
pub fn match_globals(qualifiers: &Vec<Qualifier>) -> (r: Result<WorkgroupShape, Error>)
    ensures
        match r {
            Ok(shape) => spec_globals_shape(qualifiers@) == Some(shape) && shape.positive(),
            Err(e) => spec_globals_shape(qualifiers@) is None && e is Parse && exists|i: int|
                spec_globals_error_at(qualifiers@, i, e),
        },
{
    let mut shape = WorkgroupShape { x: 1, y: 1, z: 1 };
    let mut i: usize = 0;
    while i < qualifiers.len()
        invariant
            i <= qualifiers@.len(),
            spec_shape_fold(
                Some(WorkgroupShape { x: 1, y: 1, z: 1 }),
                qualifiers@.take(i as int),
            ) == Some(shape),
            shape.positive(),
        decreases qualifiers@.len() - i,
    {
        proof {
            assert(qualifiers@.take(i + 1).drop_last() =~= qualifiers@.take(i as int));
            assert(qualifiers@.take(i + 1).last() == qualifiers@[i as int]);
        }
        match &qualifiers[i] {
            Qualifier::Storage(StorageWord::In) => {},
            Qualifier::Storage(_) => {
                proof {
                    lemma_shape_fold_poisoned(qualifiers@, i + 1);
                    assert(spec_globals_error_at(
                        qualifiers@,
                        i as int,
                        Error::Parse(ParseError::UnexpectedGlobalQualifier),
                    ));
                }
                return Err(Error::Parse(ParseError::UnexpectedGlobalQualifier));
            },
            Qualifier::LayoutQ(ids) => {
                let ghost shape_entry = shape;
                let mut j: usize = 0;
                while j < ids.len()
                    invariant
                        j <= ids@.len(),
                        i < qualifiers@.len(),
                        qualifiers@[i as int] == Qualifier::LayoutQ(*ids),
                        spec_shape_fold(
                            Some(WorkgroupShape { x: 1, y: 1, z: 1 }),
                            qualifiers@.take(i as int),
                        ) == Some(shape_entry),
                        spec_shape_apply_ids(Some(shape_entry), ids@.take(j as int)) == Some(
                            shape,
                        ),
                        shape.positive(),
                    decreases ids@.len() - j,
                {
                    proof {
                        assert(ids@.take(j + 1).drop_last() =~= ids@.take(j as int));
                        assert(ids@.take(j + 1).last() == ids@[j as int]);
                    }
                    let id = &ids[j];
                    let axis = if crate::text::bytes_eq(
                        id.name.as_slice(),
                        "local_size_x".as_bytes(),
                    ) {
                        0u8
                    } else if crate::text::bytes_eq(
                        id.name.as_slice(),
                        "local_size_y".as_bytes(),
                    ) {
                        1u8
                    } else if crate::text::bytes_eq(
                        id.name.as_slice(),
                        "local_size_z".as_bytes(),
                    ) {
                        2u8
                    } else {
                        proof {
                            assert(qualifiers@.take(i + 1).drop_last() =~= qualifiers@.take(
                                i as int,
                            ));
                            assert(qualifiers@.take(i + 1).last() == qualifiers@[i as int]);
                            assert(spec_shape_apply_ids(Some(shape_entry), ids@.take(j + 1))
                                is None);
                            lemma_shape_ids_poisoned_from(ids@, j + 1, Some(shape_entry));
                            lemma_shape_fold_poisoned(qualifiers@, i + 1);
                        }
                        let e = Error::Parse(ParseError::UnknownLayoutIdentifier {
                            name: id.name.clone(),
                        });
                        proof {
                            assert(spec_shape_id_error(ids@[j as int], e));
                            assert(spec_globals_error_at(qualifiers@, i as int, e));
                        }
                        return Err(e);
                    };
                    let value = match id.value {
                        Some(v) => v,
                        None => {
                            proof {
                                assert(qualifiers@.take(i + 1).drop_last() =~= qualifiers@.take(
                                    i as int,
                                ));
                                assert(qualifiers@.take(i + 1).last() == qualifiers@[i as int]);
                                assert(spec_shape_apply_ids(Some(shape_entry), ids@.take(j + 1))
                                    is None);
                                lemma_shape_ids_poisoned_from(ids@, j + 1, Some(shape_entry));
                                lemma_shape_fold_poisoned(qualifiers@, i + 1);
                            }
                            let e = Error::Parse(ParseError::MissingLayoutValue {
                                name: id.name.clone(),
                            });
                            proof {
                                assert(spec_shape_id_error(ids@[j as int], e));
                                assert(spec_globals_error_at(qualifiers@, i as int, e));
                            }
                            return Err(e);
                        },
                    };
                    if value == 0 {
                        proof {
                            assert(qualifiers@.take(i + 1).drop_last() =~= qualifiers@.take(
                                i as int,
                            ));
                            assert(qualifiers@.take(i + 1).last() == qualifiers@[i as int]);
                            assert(spec_shape_apply_ids(Some(shape_entry), ids@.take(j + 1))
                                is None);
                            lemma_shape_ids_poisoned_from(ids@, j + 1, Some(shape_entry));
                            lemma_shape_fold_poisoned(qualifiers@, i + 1);
                        }
                        let e = Error::Parse(ParseError::ZeroWorkgroupSize);
                        proof {
                            assert(spec_shape_id_error(ids@[j as int], e));
                            assert(spec_globals_error_at(qualifiers@, i as int, e));
                        }
                        return Err(e);
                    }
                    if axis == 0 {
                        shape = WorkgroupShape { x: value, y: shape.y, z: shape.z };
                    } else if axis == 1 {
                        shape = WorkgroupShape { x: shape.x, y: value, z: shape.z };
                    } else {
                        shape = WorkgroupShape { x: shape.x, y: shape.y, z: value };
                    }
                    j += 1;
                }
                proof {
                    assert(ids@.take(ids@.len() as int) =~= ids@);
                }
            },
        }
        i += 1;
    }
    proof {
        assert(qualifiers@.take(qualifiers@.len() as int) =~= qualifiers@);
    }
    Ok(shape)
}

proof fn lemma_shape_ids_poisoned_from(ids: Seq<LayoutId>, j: int, s: Option<WorkgroupShape>)
    requires
        0 <= j <= ids.len(),
        spec_shape_apply_ids(s, ids.take(j)) is None,
    ensures
        spec_shape_apply_ids(s, ids) is None,
    decreases ids.len() - j,
{
    if j == ids.len() {
        assert(ids.take(j) =~= ids);
    } else {
        assert(ids.take(j + 1).drop_last() =~= ids.take(j));
        lemma_shape_ids_poisoned_from(ids, j + 1, s);
    }
}

/// Once the qualifier fold is poisoned at `i`, it stays poisoned.
proof fn lemma_shape_fold_poisoned(quals: Seq<Qualifier>, i: int)
    requires
        0 <= i <= quals.len(),
        spec_shape_fold(Some(WorkgroupShape { x: 1, y: 1, z: 1 }), quals.take(i)) is None,
    ensures
        spec_globals_shape(quals) is None,
    decreases quals.len() - i,
{
    if i == quals.len() {
        assert(quals.take(i) =~= quals);
    } else {
        assert(quals.take(i + 1).drop_last() =~= quals.take(i));
        let prev = spec_shape_fold(Some(WorkgroupShape { x: 1, y: 1, z: 1 }), quals.take(i));
        match quals.take(i + 1).last() {
            Qualifier::Storage(StorageWord::In) => {},
            Qualifier::Storage(_) => {},
            Qualifier::LayoutQ(ids) => {
                lemma_shape_ids_poisoned_from(ids@, 0, prev);
                assert(ids@.take(0) =~= Seq::<LayoutId>::empty());
            },
        }
        lemma_shape_fold_poisoned(quals, i + 1);
    }
}

// ---------------------------------------------------------------------------
// Single-variable declarations: `layout(set = 1, binding = 0) uniform ...`
// ---------------------------------------------------------------------------

/// The attributes a single-variable declaration's qualifiers carry.
#[derive(Debug, Clone, Copy, PartialEq, Eq, Structural)]
pub struct VariableQualifiers {
    pub binding: Option<u32>,
    pub set: Option<usize>,
    /// Whether the bare `rgba32f` storage-format qualifier appeared.
    pub rgba32f: bool,
}

pub open spec fn spec_default_variable_qualifiers() -> VariableQualifiers {
    VariableQualifiers { binding: None, set: None, rgba32f: false }
}

/// Apply one layout identifier of a variable declaration: `binding` and
/// `set` take an integer, `rgba32f` stands bare; anything else poisons the
/// result.
pub open spec fn spec_apply_variable_id(
    acc: Option<VariableQualifiers>,
    id: LayoutId,
) -> Option<VariableQualifiers> {
    match acc {
        None => None,
        Some(a) => if id.name@ == "binding".spec_bytes() {
            match id.value {
                Some(v) => Some(VariableQualifiers { binding: Some(v), ..a }),
                None => None,
            }
        } else if id.name@ == "set".spec_bytes() {
            match id.value {
                Some(v) => Some(VariableQualifiers { set: Some(v as usize), ..a }),
                None => None,
            }
        } else if id.name@ == "rgba32f".spec_bytes() {
            match id.value {
                Some(_) => None,
                None => Some(VariableQualifiers { rgba32f: true, ..a }),
            }
        } else {
            None
        },
    }
}

pub open spec fn spec_apply_variable_ids(
    acc: Option<VariableQualifiers>,
    ids: Seq<LayoutId>,
) -> Option<VariableQualifiers>
    decreases ids.len(),
{
    if ids.len() == 0 {
        acc
    } else {
        spec_apply_variable_id(spec_apply_variable_ids(acc, ids.drop_last()), ids.last())
    }
}

/// Fold a variable declaration's qualifiers from the front: the first
/// `const` makes the declaration a skipped constant (`Some(None)`),
/// `uniform` is expected, layout lists accumulate attributes, and any
/// other storage qualifier poisons the result (`None`).
pub open spec fn spec_variable_fold(
    quals: Seq<Qualifier>,
    acc: VariableQualifiers,
) -> Option<Option<VariableQualifiers>>
    decreases quals.len(),
{
    if quals.len() == 0 {
        Some(Some(acc))
    } else {
        match quals[0] {
            Qualifier::Storage(StorageWord::Const) => Some(None),
            Qualifier::Storage(StorageWord::Uniform) => spec_variable_fold(
                quals.drop_first(),
                acc,
            ),
            Qualifier::Storage(_) => None,
            Qualifier::LayoutQ(ids) => match spec_apply_variable_ids(Some(acc), ids@) {
                None => None,
                Some(a) => spec_variable_fold(quals.drop_first(), a),
            },
        }
    }
}

proof fn lemma_variable_ids_poisoned_from(
    ids: Seq<LayoutId>,
    j: int,
    acc: Option<VariableQualifiers>,
)
    requires
        0 <= j <= ids.len(),
        spec_apply_variable_ids(acc, ids.take(j)) is None,
    ensures
        spec_apply_variable_ids(acc, ids) is None,
    decreases ids.len() - j,
{
    if j == ids.len() {
        assert(ids.take(j) =~= ids);
    } else {
        assert(ids.take(j + 1).drop_last() =~= ids.take(j));
        lemma_variable_ids_poisoned_from(ids, j + 1, acc);
    }
}


/// The interpreter state after the first `i` qualifiers of a variable
/// declaration: `Some(Some(acc))` still folding, `Some(None)` stopped at a
/// `const`, `None` failed.
pub open spec fn spec_variable_state(quals: Seq<Qualifier>, i: int) -> Option<
    Option<VariableQualifiers>,
>
    decreases i,
{
    if i <= 0 {
        Some(Some(spec_default_variable_qualifiers()))
    } else {
        match spec_variable_state(quals, i - 1) {
            Some(Some(a)) => match quals[i - 1] {
                Qualifier::Storage(StorageWord::Const) => Some(None),
                Qualifier::Storage(StorageWord::Uniform) => Some(Some(a)),
                Qualifier::Storage(_) => None,
                Qualifier::LayoutQ(ids) => match spec_apply_variable_ids(Some(a), ids@) {
                    None => None,
                    Some(a2) => Some(Some(a2)),
                },
            },
            other => other,
        }
    }
}

/// The error one unsupported layout identifier of a variable declaration
/// produces.
pub open spec fn spec_variable_id_error(id: LayoutId, e: Error) -> bool {
    if id.name@ == "binding".spec_bytes() || id.name@ == "set".spec_bytes() {
        id.value is None && (e matches Error::Parse(ParseError::MissingLayoutValue { name })
            && name@ == id.name@)
    } else if id.name@ == "rgba32f".spec_bytes() {
        id.value is Some && (e matches Error::Parse(ParseError::UnexpectedLayoutValue { name })
            && name@ == id.name@)
    } else {
        e matches Error::Parse(ParseError::UnknownLayoutIdentifier { name }) && name@ == id.name@
    }
}

/// Whether `e` is the error the first unsupported qualifier of a variable
/// declaration produces, with the bad qualifier at position `i`.
pub open spec fn spec_variable_error_at(quals: Seq<Qualifier>, i: int, e: Error) -> bool {
    &&& 0 <= i < quals.len()
    &&& spec_variable_state(quals, i) matches Some(Some(a)) && match quals[i] {
        Qualifier::Storage(StorageWord::Const) => false,
        Qualifier::Storage(StorageWord::Uniform) => false,
        Qualifier::Storage(_) => e == Error::Parse(ParseError::UnexpectedVariableQualifier),
        Qualifier::LayoutQ(ids) => exists|j: int|
            {
                &&& 0 <= j < ids@.len()
                &&& spec_apply_variable_ids(Some(a), ids@.take(j)) is Some
                &&& spec_variable_id_error(#[trigger] ids@[j], e)
            },
    }
}

/// Interpret the qualifiers of a single-variable declaration.  `const`
/// variables are skipped (`Ok(None)`): they are not shader-visible
/// bindings.  A `uniform` variable yields its attributes; any other
/// storage qualifier, or an unsupported layout identifier, is a hard
/// error.
pub fn match_variable_qualifiers(qualifiers: &Vec<Qualifier>) -> (r: Result<
    Option<VariableQualifiers>,
    Error,
>)
    ensures
        match r {
            Ok(opt) => spec_variable_fold(qualifiers@, spec_default_variable_qualifiers())
                == Some(opt),
            Err(e) => spec_variable_fold(qualifiers@, spec_default_variable_qualifiers())
                is None && e is Parse && exists|i: int| spec_variable_error_at(qualifiers@, i, e),
        },
{
    let mut acc = VariableQualifiers { binding: None, set: None, rgba32f: false };
    let mut i: usize = 0;
    proof {
        assert(qualifiers@.skip(0) =~= qualifiers@);
    }
    while i < qualifiers.len()
        invariant
            i <= qualifiers@.len(),
            spec_variable_fold(qualifiers@, spec_default_variable_qualifiers())
                == spec_variable_fold(qualifiers@.skip(i as int), acc),
            spec_variable_state(qualifiers@, i as int) == Some(Some(acc)),
        decreases qualifiers@.len() - i,
    {
        proof {
            assert(qualifiers@.skip(i as int)[0] == qualifiers@[i as int]);
            assert(qualifiers@.skip(i as int).drop_first() =~= qualifiers@.skip(i + 1));
        }
        match &qualifiers[i] {
            Qualifier::Storage(StorageWord::Const) => {
                return Ok(None);
            },
            Qualifier::Storage(StorageWord::Uniform) => {},
            Qualifier::Storage(_) => {
                let e = Error::Parse(ParseError::UnexpectedVariableQualifier);
                proof {
                    assert(spec_variable_error_at(qualifiers@, i as int, e));
                }
                return Err(e);
            },
            Qualifier::LayoutQ(ids) => {
                let ghost acc_entry = acc;
                let mut j: usize = 0;
                while j < ids.len()
                    invariant
                        j <= ids@.len(),
                        i < qualifiers@.len(),
                        qualifiers@[i as int] == Qualifier::LayoutQ(*ids),
                        spec_variable_fold(qualifiers@, spec_default_variable_qualifiers())
                            == spec_variable_fold(qualifiers@.skip(i as int), acc_entry),
                        spec_variable_state(qualifiers@, i as int) == Some(Some(acc_entry)),
                        spec_apply_variable_ids(Some(acc_entry), ids@.take(j as int)) == Some(
                            acc,
                        ),
                    decreases ids@.len() - j,
                {
                    proof {
                        assert(ids@.take(j + 1).drop_last() =~= ids@.take(j as int));
                        assert(ids@.take(j + 1).last() == ids@[j as int]);
                        assert(qualifiers@.skip(i as int)[0] == qualifiers@[i as int]);
                    }
                    let id = &ids[j];
                    if crate::text::bytes_eq(id.name.as_slice(), "binding".as_bytes()) {
                        match id.value {
                            Some(v) => {
                                acc = VariableQualifiers {
                                    binding: Some(v),
                                    set: acc.set,
                                    rgba32f: acc.rgba32f,
                                };
                            },
                            None => {
                                let e = Error::Parse(ParseError::MissingLayoutValue {
                                    name: id.name.clone(),
                                });
                                proof {
                                    lemma_variable_ids_poisoned_from(
                                        ids@,
                                        j + 1,
                                        Some(acc_entry),
                                    );
                                    assert(spec_variable_id_error(ids@[j as int], e));
                                    assert(spec_variable_error_at(qualifiers@, i as int, e));
                                }
                                return Err(e);
                            },
                        }
                    } else if crate::text::bytes_eq(id.name.as_slice(), "set".as_bytes()) {
                        match id.value {
                            Some(v) => {
                                acc = VariableQualifiers {
                                    binding: acc.binding,
                                    set: Some(v as usize),
                                    rgba32f: acc.rgba32f,
                                };
                            },
                            None => {
                                let e = Error::Parse(ParseError::MissingLayoutValue {
                                    name: id.name.clone(),
                                });
                                proof {
                                    lemma_variable_ids_poisoned_from(
                                        ids@,
                                        j + 1,
                                        Some(acc_entry),
                                    );
                                    assert(spec_variable_id_error(ids@[j as int], e));
                                    assert(spec_variable_error_at(qualifiers@, i as int, e));
                                }
                                return Err(e);
                            },
                        }
                    } else if crate::text::bytes_eq(id.name.as_slice(), "rgba32f".as_bytes()) {
                        match id.value {
                            Some(_) => {
                                let e = Error::Parse(ParseError::UnexpectedLayoutValue {
                                    name: id.name.clone(),
                                });
                                proof {
                                    lemma_variable_ids_poisoned_from(
                                        ids@,
                                        j + 1,
                                        Some(acc_entry),
                                    );
                                    assert(spec_variable_id_error(ids@[j as int], e));
                                    assert(spec_variable_error_at(qualifiers@, i as int, e));
                                }
                                return Err(e);
                            },
                            None => {
                                acc = VariableQualifiers {
                                    binding: acc.binding,
                                    set: acc.set,
                                    rgba32f: true,
                                };
                            },
                        }
                    } else {
                        let e = Error::Parse(ParseError::UnknownLayoutIdentifier {
                            name: id.name.clone(),
                        });
                        proof {
                            lemma_variable_ids_poisoned_from(ids@, j + 1, Some(acc_entry));
                            assert(spec_variable_id_error(ids@[j as int], e));
                            assert(spec_variable_error_at(qualifiers@, i as int, e));
                        }
                        return Err(e);
                    }
                    j += 1;
                }
                proof {
                    assert(ids@.take(ids@.len() as int) =~= ids@);
                }
            },
        }
        i += 1;
    }
    proof {
        assert(qualifiers@.skip(qualifiers@.len() as int).len() == 0);
    }
    Ok(Some(acc))
}


// ---------------------------------------------------------------------------
// Block declarations: `layout(push_constant) uniform Name { ... } inst;`
// ---------------------------------------------------------------------------

/// The attributes a block declaration's qualifiers carry.
#[derive(Debug, Clone, Copy, PartialEq, Eq, Structural)]
pub struct BlockQualifiers {
    pub storage: Option<BlockStorage>,
    pub binding: Option<u32>,
    pub set: Option<usize>,
    pub push_constant: bool,
    pub std140: bool,
}

pub open spec fn spec_default_block_qualifiers() -> BlockQualifiers {
    BlockQualifiers { storage: None, binding: None, set: None, push_constant: false, std140: false }
}

/// Apply one layout identifier of a block declaration: `binding` and `set`
/// take an integer, `push_constant` and `std140` stand bare; anything else
/// poisons the result.
pub open spec fn spec_apply_block_id(
    acc: Option<BlockQualifiers>,
    id: LayoutId,
) -> Option<BlockQualifiers> {
    match acc {
        None => None,
        Some(a) => if id.name@ == "binding".spec_bytes() {
            match id.value {
                Some(v) => Some(BlockQualifiers { binding: Some(v), ..a }),
                None => None,
            }
        } else if id.name@ == "set".spec_bytes() {
            match id.value {
                Some(v) => Some(BlockQualifiers { set: Some(v as usize), ..a }),
                None => None,
            }
        } else if id.name@ == "push_constant".spec_bytes() {
            match id.value {
                Some(_) => None,
                None => Some(BlockQualifiers { push_constant: true, ..a }),
            }
        } else if id.name@ == "std140".spec_bytes() {
            match id.value {
                Some(_) => None,
                None => Some(BlockQualifiers { std140: true, ..a }),
            }
        } else {
            None
        },
    }
}

pub open spec fn spec_apply_block_ids(
    acc: Option<BlockQualifiers>,
    ids: Seq<LayoutId>,
) -> Option<BlockQualifiers>
    decreases ids.len(),
{
    if ids.len() == 0 {
        acc
    } else {
        spec_apply_block_id(spec_apply_block_ids(acc, ids.drop_last()), ids.last())
    }
}

/// Fold a block declaration's qualifiers from the front: `uniform` marks a
/// uniform buffer and `buffer` a storage buffer (the last one wins),
/// layout lists accumulate attributes, and any other storage qualifier
/// poisons the result.
pub open spec fn spec_block_fold(
    quals: Seq<Qualifier>,
    acc: BlockQualifiers,
) -> Option<BlockQualifiers>
    decreases quals.len(),
{
    if quals.len() == 0 {
        Some(acc)
    } else {
        match quals[0] {
            Qualifier::Storage(StorageWord::Uniform) => spec_block_fold(
                quals.drop_first(),
                BlockQualifiers { storage: Some(BlockStorage::UniformBuffer), ..acc },
            ),
            Qualifier::Storage(StorageWord::Buffer) => spec_block_fold(
                quals.drop_first(),
                BlockQualifiers { storage: Some(BlockStorage::StorageBuffer), ..acc },
            ),
            Qualifier::Storage(_) => None,
            Qualifier::LayoutQ(ids) => match spec_apply_block_ids(Some(acc), ids@) {
                None => None,
                Some(a) => spec_block_fold(quals.drop_first(), a),
            },
        }
    }
}

proof fn lemma_block_ids_poisoned_from(ids: Seq<LayoutId>, j: int, acc: Option<BlockQualifiers>)
    requires
        0 <= j <= ids.len(),
        spec_apply_block_ids(acc, ids.take(j)) is None,
    ensures
        spec_apply_block_ids(acc, ids) is None,
    decreases ids.len() - j,
{
    if j == ids.len() {
        assert(ids.take(j) =~= ids);
    } else {
        assert(ids.take(j + 1).drop_last() =~= ids.take(j));
        lemma_block_ids_poisoned_from(ids, j + 1, acc);
    }
}


/// The interpreter state after the first `i` qualifiers of a block
/// declaration: `Some(acc)` still folding, `None` failed.
pub open spec fn spec_block_state(quals: Seq<Qualifier>, i: int) -> Option<BlockQualifiers>
    decreases i,
{
    if i <= 0 {
        Some(spec_default_block_qualifiers())
    } else {
        match spec_block_state(quals, i - 1) {
            Some(a) => match quals[i - 1] {
                Qualifier::Storage(StorageWord::Uniform) => Some(
                    BlockQualifiers { storage: Some(BlockStorage::UniformBuffer), ..a },
                ),
                Qualifier::Storage(StorageWord::Buffer) => Some(
                    BlockQualifiers { storage: Some(BlockStorage::StorageBuffer), ..a },
                ),
                Qualifier::Storage(_) => None,
                Qualifier::LayoutQ(ids) => spec_apply_block_ids(Some(a), ids@),
            },
            None => None,
        }
    }
}

/// The error one unsupported layout identifier of a block declaration
/// produces.
pub open spec fn spec_block_id_error(id: LayoutId, e: Error) -> bool {
    if id.name@ == "binding".spec_bytes() || id.name@ == "set".spec_bytes() {
        id.value is None && (e matches Error::Parse(ParseError::MissingLayoutValue { name })
            && name@ == id.name@)
    } else if id.name@ == "push_constant".spec_bytes() || id.name@ == "std140".spec_bytes() {
        id.value is Some && (e matches Error::Parse(ParseError::UnexpectedLayoutValue { name })
            && name@ == id.name@)
    } else {
        e matches Error::Parse(ParseError::UnknownLayoutIdentifier { name }) && name@ == id.name@
    }
}

/// Whether `e` is the error the first unsupported qualifier of a block
/// declaration produces, with the bad qualifier at position `i`.
pub open spec fn spec_block_error_at(quals: Seq<Qualifier>, i: int, e: Error) -> bool {
    &&& 0 <= i < quals.len()
    &&& spec_block_state(quals, i) matches Some(a) && match quals[i] {
        Qualifier::Storage(StorageWord::Uniform) => false,
        Qualifier::Storage(StorageWord::Buffer) => false,
        Qualifier::Storage(_) => e == Error::Parse(ParseError::UnexpectedBlockQualifier),
        Qualifier::LayoutQ(ids) => exists|j: int|
            {
                &&& 0 <= j < ids@.len()
                &&& spec_apply_block_ids(Some(a), ids@.take(j)) is Some
                &&& spec_block_id_error(#[trigger] ids@[j], e)
            },
    }
}

/// Interpret the qualifiers of a block declaration.  A storage qualifier
/// (`uniform` or `buffer`) is required; layout identifiers set binding,
/// set, push-constant and packing; anything else is a hard error.
pub fn match_block_qualifiers(qualifiers: &Vec<Qualifier>) -> (r: Result<BlockQualifiers, Error>)
    ensures
        match r {
            Ok(bq) => spec_block_fold(qualifiers@, spec_default_block_qualifiers()) == Some(bq)
                && bq.storage is Some,
            Err(e) => e is Parse && match spec_block_fold(
                qualifiers@,
                spec_default_block_qualifiers(),
            ) {
                None => exists|i: int| spec_block_error_at(qualifiers@, i, e),
                Some(b) => b.storage is None && e == Error::Parse(
                    ParseError::MissingStorageQualifier,
                ),
            },
        },
{
    let mut acc = BlockQualifiers {
        storage: None,
        binding: None,
        set: None,
        push_constant: false,
        std140: false,
    };
    let mut i: usize = 0;
    proof {
        assert(qualifiers@.skip(0) =~= qualifiers@);
    }
    while i < qualifiers.len()
        invariant
            i <= qualifiers@.len(),
            spec_block_fold(qualifiers@, spec_default_block_qualifiers()) == spec_block_fold(
                qualifiers@.skip(i as int),
                acc,
            ),
            spec_block_state(qualifiers@, i as int) == Some(acc),
        decreases qualifiers@.len() - i,
    {
        proof {
            assert(qualifiers@.skip(i as int)[0] == qualifiers@[i as int]);
            assert(qualifiers@.skip(i as int).drop_first() =~= qualifiers@.skip(i + 1));
        }
        match &qualifiers[i] {
            Qualifier::Storage(StorageWord::Uniform) => {
                acc = BlockQualifiers {
                    storage: Some(BlockStorage::UniformBuffer),
                    binding: acc.binding,
                    set: acc.set,
                    push_constant: acc.push_constant,
                    std140: acc.std140,
                };
            },
            Qualifier::Storage(StorageWord::Buffer) => {
                acc = BlockQualifiers {
                    storage: Some(BlockStorage::StorageBuffer),
                    binding: acc.binding,
                    set: acc.set,
                    push_constant: acc.push_constant,
                    std140: acc.std140,
                };
            },
            Qualifier::Storage(_) => {
                let e = Error::Parse(ParseError::UnexpectedBlockQualifier);
                proof {
                    assert(spec_block_error_at(qualifiers@, i as int, e));
                }
                return Err(e);
            },
            Qualifier::LayoutQ(ids) => {
                let ghost acc_entry = acc;
                let mut j: usize = 0;
                while j < ids.len()
                    invariant
                        j <= ids@.len(),
                        i < qualifiers@.len(),
                        qualifiers@[i as int] == Qualifier::LayoutQ(*ids),
                        spec_block_fold(qualifiers@, spec_default_block_qualifiers())
                            == spec_block_fold(qualifiers@.skip(i as int), acc_entry),
                        spec_block_state(qualifiers@, i as int) == Some(acc_entry),
                        spec_apply_block_ids(Some(acc_entry), ids@.take(j as int)) == Some(acc),
                    decreases ids@.len() - j,
                {
                    proof {
                        assert(ids@.take(j + 1).drop_last() =~= ids@.take(j as int));
                        assert(ids@.take(j + 1).last() == ids@[j as int]);
                        assert(qualifiers@.skip(i as int)[0] == qualifiers@[i as int]);
                    }
                    let id = &ids[j];
                    if crate::text::bytes_eq(id.name.as_slice(), "binding".as_bytes()) {
                        match id.value {
                            Some(v) => {
                                acc = BlockQualifiers {
                                    storage: acc.storage,
                                    binding: Some(v),
                                    set: acc.set,
                                    push_constant: acc.push_constant,
                                    std140: acc.std140,
                                };
                            },
                            None => {
                                let e = Error::Parse(ParseError::MissingLayoutValue {
                                    name: id.name.clone(),
                                });
                                proof {
                                    lemma_block_ids_poisoned_from(ids@, j + 1, Some(acc_entry));
                                    assert(spec_block_id_error(ids@[j as int], e));
                                    assert(spec_block_error_at(qualifiers@, i as int, e));
                                }
                                return Err(e);
                            },
                        }
                    } else if crate::text::bytes_eq(id.name.as_slice(), "set".as_bytes()) {
                        match id.value {
                            Some(v) => {
                                acc = BlockQualifiers {
                                    storage: acc.storage,
                                    binding: acc.binding,
                                    set: Some(v as usize),
                                    push_constant: acc.push_constant,
                                    std140: acc.std140,
                                };
                            },
                            None => {
                                let e = Error::Parse(ParseError::MissingLayoutValue {
                                    name: id.name.clone(),
                                });
                                proof {
                                    lemma_block_ids_poisoned_from(ids@, j + 1, Some(acc_entry));
                                    assert(spec_block_id_error(ids@[j as int], e));
                                    assert(spec_block_error_at(qualifiers@, i as int, e));
                                }
                                return Err(e);
                            },
                        }
                    } else if crate::text::bytes_eq(id.name.as_slice(), "push_constant".as_bytes())
                    {
                        match id.value {
                            Some(_) => {
                                let e = Error::Parse(ParseError::UnexpectedLayoutValue {
                                    name: id.name.clone(),
                                });
                                proof {
                                    lemma_block_ids_poisoned_from(ids@, j + 1, Some(acc_entry));
                                    assert(spec_block_id_error(ids@[j as int], e));
                                    assert(spec_block_error_at(qualifiers@, i as int, e));
                                }
                                return Err(e);
                            },
                            None => {
                                acc = BlockQualifiers {
                                    storage: acc.storage,
                                    binding: acc.binding,
                                    set: acc.set,
                                    push_constant: true,
                                    std140: acc.std140,
                                };
                            },
                        }
                    } else if crate::text::bytes_eq(id.name.as_slice(), "std140".as_bytes()) {
                        match id.value {
                            Some(_) => {
                                let e = Error::Parse(ParseError::UnexpectedLayoutValue {
                                    name: id.name.clone(),
                                });
                                proof {
                                    lemma_block_ids_poisoned_from(ids@, j + 1, Some(acc_entry));
                                    assert(spec_block_id_error(ids@[j as int], e));
                                    assert(spec_block_error_at(qualifiers@, i as int, e));
                                }
                                return Err(e);
                            },
                            None => {
                                acc = BlockQualifiers {
                                    storage: acc.storage,
                                    binding: acc.binding,
                                    set: acc.set,
                                    push_constant: acc.push_constant,
                                    std140: true,
                                };
                            },
                        }
                    } else {
                        let e = Error::Parse(ParseError::UnknownLayoutIdentifier {
                            name: id.name.clone(),
                        });
                        proof {
                            lemma_block_ids_poisoned_from(ids@, j + 1, Some(acc_entry));
                            assert(spec_block_id_error(ids@[j as int], e));
                            assert(spec_block_error_at(qualifiers@, i as int, e));
                        }
                        return Err(e);
                    }
                    j += 1;
                }
                proof {
                    assert(ids@.take(ids@.len() as int) =~= ids@);
                }
            },
        }
        i += 1;
    }
    proof {
        assert(qualifiers@.skip(qualifiers@.len() as int).len() == 0);
    }
    if acc.storage.is_some() {
        Ok(acc)
    } else {
        Err(Error::Parse(ParseError::MissingStorageQualifier))
    }
}

// ---------------------------------------------------------------------------
// Block fields: `layout(offset = 16) vec4 color;`
// ---------------------------------------------------------------------------

/// Apply one layout identifier of a block field: only `offset` with an
/// integer value is supported.
pub open spec fn spec_apply_field_id(acc: Option<Option<u32>>, id: LayoutId) -> Option<
    Option<u32>,
> {
    match acc {
        None => None,
        Some(_) => if id.name@ == "offset".spec_bytes() {
            match id.value {
                Some(v) => Some(Some(v)),
                None => None,
            }
        } else {
            None
        },
    }
}

pub open spec fn spec_apply_field_ids(acc: Option<Option<u32>>, ids: Seq<LayoutId>) -> Option<
    Option<u32>,
>
    decreases ids.len(),
{
    if ids.len() == 0 {
        acc
    } else {
        spec_apply_field_id(spec_apply_field_ids(acc, ids.drop_last()), ids.last())
    }
}

/// Fold a block field's qualifiers: only layout lists with `offset` are
/// supported; any storage qualifier poisons the result.
pub open spec fn spec_field_fold(quals: Seq<Qualifier>, acc: Option<u32>) -> Option<Option<u32>>
    decreases quals.len(),
{
    if quals.len() == 0 {
        Some(acc)
    } else {
        match quals[0] {
            Qualifier::Storage(_) => None,
            Qualifier::LayoutQ(ids) => match spec_apply_field_ids(Some(acc), ids@) {
                None => None,
                Some(a) => spec_field_fold(quals.drop_first(), a),
            },
        }
    }
}

proof fn lemma_field_ids_poisoned_from(ids: Seq<LayoutId>, j: int, acc: Option<Option<u32>>)
    requires
        0 <= j <= ids.len(),
        spec_apply_field_ids(acc, ids.take(j)) is None,
    ensures
        spec_apply_field_ids(acc, ids) is None,
    decreases ids.len() - j,
{
    if j == ids.len() {
        assert(ids.take(j) =~= ids);
    } else {
        assert(ids.take(j + 1).drop_last() =~= ids.take(j));
        lemma_field_ids_poisoned_from(ids, j + 1, acc);
    }
}


/// The interpreter state after the first `i` qualifiers of a block field:
/// `Some(offset)` still folding, `None` failed.
pub open spec fn spec_field_state(quals: Seq<Qualifier>, i: int) -> Option<Option<u32>>
    decreases i,
{
    if i <= 0 {
        Some(None)
    } else {
        match spec_field_state(quals, i - 1) {
            Some(a) => match quals[i - 1] {
                Qualifier::Storage(_) => None,
                Qualifier::LayoutQ(ids) => spec_apply_field_ids(Some(a), ids@),
            },
            None => None,
        }
    }
}

/// The error one unsupported layout identifier of a block field produces.
pub open spec fn spec_field_id_error(id: LayoutId, e: Error) -> bool {
    if id.name@ == "offset".spec_bytes() {
        id.value is None && (e matches Error::Parse(ParseError::MissingLayoutValue { name })
            && name@ == id.name@)
    } else {
        e matches Error::Parse(ParseError::UnknownLayoutIdentifier { name }) && name@ == id.name@
    }
}

/// Whether `e` is the error the first unsupported qualifier of a block
/// field produces, with the bad qualifier at position `i`.
pub open spec fn spec_field_error_at(quals: Seq<Qualifier>, i: int, e: Error) -> bool {
    &&& 0 <= i < quals.len()
    &&& spec_field_state(quals, i) matches Some(a) && match quals[i] {
        Qualifier::Storage(_) => e == Error::Parse(ParseError::UnexpectedFieldQualifier),
        Qualifier::LayoutQ(ids) => exists|j: int|
            {
                &&& 0 <= j < ids@.len()
                &&& spec_apply_field_ids(Some(a), ids@.take(j)) is Some
                &&& spec_field_id_error(#[trigger] ids@[j], e)
            },
    }
}

/// Interpret the qualifiers of one block field: an explicit byte offset is
/// recorded; anything else is a hard error.
pub fn match_field_qualifiers(qualifiers: &Vec<Qualifier>) -> (r: Result<Option<u32>, Error>)
    ensures
        match r {
            Ok(offset) => spec_field_fold(qualifiers@, None) == Some(offset),
            Err(e) => spec_field_fold(qualifiers@, None) is None && e is Parse && exists|i: int|
                spec_field_error_at(qualifiers@, i, e),
        },
{
    let mut acc: Option<u32> = None;
    let mut i: usize = 0;
    proof {
        assert(qualifiers@.skip(0) =~= qualifiers@);
    }
    while i < qualifiers.len()
        invariant
            i <= qualifiers@.len(),
            spec_field_fold(qualifiers@, None) == spec_field_fold(
                qualifiers@.skip(i as int),
                acc,
            ),
            spec_field_state(qualifiers@, i as int) == Some(acc),
        decreases qualifiers@.len() - i,
    {
        proof {
            assert(qualifiers@.skip(i as int)[0] == qualifiers@[i as int]);
            assert(qualifiers@.skip(i as int).drop_first() =~= qualifiers@.skip(i + 1));
        }
        match &qualifiers[i] {
            Qualifier::Storage(_) => {
                let e = Error::Parse(ParseError::UnexpectedFieldQualifier);
                proof {
                    assert(spec_field_error_at(qualifiers@, i as int, e));
                }
                return Err(e);
            },
            Qualifier::LayoutQ(ids) => {
                let ghost acc_entry = acc;
                let mut j: usize = 0;
                while j < ids.len()
                    invariant
                        j <= ids@.len(),
                        i < qualifiers@.len(),
                        qualifiers@[i as int] == Qualifier::LayoutQ(*ids),
                        spec_field_fold(qualifiers@, None) == spec_field_fold(
                            qualifiers@.skip(i as int),
                            acc_entry,
                        ),
                        spec_field_state(qualifiers@, i as int) == Some(acc_entry),
                        spec_apply_field_ids(Some(acc_entry), ids@.take(j as int)) == Some(acc),
                    decreases ids@.len() - j,
                {
                    proof {
                        assert(ids@.take(j + 1).drop_last() =~= ids@.take(j as int));
                        assert(ids@.take(j + 1).last() == ids@[j as int]);
                        assert(qualifiers@.skip(i as int)[0] == qualifiers@[i as int]);
                    }
                    let id = &ids[j];
                    if crate::text::bytes_eq(id.name.as_slice(), "offset".as_bytes()) {
                        match id.value {
                            Some(v) => {
                                acc = Some(v);
                            },
                            None => {
                                let e = Error::Parse(ParseError::MissingLayoutValue {
                                    name: id.name.clone(),
                                });
                                proof {
                                    lemma_field_ids_poisoned_from(ids@, j + 1, Some(acc_entry));
                                    assert(spec_field_id_error(ids@[j as int], e));
                                    assert(spec_field_error_at(qualifiers@, i as int, e));
                                }
                                return Err(e);
                            },
                        }
                    } else {
                        let e = Error::Parse(ParseError::UnknownLayoutIdentifier {
                            name: id.name.clone(),
                        });
                        proof {
                            lemma_field_ids_poisoned_from(ids@, j + 1, Some(acc_entry));
                            assert(spec_field_id_error(ids@[j as int], e));
                            assert(spec_field_error_at(qualifiers@, i as int, e));
                        }
                        return Err(e);
                    }
                    j += 1;
                }
                proof {
                    assert(ids@.take(ids@.len() as int) =~= ids@);
                }
            },
        }
        i += 1;
    }
    proof {
        assert(qualifiers@.skip(qualifiers@.len() as int).len() == 0);
    }
    Ok(acc)
}


// ---------------------------------------------------------------------------
// Token walking
// ---------------------------------------------------------------------------

/// What one top-level declaration contributed.
pub enum TopItem {
    /// A global `in` declaration: the workgroup shape.
    Globals(WorkgroupShape),
    /// An image/sampler uniform variable.
    Variable(VariableDeclaration),
    /// A uniform / storage-buffer / push-constant block.
    Block(BlockDeclaration),
    /// A skipped construct: function, prototype, `precision`, `const`
    /// variable, stray semicolon.
    Skipped,
}

/// Whether this identifier is a qualifier word of the full language that
/// this subset recognizes but supports nowhere.
fn is_other_qualifier_word(name: &Vec<u8>) -> (r: bool)
    ensures
        r == spec_is_other_qualifier_word(name@),
{
    crate::text::bytes_eq(name.as_slice(), "out".as_bytes())
        || crate::text::bytes_eq(name.as_slice(), "inout".as_bytes())
        || crate::text::bytes_eq(name.as_slice(), "shared".as_bytes())
        || crate::text::bytes_eq(name.as_slice(), "coherent".as_bytes())
        || crate::text::bytes_eq(name.as_slice(), "volatile".as_bytes())
        || crate::text::bytes_eq(name.as_slice(), "restrict".as_bytes())
        || crate::text::bytes_eq(name.as_slice(), "readonly".as_bytes())
        || crate::text::bytes_eq(name.as_slice(), "writeonly".as_bytes())
        || crate::text::bytes_eq(name.as_slice(), "flat".as_bytes())
        || crate::text::bytes_eq(name.as_slice(), "smooth".as_bytes())
        || crate::text::bytes_eq(name.as_slice(), "noperspective".as_bytes())
        || crate::text::bytes_eq(name.as_slice(), "centroid".as_bytes())
        || crate::text::bytes_eq(name.as_slice(), "patch".as_bytes())
        || crate::text::bytes_eq(name.as_slice(), "sample".as_bytes())
        || crate::text::bytes_eq(name.as_slice(), "precise".as_bytes())
        || crate::text::bytes_eq(name.as_slice(), "highp".as_bytes())
        || crate::text::bytes_eq(name.as_slice(), "mediump".as_bytes())
        || crate::text::bytes_eq(name.as_slice(), "lowp".as_bytes())
        || crate::text::bytes_eq(name.as_slice(), "invariant".as_bytes())
}

/// Parse `( name [= int] , ... )` after the word `layout`: exactly
/// [`spec_layout_list`].
fn parse_layout_list(tokens: &Vec<Token>, pos: usize) -> (r: Result<(Vec<LayoutId>, usize), Error>)
    ensures
        match r {
            Ok(p) => spec_layout_list(spec_tokens_view(tokens@), pos as int) == Some(
                (spec_layout_ids_view(p.0@), p.1 as int),
            ) && pos < p.1 <= tokens@.len(),
            Err(e) => spec_layout_list(spec_tokens_view(tokens@), pos as int) is None
                && e is Parse,
        },
{
    let ghost tv = spec_tokens_view(tokens@);
    let n = tokens.len();
    if pos >= n {
        return Err(Error::Parse(ParseError::UnexpectedEnd));
    }
    match &tokens[pos] {
        Token::Sym(40) => {},
        _ => {
            return Err(Error::Parse(ParseError::UnexpectedToken { position: pos }));
        },
    }
    let mut ids: Vec<LayoutId> = Vec::new();
    let mut i = pos + 1;
    proof {
        match spec_layout_items(tv, i as int) {
            Some((rest, end)) => {
                assert(spec_layout_ids_view(ids@) + rest =~= rest);
            },
            None => {},
        }
    }
    loop
        invariant
            pos < i <= n,
            n == tokens@.len(),
            tv == spec_tokens_view(tokens@),
            match spec_layout_items(tv, i as int) {
                Some((rest, end)) => spec_layout_list(tv, pos as int) == Some(
                    (spec_layout_ids_view(ids@) + rest, end),
                ),
                None => spec_layout_list(tv, pos as int) is None,
            },
        decreases n - i,
    {
        let ghost i0 = i as int;
        if i >= n {
            return Err(Error::Parse(ParseError::UnexpectedEnd));
        }
        let name = match &tokens[i] {
            Token::Ident(name) => name.clone(),
            _ => {
                return Err(Error::Parse(ParseError::UnexpectedToken { position: i }));
            },
        };
        i += 1;
        let mut value: Option<u32> = None;
        if i < n {
            let is_eq = match &tokens[i] {
                Token::Sym(61) => true,
                _ => false,
            };
            if is_eq {
                i += 1;
                if i >= n {
                    return Err(Error::Parse(ParseError::UnexpectedEnd));
                }
                match &tokens[i] {
                    Token::Int { value: v, overflow } => {
                        if *overflow {
                            return Err(Error::Parse(ParseError::IntegerTooLarge));
                        }
                        value = Some(*v);
                    },
                    _ => {
                        return Err(Error::Parse(ParseError::UnexpectedToken { position: i }));
                    },
                }
                i += 1;
            }
        }
        let id = LayoutId { name, value };
        proof {
            assert(spec_one_layout_id(tv, i0) == Some((spec_layout_id_view(id), i as int)));
        }
        if i >= n {
            return Err(Error::Parse(ParseError::UnexpectedEnd));
        }
        match &tokens[i] {
            Token::Sym(44) => {
                proof {
                    lemma_layout_items_step(tv, i0, i as int, ids@, id);
                }
                ids.push(id);
                i += 1;
            },
            Token::Sym(41) => {
                proof {
                    assert(spec_layout_items(tv, i0) == Some(
                        (seq![spec_layout_id_view(id)], i + 1),
                    ));
                    assert(spec_layout_ids_view(ids@) + seq![spec_layout_id_view(id)]
                        =~= spec_layout_ids_view(ids@.push(id)));
                }
                ids.push(id);
                return Ok((ids, i + 1));
            },
            _ => {
                return Err(Error::Parse(ParseError::UnexpectedToken { position: i }));
            },
        }
    }
}

/// After one parsed id followed by a comma, the remaining items extend
/// the collected list.
proof fn lemma_layout_items_step(
    tv: Seq<SpecTok>,
    i0: int,
    j: int,
    ids_before: Seq<LayoutId>,
    id: LayoutId,
)
    requires
        spec_one_layout_id(tv, i0) == Some((spec_layout_id_view(id), j)),
        0 <= j < tv.len(),
        tv[j] == SpecTok::Sym(44u8),
        i0 < j + 1 <= tv.len(),
    ensures
        match spec_layout_items(tv, j + 1) {
            Some((rest2, end)) => spec_layout_items(tv, i0) == Some(
                (seq![spec_layout_id_view(id)] + rest2, end),
            ) && spec_layout_ids_view(ids_before) + (seq![spec_layout_id_view(id)] + rest2)
                =~= spec_layout_ids_view(ids_before.push(id)) + rest2,
            None => spec_layout_items(tv, i0) is None,
        },
{
    match spec_layout_items(tv, j + 1) {
        Some((rest2, end)) => {
            assert(spec_layout_ids_view(ids_before).push(spec_layout_id_view(id))
                =~= spec_layout_ids_view(ids_before.push(id)));
            assert(spec_layout_ids_view(ids_before) + (seq![spec_layout_id_view(id)] + rest2)
                =~= spec_layout_ids_view(ids_before.push(id)) + rest2);
        },
        None => {},
    }
}

/// Collect the qualifiers standing before a declaration: exactly/// Collect the qualifiers standing before a declaration: exactly
/// [`spec_parse_qualifiers`].
fn parse_qualifiers(tokens: &Vec<Token>, pos: usize) -> (r: Result<(Vec<Qualifier>, usize), Error>)
    requires
        pos <= tokens@.len(),
    ensures
        match r {
            Ok(p) => spec_parse_qualifiers(spec_tokens_view(tokens@), pos as int) == Some(
                (spec_qualifiers_view(p.0@), p.1 as int),
            ) && pos <= p.1 <= tokens@.len(),
            Err(e) => spec_parse_qualifiers(spec_tokens_view(tokens@), pos as int) is None
                && e is Parse,
        },
{
    let ghost tv = spec_tokens_view(tokens@);
    let n = tokens.len();
    let mut quals: Vec<Qualifier> = Vec::new();
    let mut i = pos;
    proof {
        match spec_parse_qualifiers(tv, i as int) {
            Some((rest, end)) => {
                assert(spec_qualifiers_view(quals@) + rest =~= rest);
            },
            None => {},
        }
    }
    while i < n
        invariant
            pos <= i <= n,
            n == tokens@.len(),
            tv == spec_tokens_view(tokens@),
            match spec_parse_qualifiers(tv, i as int) {
                Some((rest, end)) => spec_parse_qualifiers(tv, pos as int) == Some(
                    (spec_qualifiers_view(quals@) + rest, end),
                ),
                None => spec_parse_qualifiers(tv, pos as int) is None,
            },
        decreases n - i,
    {
        let ghost i0 = i as int;
        let word = match &tokens[i] {
            Token::Ident(name) => name,
            _ => {
                proof {
                    assert(spec_parse_qualifiers(tv, i0) == Some(
                        (Seq::<SpecQualifier>::empty(), i0),
                    ));
                    assert(spec_qualifiers_view(quals@) + Seq::<SpecQualifier>::empty()
                        =~= spec_qualifiers_view(quals@));
                }
                return Ok((quals, i));
            },
        };
        let stored: StorageWord;
        if crate::text::bytes_eq(word.as_slice(), "layout".as_bytes()) {
            let (lids, next) = match parse_layout_list(tokens, i + 1) {
                Ok(p) => p,
                Err(e) => {
                    return Err(e);
                },
            };
            let q = Qualifier::LayoutQ(lids);
            proof {
                lemma_qualifiers_step(tv, i0, next as int, quals@, q);
            }
            quals.push(q);
            i = next;
            continue;
        } else if crate::text::bytes_eq(word.as_slice(), "in".as_bytes()) {
            stored = StorageWord::In;
        } else if crate::text::bytes_eq(word.as_slice(), "uniform".as_bytes()) {
            stored = StorageWord::Uniform;
        } else if crate::text::bytes_eq(word.as_slice(), "buffer".as_bytes()) {
            stored = StorageWord::Buffer;
        } else if crate::text::bytes_eq(word.as_slice(), "const".as_bytes()) {
            stored = StorageWord::Const;
        } else if is_other_qualifier_word(word) {
            stored = StorageWord::Other;
        } else {
            proof {
                assert(spec_parse_qualifiers(tv, i0) == Some(
                    (Seq::<SpecQualifier>::empty(), i0),
                ));
                assert(spec_qualifiers_view(quals@) + Seq::<SpecQualifier>::empty()
                    =~= spec_qualifiers_view(quals@));
            }
            return Ok((quals, i));
        }
        let q = Qualifier::Storage(stored);
        proof {
            lemma_qualifiers_step(tv, i0, i0 + 1, quals@, q);
        }
        quals.push(q);
        i += 1;
    }
    proof {
        assert(spec_parse_qualifiers(tv, i as int) == Some((Seq::<SpecQualifier>::empty(), i as int)));
        assert(spec_qualifiers_view(quals@) + Seq::<SpecQualifier>::empty()
            =~= spec_qualifiers_view(quals@));
    }
    Ok((quals, i))
}

/// Pushing the qualifier the spec produces at `i0` keeps the composition
/// invariant.
proof fn lemma_qualifiers_step(tv: Seq<SpecTok>, i0: int, next: int, quals: Seq<Qualifier>, q: Qualifier)
    requires
        spec_parse_qualifiers(tv, i0) == match spec_parse_qualifiers(tv, next) {
            None => None::<(Seq<SpecQualifier>, int)>,
            Some((rest, end)) => Some((seq![spec_qualifier_view(q)] + rest, end)),
        },
    ensures
        match spec_parse_qualifiers(tv, next) {
            Some((rest, end)) => (match spec_parse_qualifiers(tv, i0) {
                Some((all, end2)) => spec_qualifiers_view(quals) + all =~= spec_qualifiers_view(
                    quals.push(q),
                ) + rest && end2 == end,
                None => false,
            }),
            None => spec_parse_qualifiers(tv, i0) is None,
        },
{
    match spec_parse_qualifiers(tv, next) {
        Some((rest, end)) => {
            assert(spec_qualifiers_view(quals).push(spec_qualifier_view(q))
                =~= spec_qualifiers_view(quals.push(q)));
            assert(spec_qualifiers_view(quals) + (seq![spec_qualifier_view(q)] + rest)
                =~= spec_qualifiers_view(quals.push(q)) + rest);
        },
        None => {},
    }
}

/// Skip a balanced `open ... close` region starting at `pos`: exactly
/// [`spec_skip_balanced`].
fn skip_balanced(tokens: &Vec<Token>, pos: usize, open: u8, close: u8) -> (r: Result<usize, Error>)
    ensures
        match r {
            Ok(np) => spec_skip_balanced(spec_tokens_view(tokens@), pos as int, open, close)
                == Some(np as int) && pos < np <= tokens@.len(),
            Err(e) => spec_skip_balanced(spec_tokens_view(tokens@), pos as int, open, close)
                is None && e is Parse,
        },
{
    let ghost tv = spec_tokens_view(tokens@);
    let n = tokens.len();
    if pos >= n {
        return Err(Error::Parse(ParseError::UnexpectedEnd));
    }
    let starts = match &tokens[pos] {
        Token::Sym(b) => *b == open,
        _ => false,
    };
    if !starts {
        return Err(Error::Parse(ParseError::UnexpectedToken { position: pos }));
    }
    let mut depth: usize = 1;
    let mut i = pos + 1;
    while i < n && depth > 0
        invariant
            pos < i <= n,
            n == tokens@.len(),
            tv == spec_tokens_view(tokens@),
            depth <= i,
            spec_skip_loop(tv, i as int, depth as int, open, close) == spec_skip_loop(
                tv,
                pos + 1,
                1,
                open,
                close,
            ),
        decreases n - i,
    {
        match &tokens[i] {
            Token::Sym(b) => {
                if *b == open {
                    depth += 1;
                } else if *b == close {
                    depth -= 1;
                }
            },
            _ => {},
        }
        i += 1;
    }
    if depth == 0 {
        Ok(i)
    } else {
        Err(Error::Parse(ParseError::UnexpectedEnd))
    }
}

/// Walk a declarator to its terminating `;`, noting an initializer and
/// extra comma-separated declarators at nesting depth zero: exactly
/// [`spec_scan_declarator`].
fn scan_declarator_tail(tokens: &Vec<Token>, pos: usize) -> (r: Result<(bool, bool, usize), Error>)
    requires
        pos <= tokens@.len(),
    ensures
        match r {
            Ok(p) => spec_scan_declarator(spec_tokens_view(tokens@), pos as int, false, false, 0, 0, 0)
                == Some((p.0, p.1, p.2 as int)) && pos < p.2 <= tokens@.len(),
            Err(e) => spec_scan_declarator(
                spec_tokens_view(tokens@), pos as int, false, false, 0, 0, 0,
            ) is None && e is Parse,
        },
{
    let ghost tv = spec_tokens_view(tokens@);
    let n = tokens.len();
    let mut has_init = false;
    let mut has_tail = false;
    let mut parens: usize = 0;
    let mut braces: usize = 0;
    let mut brackets: usize = 0;
    let mut i = pos;
    while i < n
        invariant
            pos <= i <= n,
            n == tokens@.len(),
            tv == spec_tokens_view(tokens@),
            parens <= i,
            braces <= i,
            brackets <= i,
            spec_scan_declarator(
                tv, i as int, has_init, has_tail, parens as int, braces as int, brackets as int,
            ) == spec_scan_declarator(tv, pos as int, false, false, 0, 0, 0),
        decreases n - i,
    {
        let depth0 = parens == 0 && braces == 0 && brackets == 0;
        match &tokens[i] {
            Token::Sym(59) => {
                if depth0 {
                    return Ok((has_init, has_tail, i + 1));
                }
            },
            Token::Sym(61) => {
                if depth0 {
                    has_init = true;
                }
            },
            Token::Sym(44) => {
                if depth0 {
                    has_tail = true;
                }
            },
            Token::Sym(40) => {
                parens += 1;
            },
            Token::Sym(41) => {
                if parens > 0 {
                    parens -= 1;
                }
            },
            Token::Sym(123) => {
                braces += 1;
            },
            Token::Sym(125) => {
                if braces > 0 {
                    braces -= 1;
                }
            },
            Token::Sym(91) => {
                brackets += 1;
            },
            Token::Sym(93) => {
                if brackets > 0 {
                    brackets -= 1;
                }
            },
            _ => {},
        }
        i += 1;
    }
    Err(Error::Parse(ParseError::UnexpectedEnd))
}

/// Whether position `j` holds an opening bracket.
fn is_open_bracket(tokens: &Vec<Token>, j: usize) -> (r: bool)
    requires
        j <= tokens@.len(),
    ensures
        r == (j < tokens@.len() && spec_tokens_view(tokens@)[j as int] == SpecTok::Sym(91u8)),
{
    if j < tokens.len() {
        match &tokens[j] {
            Token::Sym(91) => true,
            _ => false,
        }
    } else {
        false
    }
}

/// The dimensions collected so far, as a sequence.
pub open spec fn spec_dims_acc(dimensions: Option<Vec<Option<u32>>>) -> Seq<Option<u32>> {
    match dimensions {
        None => Seq::empty(),
        Some(ds) => ds@,
    }
}

/// Parse the fields of a block body `{ ... }` starting at its `{`:
/// exactly [`spec_block_fields`].
#[verifier::loop_isolation(false)]
#[verifier::rlimit(60)]
fn parse_block_fields(tokens: &Vec<Token>, pos: usize) -> (r: Result<(Vec<BlockField>, usize), Error>)
    ensures
        match r {
            Ok(p) => spec_block_fields(spec_tokens_view(tokens@), pos as int) == Some(
                (p.0@.map(|k: int, f: BlockField| spec_block_field_view(f)), p.1 as int),
            ) && pos < p.1 <= tokens@.len(),
            Err(e) => spec_block_fields(spec_tokens_view(tokens@), pos as int) is None
                && e is Parse,
        },
{
    let ghost tv = spec_tokens_view(tokens@);
    let n = tokens.len();
    if pos >= n {
        return Err(Error::Parse(ParseError::UnexpectedEnd));
    }
    match &tokens[pos] {
        Token::Sym(123) => {},
        _ => {
            return Err(Error::Parse(ParseError::UnexpectedToken { position: pos }));
        },
    }
    proof {
        assert(tv[pos as int] == SpecTok::Sym(123u8));
        assert(spec_block_fields(tv, pos as int) == spec_field_items(tv, pos + 1));
    }
    let mut fields: Vec<BlockField> = Vec::new();
    let mut i = pos + 1;
    proof {
        match spec_field_items(tv, i as int) {
            Some((rest, end)) => {
                assert(fields@.map(|k: int, f: BlockField| spec_block_field_view(f)) + rest
                    =~= rest);
            },
            None => {},
        }
    }
    while i < n
        invariant
            pos < i <= n,
            n == tokens@.len(),
            tv == spec_tokens_view(tokens@),
            match spec_field_items(tv, i as int) {
                Some((rest, end)) => spec_field_items(tv, pos + 1) == Some(
                    (fields@.map(|k: int, f: BlockField| spec_block_field_view(f)) + rest, end),
                ),
                None => spec_field_items(tv, pos + 1) is None,
            },
        decreases n - i,
    {
        let ghost i0 = i as int;
        let closes = match &tokens[i] {
            Token::Sym(125) => true,
            _ => false,
        };
        if closes {
            proof {
                assert(tv[i0] == SpecTok::Sym(125u8));
                assert(spec_field_items(tv, i0) == Some((Seq::<SpecBlockField>::empty(), i0 + 1)));
                assert(fields@.map(|k: int, f: BlockField| spec_block_field_view(f))
                    + Seq::<SpecBlockField>::empty() =~= fields@.map(
                    |k: int, f: BlockField| spec_block_field_view(f),
                ));
            }
            return Ok((fields, i + 1));
        }
        proof {
            assert(!(tv[i0] == SpecTok::Sym(125u8)));
        }
        let (quals, after_quals) = match parse_qualifiers(tokens, i) {
            Ok(p) => p,
            Err(e) => {
                return Err(e);
            },
        };
        let offset = match match_field_qualifiers(&quals) {
            Ok(o) => {
                proof {
                    lemma_field_fold_view(quals@, None);
                }
                o
            },
            Err(e) => {
                proof {
                    lemma_field_fold_view(quals@, None);
                }
                return Err(e);
            },
        };
        if after_quals >= n {
            return Err(Error::Parse(ParseError::UnexpectedEnd));
        }
        let type_ident = match &tokens[after_quals] {
            Token::Ident(name) => name.clone(),
            _ => {
                return Err(Error::Parse(ParseError::UnexpectedToken { position: after_quals }));
            },
        };
        let mut j = after_quals + 1;
        if j >= n {
            return Err(Error::Parse(ParseError::UnexpectedEnd));
        }
        let field_name = match &tokens[j] {
            Token::Ident(name) => name.clone(),
            _ => {
                return Err(Error::Parse(ParseError::UnexpectedToken { position: j }));
            },
        };
        j += 1;
        let mut dimensions: Option<Vec<Option<u32>>> = None;
        let ghost dstart = j as int;
        proof {
            match spec_dims_items(tv, j as int) {
                Some((rest, end)) => {
                    assert(spec_dims_acc(dimensions) + rest =~= rest);
                },
                None => {},
            }
        }
        while is_open_bracket(tokens, j)
            invariant
                dstart <= j <= n,
                n == tokens@.len(),
                tv == spec_tokens_view(tokens@),
                dimensions matches Some(ds) ==> ds@.len() > 0,
                match spec_dims_items(tv, j as int) {
                    Some((rest, end)) => spec_dims_items(tv, dstart) == Some(
                        (spec_dims_acc(dimensions) + rest, end),
                    ),
                    None => spec_dims_items(tv, dstart) is None,
                },
            decreases n - j,
        {
            let ghost j0 = j as int;
            let ghost dims_before = dimensions;
            j += 1;
            if j >= n {
                return Err(Error::Parse(ParseError::UnexpectedEnd));
            }
            let dim: Option<u32> = match &tokens[j] {
                Token::Sym(93) => None,
                Token::Int { value, overflow } => {
                    if *overflow {
                        return Err(Error::Parse(ParseError::IntegerTooLarge));
                    }
                    let v = *value;
                    j += 1;
                    if j >= n {
                        return Err(Error::Parse(ParseError::UnexpectedEnd));
                    }
                    match &tokens[j] {
                        Token::Sym(93) => {},
                        _ => {
                            return Err(Error::Parse(ParseError::UnexpectedToken {
                                position: j,
                            }));
                        },
                    }
                    Some(v)
                },
                _ => {
                    return Err(Error::Parse(ParseError::UnexpectedToken { position: j }));
                },
            };
            j += 1;
            match &mut dimensions {
                Some(ds) => {
                    ds.push(dim);
                },
                None => {
                    let mut ds: Vec<Option<u32>> = Vec::new();
                    ds.push(dim);
                    dimensions = Some(ds);
                },
            }
            proof {
                lemma_dims_step(tv, j0, j as int, dims_before, dim);
            }
        }
        proof {
            assert(spec_dims_items(tv, j as int) == Some((Seq::<Option<u32>>::empty(), j as int)));
            assert(spec_dims_acc(dimensions) + Seq::<Option<u32>>::empty() =~= spec_dims_acc(
                dimensions,
            ));
        }
        if j >= n {
            return Err(Error::Parse(ParseError::UnexpectedEnd));
        }
        match &tokens[j] {
            Token::Sym(59) => {},
            Token::Sym(44) => {
                return Err(Error::Parse(ParseError::UnexpectedDeclaratorTail {
                    name: field_name,
                }));
            },
            _ => {
                return Err(Error::Parse(ParseError::UnexpectedToken { position: j }));
            },
        }
        let field = BlockField { name: field_name, type_ident, offset, dimensions };
        proof {
            assert(spec_one_field(tv, i0) == Some((spec_block_field_view(field), j + 1)));
            lemma_field_items_step(tv, i0, j + 1, fields@, field);
        }
        fields.push(field);
        i = j + 1;
    }
    Err(Error::Parse(ParseError::UnexpectedEnd))
}

/// Pushing the dimension the spec produces keeps the composition
/// invariant.
proof fn lemma_dims_step(
    tv: Seq<SpecTok>,
    j0: int,
    next: int,
    dims_before: Option<Vec<Option<u32>>>,
    dim: Option<u32>,
)
    requires
        spec_dims_items(tv, j0) == match spec_dims_items(tv, next) {
            None => None::<(Seq<Option<u32>>, int)>,
            Some((rest, end)) => Some((seq![dim] + rest, end)),
        },
    ensures
        match spec_dims_items(tv, next) {
            Some((rest, end)) => (match spec_dims_items(tv, j0) {
                Some((restAll, endAll)) => spec_dims_acc(dims_before) + restAll =~= (match dims_before {
                    None => {
                        let ds: Seq<Option<u32>> = seq![dim];
                        ds
                    },
                    Some(ds) => ds@.push(dim),
                }) + rest && endAll == end,
                None => false,
            }),
            None => spec_dims_items(tv, j0) is None,
        },
{
    match spec_dims_items(tv, next) {
        Some((rest, end)) => {
            assert(spec_dims_acc(dims_before) + (seq![dim] + rest) =~= (match dims_before {
                None => {
                    let ds: Seq<Option<u32>> = seq![dim];
                    ds
                },
                Some(ds) => ds@.push(dim),
            }) + rest);
        },
        None => {},
    }
}

/// Pushing the field the spec produces keeps the composition invariant.
proof fn lemma_field_items_step(
    tv: Seq<SpecTok>,
    i0: int,
    next: int,
    fields_before: Seq<BlockField>,
    field: BlockField,
)
    requires
        0 <= i0 < tv.len(),
        !(tv[i0] == SpecTok::Sym(125u8)),
        spec_one_field(tv, i0) == Some((spec_block_field_view(field), next)),
        i0 < next <= tv.len(),
    ensures
        match spec_field_items(tv, next) {
            Some((rest, end)) => spec_field_items(tv, i0) == Some(
                (seq![spec_block_field_view(field)] + rest, end),
            ) && fields_before.map(|k: int, f: BlockField| spec_block_field_view(f))
                + (seq![spec_block_field_view(field)] + rest) =~= fields_before.push(field).map(
                |k: int, f: BlockField| spec_block_field_view(f),
            ) + rest,
            None => spec_field_items(tv, i0) is None,
        },
{
    match spec_field_items(tv, next) {
        Some((rest, end)) => {
            assert(fields_before.map(|k: int, f: BlockField| spec_block_field_view(f)).push(
                spec_block_field_view(field),
            ) =~= fields_before.push(field).map(|k: int, f: BlockField| spec_block_field_view(f)));
            assert(fields_before.map(|k: int, f: BlockField| spec_block_field_view(f))
                + (seq![spec_block_field_view(field)] + rest) =~= fields_before.push(field).map(
                |k: int, f: BlockField| spec_block_field_view(f),
            ) + rest);
        },
        None => {},
    }
}

/// The mathematical value of what one declaration contributes.
pub open spec fn spec_top_item_view(item: TopItem) -> SpecItem {
    match item {
        TopItem::Globals(s) => SpecItem::Globals(s),
        TopItem::Variable(d) => SpecItem::Variable(spec_variable_view(d)),
        TopItem::Block(b) => SpecItem::Block(spec_block_view(b)),
        TopItem::Skipped => SpecItem::Skipped,
    }
}

/// Parse one top-level declaration starting at `pos`: exactly
/// [`spec_declaration`].
#[verifier::loop_isolation(false)]
#[verifier::rlimit(100)]
fn parse_declaration(tokens: &Vec<Token>, pos: usize) -> (r: Result<(TopItem, usize), Error>)
    requires
        pos < tokens@.len(),
    ensures
        match r {
            Ok(p) => spec_declaration(spec_tokens_view(tokens@), pos as int) == Some(
                (spec_top_item_view(p.0), p.1 as int),
            ) && pos < p.1 <= tokens@.len() && (p.0 matches TopItem::Globals(shape)
                ==> shape.positive()),
            Err(e) => spec_declaration(spec_tokens_view(tokens@), pos as int) is None
                && e is Parse,
        },
{
    let ghost tv = spec_tokens_view(tokens@);
    let n = tokens.len();
    // A stray semicolon is an empty declaration.
    match &tokens[pos] {
        Token::Sym(59) => {
            proof {
                assert(tv[pos as int] == SpecTok::Sym(59u8));
            }
            return Ok((TopItem::Skipped, pos + 1));
        },
        Token::Ident(word) => {
            // `precision highp float;` is recognized and ignored.
            if crate::text::bytes_eq(word.as_slice(), "precision".as_bytes()) {
                let (_, _, next) = match scan_declarator_tail(tokens, pos) {
                    Ok(p) => p,
                    Err(e) => {
                        return Err(e);
                    },
                };
                return Ok((TopItem::Skipped, next));
            }
        },
        _ => {},
    }
    let (quals, after_quals) = match parse_qualifiers(tokens, pos) {
        Ok(p) => p,
        Err(e) => {
            return Err(e);
        },
    };
    let ghost qv = spec_qualifiers_view(quals@);
    if after_quals >= n {
        return Err(Error::Parse(ParseError::UnexpectedEnd));
    }
    // `layout(...) in;` — the workgroup-shape global.
    let ends_now = match &tokens[after_quals] {
        Token::Sym(59) => true,
        _ => false,
    };
    if ends_now {
        proof {
            assert(tv[after_quals as int] == SpecTok::Sym(59u8));
        }
        if quals.len() == 0 {
            return Ok((TopItem::Skipped, after_quals + 1));
        }
        let shape = match match_globals(&quals) {
            Ok(s) => {
                proof {
                    lemma_shape_fold_view(Some(WorkgroupShape { x: 1, y: 1, z: 1 }), quals@);
                }
                s
            },
            Err(e) => {
                proof {
                    lemma_shape_fold_view(Some(WorkgroupShape { x: 1, y: 1, z: 1 }), quals@);
                }
                return Err(e);
            },
        };
        return Ok((TopItem::Globals(shape), after_quals + 1));
    }
    // A type identifier must follow.
    let type_ident = match &tokens[after_quals] {
        Token::Ident(name) => name.clone(),
        _ => {
            return Err(Error::Parse(ParseError::UnexpectedToken { position: after_quals }));
        },
    };
    let after_type = after_quals + 1;
    if after_type >= n {
        return Err(Error::Parse(ParseError::UnexpectedEnd));
    }
    // One identifier then `{` is a block declaration.
    let opens_block = match &tokens[after_type] {
        Token::Sym(123) => true,
        _ => false,
    };
    if opens_block {
        proof {
            assert(tv[after_type as int] == SpecTok::Sym(123u8));
        }
        let block_quals = match match_block_qualifiers(&quals) {
            Ok(bq) => {
                proof {
                    lemma_block_fold_view(quals@, spec_default_block_qualifiers());
                }
                bq
            },
            Err(e) => {
                proof {
                    lemma_block_fold_view(quals@, spec_default_block_qualifiers());
                }
                return Err(e);
            },
        };
        let storage = match block_quals.storage {
            Some(st) => st,
            None => {
                return Err(Error::Parse(ParseError::MissingStorageQualifier));
            },
        };
        let (fields, after_fields) = match parse_block_fields(tokens, after_type) {
            Ok(p) => p,
            Err(e) => {
                return Err(e);
            },
        };
        if after_fields >= n {
            return Err(Error::Parse(ParseError::UnexpectedEnd));
        }
        let mut identifier: Option<Vec<u8>> = None;
        let mut j = after_fields;
        match &tokens[after_fields] {
            Token::Ident(inst) => {
                identifier = Some(inst.clone());
                j += 1;
                if j >= n {
                    return Err(Error::Parse(ParseError::UnexpectedEnd));
                }
                let has_array = match &tokens[j] {
                    Token::Sym(91) => true,
                    _ => false,
                };
                if has_array {
                    proof {
                        assert(tv[j as int] == SpecTok::Sym(91u8));
                    }
                    return Err(Error::Parse(ParseError::UnexpectedArraySpecifier {
                        name: inst.clone(),
                    }));
                }
            },
            _ => {},
        }
        match &tokens[j] {
            Token::Sym(59) => {},
            _ => {
                return Err(Error::Parse(ParseError::UnexpectedToken { position: j }));
            },
        }
        let block = BlockDeclaration {
            name: type_ident,
            identifier,
            storage,
            binding: block_quals.binding,
            set: block_quals.set,
            push_constant: block_quals.push_constant,
            std140: block_quals.std140,
            fields,
        };
        proof {
            assert(spec_block_view(block).fields =~= block.fields@.map(
                |k: int, f: BlockField| spec_block_field_view(f),
            ));
            assert(spec_block_declaration(tv, qv, block.name@, after_type as int) == Some(
                (SpecItem::Block(spec_block_view(block)), j + 1),
            ));
        }
        return Ok((TopItem::Block(block), j + 1));
    }
    // Otherwise a declarator name must follow the type.
    let var_name = match &tokens[after_type] {
        Token::Ident(name) => name.clone(),
        _ => {
            return Err(Error::Parse(ParseError::UnexpectedToken { position: after_type }));
        },
    };
    let after_name = after_type + 1;
    if after_name >= n {
        return Err(Error::Parse(ParseError::UnexpectedEnd));
    }
    // A parenthesis makes it a function definition or prototype: skipped.
    let opens_paren = match &tokens[after_name] {
        Token::Sym(40) => true,
        _ => false,
    };
    if opens_paren {
        let after_params = match skip_balanced(tokens, after_name, 40, 41) {
            Ok(np) => np,
            Err(e) => {
                return Err(e);
            },
        };
        if after_params >= n {
            return Err(Error::Parse(ParseError::UnexpectedEnd));
        }
        match &tokens[after_params] {
            Token::Sym(123) => {
                let after_body = match skip_balanced(tokens, after_params, 123, 125) {
                    Ok(np) => np,
                    Err(e) => {
                        return Err(e);
                    },
                };
                return Ok((TopItem::Skipped, after_body));
            },
            Token::Sym(59) => {
                return Ok((TopItem::Skipped, after_params + 1));
            },
            _ => {
                return Err(Error::Parse(ParseError::UnexpectedToken {
                    position: after_params,
                }));
            },
        }
    }
    // A single-variable declaration.
    if quals.len() == 0 {
        return Err(Error::Parse(ParseError::UnqualifiedDeclaration));
    }
    let mut has_array = false;
    let mut j = after_name;
    while is_open_bracket(tokens, j)
        invariant
            after_name <= j <= n,
            match spec_var_arrays(tv, j as int) {
                Some((b2, end)) => spec_var_arrays(tv, after_name as int) == Some(
                    ((has_array || b2), end),
                ),
                None => spec_var_arrays(tv, after_name as int) is None,
            },
        decreases n - j,
    {
        has_array = true;
        j = match skip_balanced(tokens, j, 91, 93) {
            Ok(np) => np,
            Err(e) => {
                return Err(e);
            },
        };
    }
    proof {
        assert(spec_var_arrays(tv, j as int) == Some((false, j as int)));
    }
    let (has_init, has_tail, next) = match scan_declarator_tail(tokens, j) {
        Ok(p) => p,
        Err(e) => {
            return Err(e);
        },
    };
    let attrs = match match_variable_qualifiers(&quals) {
        Ok(a) => {
            proof {
                lemma_variable_fold_view(quals@, spec_default_variable_qualifiers());
            }
            a
        },
        Err(e) => {
            proof {
                lemma_variable_fold_view(quals@, spec_default_variable_qualifiers());
            }
            return Err(e);
        },
    };
    let attrs = match attrs {
        // A `const` variable is not a shader-visible binding.
        None => {
            return Ok((TopItem::Skipped, next));
        },
        Some(a) => a,
    };
    if has_array {
        return Err(Error::Parse(ParseError::UnexpectedArraySpecifier { name: var_name }));
    }
    if has_init {
        return Err(Error::Parse(ParseError::UnexpectedInitializer { name: var_name }));
    }
    if has_tail {
        return Err(Error::Parse(ParseError::UnexpectedDeclaratorTail { name: var_name }));
    }
    let type_format: Option<Vec<u8>> = if attrs.rgba32f {
        Some(vstd::slice::slice_to_vec("rgba32f".as_bytes()))
    } else {
        None
    };
    let decl = VariableDeclaration {
        name: var_name,
        type_ident,
        binding: attrs.binding,
        set: attrs.set,
        type_format,
    };
    proof {
        assert(spec_after_names(tv, qv, decl.type_ident@, decl.name@, after_name as int) == Some(
            (SpecItem::Variable(spec_variable_view(decl)), next as int),
        ));
    }
    Ok((TopItem::Variable(decl), next))
}

/// Reflect a shader: parse its source into the workgroup shape, the
/// image/sampler declarations and the block declarations, or fail with a
/// descriptive error.  The result is exactly [`spec_reflect`] of the
/// source bytes: success is owed precisely on sources within the grammar
/// subset, the declarations come each once, in source order, and the
/// shape defaults to (1, 1, 1) — positive on every axis — when no
/// `in`-qualified global appears.  There is no partial or best-effort
/// load.
#[verifier::loop_isolation(false)]
pub fn analyze_shader(source: &[u8]) -> (r: Result<ShaderReflection, Error>)
    ensures
        match r {
            Ok(reflection) => spec_reflect(source@) == Some(spec_reflection_view(reflection))
                && reflection.local_size.positive(),
            Err(e) => spec_reflect(source@) is None && e is Parse,
        },
{
    let tokens = match crate::lex::lex(source) {
        Ok(t) => t,
        Err(e) => {
            return Err(Error::Parse(e));
        },
    };
    let ghost tv = spec_tokens_view(tokens@);
    let mut local_size = WorkgroupShape { x: 1, y: 1, z: 1 };
    let mut variable_declarations: Vec<VariableDeclaration> = Vec::new();
    let mut block_declarations: Vec<BlockDeclaration> = Vec::new();
    let n = tokens.len();
    let mut pos: usize = 0;
    proof {
        assert(variable_declarations@.map(|k: int, d: VariableDeclaration| spec_variable_view(d))
            =~= Seq::<SpecVariableDeclaration>::empty());
        assert(block_declarations@.map(|k: int, b: BlockDeclaration| spec_block_view(b))
            =~= Seq::<SpecBlockDeclaration>::empty());
    }
    while pos < n
        invariant
            pos <= n,
            local_size.positive(),
            spec_reflect_from(
                tv,
                pos as int,
                local_size,
                variable_declarations@.map(
                    |k: int, d: VariableDeclaration| spec_variable_view(d),
                ),
                block_declarations@.map(|k: int, b: BlockDeclaration| spec_block_view(b)),
            ) == spec_reflect_tokens(tv),
        decreases n - pos,
    {
        let ghost vars_before = variable_declarations@;
        let ghost blocks_before = block_declarations@;
        let (item, next) = match parse_declaration(&tokens, pos) {
            Ok(p) => p,
            Err(e) => {
                return Err(e);
            },
        };
        match item {
            TopItem::Globals(shape) => {
                local_size = shape;
            },
            TopItem::Variable(decl) => {
                proof {
                    assert(vars_before.push(decl).map(
                        |k: int, d: VariableDeclaration| spec_variable_view(d),
                    ) =~= vars_before.map(
                        |k: int, d: VariableDeclaration| spec_variable_view(d),
                    ).push(spec_variable_view(decl)));
                }
                variable_declarations.push(decl);
            },
            TopItem::Block(block) => {
                proof {
                    assert(blocks_before.push(block).map(
                        |k: int, b: BlockDeclaration| spec_block_view(b),
                    ) =~= blocks_before.map(|k: int, b: BlockDeclaration| spec_block_view(b)).push(
                        spec_block_view(block),
                    ));
                }
                block_declarations.push(block);
            },
            TopItem::Skipped => {},
        }
        pos = next;
    }
    let reflection = ShaderReflection { local_size, variable_declarations, block_declarations };
    proof {
        assert(spec_reflection_view(reflection).variable_declarations
            =~= reflection.variable_declarations@.map(
            |k: int, d: VariableDeclaration| spec_variable_view(d),
        ));
        assert(spec_reflection_view(reflection).block_declarations
            =~= reflection.block_declarations@.map(
            |k: int, b: BlockDeclaration| spec_block_view(b),
        ));
        assert(spec_reflect_tokens(tv) == Some(spec_reflection_view(reflection)));
    }
    Ok(reflection)
}


// ---------------------------------------------------------------------------
// The mathematical declaration model
// ---------------------------------------------------------------------------

/// The mathematical value of a layout identifier.
pub struct SpecLayoutId {
    pub name: Seq<u8>,
    pub value: Option<u32>,
}

/// The mathematical value of a qualifier.
pub enum SpecQualifier {
    Storage(StorageWord),
    LayoutQ(Seq<SpecLayoutId>),
}

/// The mathematical value of an image/sampler variable declaration.
pub struct SpecVariableDeclaration {
    pub name: Seq<u8>,
    pub type_ident: Seq<u8>,
    pub binding: Option<u32>,
    pub set: Option<usize>,
    pub type_format: Option<Seq<u8>>,
}

/// The mathematical value of a block field.
pub struct SpecBlockField {
    pub name: Seq<u8>,
    pub type_ident: Seq<u8>,
    pub offset: Option<u32>,
    pub dimensions: Option<Seq<Option<u32>>>,
}

/// The mathematical value of a block declaration.
pub struct SpecBlockDeclaration {
    pub name: Seq<u8>,
    pub identifier: Option<Seq<u8>>,
    pub storage: BlockStorage,
    pub binding: Option<u32>,
    pub set: Option<usize>,
    pub push_constant: bool,
    pub std140: bool,
    pub fields: Seq<SpecBlockField>,
}

/// The mathematical value of a whole reflection.
pub struct SpecReflection {
    pub local_size: WorkgroupShape,
    pub variable_declarations: Seq<SpecVariableDeclaration>,
    pub block_declarations: Seq<SpecBlockDeclaration>,
}

pub open spec fn spec_layout_id_view(id: LayoutId) -> SpecLayoutId {
    SpecLayoutId { name: id.name@, value: id.value }
}

pub open spec fn spec_layout_ids_view(ids: Seq<LayoutId>) -> Seq<SpecLayoutId> {
    ids.map(|k: int, id: LayoutId| spec_layout_id_view(id))
}

pub open spec fn spec_qualifier_view(q: Qualifier) -> SpecQualifier {
    match q {
        Qualifier::Storage(w) => SpecQualifier::Storage(w),
        Qualifier::LayoutQ(ids) => SpecQualifier::LayoutQ(spec_layout_ids_view(ids@)),
    }
}

pub open spec fn spec_qualifiers_view(qs: Seq<Qualifier>) -> Seq<SpecQualifier> {
    qs.map(|k: int, q: Qualifier| spec_qualifier_view(q))
}

pub open spec fn spec_variable_view(d: VariableDeclaration) -> SpecVariableDeclaration {
    SpecVariableDeclaration {
        name: d.name@,
        type_ident: d.type_ident@,
        binding: d.binding,
        set: d.set,
        type_format: match d.type_format {
            Some(f) => Some(f@),
            None => None,
        },
    }
}

pub open spec fn spec_block_field_view(f: BlockField) -> SpecBlockField {
    SpecBlockField {
        name: f.name@,
        type_ident: f.type_ident@,
        offset: f.offset,
        dimensions: match f.dimensions {
            Some(ds) => Some(ds@),
            None => None,
        },
    }
}

pub open spec fn spec_block_view(b: BlockDeclaration) -> SpecBlockDeclaration {
    SpecBlockDeclaration {
        name: b.name@,
        identifier: match b.identifier {
            Some(id) => Some(id@),
            None => None,
        },
        storage: b.storage,
        binding: b.binding,
        set: b.set,
        push_constant: b.push_constant,
        std140: b.std140,
        fields: b.fields@.map(|k: int, f: BlockField| spec_block_field_view(f)),
    }
}

pub open spec fn spec_reflection_view(r: ShaderReflection) -> SpecReflection {
    SpecReflection {
        local_size: r.local_size,
        variable_declarations: r.variable_declarations@.map(
            |k: int, d: VariableDeclaration| spec_variable_view(d),
        ),
        block_declarations: r.block_declarations@.map(
            |k: int, b: BlockDeclaration| spec_block_view(b),
        ),
    }
}

// The same qualifier folds, over the mathematical qualifier values; each
// is connected to its counterpart by the view lemmas below.

pub open spec fn spec_shape_apply_id_v(
    shape: Option<WorkgroupShape>,
    id: SpecLayoutId,
) -> Option<WorkgroupShape> {
    match shape {
        None => None,
        Some(s) => if id.name == "local_size_x".spec_bytes() {
            match id.value {
                Some(v) => if v >= 1 {
                    Some(WorkgroupShape { x: v, y: s.y, z: s.z })
                } else {
                    None
                },
                None => None,
            }
        } else if id.name == "local_size_y".spec_bytes() {
            match id.value {
                Some(v) => if v >= 1 {
                    Some(WorkgroupShape { x: s.x, y: v, z: s.z })
                } else {
                    None
                },
                None => None,
            }
        } else if id.name == "local_size_z".spec_bytes() {
            match id.value {
                Some(v) => if v >= 1 {
                    Some(WorkgroupShape { x: s.x, y: s.y, z: v })
                } else {
                    None
                },
                None => None,
            }
        } else {
            None
        },
    }
}

pub open spec fn spec_shape_apply_ids_v(
    shape: Option<WorkgroupShape>,
    ids: Seq<SpecLayoutId>,
) -> Option<WorkgroupShape>
    decreases ids.len(),
{
    if ids.len() == 0 {
        shape
    } else {
        spec_shape_apply_id_v(spec_shape_apply_ids_v(shape, ids.drop_last()), ids.last())
    }
}

pub open spec fn spec_shape_fold_v(
    shape: Option<WorkgroupShape>,
    quals: Seq<SpecQualifier>,
) -> Option<WorkgroupShape>
    decreases quals.len(),
{
    if quals.len() == 0 {
        shape
    } else {
        let prev = spec_shape_fold_v(shape, quals.drop_last());
        match quals.last() {
            SpecQualifier::Storage(StorageWord::In) => prev,
            SpecQualifier::Storage(_) => None,
            SpecQualifier::LayoutQ(ids) => spec_shape_apply_ids_v(prev, ids),
        }
    }
}

pub open spec fn spec_globals_shape_v(quals: Seq<SpecQualifier>) -> Option<WorkgroupShape> {
    spec_shape_fold_v(Some(WorkgroupShape { x: 1, y: 1, z: 1 }), quals)
}

pub open spec fn spec_apply_variable_id_v(
    acc: Option<VariableQualifiers>,
    id: SpecLayoutId,
) -> Option<VariableQualifiers> {
    match acc {
        None => None,
        Some(a) => if id.name == "binding".spec_bytes() {
            match id.value {
                Some(v) => Some(VariableQualifiers { binding: Some(v), ..a }),
                None => None,
            }
        } else if id.name == "set".spec_bytes() {
            match id.value {
                Some(v) => Some(VariableQualifiers { set: Some(v as usize), ..a }),
                None => None,
            }
        } else if id.name == "rgba32f".spec_bytes() {
            match id.value {
                Some(_) => None,
                None => Some(VariableQualifiers { rgba32f: true, ..a }),
            }
        } else {
            None
        },
    }
}

pub open spec fn spec_apply_variable_ids_v(
    acc: Option<VariableQualifiers>,
    ids: Seq<SpecLayoutId>,
) -> Option<VariableQualifiers>
    decreases ids.len(),
{
    if ids.len() == 0 {
        acc
    } else {
        spec_apply_variable_id_v(spec_apply_variable_ids_v(acc, ids.drop_last()), ids.last())
    }
}

pub open spec fn spec_variable_fold_v(
    quals: Seq<SpecQualifier>,
    acc: VariableQualifiers,
) -> Option<Option<VariableQualifiers>>
    decreases quals.len(),
{
    if quals.len() == 0 {
        Some(Some(acc))
    } else {
        match quals[0] {
            SpecQualifier::Storage(StorageWord::Const) => Some(None),
            SpecQualifier::Storage(StorageWord::Uniform) => spec_variable_fold_v(
                quals.drop_first(),
                acc,
            ),
            SpecQualifier::Storage(_) => None,
            SpecQualifier::LayoutQ(ids) => match spec_apply_variable_ids_v(Some(acc), ids) {
                None => None,
                Some(a) => spec_variable_fold_v(quals.drop_first(), a),
            },
        }
    }
}

pub open spec fn spec_apply_block_id_v(
    acc: Option<BlockQualifiers>,
    id: SpecLayoutId,
) -> Option<BlockQualifiers> {
    match acc {
        None => None,
        Some(a) => if id.name == "binding".spec_bytes() {
            match id.value {
                Some(v) => Some(BlockQualifiers { binding: Some(v), ..a }),
                None => None,
            }
        } else if id.name == "set".spec_bytes() {
            match id.value {
                Some(v) => Some(BlockQualifiers { set: Some(v as usize), ..a }),
                None => None,
            }
        } else if id.name == "push_constant".spec_bytes() {
            match id.value {
                Some(_) => None,
                None => Some(BlockQualifiers { push_constant: true, ..a }),
            }
        } else if id.name == "std140".spec_bytes() {
            match id.value {
                Some(_) => None,
                None => Some(BlockQualifiers { std140: true, ..a }),
            }
        } else {
            None
        },
    }
}

pub open spec fn spec_apply_block_ids_v(
    acc: Option<BlockQualifiers>,
    ids: Seq<SpecLayoutId>,
) -> Option<BlockQualifiers>
    decreases ids.len(),
{
    if ids.len() == 0 {
        acc
    } else {
        spec_apply_block_id_v(spec_apply_block_ids_v(acc, ids.drop_last()), ids.last())
    }
}

pub open spec fn spec_block_fold_v(
    quals: Seq<SpecQualifier>,
    acc: BlockQualifiers,
) -> Option<BlockQualifiers>
    decreases quals.len(),
{
    if quals.len() == 0 {
        Some(acc)
    } else {
        match quals[0] {
            SpecQualifier::Storage(StorageWord::Uniform) => spec_block_fold_v(
                quals.drop_first(),
                BlockQualifiers { storage: Some(BlockStorage::UniformBuffer), ..acc },
            ),
            SpecQualifier::Storage(StorageWord::Buffer) => spec_block_fold_v(
                quals.drop_first(),
                BlockQualifiers { storage: Some(BlockStorage::StorageBuffer), ..acc },
            ),
            SpecQualifier::Storage(_) => None,
            SpecQualifier::LayoutQ(ids) => match spec_apply_block_ids_v(Some(acc), ids) {
                None => None,
                Some(a) => spec_block_fold_v(quals.drop_first(), a),
            },
        }
    }
}

pub open spec fn spec_apply_field_ids_v(
    acc: Option<Option<u32>>,
    ids: Seq<SpecLayoutId>,
) -> Option<Option<u32>>
    decreases ids.len(),
{
    if ids.len() == 0 {
        acc
    } else {
        let prev = spec_apply_field_ids_v(acc, ids.drop_last());
        match prev {
            None => None,
            Some(_) => if ids.last().name == "offset".spec_bytes() {
                match ids.last().value {
                    Some(v) => Some(Some(v)),
                    None => None,
                }
            } else {
                None
            },
        }
    }
}

pub open spec fn spec_field_fold_v(quals: Seq<SpecQualifier>, acc: Option<u32>) -> Option<
    Option<u32>,
>
    decreases quals.len(),
{
    if quals.len() == 0 {
        Some(acc)
    } else {
        match quals[0] {
            SpecQualifier::Storage(_) => None,
            SpecQualifier::LayoutQ(ids) => match spec_apply_field_ids_v(Some(acc), ids) {
                None => None,
                Some(a) => spec_field_fold_v(quals.drop_first(), a),
            },
        }
    }
}

// The view folds agree with the folds over the executable qualifier
// values.

proof fn lemma_shape_ids_view(shape: Option<WorkgroupShape>, ids: Seq<LayoutId>)
    ensures
        spec_shape_apply_ids_v(shape, spec_layout_ids_view(ids)) == spec_shape_apply_ids(
            shape,
            ids,
        ),
    decreases ids.len(),
{
    if ids.len() > 0 {
        lemma_shape_ids_view(shape, ids.drop_last());
        assert(spec_layout_ids_view(ids).drop_last() =~= spec_layout_ids_view(ids.drop_last()));
        assert(spec_layout_ids_view(ids).last() == spec_layout_id_view(ids.last()));
    }
}

proof fn lemma_shape_fold_view(shape: Option<WorkgroupShape>, quals: Seq<Qualifier>)
    ensures
        spec_shape_fold_v(shape, spec_qualifiers_view(quals)) == spec_shape_fold(shape, quals),
    decreases quals.len(),
{
    if quals.len() > 0 {
        lemma_shape_fold_view(shape, quals.drop_last());
        assert(spec_qualifiers_view(quals).drop_last() =~= spec_qualifiers_view(
            quals.drop_last(),
        ));
        assert(spec_qualifiers_view(quals).last() == spec_qualifier_view(quals.last()));
        match quals.last() {
            Qualifier::LayoutQ(ids) => {
                lemma_shape_ids_view(spec_shape_fold(shape, quals.drop_last()), ids@);
            },
            _ => {},
        }
    }
}

proof fn lemma_variable_ids_view(acc: Option<VariableQualifiers>, ids: Seq<LayoutId>)
    ensures
        spec_apply_variable_ids_v(acc, spec_layout_ids_view(ids)) == spec_apply_variable_ids(
            acc,
            ids,
        ),
    decreases ids.len(),
{
    if ids.len() > 0 {
        lemma_variable_ids_view(acc, ids.drop_last());
        assert(spec_layout_ids_view(ids).drop_last() =~= spec_layout_ids_view(ids.drop_last()));
        assert(spec_layout_ids_view(ids).last() == spec_layout_id_view(ids.last()));
    }
}

proof fn lemma_variable_fold_view(quals: Seq<Qualifier>, acc: VariableQualifiers)
    ensures
        spec_variable_fold_v(spec_qualifiers_view(quals), acc) == spec_variable_fold(
            quals,
            acc,
        ),
    decreases quals.len(),
{
    if quals.len() > 0 {
        assert(spec_qualifiers_view(quals)[0] == spec_qualifier_view(quals[0]));
        assert(spec_qualifiers_view(quals).drop_first() =~= spec_qualifiers_view(
            quals.drop_first(),
        ));
        match quals[0] {
            Qualifier::Storage(StorageWord::Uniform) => {
                lemma_variable_fold_view(quals.drop_first(), acc);
            },
            Qualifier::LayoutQ(ids) => {
                lemma_variable_ids_view(Some(acc), ids@);
                match spec_apply_variable_ids(Some(acc), ids@) {
                    Some(a) => {
                        lemma_variable_fold_view(quals.drop_first(), a);
                    },
                    None => {},
                }
            },
            _ => {},
        }
    }
}

proof fn lemma_block_ids_view(acc: Option<BlockQualifiers>, ids: Seq<LayoutId>)
    ensures
        spec_apply_block_ids_v(acc, spec_layout_ids_view(ids)) == spec_apply_block_ids(acc, ids),
    decreases ids.len(),
{
    if ids.len() > 0 {
        lemma_block_ids_view(acc, ids.drop_last());
        assert(spec_layout_ids_view(ids).drop_last() =~= spec_layout_ids_view(ids.drop_last()));
        assert(spec_layout_ids_view(ids).last() == spec_layout_id_view(ids.last()));
    }
}

proof fn lemma_block_fold_view(quals: Seq<Qualifier>, acc: BlockQualifiers)
    ensures
        spec_block_fold_v(spec_qualifiers_view(quals), acc) == spec_block_fold(quals, acc),
    decreases quals.len(),
{
    if quals.len() > 0 {
        assert(spec_qualifiers_view(quals)[0] == spec_qualifier_view(quals[0]));
        assert(spec_qualifiers_view(quals).drop_first() =~= spec_qualifiers_view(
            quals.drop_first(),
        ));
        match quals[0] {
            Qualifier::Storage(StorageWord::Uniform) => {
                lemma_block_fold_view(
                    quals.drop_first(),
                    BlockQualifiers { storage: Some(BlockStorage::UniformBuffer), ..acc },
                );
            },
            Qualifier::Storage(StorageWord::Buffer) => {
                lemma_block_fold_view(
                    quals.drop_first(),
                    BlockQualifiers { storage: Some(BlockStorage::StorageBuffer), ..acc },
                );
            },
            Qualifier::LayoutQ(ids) => {
                lemma_block_ids_view(Some(acc), ids@);
                match spec_apply_block_ids(Some(acc), ids@) {
                    Some(a) => {
                        lemma_block_fold_view(quals.drop_first(), a);
                    },
                    None => {},
                }
            },
            _ => {},
        }
    }
}

proof fn lemma_field_ids_view(acc: Option<Option<u32>>, ids: Seq<LayoutId>)
    ensures
        spec_apply_field_ids_v(acc, spec_layout_ids_view(ids)) == spec_apply_field_ids(acc, ids),
    decreases ids.len(),
{
    if ids.len() > 0 {
        lemma_field_ids_view(acc, ids.drop_last());
        assert(spec_layout_ids_view(ids).drop_last() =~= spec_layout_ids_view(ids.drop_last()));
        assert(spec_layout_ids_view(ids).last() == spec_layout_id_view(ids.last()));
    }
}

proof fn lemma_field_fold_view(quals: Seq<Qualifier>, acc: Option<u32>)
    ensures
        spec_field_fold_v(spec_qualifiers_view(quals), acc) == spec_field_fold(quals, acc),
    decreases quals.len(),
{
    if quals.len() > 0 {
        assert(spec_qualifiers_view(quals)[0] == spec_qualifier_view(quals[0]));
        assert(spec_qualifiers_view(quals).drop_first() =~= spec_qualifiers_view(
            quals.drop_first(),
        ));
        match quals[0] {
            Qualifier::LayoutQ(ids) => {
                lemma_field_ids_view(Some(acc), ids@);
                match spec_apply_field_ids(Some(acc), ids@) {
                    Some(a) => {
                        lemma_field_fold_view(quals.drop_first(), a);
                    },
                    None => {},
                }
            },
            _ => {},
        }
    }
}


// ---------------------------------------------------------------------------
// The mathematical parser: one spec function per walker, mirroring it
// token for token.  The bound checks guarding each recursive call always
// hold (positions only move forward within the tokens); they stand
// written so the recursion visibly terminates.
// ---------------------------------------------------------------------------

/// What one top-level declaration contributes, as a mathematical value.
pub enum SpecItem {
    Globals(WorkgroupShape),
    Variable(SpecVariableDeclaration),
    Block(SpecBlockDeclaration),
    Skipped,
}

/// Whether this identifier is a qualifier word of the full language that
/// this subset recognizes but supports nowhere.
pub open spec fn spec_is_other_qualifier_word(name: Seq<u8>) -> bool {
    ||| name == "out".spec_bytes()
    ||| name == "inout".spec_bytes()
    ||| name == "shared".spec_bytes()
    ||| name == "coherent".spec_bytes()
    ||| name == "volatile".spec_bytes()
    ||| name == "restrict".spec_bytes()
    ||| name == "readonly".spec_bytes()
    ||| name == "writeonly".spec_bytes()
    ||| name == "flat".spec_bytes()
    ||| name == "smooth".spec_bytes()
    ||| name == "noperspective".spec_bytes()
    ||| name == "centroid".spec_bytes()
    ||| name == "patch".spec_bytes()
    ||| name == "sample".spec_bytes()
    ||| name == "precise".spec_bytes()
    ||| name == "highp".spec_bytes()
    ||| name == "mediump".spec_bytes()
    ||| name == "lowp".spec_bytes()
    ||| name == "invariant".spec_bytes()
}

/// One `name [= int]` item of a layout list.
pub open spec fn spec_one_layout_id(toks: Seq<SpecTok>, i: int) -> Option<(SpecLayoutId, int)> {
    if i < 0 || i >= toks.len() {
        None
    } else {
        match toks[i] {
            SpecTok::Ident(name) => if i + 1 < toks.len() && toks[i + 1] == SpecTok::Sym(61u8) {
                if i + 2 < toks.len() {
                    match toks[i + 2] {
                        SpecTok::Int { value, overflow } => if overflow {
                            None
                        } else {
                            Some((SpecLayoutId { name, value: Some(value) }, i + 3))
                        },
                        _ => None,
                    }
                } else {
                    None
                }
            } else {
                Some((SpecLayoutId { name, value: None }, i + 1))
            },
            _ => None,
        }
    }
}

/// The comma-separated items of a layout list, up to the closing `)`.
pub open spec fn spec_layout_items(toks: Seq<SpecTok>, i: int) -> Option<(Seq<SpecLayoutId>, int)>
    decreases toks.len() - i,
{
    match spec_one_layout_id(toks, i) {
        None => None,
        Some((id, j)) => if j >= toks.len() {
            None
        } else if toks[j] == SpecTok::Sym(44u8) {
            if i < j + 1 <= toks.len() {
                match spec_layout_items(toks, j + 1) {
                    None => None,
                    Some((rest, end)) => Some((seq![id] + rest, end)),
                }
            } else {
                None
            }
        } else if toks[j] == SpecTok::Sym(41u8) {
            Some((seq![id], j + 1))
        } else {
            None
        },
    }
}

/// `( name [= int] , ... )` after the word `layout`.
pub open spec fn spec_layout_list(toks: Seq<SpecTok>, pos: int) -> Option<(Seq<SpecLayoutId>, int)> {
    if pos < 0 || pos >= toks.len() {
        None
    } else if toks[pos] == SpecTok::Sym(40u8) {
        spec_layout_items(toks, pos + 1)
    } else {
        None
    }
}

/// The qualifiers standing before a declaration.
pub open spec fn spec_parse_qualifiers(toks: Seq<SpecTok>, i: int) -> Option<(
    Seq<SpecQualifier>,
    int,
)>
    decreases toks.len() - i,
{
    if i < 0 || i >= toks.len() {
        Some((Seq::empty(), i))
    } else {
        match toks[i] {
            SpecTok::Ident(word) => if word == "layout".spec_bytes() {
                match spec_layout_list(toks, i + 1) {
                    None => None,
                    Some((ids, next)) => if i < next <= toks.len() {
                        match spec_parse_qualifiers(toks, next) {
                            None => None,
                            Some((rest, end)) => Some(
                                (seq![SpecQualifier::LayoutQ(ids)] + rest, end),
                            ),
                        }
                    } else {
                        None
                    },
                }
            } else if word == "in".spec_bytes() {
                match spec_parse_qualifiers(toks, i + 1) {
                    None => None,
                    Some((rest, end)) => Some(
                        (seq![SpecQualifier::Storage(StorageWord::In)] + rest, end),
                    ),
                }
            } else if word == "uniform".spec_bytes() {
                match spec_parse_qualifiers(toks, i + 1) {
                    None => None,
                    Some((rest, end)) => Some(
                        (seq![SpecQualifier::Storage(StorageWord::Uniform)] + rest, end),
                    ),
                }
            } else if word == "buffer".spec_bytes() {
                match spec_parse_qualifiers(toks, i + 1) {
                    None => None,
                    Some((rest, end)) => Some(
                        (seq![SpecQualifier::Storage(StorageWord::Buffer)] + rest, end),
                    ),
                }
            } else if word == "const".spec_bytes() {
                match spec_parse_qualifiers(toks, i + 1) {
                    None => None,
                    Some((rest, end)) => Some(
                        (seq![SpecQualifier::Storage(StorageWord::Const)] + rest, end),
                    ),
                }
            } else if spec_is_other_qualifier_word(word) {
                match spec_parse_qualifiers(toks, i + 1) {
                    None => None,
                    Some((rest, end)) => Some(
                        (seq![SpecQualifier::Storage(StorageWord::Other)] + rest, end),
                    ),
                }
            } else {
                Some((Seq::empty(), i))
            },
            _ => Some((Seq::empty(), i)),
        }
    }
}

/// The position after the region that closes the `depth` open delimiters.
pub open spec fn spec_skip_loop(toks: Seq<SpecTok>, i: int, depth: int, open: u8, close: u8) -> Option<
    int,
>
    decreases toks.len() - i,
{
    if depth <= 0 {
        Some(i)
    } else if i < 0 || i >= toks.len() {
        None
    } else {
        let d2 = match toks[i] {
            SpecTok::Sym(b) => if b == open {
                depth + 1
            } else if b == close {
                depth - 1
            } else {
                depth
            },
            _ => depth,
        };
        spec_skip_loop(toks, i + 1, d2, open, close)
    }
}

/// A balanced `open ... close` region starting at `pos`.
pub open spec fn spec_skip_balanced(toks: Seq<SpecTok>, pos: int, open: u8, close: u8) -> Option<
    int,
> {
    if pos < 0 || pos >= toks.len() {
        None
    } else if toks[pos] == SpecTok::Sym(open) {
        spec_skip_loop(toks, pos + 1, 1, open, close)
    } else {
        None
    }
}

/// The walk of a declarator to its terminating `;`, tracking an
/// initializer and extra declarators at nesting depth zero.
pub open spec fn spec_scan_declarator(
    toks: Seq<SpecTok>,
    i: int,
    has_init: bool,
    has_tail: bool,
    parens: int,
    braces: int,
    brackets: int,
) -> Option<(bool, bool, int)>
    decreases toks.len() - i,
{
    if i < 0 || i >= toks.len() {
        None
    } else {
        let depth0 = parens == 0 && braces == 0 && brackets == 0;
        match toks[i] {
            SpecTok::Sym(59u8) => if depth0 {
                Some((has_init, has_tail, i + 1))
            } else {
                spec_scan_declarator(toks, i + 1, has_init, has_tail, parens, braces, brackets)
            },
            SpecTok::Sym(61u8) => spec_scan_declarator(
                toks,
                i + 1,
                if depth0 { true } else { has_init },
                has_tail,
                parens,
                braces,
                brackets,
            ),
            SpecTok::Sym(44u8) => spec_scan_declarator(
                toks,
                i + 1,
                has_init,
                if depth0 { true } else { has_tail },
                parens,
                braces,
                brackets,
            ),
            SpecTok::Sym(40u8) => spec_scan_declarator(
                toks, i + 1, has_init, has_tail, parens + 1, braces, brackets,
            ),
            SpecTok::Sym(41u8) => spec_scan_declarator(
                toks,
                i + 1,
                has_init,
                has_tail,
                if parens > 0 { parens - 1 } else { parens },
                braces,
                brackets,
            ),
            SpecTok::Sym(123u8) => spec_scan_declarator(
                toks, i + 1, has_init, has_tail, parens, braces + 1, brackets,
            ),
            SpecTok::Sym(125u8) => spec_scan_declarator(
                toks,
                i + 1,
                has_init,
                has_tail,
                parens,
                if braces > 0 { braces - 1 } else { braces },
                brackets,
            ),
            SpecTok::Sym(91u8) => spec_scan_declarator(
                toks, i + 1, has_init, has_tail, parens, braces, brackets + 1,
            ),
            SpecTok::Sym(93u8) => spec_scan_declarator(
                toks,
                i + 1,
                has_init,
                has_tail,
                parens,
                braces,
                if brackets > 0 { brackets - 1 } else { brackets },
            ),
            _ => spec_scan_declarator(toks, i + 1, has_init, has_tail, parens, braces, brackets),
        }
    }
}

/// The array dimensions of a block field, one `[n]` or `[]` at a time.
pub open spec fn spec_dims_items(toks: Seq<SpecTok>, j: int) -> Option<(Seq<Option<u32>>, int)>
    decreases toks.len() - j,
{
    if j < 0 || j >= toks.len() {
        Some((Seq::empty(), j))
    } else if !(toks[j] == SpecTok::Sym(91u8)) {
        Some((Seq::empty(), j))
    } else {
        if j + 1 >= toks.len() {
            None
        } else {
            let dim_next: Option<(Option<u32>, int)> = match toks[j + 1] {
                SpecTok::Sym(93u8) => Some((None, j + 2)),
                SpecTok::Int { value, overflow } => if overflow {
                    None
                } else if j + 2 >= toks.len() {
                    None
                } else if toks[j + 2] == SpecTok::Sym(93u8) {
                    Some((Some(value), j + 3))
                } else {
                    None
                },
                _ => None,
            };
            match dim_next {
                None => None,
                Some((dim, next)) => if j < next <= toks.len() {
                    match spec_dims_items(toks, next) {
                        None => None,
                        Some((rest, end)) => Some((seq![dim] + rest, end)),
                    }
                } else {
                    None
                },
            }
        }
    }
}

/// One field of a block body.
pub open spec fn spec_one_field(toks: Seq<SpecTok>, i: int) -> Option<(SpecBlockField, int)> {
    match spec_parse_qualifiers(toks, i) {
        None => None,
        Some((quals, aq)) => match spec_field_fold_v(quals, None) {
            None => None,
            Some(offset) => if aq >= toks.len() {
                None
            } else {
                match toks[aq] {
                    SpecTok::Ident(type_ident) => if aq + 1 >= toks.len() {
                        None
                    } else {
                        match toks[aq + 1] {
                            SpecTok::Ident(field_name) => match spec_dims_items(toks, aq + 2) {
                                None => None,
                                Some((dims, j)) => if j >= toks.len() {
                                    None
                                } else if toks[j] == SpecTok::Sym(59u8) {
                                    Some(
                                        (
                                            SpecBlockField {
                                                name: field_name,
                                                type_ident,
                                                offset,
                                                dimensions: if dims.len() == 0 {
                                                    None
                                                } else {
                                                    Some(dims)
                                                },
                                            },
                                            j + 1,
                                        ),
                                    )
                                } else {
                                    None
                                },
                            },
                            _ => None,
                        }
                    },
                    _ => None,
                }
            },
        },
    }
}

/// The fields of a block body up to its closing `}`.
pub open spec fn spec_field_items(toks: Seq<SpecTok>, i: int) -> Option<(Seq<SpecBlockField>, int)>
    decreases toks.len() - i,
{
    if i < 0 || i >= toks.len() {
        None
    } else if toks[i] == SpecTok::Sym(125u8) {
        Some((Seq::empty(), i + 1))
    } else {
        match spec_one_field(toks, i) {
            None => None,
            Some((field, next)) => if i < next <= toks.len() {
                match spec_field_items(toks, next) {
                    None => None,
                    Some((rest, end)) => Some((seq![field] + rest, end)),
                }
            } else {
                None
            },
        }
    }
}

/// A block body `{ ... }` starting at its `{`.
pub open spec fn spec_block_fields(toks: Seq<SpecTok>, pos: int) -> Option<(
    Seq<SpecBlockField>,
    int,
)> {
    if pos < 0 || pos >= toks.len() {
        None
    } else if toks[pos] == SpecTok::Sym(123u8) {
        spec_field_items(toks, pos + 1)
    } else {
        None
    }
}

/// The array specifiers after a variable's name.
pub open spec fn spec_var_arrays(toks: Seq<SpecTok>, i: int) -> Option<(bool, int)>
    decreases toks.len() - i,
{
    if i < 0 || i >= toks.len() {
        Some((false, i))
    } else if !(toks[i] == SpecTok::Sym(91u8)) {
        Some((false, i))
    } else {
        match spec_skip_balanced(toks, i, 91, 93) {
            None => None,
            Some(next) => if i < next <= toks.len() {
                match spec_var_arrays(toks, next) {
                    None => None,
                    Some((_, end)) => Some((true, end)),
                }
            } else {
                None
            },
        }
    }
}

/// One top-level declaration starting at `pos`.
pub open spec fn spec_declaration(toks: Seq<SpecTok>, pos: int) -> Option<(SpecItem, int)> {
    if pos < 0 || pos >= toks.len() {
        None
    } else if toks[pos] == SpecTok::Sym(59u8) {
        Some((SpecItem::Skipped, pos + 1))
    } else if (match toks[pos] {
        SpecTok::Ident(w) => w == "precision".spec_bytes(),
        _ => false,
    }) {
        match spec_scan_declarator(toks, pos, false, false, 0, 0, 0) {
            None => None,
            Some((_, _, next)) => Some((SpecItem::Skipped, next)),
        }
    } else {
        match spec_parse_qualifiers(toks, pos) {
            None => None,
            Some((quals, aq)) => if aq >= toks.len() {
                None
            } else if toks[aq] == SpecTok::Sym(59u8) {
                if quals.len() == 0 {
                    Some((SpecItem::Skipped, aq + 1))
                } else {
                    match spec_globals_shape_v(quals) {
                        None => None,
                        Some(shape) => Some((SpecItem::Globals(shape), aq + 1)),
                    }
                }
            } else {
                match toks[aq] {
                    SpecTok::Ident(type_ident) => {
                        let at = aq + 1;
                        if at >= toks.len() {
                            None
                        } else if toks[at] == SpecTok::Sym(123u8) {
                            spec_block_declaration(toks, quals, type_ident, at)
                        } else {
                            match toks[at] {
                                SpecTok::Ident(var_name) => spec_after_names(
                                    toks, quals, type_ident, var_name, at + 1,
                                ),
                                _ => None,
                            }
                        }
                    },
                    _ => None,
                }
            },
        }
    }
}

/// A block declaration, after its name, starting at its `{`.
pub open spec fn spec_block_declaration(
    toks: Seq<SpecTok>,
    quals: Seq<SpecQualifier>,
    block_name: Seq<u8>,
    at: int,
) -> Option<(SpecItem, int)> {
    match spec_block_fold_v(quals, spec_default_block_qualifiers()) {
        None => None,
        Some(bq) => match bq.storage {
            None => None,
            Some(storage) => match spec_block_fields(toks, at) {
                None => None,
                Some((fields, af)) => if af >= toks.len() {
                    None
                } else {
                    match toks[af] {
                        SpecTok::Ident(inst) => if af + 1 >= toks.len() {
                            None
                        } else if toks[af + 1] == SpecTok::Sym(91u8) {
                            None
                        } else if toks[af + 1] == SpecTok::Sym(59u8) {
                            Some(
                                (
                                    SpecItem::Block(SpecBlockDeclaration {
                                        name: block_name,
                                        identifier: Some(inst),
                                        storage,
                                        binding: bq.binding,
                                        set: bq.set,
                                        push_constant: bq.push_constant,
                                        std140: bq.std140,
                                        fields,
                                    }),
                                    af + 2,
                                ),
                            )
                        } else {
                            None
                        },
                        _ => if toks[af] == SpecTok::Sym(59u8) {
                            Some(
                                (
                                    SpecItem::Block(SpecBlockDeclaration {
                                        name: block_name,
                                        identifier: None,
                                        storage,
                                        binding: bq.binding,
                                        set: bq.set,
                                        push_constant: bq.push_constant,
                                        std140: bq.std140,
                                        fields,
                                    }),
                                    af + 1,
                                ),
                            )
                        } else {
                            None
                        },
                    }
                },
            },
        },
    }
}

/// A function (skipped) or a single-variable declaration, after the type
/// and declarator names.
pub open spec fn spec_after_names(
    toks: Seq<SpecTok>,
    quals: Seq<SpecQualifier>,
    type_ident: Seq<u8>,
    var_name: Seq<u8>,
    an: int,
) -> Option<(SpecItem, int)> {
    if an >= toks.len() {
        None
    } else if toks[an] == SpecTok::Sym(40u8) {
        match spec_skip_balanced(toks, an, 40, 41) {
            None => None,
            Some(ap) => if ap >= toks.len() {
                None
            } else if toks[ap] == SpecTok::Sym(123u8) {
                match spec_skip_balanced(toks, ap, 123, 125) {
                    None => None,
                    Some(ab) => Some((SpecItem::Skipped, ab)),
                }
            } else if toks[ap] == SpecTok::Sym(59u8) {
                Some((SpecItem::Skipped, ap + 1))
            } else {
                None
            },
        }
    } else if quals.len() == 0 {
        None
    } else {
        match spec_var_arrays(toks, an) {
            None => None,
            Some((has_array, aj)) => match spec_scan_declarator(toks, aj, false, false, 0, 0, 0) {
                None => None,
                Some((has_init, has_tail, next)) => match spec_variable_fold_v(
                    quals,
                    spec_default_variable_qualifiers(),
                ) {
                    None => None,
                    Some(None) => Some((SpecItem::Skipped, next)),
                    Some(Some(attrs)) => if has_array || has_init || has_tail {
                        None
                    } else {
                        Some(
                            (
                                SpecItem::Variable(SpecVariableDeclaration {
                                    name: var_name,
                                    type_ident,
                                    binding: attrs.binding,
                                    set: attrs.set,
                                    type_format: if attrs.rgba32f {
                                        Some("rgba32f".spec_bytes())
                                    } else {
                                        None
                                    },
                                }),
                                next,
                            ),
                        )
                    },
                },
            },
        }
    }
}

/// The whole reflection from position `i` on, with what has been
/// collected so far.
pub open spec fn spec_reflect_from(
    toks: Seq<SpecTok>,
    i: int,
    shape: WorkgroupShape,
    vars: Seq<SpecVariableDeclaration>,
    blocks: Seq<SpecBlockDeclaration>,
) -> Option<SpecReflection>
    decreases toks.len() - i,
{
    if i >= toks.len() {
        Some(
            SpecReflection {
                local_size: shape,
                variable_declarations: vars,
                block_declarations: blocks,
            },
        )
    } else {
        match spec_declaration(toks, i) {
            None => None,
            Some((item, next)) => if i < next <= toks.len() {
                match item {
                    SpecItem::Globals(s) => spec_reflect_from(toks, next, s, vars, blocks),
                    SpecItem::Variable(d) => spec_reflect_from(
                        toks, next, shape, vars.push(d), blocks,
                    ),
                    SpecItem::Block(b) => spec_reflect_from(
                        toks, next, shape, vars, blocks.push(b),
                    ),
                    SpecItem::Skipped => spec_reflect_from(toks, next, shape, vars, blocks),
                }
            } else {
                None
            },
        }
    }
}

/// The reflection of a token sequence.
pub open spec fn spec_reflect_tokens(toks: Seq<SpecTok>) -> Option<SpecReflection> {
    spec_reflect_from(
        toks,
        0,
        WorkgroupShape { x: 1, y: 1, z: 1 },
        Seq::empty(),
        Seq::empty(),
    )
}

/// The reflection of shader source bytes: tokenize, then walk the
/// top-level declarations; `None` exactly when the source is outside the
/// grammar subset.
pub open spec fn spec_reflect(source: Seq<u8>) -> Option<SpecReflection> {
    match crate::lex::spec_lex(source) {
        None => None,
        Some(toks) => spec_reflect_tokens(toks),
    }
}

} // verus!
