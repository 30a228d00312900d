//! Declarations recovered from shader source.
//!
//! The reflector produces a workgroup shape, a list of image/sampler variable
//! declarations and a list of block declarations.  Field byte sizes are a
//! fixed function of the type tag; a tag without a known size poisons the
//! whole block's size, which is then reported unknown and never defaulted.

use vstd::prelude::*;
use vstd::string::*;

use crate::error::Error;
use crate::error::LayoutError;

verus! {

/// The scalar/vector/matrix type tags with a documented fixed byte size,
/// plus `Other` for any spelling this table does not cover.
#[derive(Debug, Clone, Copy, PartialEq, Eq, Structural)]
pub enum TypeTag {
    Void,
    Bool,
    Int,
    UInt,
    Float,
    Double,
    Vec2,
    Vec3,
    Vec4,
    IVec2,
    IVec3,
    IVec4,
    UVec2,
    UVec3,
    UVec4,
    Mat2,
    Mat3,
    Mat4,
    Mat23,
    Mat24,
    Mat32,
    Mat34,
    Mat42,
    Mat43,
    Other,
}

/// The type tag a type identifier denotes; unknown spellings are `Other`
/// and have no size.
pub open spec fn spec_type_tag_of(name: Seq<u8>) -> TypeTag {
    if name == "void".spec_bytes() { TypeTag::Void }
    else if name == "bool".spec_bytes() { TypeTag::Bool }
    else if name == "int".spec_bytes() { TypeTag::Int }
    else if name == "uint".spec_bytes() { TypeTag::UInt }
    else if name == "float".spec_bytes() { TypeTag::Float }
    else if name == "double".spec_bytes() { TypeTag::Double }
    else if name == "vec2".spec_bytes() { TypeTag::Vec2 }
    else if name == "vec3".spec_bytes() { TypeTag::Vec3 }
    else if name == "vec4".spec_bytes() { TypeTag::Vec4 }
    else if name == "ivec2".spec_bytes() { TypeTag::IVec2 }
    else if name == "ivec3".spec_bytes() { TypeTag::IVec3 }
    else if name == "ivec4".spec_bytes() { TypeTag::IVec4 }
    else if name == "uvec2".spec_bytes() { TypeTag::UVec2 }
    else if name == "uvec3".spec_bytes() { TypeTag::UVec3 }
    else if name == "uvec4".spec_bytes() { TypeTag::UVec4 }
    else if name == "mat2".spec_bytes() { TypeTag::Mat2 }
    else if name == "mat3".spec_bytes() { TypeTag::Mat3 }
    else if name == "mat4".spec_bytes() { TypeTag::Mat4 }
    else if name == "mat2x3".spec_bytes() { TypeTag::Mat23 }
    else if name == "mat2x4".spec_bytes() { TypeTag::Mat24 }
    else if name == "mat3x2".spec_bytes() { TypeTag::Mat32 }
    else if name == "mat3x4".spec_bytes() { TypeTag::Mat34 }
    else if name == "mat4x2".spec_bytes() { TypeTag::Mat42 }
    else if name == "mat4x3".spec_bytes() { TypeTag::Mat43 }
    else { TypeTag::Other }
}

/// Map a type identifier to its tag.
pub fn type_tag_from_ident(name: &Vec<u8>) -> (tag: TypeTag)
    ensures
        tag == spec_type_tag_of(name@),
{
    if crate::text::bytes_eq(name.as_slice(), "void".as_bytes()) { TypeTag::Void }
    else if crate::text::bytes_eq(name.as_slice(), "bool".as_bytes()) { TypeTag::Bool }
    else if crate::text::bytes_eq(name.as_slice(), "int".as_bytes()) { TypeTag::Int }
    else if crate::text::bytes_eq(name.as_slice(), "uint".as_bytes()) { TypeTag::UInt }
    else if crate::text::bytes_eq(name.as_slice(), "float".as_bytes()) { TypeTag::Float }
    else if crate::text::bytes_eq(name.as_slice(), "double".as_bytes()) { TypeTag::Double }
    else if crate::text::bytes_eq(name.as_slice(), "vec2".as_bytes()) { TypeTag::Vec2 }
    else if crate::text::bytes_eq(name.as_slice(), "vec3".as_bytes()) { TypeTag::Vec3 }
    else if crate::text::bytes_eq(name.as_slice(), "vec4".as_bytes()) { TypeTag::Vec4 }
    else if crate::text::bytes_eq(name.as_slice(), "ivec2".as_bytes()) { TypeTag::IVec2 }
    else if crate::text::bytes_eq(name.as_slice(), "ivec3".as_bytes()) { TypeTag::IVec3 }
    else if crate::text::bytes_eq(name.as_slice(), "ivec4".as_bytes()) { TypeTag::IVec4 }
    else if crate::text::bytes_eq(name.as_slice(), "uvec2".as_bytes()) { TypeTag::UVec2 }
    else if crate::text::bytes_eq(name.as_slice(), "uvec3".as_bytes()) { TypeTag::UVec3 }
    else if crate::text::bytes_eq(name.as_slice(), "uvec4".as_bytes()) { TypeTag::UVec4 }
    else if crate::text::bytes_eq(name.as_slice(), "mat2".as_bytes()) { TypeTag::Mat2 }
    else if crate::text::bytes_eq(name.as_slice(), "mat3".as_bytes()) { TypeTag::Mat3 }
    else if crate::text::bytes_eq(name.as_slice(), "mat4".as_bytes()) { TypeTag::Mat4 }
    else if crate::text::bytes_eq(name.as_slice(), "mat2x3".as_bytes()) { TypeTag::Mat23 }
    else if crate::text::bytes_eq(name.as_slice(), "mat2x4".as_bytes()) { TypeTag::Mat24 }
    else if crate::text::bytes_eq(name.as_slice(), "mat3x2".as_bytes()) { TypeTag::Mat32 }
    else if crate::text::bytes_eq(name.as_slice(), "mat3x4".as_bytes()) { TypeTag::Mat34 }
    else if crate::text::bytes_eq(name.as_slice(), "mat4x2".as_bytes()) { TypeTag::Mat42 }
    else if crate::text::bytes_eq(name.as_slice(), "mat4x3".as_bytes()) { TypeTag::Mat43 }
    else { TypeTag::Other }
}

/// The documented byte size of each supported type tag; `None` for a tag
/// this table does not cover.
pub open spec fn spec_type_size(tag: TypeTag) -> Option<u32> {
    match tag {
        TypeTag::Void => Some(1u32),
        TypeTag::Bool => Some(1u32),
        TypeTag::Int => Some(4u32),
        TypeTag::UInt => Some(4u32),
        TypeTag::Float => Some(4u32),
        TypeTag::Double => Some(8u32),
        TypeTag::Vec2 => Some(8u32),
        TypeTag::Vec3 => Some(12u32),
        TypeTag::Vec4 => Some(16u32),
        TypeTag::IVec2 => Some(8u32),
        TypeTag::IVec3 => Some(12u32),
        TypeTag::IVec4 => Some(16u32),
        TypeTag::UVec2 => Some(8u32),
        TypeTag::UVec3 => Some(12u32),
        TypeTag::UVec4 => Some(16u32),
        TypeTag::Mat2 => Some(16u32),
        TypeTag::Mat3 => Some(36u32),
        TypeTag::Mat4 => Some(64u32),
        TypeTag::Mat23 => Some(24u32),
        TypeTag::Mat24 => Some(32u32),
        TypeTag::Mat32 => Some(24u32),
        TypeTag::Mat34 => Some(48u32),
        TypeTag::Mat42 => Some(32u32),
        TypeTag::Mat43 => Some(48u32),
        TypeTag::Other => None,
    }
}

/// An image/sampler binding: a single-variable `uniform` declaration.
#[derive(Debug, Clone, PartialEq, Eq)]
pub struct VariableDeclaration {
    pub name: Vec<u8>,
    /// The spelling of the variable's type (`sampler2D`, `image2D`, ...).
    pub type_ident: Vec<u8>,
    pub binding: Option<u32>,
    pub set: Option<usize>,
    /// A bare storage-format layout qualifier (`rgba32f`), when present.
    pub type_format: Option<Vec<u8>>,
}

impl VariableDeclaration {
    /// The set this variable resolves to: the explicit one, or 0 when the
    /// shader omitted it (the layout synthesizer records that default as a
    /// diagnostic).
    pub fn checked_set(&self) -> (set: usize)
        ensures
            set == spec_checked_set(self.set),
    {
        match self.set {
            Some(s) => s,
            None => 0,
        }
    }
}

/// The resolved set index: the explicit one, or 0 by default.
pub open spec fn spec_checked_set(set: Option<usize>) -> usize {
    match set {
        Some(s) => s,
        None => 0usize,
    }
}

/// One field of a block declaration.
#[derive(Debug, Clone, PartialEq, Eq)]
pub struct BlockField {
    pub name: Vec<u8>,
    /// The spelling of the field's type, from which its tag derives.
    pub type_ident: Vec<u8>,
    /// An explicit `layout(offset = n)` qualifier, recorded but not relied
    /// upon for size computation.
    pub offset: Option<u32>,
    /// Array dimensions, `None` per dimension when unsized.
    pub dimensions: Option<Vec<Option<u32>>>,
}

/// The field's tag, derived from its type spelling.
pub open spec fn spec_field_tag(field: BlockField) -> TypeTag {
    spec_type_tag_of(field.type_ident@)
}

impl BlockField {
    /// The field's type tag.
    pub fn tag(&self) -> (tag: TypeTag)
        ensures
            tag == spec_field_tag(*self),
    {
        type_tag_from_ident(&self.type_ident)
    }

    /// The fixed byte size of this field's type, or `None` when the type has
    /// no known size.
    pub fn byte_size(&self) -> (size: Option<u32>)
        ensures
            size == spec_type_size(spec_field_tag(*self)),
    {
        match self.tag() {
            TypeTag::Void => Some(1),
            TypeTag::Bool => Some(1),
            TypeTag::Int => Some(4),
            TypeTag::UInt => Some(4),
            TypeTag::Float => Some(4),
            TypeTag::Double => Some(8),
            TypeTag::Vec2 => Some(8),
            TypeTag::Vec3 => Some(12),
            TypeTag::Vec4 => Some(16),
            TypeTag::IVec2 => Some(8),
            TypeTag::IVec3 => Some(12),
            TypeTag::IVec4 => Some(16),
            TypeTag::UVec2 => Some(8),
            TypeTag::UVec3 => Some(12),
            TypeTag::UVec4 => Some(16),
            TypeTag::Mat2 => Some(16),
            TypeTag::Mat3 => Some(36),
            TypeTag::Mat4 => Some(64),
            TypeTag::Mat23 => Some(24),
            TypeTag::Mat24 => Some(32),
            TypeTag::Mat32 => Some(24),
            TypeTag::Mat34 => Some(48),
            TypeTag::Mat42 => Some(32),
            TypeTag::Mat43 => Some(48),
            TypeTag::Other => None,
        }
    }
}

/// The storage class a block declaration carries.
#[derive(Debug, Clone, Copy, PartialEq, Eq, Structural)]
pub enum BlockStorage {
    UniformBuffer,
    StorageBuffer,
}

/// A uniform / storage-buffer / push-constant block declaration.
#[derive(Debug, Clone, PartialEq, Eq)]
pub struct BlockDeclaration {
    pub name: Vec<u8>,
    /// The instance identifier host code addresses the block by; a block
    /// without one cannot be addressed and is reflection-only.
    pub identifier: Option<Vec<u8>>,
    pub storage: BlockStorage,
    pub binding: Option<u32>,
    pub set: Option<usize>,
    /// Whether the block carries the `push_constant` layout qualifier.
    pub push_constant: bool,
    /// Whether the block carries the `std140` packing qualifier.
    pub std140: bool,
    pub fields: Vec<BlockField>,
}

/// The sum of the fields' sizes as an unbounded integer, or `None` as soon
/// as any field's size is unknown.
pub open spec fn spec_block_size(fields: Seq<BlockField>) -> Option<int>
    decreases fields.len(),
{
    if fields.len() == 0 {
        Some(0int)
    } else {
        match (
            spec_block_size(fields.drop_last()),
            spec_type_size(spec_field_tag(fields.last())),
        ) {
            (Some(acc), Some(item)) => Some(acc + item),
            _ => None,
        }
    }
}

/// The block byte size as a 32-bit value: the sum of the fields' sizes when
/// every field is known and the sum fits, else `None` ("unknown").
pub open spec fn spec_block_byte_size(fields: Seq<BlockField>) -> Option<u32> {
    match spec_block_size(fields) {
        Some(total) => if total <= u32::MAX { Some(total as u32) } else { None },
        None => None,
    }
}

/// A single field of unknown size makes the whole block's size unknown:
/// size computation never substitutes zero for a field it cannot size.
pub proof fn lemma_unknown_field_poisons_block(fields: Seq<BlockField>, i: int)
    requires
        0 <= i < fields.len(),
        spec_type_size(spec_field_tag(fields[i])) is None,
    ensures
        spec_block_size(fields) is None,
        spec_block_byte_size(fields) is None,
    decreases fields.len(),
{
    if i == fields.len() - 1 {
    } else {
        lemma_unknown_field_poisons_block(fields.drop_last(), i);
    }
}

impl BlockDeclaration {
    /// The block's byte size: the sum of its fields' documented sizes, or
    /// `None` when any field's type has no known size (or the sum does not
    /// fit in 32 bits).
    pub fn byte_size(&self) -> (size: Option<u32>)
        ensures
            size == spec_block_byte_size(self.fields@),
    {
        let mut acc: u32 = 0;
        let mut i: usize = 0;
        while i < self.fields.len()
            invariant
                i <= self.fields@.len(),
                spec_block_size(self.fields@.take(i as int)) == Some(acc as int),
            decreases self.fields@.len() - i,
        {
            proof {
                assert(self.fields@.take(i + 1).drop_last() =~= self.fields@.take(i as int));
                assert(self.fields@.take(i + 1).last() == self.fields@[i as int]);
            }
            match self.fields[i].byte_size() {
                None => {
                    proof {
                        lemma_block_size_take_none(self.fields@, i as int);
                    }
                    return None;
                },
                Some(item) => {
                    if acc > u32::MAX - item {
                        proof {
                            lemma_block_size_take_large(self.fields@, i + 1);
                        }
                        return None;
                    }
                    acc = acc + item;
                },
            }
            i += 1;
        }
        proof {
            assert(self.fields@.take(self.fields@.len() as int) =~= self.fields@);
        }
        Some(acc)
    }

    /// The concrete allocation size for this block.  Fails fast with a
    /// layout error when the size is unknown or zero: an unsized block is
    /// never allocated as zero bytes.
    pub fn allocation_size(&self) -> (r: Result<u32, Error>)
        ensures
            match spec_block_byte_size(self.fields@) {
                Some(size) => if size > 0 {
                    r == Ok::<u32, Error>(size)
                } else {
                    r matches Err(Error::Layout(LayoutError::BlockSizeUnknown { block }))
                        && block@ == self.name@
                },
                None => (r matches Err(Error::Layout(LayoutError::BlockSizeUnknown { block }))
                    && block@ == self.name@),
            },
    {
        match self.byte_size() {
            Some(size) => {
                if size > 0 {
                    Ok(size)
                } else {
                    Err(Error::Layout(LayoutError::BlockSizeUnknown { block: self.name.clone() }))
                }
            },
            None => Err(Error::Layout(LayoutError::BlockSizeUnknown { block: self.name.clone() })),
        }
    }

    /// The set this block resolves to: the explicit one, or 0 when the
    /// shader omitted it.
    pub fn checked_set(&self) -> (set: usize)
        ensures
            set == spec_checked_set(self.set),
    {
        match self.set {
            Some(s) => s,
            None => 0,
        }
    }
}

/// Once the partial sum is known to be `None`, the whole sequence's size is
/// `None`.
proof fn lemma_block_size_take_none(fields: Seq<BlockField>, i: int)
    requires
        0 <= i < fields.len(),
        spec_type_size(spec_field_tag(fields[i])) is None,
    ensures
        spec_block_size(fields) is None,
{
    lemma_unknown_field_poisons_block(fields, i);
}

/// Partial sums only grow, so a prefix sum beyond `u32::MAX` forces the
/// whole size beyond it (or unknown).
proof fn lemma_block_size_take_large(fields: Seq<BlockField>, i: int)
    requires
        0 <= i <= fields.len(),
        match spec_block_size(fields.take(i)) {
            Some(total) => total > u32::MAX,
            None => true,
        },
    ensures
        spec_block_byte_size(fields) is None,
    decreases fields.len() - i,
{
    if i == fields.len() {
        assert(fields.take(i) =~= fields);
    } else {
        assert(fields.take(i + 1).drop_last() =~= fields.take(i));
        lemma_block_size_take_large(fields, i + 1);
    }
}

/// The per-dispatch thread-group dimensions a compute shader declares,
/// positive on every axis; (1, 1, 1) when the shader declares no
/// `in`-qualified global layout.
#[derive(Debug, Clone, Copy, PartialEq, Eq, Structural)]
pub struct WorkgroupShape {
    pub x: u32,
    pub y: u32,
    pub z: u32,
}

impl WorkgroupShape {
    /// Whether every axis is positive.
    pub open spec fn positive(self) -> bool {
        self.x >= 1 && self.y >= 1 && self.z >= 1
    }
}

/// Everything the reflector recovers from one shader: the workgroup shape,
/// the image/sampler declarations and the block declarations, in source
/// order.
#[derive(Debug, Clone, PartialEq, Eq)]
pub struct ShaderReflection {
    /// The workgroup shape.
    pub local_size: WorkgroupShape,
    pub variable_declarations: Vec<VariableDeclaration>,
    pub block_declarations: Vec<BlockDeclaration>,
}

/// Whether `decl`'s instance identifier is `name`.
pub open spec fn spec_block_matches(decl: BlockDeclaration, name: Seq<u8>) -> bool {
    decl.identifier matches Some(id) && id@ == name
}

impl ShaderReflection {
    /// The first variable declaration named `name`, or a lookup error
    /// naming it.
    pub fn variable_declaration(&self, name: &[u8]) -> (r: Result<&VariableDeclaration, Error>)
        ensures
            match r {
                Ok(decl) => exists|i: int|
                    0 <= i < self.variable_declarations@.len()
                        && self.variable_declarations@[i].name@ == name@
                        && decl == &self.variable_declarations@[i]
                        && (forall|j: int| 0 <= j < i
                            ==> self.variable_declarations@[j].name@ != name@),
                Err(e) => (e matches Error::Layout(LayoutError::DeclarationNotFound { name: n })
                    && n@ == name@)
                    && (forall|i: int| 0 <= i < self.variable_declarations@.len()
                        ==> self.variable_declarations@[i].name@ != name@),
            },
    {
        let mut i: usize = 0;
        while i < self.variable_declarations.len()
            invariant
                i <= self.variable_declarations@.len(),
                forall|j: int| 0 <= j < i ==> self.variable_declarations@[j].name@ != name@,
            decreases self.variable_declarations@.len() - i,
        {
            if crate::text::bytes_eq(self.variable_declarations[i].name.as_slice(), name) {
                return Ok(&self.variable_declarations[i]);
            }
            i += 1;
        }
        Err(Error::Layout(LayoutError::DeclarationNotFound { name: vstd::slice::slice_to_vec(name) }))
    }

    /// The first block declaration whose instance identifier is `name`, or
    /// a lookup error naming it.  Blocks without an instance identifier
    /// cannot be addressed.
    pub fn block_declaration(&self, name: &[u8]) -> (r: Result<&BlockDeclaration, Error>)
        ensures
            match r {
                Ok(decl) => exists|i: int|
                    0 <= i < self.block_declarations@.len()
                        && spec_block_matches(#[trigger] self.block_declarations@[i], name@)
                        && decl == &self.block_declarations@[i]
                        && (forall|j: int| 0 <= j < i
                            ==> !spec_block_matches(#[trigger] self.block_declarations@[j], name@)),
                Err(e) => (e matches Error::Layout(LayoutError::DeclarationNotFound { name: n })
                    && n@ == name@)
                    && (forall|i: int| 0 <= i < self.block_declarations@.len()
                        ==> !spec_block_matches(#[trigger] self.block_declarations@[i], name@)),
            },
    {
        let mut i: usize = 0;
        while i < self.block_declarations.len()
            invariant
                i <= self.block_declarations@.len(),
                forall|j: int| 0 <= j < i
                    ==> !spec_block_matches(#[trigger] self.block_declarations@[j], name@),
            decreases self.block_declarations@.len() - i,
        {
            let matched = match &self.block_declarations[i].identifier {
                Some(id) => crate::text::bytes_eq(id.as_slice(), name),
                None => false,
            };
            if matched {
                return Ok(&self.block_declarations[i]);
            }
            i += 1;
        }
        Err(Error::Layout(LayoutError::DeclarationNotFound { name: vstd::slice::slice_to_vec(name) }))
    }
}

} // verus!
