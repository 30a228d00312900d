//! Error taxonomy.
//!
//! Each unsupported shader construct maps to one distinct variant so that
//! callers (and tests) can tell exactly what was rejected; nothing is ever
//! guessed around.  Device-side failures are split into a recoverable kind
//! (surface out of date, which triggers the resize path) and a fatal kind
//! (device lost, which terminates the frame loop).

use vstd::prelude::*;

verus! {

/// A malformed or unsupported shader construct.  Always fatal to that
/// shader's load; the reflector never guesses around content it does not
/// understand.
#[derive(Debug, Clone, PartialEq, Eq)]
pub enum ParseError {
    /// A byte that cannot start any token of the shading language.
    UnexpectedByte { position: usize },
    /// A `/* ... */` comment that never closes.
    UnterminatedComment,
    /// An integer literal that does not fit in 32 bits where a value is needed.
    IntegerTooLarge,
    /// The source ended in the middle of a declaration.
    UnexpectedEnd,
    /// A token that does not fit the declaration grammar, by token position.
    UnexpectedToken { position: usize },
    /// A layout qualifier identifier this reflector does not know.
    UnknownLayoutIdentifier { name: Vec<u8> },
    /// A layout qualifier that needs an integer value but has none.
    MissingLayoutValue { name: Vec<u8> },
    /// A layout qualifier that must be bare but carries a value.
    UnexpectedLayoutValue { name: Vec<u8> },
    /// A global `in` declaration with a qualifier other than `in`/`layout`.
    UnexpectedGlobalQualifier,
    /// A workgroup size of zero; the shape must be positive on every axis.
    ZeroWorkgroupSize,
    /// A single-variable declaration with a storage qualifier other than
    /// `const` or `uniform`.
    UnexpectedVariableQualifier,
    /// An array specifier on a variable or block instance identifier.
    UnexpectedArraySpecifier { name: Vec<u8> },
    /// An initializer on a shader-visible variable declaration.
    UnexpectedInitializer { name: Vec<u8> },
    /// Extra declarators after the first (`uniform float a, b;`).
    UnexpectedDeclaratorTail { name: Vec<u8> },
    /// A block with a storage qualifier other than `uniform` or `buffer`.
    UnexpectedBlockQualifier,
    /// A block without any storage qualifier.
    MissingStorageQualifier,
    /// A qualifier on a block field other than a `layout(offset = n)`.
    UnexpectedFieldQualifier,
    /// A top-level declaration without any qualifier that is not a function.
    UnqualifiedDeclaration,
}

/// An unresolvable size, set or binding.  Fatal to the load or dispatch that
/// needed it; a block of unknown size is never allocated as zero bytes.
#[derive(Debug, Clone, PartialEq, Eq)]
pub enum LayoutError {
    /// A block whose byte size cannot be computed because a field's type has
    /// no known size.
    BlockSizeUnknown { block: Vec<u8> },
    /// A binding whose declaration resolves to no supported descriptor type.
    UnresolvedDescriptorKind { name: Vec<u8> },
    /// The pool size arithmetic would exceed the 32-bit descriptor count.
    PoolSizeOverflow,
    /// A push-constant field required by the shader is missing from the
    /// supplied value map.
    FieldNotFound { name: Vec<u8> },
    /// A push-constant value whose tag does not match the field's type.
    FieldTypeMismatch { name: Vec<u8> },
    /// A push-constant field whose type is neither boolean nor 32-bit float.
    UnsupportedFieldType { name: Vec<u8> },
    /// A lookup for a declaration the shader does not contain.
    DeclarationNotFound { name: Vec<u8> },
}

/// Device memory or descriptor pool exhaustion.  Fatal to the operation that
/// requested it; the core never retries by itself.
#[derive(Debug, Clone, Copy, PartialEq, Eq, Structural)]
pub enum AllocationError {
    OutOfDeviceMemory,
    DescriptorPoolExhausted,
}

/// A submission or presentation failure reported by the device.
#[derive(Debug, Clone, Copy, PartialEq, Eq, Structural)]
pub enum DeviceError {
    /// The surface no longer matches the swapchain; recoverable by the
    /// resize path.
    SurfaceOutOfDate,
    /// The device was lost; terminates the frame loop.
    DeviceLost,
}

impl DeviceError {
    /// Whether this failure terminates the frame loop (`true`) or triggers
    /// the resize path (`false`).
    pub fn is_fatal(&self) -> (fatal: bool)
        ensures
            fatal == (*self is DeviceLost),
    {
        match self {
            DeviceError::SurfaceOutOfDate => false,
            DeviceError::DeviceLost => true,
        }
    }
}

/// Any failure of the core, grouped by the stage that produced it.
#[derive(Debug, Clone, PartialEq, Eq)]
pub enum Error {
    Parse(ParseError),
    Layout(LayoutError),
    Allocation(AllocationError),
    Device(DeviceError),
}

} // verus!
