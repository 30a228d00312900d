//! The per-frame lifecycle: replica selection, push-constant packing,
//! dispatch-extent arithmetic, and the resize/termination state machine.
//!
//! A single frame-producer thread drives this.  The scheduler decides; the
//! caller performs the device work each decision names.  On a resize signal
//! the device must first be drained (wait idle) before any image-backed
//! resource is destroyed, and the returned action list encodes exactly that
//! order.  Device loss terminates the loop; surface-out-of-date does not.

use vstd::prelude::*;

use crate::error::DeviceError;
use crate::error::Error;
use crate::error::LayoutError;
use crate::reflect::BlockDeclaration;
use crate::reflect::BlockField;
use crate::reflect::TypeTag;
use crate::reflect::WorkgroupShape;

verus! {

/// A push-constant value: a boolean or the bit pattern of a 32-bit float.
/// Floats travel as bits so that packing is exact.
#[derive(Debug, Clone, Copy, PartialEq, Eq, Structural)]
pub enum Value {
    Bool(bool),
    F32Bits(u32),
}

/// The first value recorded under `name`, scanning from the front.
pub open spec fn spec_lookup(values: Seq<(Vec<u8>, Value)>, name: Seq<u8>) -> Option<Value>
    decreases values.len(),
{
    if values.len() == 0 {
        None
    } else if values[0].0@ == name {
        Some(values[0].1)
    } else {
        spec_lookup(values.drop_first(), name)
    }
}

/// How one block field fares against the supplied values.
#[derive(Debug, Clone, Copy, PartialEq, Eq, Structural)]
pub enum FieldStatus {
    /// Found, with the matching tag: contributes its bytes.
    Packed,
    /// No value supplied under the field's name.
    Missing,
    /// A value was supplied but its tag does not fit the field's type.
    Mismatched,
    /// The field's type is neither boolean nor 32-bit float.
    Unsupported,
}

pub open spec fn spec_field_status(field: BlockField, values: Seq<(Vec<u8>, Value)>) -> FieldStatus {
    match spec_lookup(values, field.name@) {
        None => FieldStatus::Missing,
        Some(value) => match crate::reflect::spec_field_tag(field) {
            TypeTag::Bool => match value {
                Value::Bool(_) => FieldStatus::Packed,
                _ => FieldStatus::Mismatched,
            },
            TypeTag::Float => match value {
                Value::F32Bits(_) => FieldStatus::Packed,
                _ => FieldStatus::Mismatched,
            },
            _ => FieldStatus::Unsupported,
        },
    }
}

/// The bytes one packed field contributes: one byte for a boolean, the four
/// little-endian bytes of the bit pattern for a float.
pub open spec fn spec_field_bytes(field: BlockField, values: Seq<(Vec<u8>, Value)>) -> Seq<u8> {
    match spec_lookup(values, field.name@) {
        Some(Value::Bool(b)) => seq![if b { 1u8 } else { 0u8 }],
        Some(Value::F32Bits(w)) => seq![
            (w % 256) as u8,
            ((w / 256) % 256) as u8,
            ((w / 65536) % 256) as u8,
            (w / 16777216) as u8,
        ],
        None => Seq::empty(),
    }
}

/// The packed bytes of a whole field list, in field order.
pub open spec fn spec_packed_bytes(fields: Seq<BlockField>, values: Seq<(Vec<u8>, Value)>) -> Seq<u8>
    decreases fields.len(),
{
    if fields.len() == 0 {
        Seq::empty()
    } else {
        spec_packed_bytes(fields.drop_last(), values) + spec_field_bytes(fields.last(), values)
    }
}

/// Whether every field of the list packs.
pub open spec fn spec_all_packed(fields: Seq<BlockField>, values: Seq<(Vec<u8>, Value)>) -> bool {
    forall|i: int| 0 <= i < fields.len() ==> spec_field_status(#[trigger] fields[i], values)
        is Packed
}

/// The first value recorded under `name`, or `None`.
pub fn lookup_value(values: &Vec<(Vec<u8>, Value)>, name: &[u8]) -> (r: Option<Value>)
    ensures
        r == spec_lookup(values@, name@),
{
    let mut j: usize = 0;
    proof {
        assert(values@.skip(0) =~= values@);
    }
    while j < values.len()
        invariant
            j <= values@.len(),
            spec_lookup(values@, name@) == spec_lookup(values@.skip(j as int), name@),
        decreases values@.len() - j,
    {
        proof {
            assert(values@.skip(j as int)[0] == values@[j as int]);
            assert(values@.skip(j as int).drop_first() =~= values@.skip(j + 1));
        }
        if crate::text::bytes_eq(values[j].0.as_slice(), name) {
            return Some(values[j].1);
        }
        j += 1;
    }
    proof {
        assert(values@.skip(values@.len() as int).len() == 0);
    }
    None
}

/// Pack the values for the fields of `block`, in field order: booleans as
/// one byte (1 for true), floats as the four little-endian bytes of their
/// bit pattern.  Names in `values` that the block does not declare are
/// ignored; a declared field without a value, with a value of the wrong
/// tag, or of a type push constants do not carry, fails with the error
/// naming that field (the first such field, in declaration order).
pub fn pack_push_constants(block: &BlockDeclaration, values: &Vec<(Vec<u8>, Value)>) -> (r: Result<
    Vec<u8>,
    Error,
>)
    ensures
        match r {
            Ok(bytes) => spec_all_packed(block.fields@, values@) && bytes@ == spec_packed_bytes(
                block.fields@,
                values@,
            ),
            Err(e) => exists|i: int|
                0 <= i < block.fields@.len()
                    && !(spec_field_status(#[trigger] block.fields@[i], values@) is Packed)
                    && (forall|j: int| 0 <= j < i
                        ==> spec_field_status(#[trigger] block.fields@[j], values@) is Packed)
                    && spec_error_for_field(e, block.fields@[i], values@),
        },
{
    let mut bytes: Vec<u8> = Vec::new();
    let mut i: usize = 0;
    while i < block.fields.len()
        invariant
            i <= block.fields@.len(),
            bytes@ == spec_packed_bytes(block.fields@.take(i as int), values@),
            forall|j: int| 0 <= j < i
                ==> spec_field_status(#[trigger] block.fields@[j], values@) is Packed,
        decreases block.fields@.len() - i,
    {
        let field = &block.fields[i];
        proof {
            assert(block.fields@.take(i + 1).drop_last() =~= block.fields@.take(i as int));
            assert(block.fields@.take(i + 1).last() == block.fields@[i as int]);
        }
        match lookup_value(values, field.name.as_slice()) {
            None => {
                return Err(Error::Layout(LayoutError::FieldNotFound {
                    name: field.name.clone(),
                }));
            },
            Some(value) => {
                match field.tag() {
                    TypeTag::Bool => match value {
                        Value::Bool(b) => {
                            bytes.push(if b { 1u8 } else { 0u8 });
                        },
                        _ => {
                            return Err(Error::Layout(LayoutError::FieldTypeMismatch {
                                name: field.name.clone(),
                            }));
                        },
                    },
                    TypeTag::Float => match value {
                        Value::F32Bits(w) => {
                            bytes.push((w % 256) as u8);
                            bytes.push(((w / 256) % 256) as u8);
                            bytes.push(((w / 65536) % 256) as u8);
                            bytes.push((w / 16777216) as u8);
                        },
                        _ => {
                            return Err(Error::Layout(LayoutError::FieldTypeMismatch {
                                name: field.name.clone(),
                            }));
                        },
                    },
                    _ => {
                        return Err(Error::Layout(LayoutError::UnsupportedFieldType {
                            name: field.name.clone(),
                        }));
                    },
                }
            },
        }
        i += 1;
    }
    proof {
        assert(block.fields@.take(block.fields@.len() as int) =~= block.fields@);
    }
    Ok(bytes)
}

/// Whether `e` is the error that reports `field`'s failure against `values`.
pub open spec fn spec_error_for_field(
    e: Error,
    field: BlockField,
    values: Seq<(Vec<u8>, Value)>,
) -> bool {
    match spec_field_status(field, values) {
        FieldStatus::Packed => false,
        FieldStatus::Missing => e matches Error::Layout(LayoutError::FieldNotFound { name })
            && name@ == field.name@,
        FieldStatus::Mismatched => e matches Error::Layout(LayoutError::FieldTypeMismatch { name })
            && name@ == field.name@,
        FieldStatus::Unsupported => e matches Error::Layout(
            LayoutError::UnsupportedFieldType { name },
        ) && name@ == field.name@,
    }
}

/// Ceiling division over unbounded integers.
pub open spec fn spec_ceil_div(a: int, b: int) -> int {
    (a + b - 1) / b
}

/// The number of workgroups dispatched per axis: the resource extent
/// divided by the workgroup shape, rounded up.
pub fn dispatch_size(width: u32, height: u32, depth: u32, shape: &WorkgroupShape) -> (r: (
    u32,
    u32,
    u32,
))
    requires
        shape.positive(),
    ensures
        r.0 == spec_ceil_div(width as int, shape.x as int),
        r.1 == spec_ceil_div(height as int, shape.y as int),
        r.2 == spec_ceil_div(depth as int, shape.z as int),
{
    (ceil_div_u32(width, shape.x), ceil_div_u32(height, shape.y), ceil_div_u32(depth, shape.z))
}

fn ceil_div_u32(a: u32, b: u32) -> (r: u32)
    requires
        b >= 1,
    ensures
        r == spec_ceil_div(a as int, b as int),
{
    let q = a / b;
    let r = a % b;
    proof {
        lemma_ceil_div(a as int, b as int);
    }
    if r != 0 {
        q + 1
    } else {
        q
    }
}

proof fn lemma_ceil_div(a: int, b: int)
    requires
        a >= 0,
        b >= 1,
    ensures
        spec_ceil_div(a, b) == a / b + if a % b != 0 { 1int } else { 0int },
        a / b + if a % b != 0 { 1int } else { 0int } <= a || a == 0,
{
    assert((a + b - 1) / b == a / b + if a % b != 0 { 1int } else { 0int }) by (nonlinear_arith)
        requires
            a >= 0,
            b >= 1,
    ;
    assert(a / b + if a % b != 0 { 1int } else { 0int } <= a || a == 0) by (nonlinear_arith)
        requires
            a >= 0,
            b >= 1,
    ;
}

/// Where the frame loop stands.
#[derive(Debug, Clone, Copy, PartialEq, Eq, Structural)]
pub enum SchedulerState {
    /// Ticking frames.
    Running,
    /// A resize is being serviced: image-backed resources are gone and must
    /// be recreated at the new extent before the loop resumes.
    Reinitializing,
    /// A fatal device error ended the loop.
    Terminated,
}

/// One piece of device work the scheduler instructs its caller to perform.
#[derive(Debug, Clone, PartialEq, Eq)]
pub enum HostAction {
    /// Drain all in-flight device work before anything is destroyed.
    WaitDeviceIdle,
    /// Unbind and destroy exactly these image-backed resources.
    DestroyImageResources { ids: Vec<u64> },
    /// Recreate the image-backed resources at the new surface extent.
    RecreateImageResources { width: u32, height: u32 },
}

/// The action list a resize produces: drain the device, then destroy the
/// image-backed resources, then recreate them at the new extent.
pub open spec fn spec_is_resize_sequence(actions: Seq<HostAction>) -> bool {
    actions.len() == 3 && (actions[0] is WaitDeviceIdle) && (actions[1] is DestroyImageResources)
        && (actions[2] is RecreateImageResources)
}

/// In a resize action list, no image-backed resource is destroyed before
/// the device has been drained: every destroy action is preceded by a
/// wait-idle action.
pub proof fn lemma_wait_precedes_destroy(actions: Seq<HostAction>)
    requires
        spec_is_resize_sequence(actions),
    ensures
        forall|j: int| 0 <= j < actions.len() && (#[trigger] actions[j]) is DestroyImageResources
            ==> exists|i: int| 0 <= i < j && (#[trigger] actions[i]) is WaitDeviceIdle,
{
    assert forall|j: int| 0 <= j < actions.len() && (#[trigger] actions[j])
        is DestroyImageResources implies exists|i: int| 0 <= i < j && (#[trigger] actions[i])
        is WaitDeviceIdle by {
        assert(actions[0] is WaitDeviceIdle);
        assert(j == 1);
    }
}

/// Drives one frame at a time: selects the replica to write, hands out the
/// resize and termination decisions, and remembers which resources are
/// image-backed (destroyed and recreated on resize) and which are
/// buffer-backed (preserved across resizes).
pub struct FrameScheduler {
    state: SchedulerState,
    frame_counter: u64,
    replica_count: usize,
    surface_width: u32,
    surface_height: u32,
    image_resources: Vec<u64>,
    buffer_resources: Vec<u64>,
}

impl FrameScheduler {
    pub closed spec fn spec_state(&self) -> SchedulerState {
        self.state
    }

    pub closed spec fn spec_frame_counter(&self) -> u64 {
        self.frame_counter
    }

    pub closed spec fn spec_replica_count(&self) -> usize {
        self.replica_count
    }

    pub closed spec fn spec_surface_extent(&self) -> (u32, u32) {
        (self.surface_width, self.surface_height)
    }

    pub closed spec fn spec_image_resources(&self) -> Seq<u64> {
        self.image_resources@
    }

    pub closed spec fn spec_buffer_resources(&self) -> Seq<u64> {
        self.buffer_resources@
    }

    /// The replica count is positive: there is always a replica to write.
    pub closed spec fn wf(&self) -> bool {
        self.replica_count >= 1
    }

    /// A scheduler for `replica_count` frames in flight over a surface of
    /// the given extent, starting at frame zero, Running, with no
    /// registered resources.
    pub fn new(replica_count: usize, width: u32, height: u32) -> (scheduler: FrameScheduler)
        requires
            replica_count >= 1,
        ensures
            scheduler.wf(),
            scheduler.spec_state() == SchedulerState::Running,
            scheduler.spec_frame_counter() == 0,
            scheduler.spec_replica_count() == replica_count,
            scheduler.spec_surface_extent() == (width, height),
            scheduler.spec_image_resources() =~= Seq::<u64>::empty(),
            scheduler.spec_buffer_resources() =~= Seq::<u64>::empty(),
    {
        FrameScheduler {
            state: SchedulerState::Running,
            frame_counter: 0,
            replica_count,
            surface_width: width,
            surface_height: height,
            image_resources: Vec::new(),
            buffer_resources: Vec::new(),
        }
    }

    pub fn state(&self) -> (state: SchedulerState)
        ensures
            state == self.spec_state(),
    {
        self.state
    }

    /// The image-backed resources currently registered.
    pub fn image_resources(&self) -> (ids: &Vec<u64>)
        ensures
            ids@ == self.spec_image_resources(),
    {
        &self.image_resources
    }

    /// The buffer-backed resources currently registered.
    pub fn buffer_resources(&self) -> (ids: &Vec<u64>)
        ensures
            ids@ == self.spec_buffer_resources(),
    {
        &self.buffer_resources
    }

    /// How many frames have been acquired so far.
    pub fn frame_counter(&self) -> (count: u64)
        ensures
            count == self.spec_frame_counter(),
    {
        self.frame_counter
    }

    /// Record an image-backed resource: destroyed and recreated on resize.
    pub fn register_image_resource(&mut self, id: u64)
        requires
            old(self).wf(),
        ensures
            final(self).wf(),
            final(self).spec_image_resources() =~= old(self).spec_image_resources().push(id),
            final(self).spec_buffer_resources() == old(self).spec_buffer_resources(),
            final(self).spec_state() == old(self).spec_state(),
            final(self).spec_frame_counter() == old(self).spec_frame_counter(),
            final(self).spec_replica_count() == old(self).spec_replica_count(),
            final(self).spec_surface_extent() == old(self).spec_surface_extent(),
    {
        self.image_resources.push(id);
    }

    /// Record a buffer-backed resource: preserved across resizes.
    pub fn register_buffer_resource(&mut self, id: u64)
        requires
            old(self).wf(),
        ensures
            final(self).wf(),
            final(self).spec_buffer_resources() =~= old(self).spec_buffer_resources().push(id),
            final(self).spec_image_resources() == old(self).spec_image_resources(),
            final(self).spec_state() == old(self).spec_state(),
            final(self).spec_frame_counter() == old(self).spec_frame_counter(),
            final(self).spec_replica_count() == old(self).spec_replica_count(),
            final(self).spec_surface_extent() == old(self).spec_surface_extent(),
    {
        self.buffer_resources.push(id);
    }

    /// Pick the replica this frame writes — the frame counter modulo the
    /// replica count — and advance the counter.
    pub fn acquire_replica(&mut self) -> (index: usize)
        requires
            old(self).wf(),
            old(self).spec_state() == SchedulerState::Running,
            old(self).spec_frame_counter() < u64::MAX,
        ensures
            final(self).wf(),
            index == old(self).spec_frame_counter() as int % old(self).spec_replica_count() as int,
            index < old(self).spec_replica_count(),
            final(self).spec_frame_counter() == old(self).spec_frame_counter() + 1,
            final(self).spec_state() == old(self).spec_state(),
            final(self).spec_replica_count() == old(self).spec_replica_count(),
            final(self).spec_surface_extent() == old(self).spec_surface_extent(),
            final(self).spec_image_resources() == old(self).spec_image_resources(),
            final(self).spec_buffer_resources() == old(self).spec_buffer_resources(),
    {
        let index = (self.frame_counter % (self.replica_count as u64)) as usize;
        self.frame_counter = self.frame_counter + 1;
        index
    }

    /// Service a surface-resize signal: remember the new extent, drop the
    /// image-backed registry (buffer-backed resources are preserved), move
    /// to Reinitializing, and instruct the caller to drain the device
    /// *before* destroying the old image-backed resources and recreating
    /// them at the new extent.
    pub fn on_resize_signal(&mut self, width: u32, height: u32) -> (actions: Vec<HostAction>)
        requires
            old(self).wf(),
            old(self).spec_state() == SchedulerState::Running,
        ensures
            final(self).wf(),
            final(self).spec_state() == SchedulerState::Reinitializing,
            final(self).spec_surface_extent() == (width, height),
            final(self).spec_image_resources() =~= Seq::<u64>::empty(),
            final(self).spec_buffer_resources() == old(self).spec_buffer_resources(),
            final(self).spec_frame_counter() == old(self).spec_frame_counter(),
            final(self).spec_replica_count() == old(self).spec_replica_count(),
            spec_is_resize_sequence(actions@),
            actions@[0] == HostAction::WaitDeviceIdle,
            actions@[1] matches HostAction::DestroyImageResources { ids } && ids@ == old(
                self,
            ).spec_image_resources(),
            actions@[2] matches HostAction::RecreateImageResources { width: w, height: h }
                && w == width && h == height,
    {
        self.surface_width = width;
        self.surface_height = height;
        self.state = SchedulerState::Reinitializing;
        let mut doomed: Vec<u64> = Vec::new();
        core::mem::swap(&mut doomed, &mut self.image_resources);
        let mut actions: Vec<HostAction> = Vec::new();
        actions.push(HostAction::WaitDeviceIdle);
        actions.push(HostAction::DestroyImageResources { ids: doomed });
        actions.push(HostAction::RecreateImageResources { width, height });
        actions
    }

    /// The caller recreated the image-backed resources: resume the loop.
    pub fn on_reinitialized(&mut self)
        requires
            old(self).wf(),
            old(self).spec_state() == SchedulerState::Reinitializing,
        ensures
            final(self).wf(),
            final(self).spec_state() == SchedulerState::Running,
            final(self).spec_frame_counter() == old(self).spec_frame_counter(),
            final(self).spec_replica_count() == old(self).spec_replica_count(),
            final(self).spec_surface_extent() == old(self).spec_surface_extent(),
            final(self).spec_image_resources() == old(self).spec_image_resources(),
            final(self).spec_buffer_resources() == old(self).spec_buffer_resources(),
    {
        self.state = SchedulerState::Running;
    }

    /// The workgroups to dispatch over the current surface: the surface
    /// extent divided by the workgroup shape, rounded up, with a depth of
    /// one.
    pub fn dispatch_extent(&self, shape: &WorkgroupShape) -> (r: (u32, u32, u32))
        requires
            shape.positive(),
        ensures
            r.0 == spec_ceil_div(self.spec_surface_extent().0 as int, shape.x as int),
            r.1 == spec_ceil_div(self.spec_surface_extent().1 as int, shape.y as int),
            r.2 == spec_ceil_div(1int, shape.z as int),
    {
        dispatch_size(self.surface_width, self.surface_height, 1, shape)
    }

    /// Apply the fatal/recoverable split to a device failure: device loss
    /// terminates the loop; a surface out of date leaves the state alone
    /// and tells the caller to follow with the resize signal once the new
    /// extent is known.
    pub fn handle_device_error(&mut self, device_error: DeviceError) -> (fatal: bool)
        requires
            old(self).wf(),
        ensures
            final(self).wf(),
            fatal == (device_error is DeviceLost),
            final(self).spec_state() == if device_error is DeviceLost {
                SchedulerState::Terminated
            } else {
                old(self).spec_state()
            },
            final(self).spec_frame_counter() == old(self).spec_frame_counter(),
            final(self).spec_replica_count() == old(self).spec_replica_count(),
            final(self).spec_surface_extent() == old(self).spec_surface_extent(),
            final(self).spec_image_resources() == old(self).spec_image_resources(),
            final(self).spec_buffer_resources() == old(self).spec_buffer_resources(),
    {
        match device_error {
            DeviceError::DeviceLost => {
                self.state = SchedulerState::Terminated;
                true
            },
            DeviceError::SurfaceOutOfDate => false,
        }
    }

    /// The device is lost: the loop terminates and never resumes.
    pub fn on_device_lost(&mut self)
        requires
            old(self).wf(),
        ensures
            final(self).wf(),
            final(self).spec_state() == SchedulerState::Terminated,
            final(self).spec_frame_counter() == old(self).spec_frame_counter(),
            final(self).spec_replica_count() == old(self).spec_replica_count(),
            final(self).spec_surface_extent() == old(self).spec_surface_extent(),
            final(self).spec_image_resources() == old(self).spec_image_resources(),
            final(self).spec_buffer_resources() == old(self).spec_buffer_resources(),
    {
        self.state = SchedulerState::Terminated;
    }
}

} // verus!
