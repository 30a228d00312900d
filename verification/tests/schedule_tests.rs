use shader_core::error::Error;
use shader_core::error::DeviceError;
use shader_core::error::LayoutError;
use shader_core::parse::analyze_shader;
use shader_core::reflect::WorkgroupShape;
use shader_core::schedule::dispatch_size;
use shader_core::schedule::pack_push_constants;
use shader_core::schedule::FrameScheduler;
use shader_core::schedule::HostAction;
use shader_core::schedule::SchedulerState;
use shader_core::schedule::Value;

fn push_block_source() -> &'static [u8] {
    b"layout(push_constant) uniform PushConstants { bool is_beat; float now; } push;"
}

#[test]
fn push_constants_pack_in_field_order() {
    let refl = analyze_shader(push_block_source()).unwrap();
    let block = &refl.block_declarations[0];
    let values = vec![
        (b"now".to_vec(), Value::F32Bits(1.5f32.to_bits())),
        (b"is_beat".to_vec(), Value::Bool(true)),
    ];
    let bytes = pack_push_constants(block, &values).unwrap();
    let mut expected = vec![1u8];
    expected.extend_from_slice(&1.5f32.to_bits().to_le_bytes());
    assert_eq!(bytes, expected);
}

#[test]
fn push_constants_missing_field_fails() {
    let refl = analyze_shader(push_block_source()).unwrap();
    let block = &refl.block_declarations[0];
    let values = vec![(b"is_beat".to_vec(), Value::Bool(true))];
    match pack_push_constants(block, &values) {
        Err(Error::Layout(LayoutError::FieldNotFound { name })) => {
            assert_eq!(name, b"now".to_vec());
        }
        other => panic!("expected FieldNotFound, got {:?}", other),
    }
}

#[test]
fn push_constants_wrong_tag_fails() {
    let refl = analyze_shader(push_block_source()).unwrap();
    let block = &refl.block_declarations[0];
    let values = vec![
        (b"is_beat".to_vec(), Value::F32Bits(0)),
        (b"now".to_vec(), Value::F32Bits(0)),
    ];
    assert!(matches!(
        pack_push_constants(block, &values),
        Err(Error::Layout(LayoutError::FieldTypeMismatch { .. }))
    ));
}

#[test]
fn push_constants_extra_names_ignored() {
    let refl = analyze_shader(push_block_source()).unwrap();
    let block = &refl.block_declarations[0];
    let values = vec![
        (b"unrelated".to_vec(), Value::Bool(false)),
        (b"is_beat".to_vec(), Value::Bool(false)),
        (b"now".to_vec(), Value::F32Bits(0)),
    ];
    let bytes = pack_push_constants(block, &values).unwrap();
    assert_eq!(bytes.len(), 5);
    assert_eq!(bytes[0], 0);
}

#[test]
fn dispatch_extent_rounds_up() {
    let shape = WorkgroupShape { x: 16, y: 16, z: 1 };
    let (x, y, z) = dispatch_size(1920, 1080, 1, &shape);
    assert_eq!((x, y, z), (120, 68, 1));
    let shape_one = WorkgroupShape { x: 1, y: 1, z: 1 };
    assert_eq!(dispatch_size(0, 5, 7, &shape_one), (0, 5, 7));
    let shape_odd = WorkgroupShape { x: 3, y: 3, z: 3 };
    assert_eq!(dispatch_size(10, 9, 1, &shape_odd), (4, 3, 1));
}

#[test]
fn replica_selection_rotates() {
    let mut scheduler = FrameScheduler::new(3, 640, 480);
    assert_eq!(scheduler.state(), SchedulerState::Running);
    assert_eq!(scheduler.acquire_replica(), 0);
    assert_eq!(scheduler.acquire_replica(), 1);
    assert_eq!(scheduler.acquire_replica(), 2);
    assert_eq!(scheduler.acquire_replica(), 0);
    assert_eq!(scheduler.frame_counter(), 4);
}

#[test]
fn resize_waits_for_idle_before_destroying() {
    let mut scheduler = FrameScheduler::new(2, 640, 480);
    scheduler.register_buffer_resource(1);
    scheduler.register_image_resource(10);
    scheduler.register_image_resource(11);
    let actions = scheduler.on_resize_signal(800, 600);
    assert_eq!(scheduler.state(), SchedulerState::Reinitializing);
    assert_eq!(actions.len(), 3);
    assert_eq!(actions[0], HostAction::WaitDeviceIdle);
    assert_eq!(
        actions[1],
        HostAction::DestroyImageResources { ids: vec![10, 11] }
    );
    assert_eq!(
        actions[2],
        HostAction::RecreateImageResources { width: 800, height: 600 }
    );
    // Buffer-backed resources survive the resize; image-backed are gone.
    assert_eq!(scheduler.buffer_resources(), &vec![1]);
    assert_eq!(scheduler.image_resources(), &vec![]);
    scheduler.register_image_resource(20);
    scheduler.on_reinitialized();
    assert_eq!(scheduler.state(), SchedulerState::Running);
}

// A device double that records when it drained and panics if an
// image-backed resource is destroyed while a dispatch is still in flight
// (the "slow GPU": work stays pending until told to wait).
struct SlowDevice {
    in_flight: bool,
    destroyed: Vec<u64>,
}

impl SlowDevice {
    fn perform(&mut self, action: &HostAction) {
        match action {
            HostAction::WaitDeviceIdle => {
                self.in_flight = false;
            }
            HostAction::DestroyImageResources { ids } => {
                if self.in_flight {
                    panic!("destroying image resources while a dispatch is in flight");
                }
                self.destroyed.extend_from_slice(ids);
            }
            HostAction::RecreateImageResources { .. } => {
                if self.in_flight {
                    panic!("recreating image resources while a dispatch is in flight");
                }
            }
        }
    }
}

#[test]
fn resize_with_dispatch_in_flight_is_safe() {
    let mut scheduler = FrameScheduler::new(2, 640, 480);
    scheduler.register_image_resource(42);
    let mut device = SlowDevice { in_flight: true, destroyed: vec![] };
    let actions = scheduler.on_resize_signal(1024, 768);
    for action in &actions {
        device.perform(action);
    }
    assert_eq!(device.destroyed, vec![42]);
}

#[test]
fn device_loss_terminates() {
    let mut scheduler = FrameScheduler::new(2, 640, 480);
    assert!(DeviceError::DeviceLost.is_fatal());
    assert!(!DeviceError::SurfaceOutOfDate.is_fatal());
    scheduler.on_device_lost();
    assert_eq!(scheduler.state(), SchedulerState::Terminated);
}

#[test]
fn surface_out_of_date_is_recoverable() {
    let mut scheduler = FrameScheduler::new(2, 640, 480);
    assert!(!scheduler.handle_device_error(DeviceError::SurfaceOutOfDate));
    assert_eq!(scheduler.state(), SchedulerState::Running);
    assert!(scheduler.handle_device_error(DeviceError::DeviceLost));
    assert_eq!(scheduler.state(), SchedulerState::Terminated);
}

#[test]
fn dispatch_extent_uses_surface_size() {
    let scheduler = FrameScheduler::new(2, 1920, 1080);
    let shape = WorkgroupShape { x: 16, y: 16, z: 1 };
    assert_eq!(scheduler.dispatch_extent(&shape), (120, 68, 1));
}
