use shader_core::multi_buffer::MultiBuffer;
use shader_core::multi_buffer::MultiBufferBuilder;
use shader_core::multi_buffer::MultiBufferUnit;
use shader_core::multi_buffer::MultiImage;

#[test]
fn three_replicas_created_zeroed() {
    let buffer = MultiBuffer::new(8, 3);
    assert_eq!(buffer.replica_count(), 3);
    assert_eq!(buffer.size(), 8);
    for i in 0..3 {
        assert_eq!(buffer.mapped(i), &vec![0u8; 8]);
    }
}

#[test]
fn write_isolation_between_replicas() {
    let mut buffer = MultiBuffer::new(4, 3);
    buffer.write(1, 0, &[0xAA, 0xBB, 0xCC, 0xDD]);
    assert_eq!(buffer.mapped(0), &vec![0u8; 4]);
    assert_eq!(buffer.mapped(1), &vec![0xAA, 0xBB, 0xCC, 0xDD]);
    assert_eq!(buffer.mapped(2), &vec![0u8; 4]);
}

#[test]
fn write_at_offset_keeps_other_bytes() {
    let mut buffer = MultiBuffer::new(6, 2);
    buffer.write(0, 1, &[1, 2, 3]);
    assert_eq!(buffer.mapped(0), &vec![0, 1, 2, 3, 0, 0]);
    buffer.write(0, 4, &[9]);
    assert_eq!(buffer.mapped(0), &vec![0, 1, 2, 3, 9, 0]);
}

#[test]
fn previous_alias_rotates_one_back() {
    // Write a distinct marker per replica; the alias at index i must
    // observe the marker of replica (i - 1) mod R.
    let mut buffer = MultiBuffer::new(1, 3);
    buffer.write(0, 0, &[10]);
    buffer.write(1, 0, &[11]);
    buffer.write(2, 0, &[12]);
    let alias = buffer.previous_of();
    assert_eq!(alias.replica(0), &vec![12]);
    assert_eq!(alias.replica(1), &vec![10]);
    assert_eq!(alias.replica(2), &vec![11]);
}

#[test]
fn previous_alias_follows_new_writes() {
    // The alias borrows the same replicas: a later write to the base shows
    // through the alias one rotation later.
    let mut buffer = MultiBuffer::new(1, 2);
    buffer.write(0, 0, &[7]);
    assert_eq!(buffer.previous_of().replica(1), &vec![7]);
    buffer.write(0, 0, &[8]);
    assert_eq!(buffer.previous_of().replica(1), &vec![8]);
}

#[test]
fn builder_completes_into_buffer() {
    let mut builder = MultiBufferBuilder::new(2, 3);
    assert!(!builder.is_complete());
    builder.add_unit(MultiBufferUnit { memory_id: 100, data: vec![1, 2] });
    builder.add_unit(MultiBufferUnit { memory_id: 101, data: vec![3, 4] });
    builder.add_unit(MultiBufferUnit { memory_id: 102, data: vec![5, 6] });
    assert!(builder.is_complete());
    let buffer = builder.finish();
    assert_eq!(buffer.replica_count(), 3);
    assert_eq!(buffer.mapped(0), &vec![1, 2]);
    assert_eq!(buffer.mapped(2), &vec![5, 6]);
    assert_eq!(buffer.memory_id(1), 101);
}

#[test]
fn builder_rollback_returns_created_in_reverse() {
    // A failed partial allocation: exactly the successfully created
    // replicas come back, in reverse creation order, so the caller frees
    // them all and leaks none.
    let mut builder = MultiBufferBuilder::new(2, 3);
    builder.add_unit(MultiBufferUnit { memory_id: 200, data: vec![0, 0] });
    builder.add_unit(MultiBufferUnit { memory_id: 201, data: vec![0, 0] });
    assert_eq!(builder.created(), 2);
    let leftover = builder.roll_back();
    assert_eq!(leftover.len(), 2);
    assert_eq!(leftover[0].memory_id, 201);
    assert_eq!(leftover[1].memory_id, 200);
}

#[test]
fn builder_rollback_empty() {
    let builder = MultiBufferBuilder::new(4, 2);
    let leftover = builder.roll_back();
    assert_eq!(leftover.len(), 0);
}

#[test]
fn image_previous_alias_rotates_ids() {
    let image = MultiImage::new(640, 480, vec![100, 101, 102]);
    assert_eq!(image.replica_count(), 3);
    assert_eq!(image.extent(), (640, 480));
    let alias = image.previous_of();
    assert_eq!(alias.replica(0), 102);
    assert_eq!(alias.replica(1), 100);
    assert_eq!(alias.replica(2), 101);
}

#[test]
fn image_recreate_replaces_all_replicas() {
    let mut image = MultiImage::new(640, 480, vec![100, 101, 102]);
    let old = image.recreate(1280, 720, vec![200, 201, 202]);
    // The old handles come back in reverse creation order for destruction.
    assert_eq!(old, vec![102, 101, 100]);
    assert_eq!(image.extent(), (1280, 720));
    assert_eq!(image.replica(0), 200);
    // The alias is derived from the recreated resource: new identities.
    assert_eq!(image.previous_of().replica(0), 202);
}
