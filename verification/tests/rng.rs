use visor_vmm::devices::rng::{RngDevice, RngError, RngStep, VIRTIO_F_VERSION_1};
use visor_vmm::memory::GuestMemory;
use visor_vmm::transport::{DeviceType, VirtQueue, VIRTQ_DESC_F_NEXT, VIRTQ_DESC_F_WRITE};

/// Works on a queue to its end, with a source that gives one byte over and over.
fn process(
    dev: &RngDevice,
    entropy: u8,
    memory: &mut GuestMemory,
    queue: &mut VirtQueue,
) -> Result<bool, RngError> {
    let (mut run, mut step) = dev.process_queue(memory, queue);
    loop {
        match step {
            RngStep::Entropy(n) => step = dev.resume(memory, &mut run, Ok(vec![entropy; n])),
            RngStep::Finished(result) => {
                *queue = run.queue;
                return result;
            }
        }
    }
}

/// Works on one of the device's own queues to its end.
fn process_own(dev: &mut RngDevice, entropy: u8, idx: usize, memory: &mut GuestMemory) -> bool {
    let Some((mut run, mut step)) = dev.begin_queue(idx, memory) else {
        return false;
    };
    loop {
        match step {
            RngStep::Entropy(n) => step = dev.resume(memory, &mut run, Ok(vec![entropy; n])),
            RngStep::Finished(result) => return dev.end_queue(&run, &result),
        }
    }
}

// VirtioDevice trait tests

#[test]
fn device_type_returns_rng() {
    let dev = RngDevice::new();
    assert_eq!(dev.device_type(), DeviceType::Rng);
}

#[test]
fn rng_test_avail_features_includes_version_1() {
    let dev = RngDevice::new();
    assert_ne!(
        dev.avail_features() & VIRTIO_F_VERSION_1,
        0,
        "VIRTIO_F_VERSION_1 must be set"
    );
}

#[test]
fn rng_test_acked_features_starts_at_zero() {
    let dev = RngDevice::new();
    assert_eq!(dev.acked_features(), 0);
}

#[test]
fn rng_test_acked_features_roundtrip() {
    let mut dev = RngDevice::new();
    dev.set_acked_features(VIRTIO_F_VERSION_1);
    assert_eq!(dev.acked_features(), VIRTIO_F_VERSION_1);
}

#[test]
fn queues_returns_one_queue() {
    let dev = RngDevice::new();
    assert_eq!(dev.queues().len(), 1, "rng device has exactly 1 virtqueue");
    assert_eq!(dev.queues()[0].max_size, 256);
}

#[test]
fn read_config_returns_zeros() {
    let dev = RngDevice::new();
    let mut buf = [0xFFu8; 8];
    dev.read_config(0, &mut buf);
    assert_eq!(buf, [0; 8], "rng has no config space");
}

#[test]
fn rng_test_write_config_is_noop() {
    let mut dev = RngDevice::new();
    dev.write_config(0, &[0xFF; 8]);
    let mut buf = [0xFFu8; 8];
    dev.read_config(0, &mut buf);
    assert_eq!(buf, [0; 8]);
}

#[test]
fn rng_test_activate_deactivate_cycle() {
    let mut dev = RngDevice::new();
    assert!(!dev.is_activated());
    dev.activate().unwrap();
    assert!(dev.is_activated());
}

#[test]
fn rng_test_reset_clears_activation_and_queues() {
    let mut dev = RngDevice::new();
    dev.activate().unwrap();
    dev.queues_mut()[0].size = 128;
    dev.queues_mut()[0].ready = true;

    dev.reset();

    assert!(!dev.is_activated());
    assert_eq!(dev.queues()[0].size, 0);
    assert!(!dev.queues()[0].ready);
}

// I/O processing test helpers

const TEST_DESC_TABLE: u64 = 0x1000;
const TEST_AVAIL_RING: u64 = 0x2000;
const TEST_USED_RING: u64 = 0x3000;
const TEST_DATA_ADDR: u64 = 0x5000;

fn make_memory() -> GuestMemory {
    GuestMemory::new(1024 * 1024, 0).unwrap()
}

fn make_test_queue() -> VirtQueue {
    let mut q = VirtQueue::new(256);
    q.size = 256;
    q.ready = true;
    q.desc_table_addr = TEST_DESC_TABLE;
    q.avail_ring_addr = TEST_AVAIL_RING;
    q.used_ring_addr = TEST_USED_RING;
    q.last_avail_idx = 0;
    q.last_used_idx = 0;
    q
}

fn write_desc(
    memory: &mut GuestMemory,
    queue: &VirtQueue,
    idx: u16,
    addr: u64,
    len: u32,
    flags: u16,
    next: u16,
) {
    let offset = queue.desc_table_addr + u64::from(idx) * 16;
    memory.write_bytes(offset, &addr.to_le_bytes()).unwrap();
    memory.write_bytes(offset + 8, &len.to_le_bytes()).unwrap();
    memory
        .write_bytes(offset + 12, &flags.to_le_bytes())
        .unwrap();
    memory
        .write_bytes(offset + 14, &next.to_le_bytes())
        .unwrap();
}

fn write_avail_ring(memory: &mut GuestMemory, queue: &VirtQueue, head_idx: u16, avail_idx: u16) {
    memory
        .write_bytes(queue.avail_ring_addr, &0u16.to_le_bytes())
        .unwrap();
    memory
        .write_bytes(queue.avail_ring_addr + 2, &avail_idx.to_le_bytes())
        .unwrap();
    let ring_offset = 4 + u64::from((avail_idx.wrapping_sub(1)) % queue.size) * 2;
    memory
        .write_bytes(queue.avail_ring_addr + ring_offset, &head_idx.to_le_bytes())
        .unwrap();
}

fn read_used_idx(memory: &GuestMemory, queue: &VirtQueue) -> u16 {
    let bytes = memory.read_bytes(queue.used_ring_addr + 2, 2).unwrap();
    u16::from_le_bytes([bytes[0], bytes[1]])
}

fn read_used_elem(memory: &GuestMemory, queue: &VirtQueue, idx: u16) -> (u32, u32) {
    let offset = queue.used_ring_addr + 4 + u64::from(idx % queue.size) * 8;
    let id_bytes = memory.read_bytes(offset, 4).unwrap();
    let len_bytes = memory.read_bytes(offset + 4, 4).unwrap();
    (
        u32::from_le_bytes([id_bytes[0], id_bytes[1], id_bytes[2], id_bytes[3]]),
        u32::from_le_bytes([len_bytes[0], len_bytes[1], len_bytes[2], len_bytes[3]]),
    )
}

// process_queue tests

#[test]
fn rng_test_process_queue_empty_queue() {
    let dev = RngDevice::new();
    let mut memory = make_memory();
    let mut queue = make_test_queue();

    memory
        .write_bytes(queue.avail_ring_addr + 2, &0u16.to_le_bytes())
        .unwrap();

    let result = process(&dev, 0, &mut memory, &mut queue).unwrap();
    assert!(!result, "should not process when queue is empty");
}

#[test]
fn rng_test_process_queue_not_ready_returns_false() {
    let dev = RngDevice::new();
    let mut memory = make_memory();
    let mut queue = make_test_queue();
    queue.ready = false;

    let result = process(&dev, 0, &mut memory, &mut queue).unwrap();
    assert!(!result, "should not process when queue is not ready");
}

#[test]
fn process_queue_fills_single_buffer() {
    let dev = RngDevice::new();
    let entropy = 0xABu8;
    let mut memory = make_memory();
    let mut queue = make_test_queue();

    write_desc(
        &mut memory,
        &queue,
        0,
        TEST_DATA_ADDR,
        64,
        VIRTQ_DESC_F_WRITE,
        0,
    );
    write_avail_ring(&mut memory, &queue, 0, 1);

    let result = process(&dev, entropy, &mut memory, &mut queue).unwrap();
    assert!(result, "should have processed one request");

    let data = memory.read_bytes(TEST_DATA_ADDR, 64).unwrap();
    assert_eq!(
        data,
        vec![0xABu8; 64],
        "buffer should be filled with entropy"
    );

    assert_eq!(read_used_idx(&memory, &queue), 1);
    let (id, len) = read_used_elem(&memory, &queue, 0);
    assert_eq!(id, 0);
    assert_eq!(len, 64);
}

#[test]
fn process_queue_fills_chained_buffers() {
    let dev = RngDevice::new();
    let entropy = 0xCDu8;
    let mut memory = make_memory();
    let mut queue = make_test_queue();

    let data2_addr: u64 = 0x6000;
    write_desc(
        &mut memory,
        &queue,
        0,
        TEST_DATA_ADDR,
        128,
        VIRTQ_DESC_F_WRITE | VIRTQ_DESC_F_NEXT,
        1,
    );
    write_desc(&mut memory, &queue, 1, data2_addr, 256, VIRTQ_DESC_F_WRITE, 0);
    write_avail_ring(&mut memory, &queue, 0, 1);

    let result = process(&dev, entropy, &mut memory, &mut queue).unwrap();
    assert!(result);

    let data1 = memory.read_bytes(TEST_DATA_ADDR, 128).unwrap();
    assert_eq!(data1, vec![0xCDu8; 128]);

    let data2 = memory.read_bytes(data2_addr, 256).unwrap();
    assert_eq!(data2, vec![0xCDu8; 256]);

    let (id, len) = read_used_elem(&memory, &queue, 0);
    assert_eq!(id, 0);
    assert_eq!(len, 384); // 128 + 256
}

#[test]
fn process_queue_skips_non_writable_descriptors() {
    let dev = RngDevice::new();
    let entropy = 0xEEu8;
    let mut memory = make_memory();
    let mut queue = make_test_queue();

    // desc 0: readable (no WRITE flag) -> should be skipped
    // desc 1: writable -> should be filled
    write_desc(&mut memory, &queue, 0, TEST_DATA_ADDR, 64, VIRTQ_DESC_F_NEXT, 1);
    let writable_addr: u64 = 0x6000;
    write_desc(&mut memory, &queue, 1, writable_addr, 32, VIRTQ_DESC_F_WRITE, 0);
    write_avail_ring(&mut memory, &queue, 0, 1);

    let result = process(&dev, entropy, &mut memory, &mut queue).unwrap();
    assert!(result);

    let (_, len) = read_used_elem(&memory, &queue, 0);
    assert_eq!(len, 32, "only writable descriptor bytes should be counted");
}

#[test]
fn rng_test_process_queue_via_virtio_device_trait() {
    let mut dev = RngDevice::new();
    let entropy = 0x77u8;
    let mut memory = make_memory();

    dev.queues_mut()[0].size = 256;
    dev.queues_mut()[0].ready = true;
    dev.queues_mut()[0].desc_table_addr = TEST_DESC_TABLE;
    dev.queues_mut()[0].avail_ring_addr = TEST_AVAIL_RING;
    dev.queues_mut()[0].used_ring_addr = TEST_USED_RING;

    write_desc(
        &mut memory,
        &dev.queues()[0],
        0,
        TEST_DATA_ADDR,
        64,
        VIRTQ_DESC_F_WRITE,
        0,
    );
    write_avail_ring(&mut memory, &dev.queues()[0], 0, 1);

    let result = process_own(&mut dev, entropy, 0, &mut memory);
    assert!(result, "VirtioDevice::process_queue should succeed");

    let data = memory.read_bytes(TEST_DATA_ADDR, 64).unwrap();
    assert_eq!(data, vec![0x77u8; 64]);
}

#[test]
fn process_queue_invalid_queue_idx_returns_false() {
    let mut dev = RngDevice::new();
    let mut memory = make_memory();
    let result = process_own(&mut dev, 0, 99, &mut memory);
    assert!(!result);
}

// Error display test

#[test]
fn rng_error_display_is_readable() {
    let err = RngError::OpenSource(std::io::Error::new(std::io::ErrorKind::NotFound, "gone"));
    let msg = err.message();
    assert!(
        msg.contains("entropy source"),
        "should mention entropy source: {msg}"
    );
}

// A source that fails

#[test]
fn failing_source_ends_the_work() {
    let dev = RngDevice::new();
    let mut memory = make_memory();
    let queue = make_test_queue();
    write_desc(&mut memory, &queue, 0, TEST_DATA_ADDR, 64, VIRTQ_DESC_F_WRITE, 0);
    write_avail_ring(&mut memory, &queue, 0, 1);
    let (mut run, step) = dev.process_queue(&mut memory, &queue);
    assert!(matches!(step, RngStep::Entropy(64)));
    let step = dev.resume(&mut memory, &mut run, Err(std::io::Error::other("dry")));
    let RngStep::Finished(Err(err)) = step else {
        panic!("the work ends with an error");
    };
    assert_eq!(err.message(), "failed to read random bytes: dry");
}

#[test]
fn large_buffers_are_filled_in_part() {
    let dev = RngDevice::new();
    let mut memory = make_memory();
    let mut queue = make_test_queue();
    write_desc(
        &mut memory,
        &queue,
        0,
        0x2_0000,
        0x2_0000,
        VIRTQ_DESC_F_WRITE,
        0,
    );
    write_avail_ring(&mut memory, &queue, 0, 1);
    assert!(process(&dev, 0x5A, &mut memory, &mut queue).unwrap());
    let (_, len) = read_used_elem(&memory, &queue, 0);
    assert_eq!(len, 0x1_0000);
    assert_eq!(memory.read_bytes(0x2_ffff, 2).unwrap(), vec![0x5A, 0]);
}
