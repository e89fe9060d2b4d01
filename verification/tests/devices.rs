use ha_ndarray::platform::{Context, Device, DeviceKind, DeviceList, Platform, Queue};

#[test]
fn default_context_has_no_device() {
    let context = Context::default().unwrap();
    assert_eq!(context.select_class(0), None);
    assert_eq!(context.select_class(1 << 20), None);
    assert_eq!(context.select_device(5000), None);
    let queue = Queue::new(context, 5000).unwrap();
    assert_eq!(queue.selected(), None);
}

#[test]
fn thresholds_choose_the_kind_of_device() {
    let context = Context::new(100, 1000, Some(Platform::new(2, 2, 2))).unwrap();
    assert_eq!(context.select_class(99), Some(DeviceKind::Cpu));
    assert_eq!(context.select_class(100), Some(DeviceKind::Gpu));
    assert_eq!(context.select_class(999), Some(DeviceKind::Gpu));
    assert_eq!(context.select_class(1000), Some(DeviceKind::Accelerator));
}

#[test]
fn missing_kinds_fall_back() {
    let no_acc = Context::new(100, 1000, Some(Platform::new(1, 1, 0))).unwrap();
    assert_eq!(no_acc.select_class(5000), Some(DeviceKind::Gpu));
    let cpu_only = Context::new(100, 1000, Some(Platform::new(1, 0, 0))).unwrap();
    assert_eq!(cpu_only.select_class(5000), Some(DeviceKind::Cpu));
    assert_eq!(cpu_only.select_class(500), Some(DeviceKind::Cpu));
    let gpu_only = Context::new(100, 1000, Some(Platform::new(0, 1, 0))).unwrap();
    assert_eq!(gpu_only.select_class(50), None);
    assert_eq!(gpu_only.select_class(500), Some(DeviceKind::Gpu));
}

#[test]
fn default_thresholds_for_a_platform() {
    let with_gpu = Context::for_platform(Platform::new(1, 1, 1));
    assert_eq!(with_gpu.select_class(1023), Some(DeviceKind::Cpu));
    assert_eq!(with_gpu.select_class(1024), Some(DeviceKind::Gpu));
    assert_eq!(with_gpu.select_class(usize::MAX - 1), Some(DeviceKind::Gpu));
    let without = Context::for_platform(Platform::new(1, 0, 1));
    assert_eq!(without.select_class(1024), Some(DeviceKind::Accelerator));
}

#[test]
fn devices_are_handed_out_in_turn() {
    let list = DeviceList::new(3);
    assert_eq!(list.len(), 3);
    assert_eq!(list.next(), Some(0));
    assert_eq!(list.next(), Some(1));
    assert_eq!(list.next(), Some(2));
    assert_eq!(list.next(), Some(0));
    assert_eq!(list.at(7), Some(1));
    let none = DeviceList::new(0);
    assert!(none.is_empty());
    assert_eq!(none.next(), None);
    assert_eq!(none.at(7), None);
}

#[test]
fn queues_select_and_split() {
    let context = Context::new(10, 100, Some(Platform::new(1, 2, 0))).unwrap();
    let queue = Queue::new(context, 50).unwrap();
    let device = queue.selected().unwrap();
    assert_eq!(device.kind, DeviceKind::Gpu);
    assert!(device.index < 2);
    let side = queue.split(5).unwrap();
    assert_eq!(side.selected(), Some(Device { kind: DeviceKind::Cpu, index: 0 }));
    assert_eq!(queue.transfer_hint(3), 10);
    assert_eq!(queue.transfer_hint(30), 30);
    let host = Queue::default(Context::default().unwrap());
    assert_eq!(host.split(1 << 20).unwrap().selected(), None);
}
