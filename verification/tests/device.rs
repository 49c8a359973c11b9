use eltako_bus::device::Device;

#[test]
fn device_keeps_its_address() {
    assert_eq!(Device::new(0x01).id, 0x01);
    assert_eq!(Device::new(0xff).id, 0xff);
}

#[test]
fn default_device_is_at_address_zero() {
    assert_eq!(Device::default().id, 0x00);
    assert_eq!(Device::default(), Device { id: 0 });
}
