use hxnu::supernova::{Hex2Payload, Hex4Payload, SupernovaDriver, SxrcPayload};

#[test]
fn test_route_sxrc_oob_size_no_panic() {
    let mut driver = SupernovaDriver::new();
    let payload = SxrcPayload::Hex2(Hex2Payload { data: [0; 32], size: 100 });
    driver.route_sxrc(payload);
    assert_eq!(driver.hw.doorbell, 0);
}

#[test]
fn route_sxrc_writes_payload_and_rings() {
    let mut driver = SupernovaDriver::new();
    let mut data = [0u8; 64];
    data[0] = 0xAB;
    data[1] = 0xCD;
    driver.route_sxrc(SxrcPayload::Hex4(Hex4Payload { data, size: 2 }));
    assert_eq!(driver.hw.doorbell, 2);
    assert_eq!(driver.hw.ring_buffer[0], 0xAB);
    assert_eq!(driver.hw.ring_buffer[1], 0xCD);
}
