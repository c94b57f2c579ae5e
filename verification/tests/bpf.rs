use beeline::bpf::{IpAddress, SocketAddress, TryIntoRawOctets, UnsupportedAddressFamily};

#[test]
fn ipv4_octets_become_a_native_endian_number() {
    let ip = IpAddress::V4([127, 0, 0, 1]);
    assert_eq!(ip.try_into_ne_octets(), Ok(u32::from_ne_bytes([127, 0, 0, 1])));
    let addr = SocketAddress { ip: IpAddress::V4([10, 1, 2, 3]), port: 8080 };
    let v = addr.try_into_ne_octets().unwrap();
    assert_eq!(v.to_ne_bytes(), [10, 1, 2, 3]);
}

#[test]
fn ipv6_is_refused() {
    let ip = IpAddress::V6([0, 0, 0, 0, 0, 0, 0, 1]);
    assert_eq!(ip.try_into_ne_octets(), Err(UnsupportedAddressFamily));
    let addr = SocketAddress { ip, port: 80 };
    assert_eq!(addr.try_into_ne_octets(), Err(UnsupportedAddressFamily));
}
