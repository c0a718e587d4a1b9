use smolnet::phy::hosted::{
    descriptor_fits_set, filter_buffer_granted, filter_buffer_needed, interface_name_field,
    raw_protocol, select_timeout, tunnel_mode, tunnel_mtu, Medium,
};
use smolnet::time::Duration;

const IF_NAMESIZE: usize = libc::IF_NAMESIZE;

#[test]
fn ifreq_for_rejects_names_without_nul_room() {
    let max_valid = "x".repeat(IF_NAMESIZE - 1);
    let field = interface_name_field(max_valid.as_bytes(), IF_NAMESIZE).unwrap();
    assert_eq!(field.len(), IF_NAMESIZE);
    assert_eq!(field[IF_NAMESIZE - 1], 0);

    let too_long = "x".repeat(IF_NAMESIZE);
    assert!(interface_name_field(too_long.as_bytes(), IF_NAMESIZE).is_none());
}

#[test]
fn interface_names_are_padded_with_zeros() {
    assert_eq!(interface_name_field(b"tun0", 8), Some(b"tun0\0\0\0\0".to_vec()));
    assert_eq!(interface_name_field(b"", 1), Some(vec![0]));
    assert_eq!(interface_name_field(b"", 0), None);
}

#[test]
fn descriptors_outside_the_set_do_not_fit() {
    assert!(!descriptor_fits_set(-1, libc::FD_SETSIZE));
    assert!(!descriptor_fits_set(libc::FD_SETSIZE as i32, libc::FD_SETSIZE));
    assert!(descriptor_fits_set(libc::FD_SETSIZE as i32 - 1, libc::FD_SETSIZE));
    assert!(descriptor_fits_set(0, libc::FD_SETSIZE));
}

#[test]
fn timeouts_split_into_seconds_and_microseconds() {
    assert_eq!(select_timeout(Duration::from_millis(1500)), (1, 500_000));
    assert_eq!(select_timeout(Duration::from_micros(2_000_999)), (2, 0));
    assert_eq!(select_timeout(Duration::from_micros(999)), (0, 0));
}

#[test]
fn media_select_protocols_modes_and_sizes() {
    assert_eq!(raw_protocol(Medium::Ethernet, 3, 0xf6), 3);
    assert_eq!(raw_protocol(Medium::Ip, 3, 0xf6), 3);
    assert_eq!(raw_protocol(Medium::Ieee802154, 3, 0xf6), 0xf6);
    assert_eq!(tunnel_mode(Medium::Ip, 1, 2), 1);
    assert_eq!(tunnel_mode(Medium::Ethernet, 1, 2), 2);
    assert_eq!(tunnel_mtu(Medium::Ip, 1500), 1500);
    assert_eq!(tunnel_mtu(Medium::Ethernet, 1500), 1514);
}

#[test]
fn filter_buffers_hold_a_header_and_a_frame() {
    assert_eq!(filter_buffer_needed(1514, 18), Some(1532));
    assert_eq!(filter_buffer_needed(usize::MAX, 18), None);
    assert_eq!(filter_buffer_needed(u32::MAX as usize, 1), None);
    assert_eq!(filter_buffer_granted(1532, 4096), Some(4096));
    assert_eq!(filter_buffer_granted(1532, 1532), Some(1532));
    assert_eq!(filter_buffer_granted(1532, 1531), None);
}
