use envhive::junction::mount_point_buffer;

/// The buffer as built byte by byte from the layout of a mount point.
fn reference(target: &str) -> Vec<u8> {
    let target_str = target.replace('/', "\\");
    let target_str = target_str.trim_end_matches('\\').to_string();
    let subst = format!("\\??\\{target_str}");
    let mut subst_wide: Vec<u16> = subst.encode_utf16().collect();
    subst_wide.push(0);
    let mut print_wide: Vec<u16> = target_str.encode_utf16().collect();
    print_wide.push(0);
    let subst_bytes = (subst_wide.len() * 2) as u16;
    let print_bytes = (print_wide.len() * 2) as u16;
    let body = 8 + u32::from(subst_bytes) + u32::from(print_bytes);
    let data_len = (body + 7) / 8 * 8;
    let mut buf: Vec<u8> = Vec::new();
    buf.extend_from_slice(&0xA000_0003u32.to_le_bytes());
    buf.extend_from_slice(&(data_len as u16).to_le_bytes());
    buf.extend_from_slice(&0u16.to_le_bytes());
    buf.extend_from_slice(&0u16.to_le_bytes());
    buf.extend_from_slice(&subst_bytes.to_le_bytes());
    buf.extend_from_slice(&subst_bytes.to_le_bytes());
    buf.extend_from_slice(&print_bytes.to_le_bytes());
    for u in &subst_wide {
        buf.extend_from_slice(&u.to_le_bytes());
    }
    for u in &print_wide {
        buf.extend_from_slice(&u.to_le_bytes());
    }
    while (buf.len() as u32) < 8 + data_len {
        buf.push(0);
    }
    buf
}

#[test]
fn mount_point_buffer_without_padding() {
    let buf = mount_point_buffer("C:/ab/");
    assert_eq!(&buf[..16], &[0x03, 0x00, 0x00, 0xA0, 40, 0, 0, 0, 0, 0, 20, 0, 20, 0, 12, 0]);
    assert_eq!(buf.len(), 48);
    assert_eq!(&buf[16..20], &[b'\\', 0, b'?', 0]);
    assert_eq!(&buf[44..48], &[b'b', 0, 0, 0]);
    assert_eq!(buf, reference("C:/ab/"));
}

#[test]
fn mount_point_buffer_pads_to_eight() {
    let buf = mount_point_buffer(r"C:\a\\");
    assert_eq!(&buf[..16], &[0x03, 0x00, 0x00, 0xA0, 40, 0, 0, 0, 0, 0, 18, 0, 18, 0, 10, 0]);
    assert_eq!(buf.len(), 48);
    assert_eq!(&buf[44..], &[0, 0, 0, 0]);
    assert_eq!(buf, reference(r"C:\a\\"));
    assert_eq!(mount_point_buffer(r"C:\tools\go\1.22"), reference(r"C:\tools\go\1.22"));
}

#[test]
fn mount_point_buffer_surrogate_pairs() {
    let buf = mount_point_buffer("D:/\u{1F600}");
    assert_eq!(&buf[..16], &[0x03, 0x00, 0x00, 0xA0, 40, 0, 0, 0, 0, 0, 20, 0, 20, 0, 12, 0]);
    assert_eq!(&buf[30..34], &[0x3D, 0xD8, 0x00, 0xDE]);
    assert_eq!(buf, reference("D:/\u{1F600}"));
}
