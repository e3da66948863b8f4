use omaboy_core::image::{copy_bytes, Reader, Writer};

#[test]
fn image_fields_roundtrip() {
    let mut w = Writer::new();
    w.u8(0x12);
    w.b(true);
    w.u16(0x3456);
    w.u32(0x789A_BCDE);
    w.u64(0x0102_0304_0506_0708);
    w.bytes(&[9, 8, 7]);
    w.longs(&vec![0xAABB_CCDD, 1]);
    let buf = w.buf;
    assert_eq!(buf.len(), 1 + 1 + 2 + 4 + 8 + 3 + 8);
    assert_eq!(&buf[2..4], &[0x56, 0x34]);

    let mut r = Reader::new(&buf);
    assert_eq!(r.u8(), 0x12);
    assert_eq!(r.u8(), 1);
    assert_eq!(r.u16(), 0x3456);
    assert_eq!(r.u32(), 0x789A_BCDE);
    assert_eq!(r.u64(), 0x0102_0304_0506_0708);
    assert_eq!(r.bytes(3), vec![9, 8, 7]);
    assert_eq!(r.longs(2), vec![0xAABB_CCDD, 1]);
    assert_eq!(r.p, buf.len());
}

#[test]
fn copy_bytes_copies() {
    assert_eq!(copy_bytes(&[1, 2, 3]), vec![1, 2, 3]);
    assert!(copy_bytes(&[]).is_empty());
}
