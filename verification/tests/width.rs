#[test]
fn byte_width() {
    assert_eq!(dvi::util::byte_width(0x7f_ff_ff_ff), 4);
    assert_eq!(dvi::util::byte_width(0x7f_ff_ff), 3);
    assert_eq!(dvi::util::byte_width(0x7f_ff), 2);
    assert_eq!(dvi::util::byte_width(0x7f), 1);
    assert_eq!(dvi::util::byte_width(0), 1);
}

#[test]
fn byte_width_signed() {
    assert_eq!(dvi::util::byte_width_signed(0), 1);
    assert_eq!(dvi::util::byte_width_signed(0x7f), 1);
    assert_eq!(dvi::util::byte_width_signed(0x7f_ff), 2);
    assert_eq!(dvi::util::byte_width_signed(0x7f_ff_ff), 3);
    assert_eq!(dvi::util::byte_width_signed(0x7f_ff_ff_ff), 4);
    assert_eq!(dvi::util::byte_width_signed(-0x7f), 1);
    assert_eq!(dvi::util::byte_width_signed(-0x7f_ff), 2);
    assert_eq!(dvi::util::byte_width_signed(-0x7f_ff_ff), 3);
    assert_eq!(dvi::util::byte_width_signed(-0x7f_ff_ff_ff), 4);
    assert_eq!(dvi::util::byte_width_signed(i32::MAX), 4);
    assert_eq!(dvi::util::byte_width_signed(i32::MIN), 4);
}

#[test]
fn byte_width_signed_boundaries() {
    assert_eq!(dvi::util::byte_width_signed(127), 1);
    assert_eq!(dvi::util::byte_width_signed(128), 2);
    assert_eq!(dvi::util::byte_width_signed(-128), 1);
    assert_eq!(dvi::util::byte_width_signed(-129), 2);
    assert_eq!(dvi::util::byte_width_signed(32767), 2);
    assert_eq!(dvi::util::byte_width_signed(32768), 3);
    assert_eq!(dvi::util::byte_width_signed(-32768), 2);
    assert_eq!(dvi::util::byte_width_signed(-32769), 3);
    assert_eq!(dvi::util::byte_width_signed(8388607), 3);
    assert_eq!(dvi::util::byte_width_signed(8388608), 4);
    assert_eq!(dvi::util::byte_width_signed(-8388608), 3);
    assert_eq!(dvi::util::byte_width_signed(-8388609), 4);
}

#[test]
fn byte_width_boundaries() {
    assert_eq!(dvi::util::byte_width(0xff), 1);
    assert_eq!(dvi::util::byte_width(0x100), 2);
    assert_eq!(dvi::util::byte_width(0xffff), 2);
    assert_eq!(dvi::util::byte_width(0x1_0000), 3);
    assert_eq!(dvi::util::byte_width(0xff_ffff), 3);
    assert_eq!(dvi::util::byte_width(0x100_0000), 4);
    assert_eq!(dvi::util::byte_width(0xffff_ffff), 4);
}
