use rimecraft_core::advancement::{display_flags, read_display_flags, Frame};
use rimecraft_core::item::Formatting;

#[test]
fn frame_data() {
    let d = Frame::Task.data();
    assert_eq!((d.name, d.fmt), ("task", Formatting::Green));
    let d = Frame::Challenge.data();
    assert_eq!((d.name, d.fmt), ("challenge", Formatting::DarkPurple));
    let d = Frame::Goal.data();
    assert_eq!((d.name, d.fmt), ("goal", Formatting::Green));
}

#[test]
fn display_flag_bits() {
    assert_eq!(display_flags(false, false, false), 0);
    assert_eq!(display_flags(true, false, false), 1);
    assert_eq!(display_flags(false, true, false), 2);
    assert_eq!(display_flags(false, false, true), 4);
    assert_eq!(display_flags(true, true, true), 7);
    assert_eq!(read_display_flags(5), (true, false, true));
    assert_eq!(read_display_flags(-1), (true, true, true));
    for b in [false, true] {
        for s in [false, true] {
            for h in [false, true] {
                assert_eq!(read_display_flags(display_flags(b, s, h)), (b, s, h));
            }
        }
    }
}
