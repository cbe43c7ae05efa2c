use render_core::circle::{circle_members_meta, set_trig_time, CIRCLE_ATTRIBUTES_SIZE};
use render_core::layout::{set_time, u32_le_bytes, uint, GlslType, GlslTypeVariant, Time, TIME_SIZE};
use render_core::state::{merge_ranges, StateUpdatesBytes};

#[test]
fn merge_ranges_with_nothing_takes_new_range() {
    assert_eq!(merge_ranges(None, 3..7), Some(3..7));
}

#[test]
fn merge_ranges_covers_both() {
    assert_eq!(merge_ranges(Some(2..5), 8..10), Some(2..10));
    assert_eq!(merge_ranges(Some(8..10), 2..5), Some(2..10));
    assert_eq!(merge_ranges(Some(0..16), 4..8), Some(0..16));
    assert_eq!(merge_ranges(Some(4..8), 0..16), Some(0..16));
}

#[test]
fn merge_order_does_not_matter_on_values() {
    let a = 3..9;
    let b = 12..20;
    let start = Some(5..6);
    let ab = merge_ranges(merge_ranges(start.clone(), a.clone()), b.clone());
    let ba = merge_ranges(merge_ranges(start, b), a);
    assert_eq!(ab, ba);
    assert_eq!(ab, Some(3..20));
}

#[test]
fn new_state_marks_everything_modified() {
    let s = StateUpdatesBytes::new(vec![1, 2, 3, 4]);
    assert_eq!(s.size(), 4);
    let (bytes, off) = s.modified_range().unwrap();
    assert_eq!(bytes, &[1, 2, 3, 4]);
    assert_eq!(off, 0);
}

#[test]
fn clear_then_modify_field_marks_only_that_field() {
    let mut s = StateUpdatesBytes::new(vec![0; 8]);
    s.clear_modified();
    assert!(s.modified_range().is_none());
    assert!(s.modified_bytes().is_none());
    s.modify_field(2..4, &[9, 8]);
    let (bytes, off) = s.modified_range().unwrap();
    assert_eq!(bytes, &[9, 8]);
    assert_eq!(off, 2);
    let d = s.modified_bytes().unwrap();
    assert_eq!(d.modified_bytes, &[9, 8]);
    assert_eq!(d.buffer_offset, 2);
}

#[test]
fn two_field_writes_merge_into_one_range() {
    let mut s = StateUpdatesBytes::new(vec![0; 8]);
    s.clear_modified();
    s.modify_field(1..2, &[5]);
    s.modify_field(5..7, &[6, 7]);
    let (bytes, off) = s.modified_range().unwrap();
    assert_eq!(off, 1);
    assert_eq!(bytes, &[5, 0, 0, 0, 6, 7]);
}

#[test]
fn set_replaces_everything() {
    let mut s = StateUpdatesBytes::new(vec![0; 3]);
    s.clear_modified();
    s.set(vec![7, 8, 9]);
    let (bytes, off) = s.modified_range().unwrap();
    assert_eq!(bytes, &[7, 8, 9]);
    assert_eq!(off, 0);
}

#[test]
fn little_endian_bytes() {
    assert_eq!(u32_le_bytes(0x0403_0201), vec![1, 2, 3, 4]);
    assert_eq!(u32_le_bytes(0), vec![0, 0, 0, 0]);
    assert_eq!(u32_le_bytes(u32::MAX), vec![255, 255, 255, 255]);
}

#[test]
fn uint_holds_its_value() {
    let u = uint::<0>::new(42);
    assert_eq!(u.get(), 42);
    let p = uint::<3>::new(7);
    assert_eq!(p.get(), 7);
}

#[test]
fn time_layout() {
    let t = Time { time: uint::new(0x0102_0304) };
    let b = t.as_bytes();
    assert_eq!(b.len(), TIME_SIZE);
    assert_eq!(&b[0..4], &[4, 3, 2, 1]);
    assert!(b[4..].iter().all(|&x| x == 0));
    let m = Time::members_meta();
    assert_eq!(m.len(), 1);
    assert_eq!(m[0].name, "time");
    assert_eq!(m[0].range, 0..4);
    assert_eq!(m[0].ty, GlslTypeVariant::Uint);
}

#[test]
fn set_time_writes_first_word_only() {
    let mut s = StateUpdatesBytes::new(vec![0xAA; TIME_SIZE]);
    s.clear_modified();
    set_time(&mut s, 1000);
    let (bytes, off) = s.modified_range().unwrap();
    assert_eq!(off, 0);
    assert_eq!(bytes, &[0xE8, 0x03, 0, 0]);
}

#[test]
fn circle_members() {
    let m = circle_members_meta();
    assert_eq!(m.len(), 3);
    assert_eq!(m[0].range, 0..16);
    assert_eq!(m[0].ty, GlslTypeVariant::Vec4);
    assert_eq!(m[1].range, 16..24);
    assert_eq!(m[1].ty, GlslTypeVariant::Vec2);
    assert_eq!(m[2].range, 24..28);
    assert_eq!(m[2].ty, GlslTypeVariant::Uint);
}

#[test]
fn set_trig_time_writes_its_field() {
    let mut s = StateUpdatesBytes::new(vec![0; CIRCLE_ATTRIBUTES_SIZE]);
    s.clear_modified();
    set_trig_time(&mut s, 0x0000_0102);
    let (bytes, off) = s.modified_range().unwrap();
    assert_eq!(off, 24);
    assert_eq!(bytes, &[2, 1, 0, 0]);
}

fn write_into(copy: &mut Vec<u8>, s: &StateUpdatesBytes) {
    if let Some((bytes, off)) = s.modified_range() {
        copy[off..off + bytes.len()].copy_from_slice(bytes);
    }
}

#[test]
fn copy_fed_with_changes_matches_value() {
    let mut s = StateUpdatesBytes::new(vec![1, 2, 3, 4, 5, 6, 7, 8]);
    let mut copy = vec![0u8; 8];
    write_into(&mut copy, &s);
    assert_eq!(copy, s.as_bytes());
    s.clear_modified();
    s.modify_field(1..3, &[20, 30]);
    s.modify_field(6..7, &[70]);
    write_into(&mut copy, &s);
    assert_eq!(copy, s.as_bytes());
    assert_eq!(s.as_bytes(), &[1, 20, 30, 4, 5, 6, 70, 8]);
    s.clear_modified();
    write_into(&mut copy, &s);
    assert_eq!(copy, s.as_bytes());
}

#[test]
fn uint_is_a_glsl_uint() {
    assert_eq!(<uint<0> as GlslType>::T, GlslTypeVariant::Uint);
    let v: <uint<0> as GlslType>::Inner = 5u32;
    assert_eq!(uint::<0>::new(v).get(), 5);
}
