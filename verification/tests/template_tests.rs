use bpfi::template::{Placeholder, Template};

fn content(t: &Template) -> Vec<u8> {
    t.bytes[..t.len].to_vec()
}

#[test]
fn empty_template_has_nothing() {
    let t = Template::empty();
    assert_eq!(t.len, 0);
    assert_eq!(t.placeholder_count, 0);
    assert!(t.bytes.iter().all(|&b| b == 0));
    assert!(t.placeholders.iter().all(|p| *p == Placeholder { location: usize::MAX, size: usize::MAX }));
}

#[test]
fn from_slice_copies_bytes() {
    let t = Template::from_slice(&[1, 2, 3]);
    assert_eq!(t.len, 3);
    assert_eq!(content(&t), vec![1, 2, 3]);
    assert_eq!(t.bytes[3], 0);
    let u = Template::bytes([0xAA, 0xBB]);
    assert_eq!(content(&u), vec![0xAA, 0xBB]);
}

#[test]
fn placeholder_is_one_hole() {
    let t = Template::placeholder(4);
    assert_eq!(t.len, 4);
    assert_eq!(t.placeholder_count, 1);
    assert_eq!(t.placeholders[0], Placeholder { location: 0, size: 4 });
    assert_eq!(content(&t), vec![0, 0, 0, 0]);
}

#[test]
fn merge_appends_bytes_and_shifts_placeholders() {
    let a = Template::bytes([0x48, 0x81]);
    let b = Template::placeholder(4);
    let m = a.merge(&b);
    assert_eq!(m.len, 6);
    assert_eq!(content(&m), vec![0x48, 0x81, 0, 0, 0, 0]);
    assert_eq!(m.placeholder_count, 1);
    assert_eq!(m.placeholders[0], Placeholder { location: 2, size: 4 });
    let c = m.merge(&Template::bytes([0xC3]));
    assert_eq!(content(&c), vec![0x48, 0x81, 0, 0, 0, 0, 0xC3]);
    assert_eq!(c.placeholders[0], Placeholder { location: 2, size: 4 });
}

#[test]
fn merge_is_associative_on_example() {
    let a = Template::bytes([1]);
    let b = Template::placeholder(2);
    let c = Template::bytes([3, 4]).merge(&Template::placeholder(1));
    let left = a.merge(&b).merge(&c);
    let right = a.merge(&b.merge(&c));
    assert_eq!(content(&left), content(&right));
    assert_eq!(left.placeholder_count, right.placeholder_count);
    assert_eq!(left.placeholders[..2], right.placeholders[..2]);
    assert_eq!(left.placeholders[1], Placeholder { location: 5, size: 1 });
}

#[test]
fn merge_with_empty_changes_nothing() {
    let a = Template::bytes([9, 8]).merge(&Template::placeholder(1));
    let e = Template::empty();
    let l = a.merge(&e);
    let r = e.merge(&a);
    assert_eq!(content(&l), content(&a));
    assert_eq!(content(&r), content(&a));
    assert_eq!(r.placeholders[0], a.placeholders[0]);
}

#[test]
fn merged_concatenates_all() {
    let t = Template::merged([
        Template::bytes([0xF0]),
        Template::placeholder(1),
        Template::bytes([0xC3]),
        Template::placeholder(2),
    ]);
    assert_eq!(content(&t), vec![0xF0, 0, 0xC3, 0, 0]);
    assert_eq!(t.placeholder_count, 2);
    assert_eq!(t.placeholders[0], Placeholder { location: 1, size: 1 });
    assert_eq!(t.placeholders[1], Placeholder { location: 3, size: 2 });
    assert_eq!(t.placeholders[2], Placeholder { location: usize::MAX, size: usize::MAX });
}

#[test]
fn assert_len_returns_template() {
    let t = Template::bytes([1, 2, 3]).assert_len(3);
    assert_eq!(t.len, 3);
}

#[test]
fn buffer_only_without_placeholders_and_exact_length() {
    let t = Template::bytes([5, 6, 7]);
    assert_eq!(t.buffer::<3>(), Some([5, 6, 7]));
    assert_eq!(t.buffer::<4>(), None);
    let p = t.merge(&Template::placeholder(1));
    assert_eq!(p.buffer::<4>(), None);
}

#[test]
fn is_le_int_reads_little_endian_values() {
    assert!(Template::bytes([0xFF]).is_le_int(-1));
    assert!(Template::bytes([0x20]).is_le_int(32));
    assert!(!Template::bytes([0x20]).is_le_int(33));
    assert!(Template::bytes([0x34, 0x12]).is_le_int(0x1234));
    assert!(Template::bytes([0x20, 0, 0, 0]).is_le_int(32));
    assert!(Template::bytes([0xF8, 0xFF, 0xFF, 0xFF]).is_le_int(-8));
    assert!(Template::bytes([1, 0, 0, 0, 0, 0, 0, 0x80]).is_le_int(i64::MIN + 1));
    assert!(!Template::bytes([1, 2, 3]).is_le_int(0x030201));
    assert!(!Template::placeholder(4).is_le_int(0));
    // only the low bytes of the expected value count
    assert!(Template::bytes([0x01]).is_le_int(0x101));
}
