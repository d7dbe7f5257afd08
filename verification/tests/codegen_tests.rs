use bpfi::codegen::{AsmError, LabelRef, RelocTarget, SliceAssembler, SliceAssemblerError};
use bpfi::interpreter::interpreter_step;
use bpfi::template::Placeholder;

/// Relative, 4 bytes.
const REL32: u8 = 0x02;
/// Relative, 1 byte.
const REL8: u8 = 0x00;
/// Absolute, 4 bytes.
const ABS32: u8 = 0xC2;
/// Absolute-to-relative (adds the buffer address), 8 bytes.
const ABS_TO_REL64: u8 = 0x43;
/// Relative-to-absolute (subtracts the buffer address), 4 bytes.
const REL_TO_ABS32: u8 = 0x82;

fn call_site(a: &mut SliceAssembler) {
    a.extend(&[0xE8, 0, 0, 0, 0]);
}

#[test]
fn push_writes_at_the_offset() {
    let mut a = SliceAssembler::new(vec![0; 3], 0);
    a.push(1);
    a.push(2);
    assert_eq!(a.offset(), 2);
    assert!(a.commit().is_ok());
    assert_eq!(a.into_buffer(), vec![1, 2, 0]);
}

#[test]
fn extend_writes_all_bytes() {
    let mut a = SliceAssembler::new(vec![9; 6], 0);
    a.extend(&[1, 2]);
    assert_eq!(a.offset(), 2);
    a.extend(&[3, 4, 5]);
    assert_eq!(a.offset(), 5);
    assert_eq!(a.into_buffer(), vec![1, 2, 3, 4, 5, 9]);
}

#[test]
fn align_pads_to_the_next_multiple() {
    let mut a = SliceAssembler::new(vec![0; 8], 0);
    a.extend(&[1, 2, 3]);
    a.align(4, 0x90);
    assert_eq!(a.offset(), 4);
    a.align(4, 0x90);
    assert_eq!(a.offset(), 4);
    a.push(7);
    a.align(8, 0xCC);
    assert_eq!(a.offset(), 8);
    assert!(a.commit().is_ok());
    assert_eq!(a.into_buffer(), vec![1, 2, 3, 0x90, 7, 0xCC, 0xCC, 0xCC]);
}

#[test]
fn align_to_the_end_of_the_buffer() {
    let mut a = SliceAssembler::new(vec![0; 8], 0);
    a.extend(&[1, 2, 3, 4, 5]);
    a.align(8, 0x90);
    assert_eq!(a.offset(), 8);
    assert_eq!(a.capacity(), 8);
    assert_eq!(a.into_buffer(), vec![1, 2, 3, 4, 5, 0x90, 0x90, 0x90]);
}

#[test]
fn global_relocation_is_patched_relative_to_the_next_instruction() {
    let mut a = SliceAssembler::new(vec![0; 16], 0x1000);
    call_site(&mut a);
    a.global_relocation("target", 0, 4, 0, REL32);
    a.extend(&[0x90; 5]);
    a.global_label("target");
    a.push(0xC3);
    assert!(a.commit().is_ok());
    let out = a.into_buffer();
    assert_eq!(&out[..11], &[0xE8, 5, 0, 0, 0, 0x90, 0x90, 0x90, 0x90, 0x90, 0xC3]);
}

#[test]
fn local_labels_forward_and_backward() {
    let mut a = SliceAssembler::new(vec![0; 16], 0);
    a.local_label("top");
    a.push(0x90);
    // jmp top (backward): EB rel8
    a.extend(&[0xEB, 0]);
    a.backward_relocation("top", 0, 1, 0, REL8);
    // jmp next (forward)
    a.extend(&[0xEB, 0]);
    a.forward_relocation("top", 0, 1, 0, REL8);
    a.push(0x90);
    a.local_label("top");
    assert_eq!(a.local_generation("top"), Some(2));
    assert!(a.commit().is_ok());
    let out = a.into_buffer();
    // backward: target 0, site ends at 3 -> -3; forward: target 6, site ends at 5 -> 1
    assert_eq!(&out[..6], &[0x90, 0xEB, 0xFD, 0xEB, 0x01, 0x90]);
}

#[test]
fn backward_relocation_without_a_label_is_an_error() {
    let mut a = SliceAssembler::new(vec![0; 8], 0);
    a.extend(&[0xEB, 0]);
    a.backward_relocation("nowhere", 0, 1, 0, REL8);
    match a.commit() {
        Err(SliceAssemblerError::PlaceLocalReference(AsmError::UnknownLabel(LabelRef::Local(
            "nowhere",
        )))) => {}
        other => panic!("unexpected {other:?}"),
    }
}

#[test]
fn unresolved_global_is_an_error() {
    let mut a = SliceAssembler::new(vec![0; 8], 0);
    call_site(&mut a);
    a.global_relocation("missing", 0, 4, 0, REL32);
    match a.commit() {
        Err(SliceAssemblerError::ResolveStatic(AsmError::UnknownLabel(LabelRef::Global(
            "missing",
        )))) => {}
        other => panic!("unexpected {other:?}"),
    }
}

#[test]
fn unresolved_forward_local_is_an_error() {
    let mut a = SliceAssembler::new(vec![0; 8], 0);
    a.extend(&[0xEB, 0]);
    a.forward_relocation("later", 0, 1, 0, REL8);
    match a.commit() {
        Err(SliceAssemblerError::ResolveStatic(AsmError::UnknownLabel(LabelRef::Local(
            "later",
        )))) => {}
        other => panic!("unexpected {other:?}"),
    }
}

#[test]
fn relocation_that_does_not_fit_is_an_error() {
    let mut a = SliceAssembler::new(vec![0; 300], 0);
    a.extend(&[0xEB, 0]);
    a.global_relocation("far", 0, 1, 0, REL8);
    a.extend(&[0x90; 200]);
    a.global_label("far");
    match a.commit() {
        Err(SliceAssemblerError::PatchStatic(AsmError::ImpossibleRelocation(
            RelocTarget::Global("far"),
        ))) => {}
        other => panic!("unexpected {other:?}"),
    }
    assert_eq!(a.into_buffer()[1], 0);
}

#[test]
fn duplicate_global_label_is_an_error() {
    let mut a = SliceAssembler::new(vec![0; 8], 0);
    a.global_label("g");
    a.push(0x90);
    a.global_label("g");
    match a.commit() {
        Err(SliceAssemblerError::DefineGlobalLabel(AsmError::DuplicateLabel(LabelRef::Global(
            "g",
        )))) => {}
        other => panic!("unexpected {other:?}"),
    }
}

#[test]
fn dynamic_labels_are_unknown_to_the_assembler() {
    let id = dynasmrt::components::LabelRegistry::new().new_dynamic_label();
    let mut a = SliceAssembler::new(vec![0; 8], 0);
    a.dynamic_label(id);
    assert!(matches!(
        a.commit(),
        Err(SliceAssemblerError::DefineDynamicLabel(AsmError::UnknownLabel(LabelRef::Dynamic(_))))
    ));
    call_site(&mut a);
    a.dynamic_relocation(id, 0, 4, 0, REL32);
    assert!(matches!(
        a.commit(),
        Err(SliceAssemblerError::ResolveDynamic(AsmError::UnknownLabel(LabelRef::Dynamic(_))))
    ));
    // Dropped once reported.
    assert!(a.commit().is_ok());
}

#[test]
fn value_relocations_use_the_buffer_address() {
    let mut a = SliceAssembler::new(vec![0; 16], 0x1000);
    a.extend(&[0xB8, 0, 0, 0, 0]);
    a.value_relocation(0x1234, 4, 0, ABS32);
    a.extend(&[0; 8]);
    a.value_relocation(0x10, 8, 0, ABS_TO_REL64);
    assert!(a.commit().is_ok());
    let out = a.into_buffer();
    assert_eq!(&out[1..5], &[0x34, 0x12, 0, 0]);
    assert_eq!(&out[5..13], &[0x10, 0x10, 0, 0, 0, 0, 0, 0]);
}

#[test]
fn relative_to_absolute_subtracts_the_buffer_address() {
    let mut a = SliceAssembler::new(vec![0; 8], 0x100);
    call_site(&mut a);
    // call to absolute address 0x180 from a buffer at 0x100: 0x180 - (0x100 + 5)
    a.value_relocation(0x180, 4, 0, REL_TO_ABS32);
    assert!(a.commit().is_ok());
    assert_eq!(&a.into_buffer()[..5], &[0xE8, 0x7B, 0, 0, 0]);
}

#[test]
fn value_relocation_that_does_not_fit_is_an_error() {
    let mut a = SliceAssembler::new(vec![0; 4], 0);
    a.extend(&[0xB0, 0]);
    a.value_relocation(0x80, 1, 0, 0xC0);
    match a.commit() {
        Err(SliceAssemblerError::PatchValueRelocation(AsmError::ImpossibleRelocation(
            RelocTarget::Value(0x80),
        ))) => {}
        other => panic!("unexpected {other:?}"),
    }
}

#[test]
fn later_error_replaces_an_earlier_one() {
    let mut a = SliceAssembler::new(vec![0; 4], 0);
    a.global_label("x");
    a.global_label("x");
    a.extend(&[0xEB, 0]);
    a.backward_relocation("nowhere", 0, 1, 0, REL8);
    assert!(matches!(a.commit(), Err(SliceAssemblerError::PlaceLocalReference(_))));
}

#[test]
fn relocations_are_applied_once() {
    let mut a = SliceAssembler::new(vec![0; 16], 0);
    call_site(&mut a);
    a.global_relocation("target", 0, 4, 0, REL32);
    a.extend(&[0x90; 3]);
    a.global_label("target");
    assert!(a.commit_is_safe());
    assert!(a.commit().is_ok());
    assert!(a.commit().is_ok());
    let out = a.into_buffer();
    assert_eq!(&out[..8], &[0xE8, 3, 0, 0, 0, 0x90, 0x90, 0x90]);
}

#[test]
fn commit_safety_names_fields_outside_the_buffer() {
    let mut a = SliceAssembler::new(vec![0; 4], 0);
    a.extend(&[0xE8, 0]);
    // a 4-byte field ending at offset 2 would start before the buffer
    a.global_relocation("t", 0, 4, 0, REL32);
    a.global_label("t");
    assert!(!a.commit_is_safe());
    let mut b = SliceAssembler::new(vec![0; 4], 0);
    b.extend(&[0xE8, 0]);
    b.global_relocation("missing", 0, 4, 0, REL32);
    // an undefined label stops commit before the field is touched
    assert!(b.commit_is_safe());
}

#[test]
fn interpreter_step_bytes() {
    let t = interpreter_step();
    let expected: Vec<u8> = vec![
        0x40, 0x00, 0xE0, 0x44, 0x00, 0xC0, 0xF4, 0xC3, 0xF0, 0xF2, 0xC3, 0xF0, 0xF2, 0xC3,
        0x48, 0x81, 0xC0, 0x20, 0x00, 0x00, 0x00, 0x48, 0x81, 0xC0, 0x20, 0x00, 0x00, 0x00,
        0x81, 0xC5, 0x00, 0x00, 0x00, 0x00, 0x0F, 0x88, 0xF8, 0xFF, 0xFF, 0xFF, 0x70, 0x00,
        0x0F, 0x38, 0xF0, 0x44, 0xC5, 0x20, 0x67, 0x0F, 0x38, 0xF0, 0x04, 0xCD, 0x20, 0x00,
        0x00, 0x00, 0x66, 0xF2, 0x0F, 0x38, 0xF1, 0xC3,
    ];
    assert_eq!(t.bytes[..t.len].to_vec(), expected);
    assert_eq!(t.placeholder_count, 2);
    assert_eq!(t.placeholders[0], Placeholder { location: 30, size: 4 });
    assert_eq!(t.placeholders[1], Placeholder { location: 41, size: 1 });
}
