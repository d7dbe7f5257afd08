//! Memory references over general purpose registers of any class.
use crate::template::Template;
use crate::x64::ast::{is_disp_len, Reg};
use vstd::prelude::*;

verus! {

#[derive(Clone, Copy)]
pub struct Mem {
    pub base: Option<Reg>,
    pub index: Option<(Reg, u8)>,
    pub disp: Template,
}

/// A scale of 1, 2, 4 or 8, with an index register other than number 4 (the stack pointer).
pub open spec fn is_gpr_scale_index(scale: u8, index: Reg) -> bool {
    &&& scale == 1 || scale == 2 || scale == 4 || scale == 8
    &&& index.1 != 4
}

impl Mem {
    /// [displacement]
    pub fn displacement_only(disp: Template) -> (m: Self)
        requires
            is_disp_len(disp.len),
        ensures
            m == (Mem { base: None, index: None, disp }),
    {
        Self { base: None, index: None, disp: disp }
    }

    /// [base + displacement]
    pub fn base_displacement(base: Reg, disp: Template) -> (m: Self)
        requires
            is_disp_len(disp.len),
        ensures
            m == (Mem { base: Some(base), index: None, disp }),
    {
        Self { base: Some(base), index: None, disp: disp }
    }

    /// [base]
    pub fn base(base: Reg) -> (m: Self)
        ensures
            m.base == Some(base),
            m.index is None,
            m.disp.len == 0,
            m.disp.placeholder_count == 0,
            m.disp.tidy(),
    {
        Self::base_displacement(base, Template::empty())
    }

    /// [index * scale + base + disp] also known as SIB addressing.
    pub fn scale_index_base(scale: u8, index: Reg, base: Reg, disp: Template) -> (m: Self)
        requires
            is_disp_len(disp.len),
            is_gpr_scale_index(scale, index),
        ensures
            m == (Mem { base: Some(base), index: Some((index, scale)), disp }),
    {
        Self { base: Some(base), index: Some((index, scale)), disp }
    }

    /// SIB but without base register.
    pub fn scale_index(scale: u8, index: Reg, disp: Template) -> (m: Self)
        requires
            is_disp_len(disp.len),
            is_gpr_scale_index(scale, index),
        ensures
            m == (Mem { base: None, index: Some((index, scale)), disp }),
    {
        Self { base: None, index: Some((index, scale)), disp }
    }
}

} // verus!
