//! Registry value types, as the kernel reports them.
use vstd::prelude::*;

verus! {

/// True of the registry data types whose data is text: REG_SZ,
/// REG_EXPAND_SZ and REG_LINK.
pub open spec fn reg_type_is_string(data_type: u32) -> bool {
    data_type == 1 || data_type == 2 || data_type == 6
}

/// A registry value's data type.
#[allow(non_camel_case_types)]
#[derive(Debug, Clone, Copy, PartialEq, Eq, Structural)]
pub enum RegType {
    REG_NONE,
    REG_SZ,
    REG_EXPAND_SZ,
    REG_BINARY,
    REG_DWORD,
    REG_DWORD_BIG_ENDIAN,
    REG_LINK,
    REG_MULTI_SZ,
    REG_RESOURCE_LIST,
    REG_FULL_RESOURCE_DESCRIPTOR,
    REG_RESOURCE_REQUIREMENTS_LIST,
    REG_QWORD,
}

impl RegType {
    /// The registry type a raw value denotes; anything unrecognized reads as
    /// REG_NONE.
    pub fn from_u32(value: u32) -> (r: Self)
        ensures
            r is REG_SZ <==> value == 1,
            r is REG_EXPAND_SZ <==> value == 2,
            r is REG_LINK <==> value == 6,
    {
        match value {
            1 => Self::REG_SZ,
            2 => Self::REG_EXPAND_SZ,
            3 => Self::REG_BINARY,
            4 => Self::REG_DWORD,
            5 => Self::REG_DWORD_BIG_ENDIAN,
            6 => Self::REG_LINK,
            7 => Self::REG_MULTI_SZ,
            8 => Self::REG_RESOURCE_LIST,
            9 => Self::REG_FULL_RESOURCE_DESCRIPTOR,
            10 => Self::REG_RESOURCE_REQUIREMENTS_LIST,
            11 => Self::REG_QWORD,
            _ => Self::REG_NONE,
        }
    }

    /// True of the types whose data is text.
    pub fn is_string(&self) -> (r: bool)
        ensures
            r == (*self is REG_SZ || *self is REG_EXPAND_SZ || *self is REG_LINK),
    {
        match self {
            Self::REG_SZ | Self::REG_EXPAND_SZ | Self::REG_LINK => true,
            _ => false,
        }
    }
}

} // verus!
