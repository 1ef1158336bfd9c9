use vstd::prelude::*;

verus! {

/// The dynamic type carried beside every awk value.
#[derive(Copy, Clone, Debug, PartialEq, Eq, Structural)]
pub enum Tag {
    FloatTag,
    StringTag,
    StrnumTag,
}

impl Tag {
    /// Whether a value with this tag owns a string pointer.
    pub fn has_ptr(&self) -> (r: bool)
        ensures
            r == !(*self is FloatTag),
    {
        *self != Tag::FloatTag
    }

    /// The name under which the tag is displayed.
    pub fn name(&self) -> (s: &'static str)
        ensures
            *self is FloatTag ==> s@ == "flt"@,
            *self is StringTag ==> s@ == "str"@,
            *self is StrnumTag ==> s@ == "strnum"@,
    {
        match self {
            Tag::FloatTag => "flt",
            Tag::StringTag => "str",
            Tag::StrnumTag => "strnum",
        }
    }
}

/// The calling conventions a native call can use.
#[derive(Clone, Copy, Debug, PartialEq, Eq, Structural)]
pub enum Abi {
    Cdecl,
    VarArg,
    Stdcall,
    Fastcall,
}

/// Error codes reported by compiled programs.
#[derive(Clone, Copy, Debug, PartialEq, Eq, Structural)]
pub enum ErrorCode {
    Error1,
    Error2,
}

} // verus!
