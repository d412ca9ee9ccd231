//! The numbers by which the helpers tell the kinds of class members apart.
use super::{DecoratorVersion, Tc39Decorator};
use crate::ast::{Helper, MethodDefinitionKind};
use vstd::prelude::*;

verus! {

pub open spec fn helper_of(version: DecoratorVersion) -> Helper {
    match version {
        DecoratorVersion::V202311 => Helper::ApplyDecs2311,
        DecoratorVersion::V202203 => Helper::ApplyDecs2203R,
    }
}

/// What the code of a static member has over that of an instance member of the same kind.
pub open spec fn static_offset(version: DecoratorVersion, is_static: bool) -> int {
    if !is_static {
        0
    } else {
        match version {
            DecoratorVersion::V202311 => 8,
            DecoratorVersion::V202203 => 5,
        }
    }
}

pub open spec fn method_kind(
    version: DecoratorVersion,
    is_static: bool,
    kind: MethodDefinitionKind,
) -> int {
    match kind {
        MethodDefinitionKind::Method => 2 + static_offset(version, is_static),
        MethodDefinitionKind::Getter => 3 + static_offset(version, is_static),
        MethodDefinitionKind::Setter => 4 + static_offset(version, is_static),
        MethodDefinitionKind::Constructor => match version {
            DecoratorVersion::V202311 => static_offset(version, is_static),
            DecoratorVersion::V202203 => 0,
        },
    }
}

pub open spec fn field_kind(version: DecoratorVersion, is_static: bool) -> int {
    static_offset(version, is_static)
}

pub open spec fn accessor_kind(version: DecoratorVersion, is_static: bool) -> int {
    1 + static_offset(version, is_static)
}

impl Tc39Decorator {
    pub fn method_kind_code(&self, is_static: bool, kind: MethodDefinitionKind) -> (r: i32)
        ensures
            r == method_kind(self@.version, is_static, kind),
    {
        if self.is_2023_11() {
            let base: i32 = match kind {
                MethodDefinitionKind::Method => 2,
                MethodDefinitionKind::Setter => 4,
                MethodDefinitionKind::Getter => 3,
                MethodDefinitionKind::Constructor => 0,
            };
            if is_static {
                assert(base | 8 == base + 8) by (bit_vector)
                    requires
                        0 <= base < 8,
                ;
                base | 8
            } else {
                base
            }
        } else {
            match (is_static, kind) {
                (true, MethodDefinitionKind::Method) => 7,
                (false, MethodDefinitionKind::Method) => 2,
                (true, MethodDefinitionKind::Setter) => 9,
                (false, MethodDefinitionKind::Setter) => 4,
                (true, MethodDefinitionKind::Getter) => 8,
                (false, MethodDefinitionKind::Getter) => 3,
                (_, MethodDefinitionKind::Constructor) => 0,
            }
        }
    }

    pub fn field_kind_code(&self, is_static: bool) -> (r: i32)
        ensures
            r == field_kind(self@.version, is_static),
    {
        if self.is_2023_11() {
            if is_static {
                8
            } else {
                0
            }
        } else if is_static {
            5
        } else {
            0
        }
    }

    pub fn accessor_kind_code(&self, is_static: bool) -> (r: i32)
        ensures
            r == accessor_kind(self@.version, is_static),
    {
        if self.is_2023_11() {
            if is_static {
                9
            } else {
                1
            }
        } else if is_static {
            6
        } else {
            1
        }
    }
}

} // verus!
