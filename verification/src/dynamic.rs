//! Discovered actions as a closed pair of variants: a program on the
//! filesystem, or a desktop entry with its launch command.

use vstd::prelude::*;

verus! {

/// A discovered action and its payload.
#[derive(Clone, Debug)]
pub enum DynamicActionType {
    Program { name: String, path: String },
    Desktop { name: String, exec_cmd: String, accepts_args: bool },
}

impl DynamicActionType {
    /// The display name of the action.
    pub fn get_name(&self) -> (r: &String)
        ensures
            match self {
                DynamicActionType::Program { name, .. } => r@ == name@,
                DynamicActionType::Desktop { name, .. } => r@ == name@,
            },
    {
        match self {
            DynamicActionType::Program { name, .. } => name,
            DynamicActionType::Desktop { name, .. } => name,
        }
    }

    /// The stored kind tag of the action.
    pub fn get_type_str(&self) -> (r: &'static str)
        ensures
            match self {
                DynamicActionType::Program { .. } => r@ == "program"@,
                DynamicActionType::Desktop { .. } => r@ == "desktop"@,
            },
    {
        match self {
            DynamicActionType::Program { .. } => "program",
            DynamicActionType::Desktop { .. } => "desktop",
        }
    }
}

} // verus!
