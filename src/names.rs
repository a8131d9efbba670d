//! Names that canonical-name paths often use.
use vstd::prelude::*;

verus! {

pub const DART_CORE: &'static str = "dart:core";

pub const FIELDS: &'static str = "@fields";

pub const METHODS: &'static str = "@methods";

pub const GETTERS: &'static str = "@getters";

pub const SETTERS: &'static str = "@setters";

pub const MAIN: &'static str = "main";

pub const INT: &'static str = "int";

pub const NUM: &'static str = "num";

pub const STRING: &'static str = "String";

} // verus!
