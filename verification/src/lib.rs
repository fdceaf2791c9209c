//! Pulse virtual machine: values, a mark-and-sweep object heap, a shared heap
//! for cross-actor memory, the bytecode interpreter, and the native functions
//! of the standard library that compute on values.

use vstd::prelude::*;

pub mod value;
pub mod bytecode;
pub mod stdlib_info;
pub mod namemap;
pub mod object;
pub mod heap;
pub mod shared_heap;
pub mod text;
pub mod arith;
pub mod debug;
pub mod vm;
pub mod vm_upvalues;
pub mod vm_calls;
pub mod vm_classes;
pub mod vm_effects;
pub mod vm_show;
pub mod vm_exec;
pub mod vm_api;
pub mod utils;
pub mod collections;
pub mod string_utils;
pub mod json;
pub mod testing;
pub mod crypto;
pub mod random;
pub mod list_utils;
pub mod map_utils;
pub mod scalar_utils;
pub mod priority_queue;
pub mod laws;
pub mod logging;
pub mod uuid;
pub mod regex;
pub mod http;
pub mod serial;
pub mod process;
pub mod dataframe;
pub mod time;
