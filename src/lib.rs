//! A managed-bytecode virtual machine core: class-file parsing, class
//! linking (field layout and dispatch tables), runtime tables, an object
//! heap model and a bytecode interpreter, all with verified contracts.

pub mod memory;
pub mod util;
pub mod descriptor;
pub mod hash_table;
pub mod symbol;
pub mod string;
pub mod method;
pub mod field;
pub mod constant_pool;
pub mod class;
pub mod registry;
pub mod arith;
pub mod runtime;
pub mod vm;
pub mod reader;
pub mod parser;
pub mod handle;
pub mod ptr;

