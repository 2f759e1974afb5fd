//! Inspection of Game Boy cartridge images: the fixed-layout header of a
//! cartridge and a linear listing of the machine code that follows its
//! entrypoint.
//!
//! Every function here works on bytes and tables that are already in
//! memory. Reading files and printing are left to the caller.
pub mod error;
pub mod header;
pub mod hex;
pub mod reference;
pub mod report;
pub mod table;
pub mod walker;
