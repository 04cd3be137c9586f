//! Reading PE/COFF images (Windows `.exe`/`.dll`): headers, section table, imports and
//! exports, with the names of the flag bits they carry.
pub mod flags;
pub mod text;
pub mod read;
pub mod outcome;
pub mod pe;
pub mod rva;
pub mod imports;
pub mod exports;
