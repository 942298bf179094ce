//! Decoding of the header region of binary PLT visualization files: the
//! signature, byte order, file type, title, variable names and the float32
//! sentinels that close the header and mark its zones.
pub mod decode;
pub mod header;
pub mod packed;
pub mod sentinel;
pub mod title;

pub use decode::{i16s, i32s, i32u};
pub use header::{read_header, Header};
pub use packed::{construct_qword, read_magic_number, read_tec_str, QWordRes, TecStrRes};
pub use sentinel::{find_end_of_header, find_zones};
pub use title::{get_title, read_var_names, TitleRes};
