pub mod bytes_util;
pub mod error;
pub mod xml_dom;
pub mod docx_model;
pub mod zip_io;
pub mod docx;
pub mod styles;
pub mod numbering;
pub mod docx_validate;
pub mod xml_scan;
pub mod locate;
pub mod docx_edit;
pub mod table_edit;
pub mod edit_batch;
pub mod def_edit;
pub mod docx_inspect;
pub mod docx_pkg;
pub mod docx_write;
