//! Decoder for the XPT transport file format and a delimited-text renderer
//! for the decoded datasets.
pub mod ibm;
pub mod model;
pub mod reader;
pub mod markers;
pub mod header;
pub mod namestr;
pub mod rows;
pub mod xpt;
pub mod text;
