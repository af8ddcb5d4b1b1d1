//! A pretty printer in the style of Wadler and Hughes: documents are built from
//! text, break points, concatenation, indentation and groups, and rendered to
//! a string that keeps to a target line width wherever it can.

pub mod doc;
pub mod laws;
pub mod layout;
pub mod parenable;
pub mod text;
