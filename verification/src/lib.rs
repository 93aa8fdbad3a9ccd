use vstd::prelude::*;

pub mod bm;
pub mod canon;
pub mod check_laws;
pub mod codec;
pub mod entry;
pub mod error;
pub mod iter;
pub mod laws;
pub mod link;
pub mod lister;
pub mod markdown;
pub mod printer;
pub mod store;
pub mod store_check;
pub mod storeid;
pub mod text;
pub mod value;
