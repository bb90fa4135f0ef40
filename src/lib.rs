//! A collection trigger for `bacon_rajan_cc`: each allocation first looks at how
//! many possible cycle roots are buffered and runs a collection pass when that
//! count has reached a threshold. The threshold is either fixed or grows when a
//! pass leaves most roots behind.

pub mod collector;
pub mod allocation;
pub mod policy;
