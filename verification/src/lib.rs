//! Renders a breadcrumb trail of directory listings: one bordered box per
//! ancestor directory from the filesystem root down to a target path, wrapped
//! greedily across terminal rows.  Quartile/outlier statistics over file-name
//! lengths drive an optional adaptive name-truncation policy.

pub mod path_container;
pub mod utils;
