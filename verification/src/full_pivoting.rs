pub mod compute;
pub mod solve;
