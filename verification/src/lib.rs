pub mod abi;
mod bounded;
pub mod dca;
pub mod multicurrency;
