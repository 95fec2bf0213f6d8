//! Backend orchestration for a device code generator: ABI adjustment of
//! function signatures, the lifecycle of IR modules and their contexts, the
//! per-unit compile step, the thin merge plan across units, and the driver's
//! decisions between those stages.

pub mod abi;
pub mod target;
pub mod module;
pub mod unit;
pub mod order;
pub mod lto;
pub mod driver;
