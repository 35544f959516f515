pub mod error;
pub mod patchname;
pub mod stack;
pub mod resolve;
pub mod indexset;
pub mod transaction;
pub mod execute;
pub mod merge;
pub mod command;
pub mod goto;
pub mod new;
pub mod load;
