pub mod emergency;
pub mod fork;
pub mod gas;
pub mod genesis;
pub mod arbitration;
pub mod dispute;
pub mod governance;
pub mod identity;
pub mod keys;
pub mod krat;
pub mod merkle;
pub mod reputation;
pub mod messaging;
pub mod meta_governance;
pub mod personhood;
pub mod protocol;
pub mod sidechains;
pub mod staking;
pub mod types;
pub mod vecmap;
pub mod security;
